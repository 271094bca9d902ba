use vstd::prelude::*;

use crate::device::queue::InputQueue;
use crate::device::registry::{close_answered, open_answered, open_refused, open_rolled_back, same_devices, DeviceRegistry};
use crate::device::DeviceError;
use crate::slots::canonical_key;
use crate::interface::registry::InterfaceRegistry;
use crate::interface::{AddressFamily, InterfaceError};
use crate::os::{Random, Time};
use crate::protocol::arp::cache::ArpCache;
use crate::protocol::ethernet::EtherType;
use crate::protocol::ipv4::route::Ipv4RoutingTable;
use crate::protocol::ipv4::Ipv4InputError;
use crate::device::queue::ReceivedFrameView;
use crate::protocol::ipv4::interface::interface_input_outcome;
use crate::protocol::socket::SocketRegistry;
use crate::protocol::tcp::registry::TcpPcbRegistry;
use crate::protocol::udp::registry::UdpPcbRegistry;

verus! {

/// The state of the network stack: devices, interfaces, routes, caches,
/// control blocks and sockets, and the queue of received frames.
pub struct Stack {
    pub devices: DeviceRegistry,
    pub interfaces: InterfaceRegistry,
    pub input_queue: InputQueue,
    pub arp_cache: ArpCache,
    pub ipv4_routes: Ipv4RoutingTable,
    pub tcp_pcbs: TcpPcbRegistry,
    pub udp_pcbs: UdpPcbRegistry,
    pub sockets: SocketRegistry,
}

/// Errors of stack-wide operations.
#[derive(Debug)]
pub enum StackError {
    DeviceNotFound,
    InterfaceNotFound,
    Device(DeviceError),
    Interface(InterfaceError),
}

/// `popped` is `pre` with the frame at the head of its input queue taken
/// off, and nothing else changed.
pub open spec fn frame_popped(pre: Stack, popped: Stack) -> bool {
    &&& pre.input_queue@.len() > 0
    &&& popped.input_queue@ == pre.input_queue@.drop_first()
    &&& popped.devices@ == pre.devices@
    &&& popped.devices.sent() == pre.devices.sent()
    &&& popped.interfaces@ == pre.interfaces@
    &&& popped.arp_cache@ == pre.arp_cache@
    &&& popped.ipv4_routes@ == pre.ipv4_routes@
    &&& popped.tcp_pcbs@ == pre.tcp_pcbs@
    &&& popped.udp_pcbs@ == pre.udp_pcbs@
    &&& popped.sockets@ == pre.sockets@
}

/// The result an interface gave for a frame whose failure, if any, is
/// `failure`.
pub open spec fn failure_result<E>(failure: Option<Ipv4InputError<E>>) -> Result<(), Ipv4InputError<E>> {
    match failure {
        Some(e) => Err(e),
        None => Ok(()),
    }
}

/// The failure, if any, that the result `r` of an interface gives.
pub open spec fn result_failure<E>(r: Result<(), Ipv4InputError<E>>) -> Option<Ipv4InputError<E>> {
    match r {
        Ok(_) => None,
        Err(e) => Some(e),
    }
}

/// What handling the received `frame`, once it is off the queue of
/// `popped`, does: an IPv4 or ARP frame from a device with an IPv4
/// interface is taken by such an interface as [`interface_input_outcome`]
/// says, with `failure` what that refused; any other frame is dropped and
/// changes nothing.
pub open spec fn frame_handled<E>(
    popped: Stack,
    after: Stack,
    frame: ReceivedFrameView,
    failure: Option<Ipv4InputError<E>>,
) -> bool {
    let typed = frame.frame_type == EtherType::Ipv4.spec_value() || frame.frame_type
        == EtherType::Arp.spec_value();
    if typed && exists|k: u64| #[trigger]
        popped.interfaces@.dom().contains(k) && popped.interfaces@[k].device == Some(frame.device) {
        exists|k: u64| #[trigger]
            popped.interfaces@.dom().contains(k) && popped.interfaces@[k].device == Some(frame.device)
                && interface_input_outcome(
                popped,
                after,
                popped.interfaces@[k],
                frame.frame_type,
                frame.data,
                failure_result(failure),
            )
    } else {
        after == popped && failure is None
    }
}

/// The failures recorded in `f`, in order.
pub open spec fn failures_of<E>(f: Seq<Option<Ipv4InputError<E>>>) -> Seq<Ipv4InputError<E>>
    decreases f.len(),
{
    if f.len() == 0 {
        Seq::empty()
    } else {
        let rest = failures_of(f.drop_last());
        match f.last() {
            Some(e) => rest.push(e),
            None => rest,
        }
    }
}

/// A run of frame handling: from each stack of `stacks` the frame at the
/// head of the queue, from a registered device, is taken off (giving the
/// matching stack of `popped`) and handled as [`frame_handled`] says,
/// giving the next stack and the matching failure of `failures`.
pub open spec fn soft_input_run<E>(
    stacks: Seq<Stack>,
    popped: Seq<Stack>,
    failures: Seq<Option<Ipv4InputError<E>>>,
) -> bool {
    &&& stacks.len() == popped.len() + 1
    &&& failures.len() == popped.len()
    &&& forall|i: int|
        0 <= i < popped.len() ==> frame_popped(stacks[i], #[trigger] popped[i])
            && stacks[i].devices@.dom().contains(canonical_key(stacks[i].input_queue@[0].device@))
            && frame_handled(popped[i], stacks[i + 1], stacks[i].input_queue@[0], failures[i])
}

/// Handling one more frame extends a run (see [`soft_input_run`]).
pub proof fn lemma_run_extend<E>(
    stacks: Seq<Stack>,
    popped: Seq<Stack>,
    fails: Seq<Option<Ipv4InputError<E>>>,
    next_popped: Stack,
    next: Stack,
    failure: Option<Ipv4InputError<E>>,
)
    requires
        soft_input_run(stacks, popped, fails),
        frame_popped(stacks.last(), next_popped),
        stacks.last().devices@.dom().contains(canonical_key(stacks.last().input_queue@[0].device@)),
        frame_handled(next_popped, next, stacks.last().input_queue@[0], failure),
    ensures
        soft_input_run(stacks.push(next), popped.push(next_popped), fails.push(failure)),
        failures_of(fails.push(failure)) == match failure {
            Some(e) => failures_of(fails).push(e),
            None => failures_of(fails),
        },
{
    let s2 = stacks.push(next);
    let p2 = popped.push(next_popped);
    let f2 = fails.push(failure);
    assert forall|i: int| 0 <= i < p2.len() implies frame_popped(s2[i], #[trigger] p2[i])
        && s2[i].devices@.dom().contains(canonical_key(s2[i].input_queue@[0].device@))
        && frame_handled(p2[i], s2[i + 1], s2[i].input_queue@[0], f2[i]) by {
        if i < popped.len() {
            assert(s2[i] == stacks[i] && p2[i] == popped[i] && f2[i] == fails[i] && s2[i + 1] == stacks[i + 1]);
        } else {
            assert(s2[i] == stacks.last() && p2[i] == next_popped && f2[i] == failure && s2[i + 1] == next);
        }
    }
    assert(f2.drop_last() =~= fails);
}

impl Stack {
    /// Every registry is well formed.
    pub open spec fn wf(&self) -> bool {
        &&& self.devices.wf()
        &&& self.interfaces.wf()
        &&& self.tcp_pcbs.wf()
        &&& self.udp_pcbs.wf()
        &&& self.sockets.wf()
    }

    /// The registries and tables are those of `other`: only the devices'
    /// input queue and the ARP cache may differ.
    pub open spec fn same_tables(&self, other: &Stack) -> bool {
        &&& self.devices@ == other.devices@
        &&& self.interfaces@ == other.interfaces@
        &&& self.ipv4_routes@ == other.ipv4_routes@
        &&& self.tcp_pcbs@ == other.tcp_pcbs@
        &&& self.udp_pcbs@ == other.udp_pcbs@
        &&& self.sockets@ == other.sockets@
    }

    /// Only the TCP PCBs, the ARP cache and the input queue may differ from
    /// those of `other`.
    pub open spec fn same_except_tcp(&self, other: &Stack) -> bool {
        &&& self.devices@ == other.devices@
        &&& self.interfaces@ == other.interfaces@
        &&& self.ipv4_routes@ == other.ipv4_routes@
        &&& self.udp_pcbs@ == other.udp_pcbs@
        &&& self.sockets@ == other.sockets@
    }

    /// Only the UDP PCBs, the ARP cache and the input queue may differ from
    /// those of `other`.
    pub open spec fn same_except_udp(&self, other: &Stack) -> bool {
        &&& self.devices@ == other.devices@
        &&& self.interfaces@ == other.interfaces@
        &&& self.ipv4_routes@ == other.ipv4_routes@
        &&& self.tcp_pcbs@ == other.tcp_pcbs@
        &&& self.sockets@ == other.sockets@
    }

    /// A stack with nothing registered.
    pub fn new() -> (r: Stack)
        ensures
            r.wf(),
            r.devices@.len() == 0,
            r.interfaces@.len() == 0,
            r.input_queue@.len() == 0,
            r.arp_cache@.len() == 0,
            r.ipv4_routes@.len() == 0,
            r.tcp_pcbs@.len() == 0,
            r.udp_pcbs@.len() == 0,
            r.sockets@.len() == 0,
    {
        Stack {
            devices: DeviceRegistry::new(),
            interfaces: InterfaceRegistry::new(),
            input_queue: InputQueue::new(),
            arp_cache: ArpCache::new(),
            ipv4_routes: Ipv4RoutingTable::new(),
            tcp_pcbs: TcpPcbRegistry::new(),
            udp_pcbs: UdpPcbRegistry::new(),
            sockets: SocketRegistry::new(),
        }
    }

    /// Only the TCP PCBs, the sockets, the ARP cache and the input queue
    /// may differ from those of `other`.
    pub open spec fn same_except_tcp_and_sockets(&self, other: &Stack) -> bool {
        &&& self.devices@ == other.devices@
        &&& self.interfaces@ == other.interfaces@
        &&& self.ipv4_routes@ == other.ipv4_routes@
        &&& self.udp_pcbs@ == other.udp_pcbs@
    }

    /// Everything but the devices is as in `other`.
    pub open spec fn same_but_devices(&self, other: &Stack) -> bool {
        &&& self.interfaces@ == other.interfaces@
        &&& self.input_queue@ == other.input_queue@
        &&& self.arp_cache@ == other.arp_cache@
        &&& self.ipv4_routes@ == other.ipv4_routes@
        &&& self.tcp_pcbs@ == other.tcp_pcbs@
        &&& self.udp_pcbs@ == other.udp_pcbs@
        &&& self.sockets@ == other.sockets@
    }

    /// Opens every device: see [`DeviceRegistry::open_all`].
    pub fn open_all(&mut self) -> (r: Result<(), StackError>)
        requires
            old(self).wf(),
        ensures
            final(self).wf(),
            final(self).same_but_devices(old(self)),
            same_devices(final(self).devices@, old(self).devices@),
            final(self).devices.sent() == old(self).devices.sent(),
            r is Ok ==> forall|k: u64| #[trigger]
                old(self).devices@.dom().contains(k) ==> open_answered(
                    old(self).devices@[k].state,
                    final(self).devices@[k].state,
                    old(self).devices.backend_calls()[k],
                    final(self).devices.backend_calls()[k],
                ),
            old(self).devices@.dom() == Set::<u64>::empty() ==> r is Ok,
            r is Err ==> forall|k: u64| #[trigger]
                old(self).devices@.dom().contains(k) ==> open_rolled_back(
                    old(self).devices@[k].state,
                    final(self).devices@[k].state,
                    old(self).devices.backend_calls()[k],
                    final(self).devices.backend_calls()[k],
                ),
            match r {
                Ok(_) => true,
                Err(StackError::Device(e)) => exists|k: u64| #[trigger]
                    old(self).devices@.dom().contains(k) && open_refused(
                        old(self).devices@[k].state,
                        old(self).devices.backend_calls()[k],
                        final(self).devices.backend_calls()[k],
                        e,
                    ),
                Err(_) => false,
            },
    {
        match self.devices.open_all() {
            Ok(()) => Ok(()),
            Err(e) => Err(StackError::Device(e)),
        }
    }

    /// Closes every device: see [`DeviceRegistry::close_all`].
    pub fn close_all(&mut self)
        requires
            old(self).wf(),
        ensures
            final(self).wf(),
            final(self).same_but_devices(old(self)),
            same_devices(final(self).devices@, old(self).devices@),
            final(self).devices.sent() == old(self).devices.sent(),
            forall|k: u64| #[trigger]
                old(self).devices@.dom().contains(k) ==> close_answered(
                    old(self).devices@[k].state,
                    final(self).devices@[k].state,
                    old(self).devices.backend_calls()[k],
                    final(self).devices.backend_calls()[k],
                ),
    {
        self.devices.close_all();
    }

    /// Hands each frame waiting in the input queue when called to the
    /// interface of its family on its device; frames of other types, or for
    /// a device without such an interface, are dropped. Frames that the
    /// handling queues (a loopback device's output) wait for the next call.
    /// Stops with `DeviceNotFound` at a frame from a device that is not
    /// registered. Gives what went wrong with each frame that an interface
    /// refused, in order (see [`soft_input_run`]).
    ///
    /// One call handles at most as many frames as were waiting when it
    /// began; the caller calls again until the queue is empty. Handling a
    /// frame may queue more (a loopback device's output), so how many calls
    /// that takes has no bound that the stack could state.
    pub fn soft_input<R: Random, T: Time>(&mut self) -> (r: Result<Vec<Ipv4InputError<R::Error>>, StackError>)
        requires
            old(self).wf(),
        ensures
            final(self).wf(),
            final(self).devices@ == old(self).devices@,
            final(self).interfaces@ == old(self).interfaces@,
            final(self).ipv4_routes@ == old(self).ipv4_routes@,
            final(self).sockets@ == old(self).sockets@,
            old(self).input_queue@.len() == 0 ==> (r matches Ok(f) && f@.len() == 0 && *final(self)
                == *old(self)),
            old(self).input_queue@.len() > 0 && !old(self).devices@.dom().contains(
                canonical_key(old(self).input_queue@[0].device@),
            ) ==> r matches Err(StackError::DeviceNotFound),
            r matches Err(e) ==> e is DeviceNotFound,
            r matches Ok(f) ==> f@.len() <= old(self).input_queue@.len(),
            exists|stacks: Seq<Stack>, popped: Seq<Stack>, fails: Seq<Option<Ipv4InputError<R::Error>>>|
                #[trigger] soft_input_run(stacks, popped, fails) && stacks[0] == *old(self) && popped.len()
                    <= old(self).input_queue@.len() && match r {
                    Ok(f) => *final(self) == stacks.last() && f@ == failures_of(fails) && (popped.len()
                        == old(self).input_queue@.len() || stacks.last().input_queue@.len() == 0),
                    Err(_) => !stacks.last().devices@.dom().contains(
                        canonical_key(stacks.last().input_queue@[0].device@),
                    ) && frame_popped(stacks.last(), *final(self)),
                },
    {
        let mut failures: Vec<Ipv4InputError<R::Error>> = Vec::new();
        let waiting = self.input_queue.len();
        let mut handled: usize = 0;
        let ghost mut stacks: Seq<Stack> = seq![*self];
        let ghost mut popped: Seq<Stack> = Seq::empty();
        let ghost mut fails: Seq<Option<Ipv4InputError<R::Error>>> = Seq::empty();
        assert(failures@ =~= failures_of(fails));
        while handled < waiting
            invariant
                self.wf(),
                handled <= waiting,
                waiting == old(self).input_queue@.len(),
                failures@.len() <= handled,
                self.devices@ == old(self).devices@,
                self.interfaces@ == old(self).interfaces@,
                self.ipv4_routes@ == old(self).ipv4_routes@,
                self.sockets@ == old(self).sockets@,
                handled == 0 ==> *self == *old(self),
                handled > 0 ==> old(self).devices@.dom().contains(
                    canonical_key(old(self).input_queue@[0].device@),
                ),
                soft_input_run(stacks, popped, fails),
                stacks[0] == *old(self),
                stacks.last() == *self,
                popped.len() == handled,
                failures@ == failures_of(fails),
            decreases waiting - handled,
        {
            let ghost pre = *self;
            if self.input_queue.len() == 0 {
                return Ok(failures);
            }
            handled = handled + 1;
            let frame = match self.input_queue.pop() {
                Some(f) => f,
                None => {
                    assert(false);
                    return Ok(failures);
                },
            };
            let ghost after_pop = *self;
            assert(frame_popped(pre, after_pop));
            let device = frame.device();
            if !self.devices.contains(device) {
                assert(!pre.devices@.dom().contains(canonical_key(pre.input_queue@[0].device@)));
                return Err(StackError::DeviceNotFound);
            }
            let frame_type = frame.frame_type();
            if frame_type != EtherType::Ipv4.value() && frame_type != EtherType::Arp.value() {
                proof {
                    assert(frame_handled(after_pop, *self, pre.input_queue@[0], None::<Ipv4InputError<R::Error>>));
                    lemma_run_extend(stacks, popped, fails, after_pop, *self, None);
                    stacks = stacks.push(*self);
                    popped = popped.push(after_pop);
                    fails = fails.push(None);
                    assert(fails.drop_last() =~= fails.drop_last());
                }
                continue;
            }
            let interface_key = match self.interfaces.first_for_device(device, AddressFamily::Ipv4) {
                Some(k) => k,
                None => {
                    proof {
                        assert(frame_handled(after_pop, *self, pre.input_queue@[0], None::<Ipv4InputError<R::Error>>));
                        lemma_run_extend(stacks, popped, fails, after_pop, *self, None);
                        stacks = stacks.push(*self);
                        popped = popped.push(after_pop);
                        fails = fails.push(None);
                    }
                    continue;
                },
            };
            let interface = match self.interfaces.interface_as(interface_key) {
                Some(i) => i,
                None => {
                    assert(false);
                    return Err(StackError::InterfaceNotFound);
                },
            };
            let handled_result = interface.input::<R, T>(self, frame_type, frame.data());
            let ghost failure: Option<Ipv4InputError<R::Error>> = result_failure(handled_result);
            proof {
                assert(failure_result(failure) == handled_result);
                assert(frame_handled(after_pop, *self, pre.input_queue@[0], failure));
            }
            match handled_result {
                Ok(()) => {},
                Err(e) => {
                    failures.push(e);
                },
            }
            proof {
                lemma_run_extend(stacks, popped, fails, after_pop, *self, failure);
                stacks = stacks.push(*self);
                popped = popped.push(after_pop);
                fails = fails.push(failure);
                assert(fails.drop_last() =~= fails.drop_last());
            }
        }
        Ok(failures)
    }
}

} // verus!
