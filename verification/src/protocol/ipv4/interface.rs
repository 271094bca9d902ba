use vstd::prelude::*;

use crate::device::key::DeviceKey;
use crate::device::registry::{destination_view, sent_after_output};
use crate::device::{flags_up, DeviceError};
use crate::slots::canonical_key;
use crate::interface::{AddressFamily, InterfaceError, InterfaceOutputError};
use crate::os::{Random, Time};
use crate::protocol::arp::header::arp_header_parse;
use crate::protocol::arp::packet::arp_packet_from;
use crate::protocol::arp::{arp_input_at_some_time, Arp};
use crate::protocol::ethernet::{EtherType, MacAddr};
use crate::protocol::ipv4::addr::Ipv4Addr;
use crate::protocol::ipv4::packet::ipv4_packet_parse;
use crate::protocol::ipv4::{
    ipv4_input_outcome, ipv4_output_outcome, received_packet, Ipv4, Ipv4InputError, Ipv4OutputError,
};
use crate::stack::Stack;

verus! {

/// An IPv4 address configured on a device: the unicast address, its
/// netmask and the directed broadcast address they imply.
#[derive(Debug, Clone, Copy, PartialEq, Eq, Structural)]
pub struct Ipv4Interface {
    device: Option<DeviceKey>,
    unicast: Ipv4Addr,
    netmask: Ipv4Addr,
    broadcast: Ipv4Addr,
}

/// What an [`Ipv4Interface`] holds.
pub struct Ipv4InterfaceView {
    pub device: Option<DeviceKey>,
    pub unicast: Ipv4Addr,
    pub netmask: Ipv4Addr,
    pub broadcast: Ipv4Addr,
}

impl View for Ipv4Interface {
    type V = Ipv4InterfaceView;

    closed spec fn view(&self) -> Ipv4InterfaceView {
        Ipv4InterfaceView {
            device: self.device,
            unicast: self.unicast,
            netmask: self.netmask,
            broadcast: self.broadcast,
        }
    }
}

/// The directed broadcast address of `unicast` under `netmask`: the host
/// bits all set, octet by octet.
pub open spec fn directed_broadcast(unicast: Seq<u8>, netmask: Seq<u8>, i: int) -> u8 {
    (unicast[i] & netmask[i]) | !netmask[i]
}

/// Whether `address` is four bytes that equal `a`.
pub open spec fn bytes_are(address: Seq<u8>, a: Ipv4Addr) -> bool {
    address.len() == 4 && address == a@
}

impl Ipv4Interface {
    /// An interface is determined by what it holds.
    pub proof fn lemma_view(self, other: Ipv4Interface)
        ensures
            self@ == other@ ==> self == other,
    {
    }

    /// An unattached interface for `unicast`/`netmask`.
    pub fn new(unicast: Ipv4Addr, netmask: Ipv4Addr) -> (r: Ipv4Interface)
        ensures
            r@.device is None,
            r@.unicast == unicast,
            r@.netmask == netmask,
            forall|i: int|
                0 <= i < 4 ==> #[trigger] r@.broadcast@[i] == directed_broadcast(
                    unicast@,
                    netmask@,
                    i,
                ),
    {
        let u = unicast.octets();
        let m = netmask.octets();
        let broadcast = Ipv4Addr::from_octets(
            (u[0] & m[0]) | !m[0],
            (u[1] & m[1]) | !m[1],
            (u[2] & m[2]) | !m[2],
            (u[3] & m[3]) | !m[3],
        );
        Ipv4Interface { device: None, unicast, netmask, broadcast }
    }

    pub fn unicast(&self) -> (r: Ipv4Addr)
        ensures
            r == self@.unicast,
    {
        self.unicast
    }

    pub fn netmask(&self) -> (r: Ipv4Addr)
        ensures
            r == self@.netmask,
    {
        self.netmask
    }

    pub fn broadcast(&self) -> (r: Ipv4Addr)
        ensures
            r == self@.broadcast,
    {
        self.broadcast
    }

    /// The device this interface is attached to, if any.
    pub fn device(&self) -> (r: Option<DeviceKey>)
        ensures
            r == self@.device,
    {
        self.device
    }

    /// The family of addresses this interface handles.
    pub fn family(&self) -> (r: AddressFamily)
        ensures
            r == AddressFamily::Ipv4,
    {
        AddressFamily::Ipv4
    }

    /// Whether a packet for `address` is meant for this interface: its
    /// unicast address, its directed broadcast or the limited broadcast.
    pub fn accepts(&self, address: &[u8]) -> (r: bool)
        ensures
            r == (bytes_are(address@, self@.unicast) || bytes_are(address@, self@.broadcast)
                || (address@.len() == 4 && address@ == seq![255u8, 255, 255, 255])),
    {
        broadcast use Ipv4Addr::lemma_len;

        if address.len() != 4 {
            return false;
        }
        let a = Ipv4Addr::from_slice_at(address, 0);
        assert(address@.subrange(0, 4) =~= address@);
        let limited = Ipv4Addr::broadcast();
        proof {
            a.lemma_view(self.unicast);
            a.lemma_view(self.broadcast);
            a.lemma_view(limited);
        }
        a == self.unicast || a == self.broadcast || a == limited
    }

    /// Whether `address` is this interface's unicast address.
    pub fn has_address(&self, address: &[u8]) -> (r: bool)
        ensures
            r == bytes_are(address@, self@.unicast),
    {
        broadcast use Ipv4Addr::lemma_len;

        if address.len() != 4 {
            return false;
        }
        let a = Ipv4Addr::from_slice_at(address, 0);
        assert(address@.subrange(0, 4) =~= address@);
        proof {
            a.lemma_view(self.unicast);
        }
        a == self.unicast
    }

    /// Attaches this interface to `device`; an interface is attached at most once.
    pub fn attach(&mut self, device: DeviceKey) -> (r: Result<(), InterfaceError>)
        ensures
            old(self)@.device is Some ==> r == Err::<(), InterfaceError>(
                InterfaceError::AlreadyAttached,
            ) && *final(self) == *old(self),
            old(self)@.device is None ==> r is Ok && final(self)@ == (Ipv4InterfaceView {
                device: Some(device),
                ..old(self)@
            }),
    {
        if self.device.is_some() {
            return Err(InterfaceError::AlreadyAttached);
        }
        self.device = Some(device);
        Ok(())
    }

    /// Detaches this interface, returning the device it was attached to.
    pub fn detach(&mut self) -> (r: Option<DeviceKey>)
        ensures
            r == old(self)@.device,
            final(self)@ == (Ipv4InterfaceView { device: None, ..old(self)@ }),
    {
        self.device.take()
    }
}

} // verus!

verus! {

/// What the interface `interface` does with a received frame of
/// `frame_type` carrying `data`, taking the stack from `before` to `after`:
/// an IPv4 packet is taken as [`ipv4_input_outcome`] says, an ARP message
/// as [`Arp::input`] says, and a frame of another type is ignored.
pub open spec fn interface_input_outcome<E>(
    before: Stack,
    after: Stack,
    interface: Ipv4InterfaceView,
    frame_type: u16,
    data: Seq<u8>,
    r: Result<(), Ipv4InputError<E>>,
) -> bool {
    &&& after.devices@ == before.devices@
    &&& after.interfaces@ == before.interfaces@
    &&& after.ipv4_routes@ == before.ipv4_routes@
    &&& after.sockets@ == before.sockets@
    &&& (frame_type == EtherType::Ipv4.spec_value() ==> match ipv4_packet_parse(data) {
        Err(e) => r == Err::<(), Ipv4InputError<E>>(Ipv4InputError::Packet(e))
            && after == before,
        Ok((h, total)) => ipv4_input_outcome(
            before,
            after,
            interface,
            received_packet(data, h, total),
            data.len(),
            r,
        ),
    })
    &&& (frame_type == EtherType::Arp.spec_value() ==> {
        &&& after.same_tables(&before)
        &&& match arp_header_parse(data) {
            Err(e) => r == Err::<(), Ipv4InputError<E>>(Ipv4InputError::Arp(e))
                && after == before,
            Ok(_) => r is Ok && arp_input_at_some_time(
                before.arp_cache@,
                after.arp_cache@,
                arp_packet_from(data),
                interface.unicast,
            ),
        }
    })
    &&& (frame_type != EtherType::Ipv4.spec_value() && frame_type != EtherType::Arp.spec_value()
        ==> r is Ok && after == before)
}

impl Ipv4Interface {
    /// The hardware address of the device this interface is attached to,
    /// as the device reports it; none when not attached.
    pub fn hardware_address(&self, stack: &Stack) -> (r: Option<MacAddr>)
        requires
            stack.wf(),
        ensures
            self@.device is None ==> r is None,
    {
        match self.device {
            Some(device) => stack.devices.hardware_address(device),
            None => None,
        }
    }

    /// Sends a frame through the device this interface is attached to.
    pub fn output_raw(
        &self,
        stack: &mut Stack,
        frame_type: u16,
        data: &[u8],
        destination: Option<&[u8]>,
    ) -> (r: Result<(), InterfaceOutputError>)
        requires
            old(stack).wf(),
        ensures
            final(stack).wf(),
            final(stack).same_tables(old(stack)),
            final(stack).arp_cache@ == old(stack).arp_cache@,
            self@.device is None ==> r == Err::<(), InterfaceOutputError>(
                InterfaceOutputError::NotAttached,
            ) && final(stack).devices.sent() == old(stack).devices.sent(),
            self@.device matches Some(d) ==> final(stack).devices.sent() == sent_after_output(
                old(stack).devices@,
                old(stack).devices.sent(),
                canonical_key(d@),
                frame_type,
                data@,
                destination_view(destination),
            ),
            self@.device is Some && r is Err ==> r matches Err(InterfaceOutputError::Device(_)),
            self@.device matches Some(d) ==> {
                let k = canonical_key(d@);
                let devices = old(stack).devices@;
                &&& !devices.dom().contains(k) ==> r == Err::<(), InterfaceOutputError>(
                    InterfaceOutputError::Device(DeviceError::NotOpen),
                )
                &&& devices.dom().contains(k) && !flags_up(devices[k].state) ==> r == Err::<
                    (),
                    InterfaceOutputError,
                >(InterfaceOutputError::Device(DeviceError::NotOpen))
                &&& devices.dom().contains(k) && flags_up(devices[k].state) && data@.len()
                    > devices[k].meta.spec_mtu() ==> r == Err::<(), InterfaceOutputError>(
                    InterfaceOutputError::Device(
                        DeviceError::PayloadTooLarge {
                            mtu: devices[k].meta.spec_mtu(),
                            len: data@.len() as usize,
                        },
                    ),
                )
            },
    {
        let device = match self.device {
            Some(d) => d,
            None => {
                return Err(InterfaceOutputError::NotAttached);
            },
        };
        match stack.devices.output(device, frame_type, data, destination, &mut stack.input_queue) {
            Ok(_) => Ok(()),
            Err(e) => Err(InterfaceOutputError::Device(e)),
        }
    }

    /// Sends an IPv4 packet from this interface: see [`Ipv4::output`].
    pub fn output<R: Random, T: Time>(
        &self,
        stack: &mut Stack,
        protocol: u8,
        data: &[u8],
        src: Ipv4Addr,
        dest: Ipv4Addr,
    ) -> (r: Result<usize, Ipv4OutputError<R::Error>>)
        requires
            old(stack).wf(),
        ensures
            final(stack).wf(),
            final(stack).same_tables(old(stack)),
            ipv4_output_outcome(old(stack).ipv4_routes@, old(stack).interfaces@, self@, data@.len(), src, dest, r),
    {
        Ipv4::output::<R, T>(stack, self, protocol, data, src, dest)
    }

    /// Takes a frame received on the device this interface is attached to:
    /// IPv4 packets and ARP messages are handled, other frames ignored.
    pub fn input<R: Random, T: Time>(&self, stack: &mut Stack, frame_type: u16, data: &[u8]) -> (r: Result<
        (),
        Ipv4InputError<R::Error>,
    >)
        requires
            old(stack).wf(),
        ensures
            final(stack).wf(),
            final(stack).devices@ == old(stack).devices@,
            final(stack).interfaces@ == old(stack).interfaces@,
            final(stack).ipv4_routes@ == old(stack).ipv4_routes@,
            final(stack).sockets@ == old(stack).sockets@,
            interface_input_outcome(*old(stack), *final(stack), self@, frame_type, data@, r),
    {
        if frame_type == EtherType::Ipv4.value() {
            Ipv4::input::<R, T>(stack, data, self)
        } else if frame_type == EtherType::Arp.value() {
            match Arp::input(stack, data, self, T::monotonic_time_seconds()) {
                Ok(()) => Ok(()),
                Err(e) => Err(Ipv4InputError::Arp(e)),
            }
        } else {
            Ok(())
        }
    }
}

} // verus!
