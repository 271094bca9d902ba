use vstd::prelude::*;

use crate::device::key::DeviceKey;
use crate::interface::{AddressFamily, InterfaceError, InterfaceKey};
use crate::protocol::ipv4::interface::{bytes_are, Ipv4Interface, Ipv4InterfaceView};
use crate::protocol::udp::registry::canonical_id;
use crate::slots::{
    canonical_key, slot_entries, slots_get, slots_insert, slots_keys, slots_new, slots_replace,
    RegistryEntry, Slots,
};

verus! {

/// The interface that a registry entry holds.
pub open spec fn interface_entry_view(e: RegistryEntry) -> Ipv4InterfaceView {
    match e {
        RegistryEntry::Interface(i) => i@,
        _ => arbitrary(),
    }
}

/// The interfaces of the stack.
pub struct InterfaceRegistry {
    interfaces: Slots,
}

impl View for InterfaceRegistry {
    type V = Map<u64, Ipv4InterfaceView>;

    closed spec fn view(&self) -> Map<u64, Ipv4InterfaceView> {
        slot_entries(self.interfaces).map_values(|e: RegistryEntry| interface_entry_view(e))
    }
}

impl InterfaceRegistry {
    /// Every entry is an interface, and there are finitely many.
    pub closed spec fn wf(&self) -> bool {
        &&& slot_entries(self.interfaces).dom().finite()
        &&& forall|k: u64| #[trigger]
            slot_entries(self.interfaces).dom().contains(k) ==> slot_entries(
                self.interfaces,
            )[k] is Interface
    }

    pub fn new() -> (r: InterfaceRegistry)
        ensures
            r.wf(),
            r@ == Map::<u64, Ipv4InterfaceView>::empty(),
    {
        let r = InterfaceRegistry { interfaces: slots_new() };
        assert(r@ =~= Map::<u64, Ipv4InterfaceView>::empty());
        r
    }

    /// Adds `interface` and gives its key.
    pub fn register(&mut self, interface: Ipv4Interface) -> (r: InterfaceKey)
        requires
            old(self).wf(),
            old(self)@.len() < u32::MAX - 1,
        ensures
            final(self).wf(),
            !old(self)@.dom().contains(r@),
            canonical_key(r@) == r@,
            final(self)@ == old(self)@.insert(r@, interface@),
    {
        proof {
            assert(slot_entries(self.interfaces).dom() =~= self@.dom());
        }
        let id = slots_insert(&mut self.interfaces, RegistryEntry::Interface(interface));
        assert(self@ =~= old(self)@.insert(id, interface@));
        InterfaceKey::from_id(id)
    }

    /// A copy of the interface `key`, if it exists.
    pub fn interface_as(&self, key: InterfaceKey) -> (r: Option<Ipv4Interface>)
        requires
            self.wf(),
        ensures
            match r {
                Some(i) => self@.dom().contains(canonical_key(key@)) && i@ == self@[canonical_key(
                    key@,
                )],
                None => !self@.dom().contains(canonical_key(key@)),
            },
    {
        match slots_get(&self.interfaces, key.id()) {
            Some(RegistryEntry::Interface(i)) => Some(*i),
            _ => None,
        }
    }

    /// Attaches the interface `interface` to `device`.
    pub fn attach(&mut self, interface: InterfaceKey, device: DeviceKey) -> (r: Result<(), InterfaceError>)
        requires
            old(self).wf(),
        ensures
            final(self).wf(),
            ({
                let k = canonical_key(interface@);
                if !old(self)@.dom().contains(k) {
                    r == Err::<(), InterfaceError>(InterfaceError::NotFound)
                } else if old(self)@[k].device is Some {
                    r == Err::<(), InterfaceError>(InterfaceError::AlreadyAttached)
                } else {
                    r is Ok && final(self)@ == old(self)@.insert(
                        k,
                        Ipv4InterfaceView { device: Some(device), ..old(self)@[k] },
                    )
                }
            }),
            r is Err ==> final(self)@ == old(self)@,
    {
        let key = canonical_id(interface.id());
        let mut current = match self.interface_as(interface) {
            Some(i) => i,
            None => {
                return Err(InterfaceError::NotFound);
            },
        };
        match current.attach(device) {
            Ok(()) => {},
            Err(e) => {
                return Err(e);
            },
        }
        let ghost cv = current@;
        let _ = slots_replace(&mut self.interfaces, key, RegistryEntry::Interface(current));
        assert(self@ =~= old(self)@.insert(key, cv));
        Ok(())
    }

    /// The device the interface `interface` is attached to, if any.
    pub fn device(&self, interface: InterfaceKey) -> (r: Option<DeviceKey>)
        requires
            self.wf(),
        ensures
            r == if self@.dom().contains(canonical_key(interface@)) {
                self@[canonical_key(interface@)].device
            } else {
                None
            },
    {
        match self.interface_as(interface) {
            Some(i) => i.device(),
            None => None,
        }
    }

    /// An interface of `family` attached to `device`, if any.
    pub fn first_for_device(&self, device: DeviceKey, family: AddressFamily) -> (r: Option<InterfaceKey>)
        requires
            self.wf(),
        ensures
            match r {
                Some(k) => self@.dom().contains(k@) && canonical_key(k@) == k@ && self@[k@].device
                    == Some(device) && family == AddressFamily::Ipv4,
                None => family != AddressFamily::Ipv4 || forall|k: u64|
                    #[trigger] self@.dom().contains(k) ==> self@[k].device != Some(device),
            },
    {
        let keys = slots_keys(&self.interfaces);
        let mut i: usize = 0;
        while i < keys.len()
            invariant
                self.wf(),
                i <= keys@.len(),
                forall|j: int| 0 <= j < keys@.len() ==> self@.dom().contains(#[trigger] keys@[j]),
                forall|k: u64| self@.dom().contains(k) ==> keys@.contains(k),
                forall|j: int| 0 <= j < keys@.len() ==> canonical_key(#[trigger] keys@[j]) == keys@[j],
                forall|j: int|
                    0 <= j < i ==> (#[trigger] self@[keys@[j]]).device != Some(device) || family
                        != AddressFamily::Ipv4,
            decreases keys@.len() - i,
        {
            let k = keys[i];
            match slots_get(&self.interfaces, k) {
                Some(RegistryEntry::Interface(candidate)) => {
                    assert(self@[k] == candidate@);
                    if candidate.device() == Some(device) && candidate.family() == family {
                        return Some(InterfaceKey::from_id(k));
                    }
                },
                _ => {},
            }
            i = i + 1;
        }
        proof {
            if family == AddressFamily::Ipv4 {
                assert forall|k: u64| #[trigger] self@.dom().contains(k) implies self@[k].device
                    != Some(device) by {
                    assert(keys@.contains(k));
                    let j = choose|j: int| 0 <= j < keys@.len() && keys@[j] == k;
                    assert(keys@[j] == k);
                }
            }
        }
        None
    }

    /// An interface whose unicast address is `address`, if any.
    pub fn select_by_address(&self, address: &[u8]) -> (r: Option<InterfaceKey>)
        requires
            self.wf(),
        ensures
            match r {
                Some(k) => self@.dom().contains(k@) && canonical_key(k@) == k@ && bytes_are(
                    address@,
                    self@[k@].unicast,
                ),
                None => forall|k: u64|
                    #[trigger] self@.dom().contains(k) ==> !bytes_are(address@, self@[k].unicast),
            },
    {
        let keys = slots_keys(&self.interfaces);
        let mut i: usize = 0;
        while i < keys.len()
            invariant
                self.wf(),
                i <= keys@.len(),
                forall|j: int| 0 <= j < keys@.len() ==> self@.dom().contains(#[trigger] keys@[j]),
                forall|k: u64| self@.dom().contains(k) ==> keys@.contains(k),
                forall|j: int| 0 <= j < keys@.len() ==> canonical_key(#[trigger] keys@[j]) == keys@[j],
                forall|j: int|
                    0 <= j < i ==> !bytes_are(address@, (#[trigger] self@[keys@[j]]).unicast),
            decreases keys@.len() - i,
        {
            let k = keys[i];
            match slots_get(&self.interfaces, k) {
                Some(RegistryEntry::Interface(candidate)) => {
                    assert(self@[k] == candidate@);
                    if candidate.has_address(address) {
                        return Some(InterfaceKey::from_id(k));
                    }
                },
                _ => {},
            }
            i = i + 1;
        }
        proof {
            assert forall|k: u64| #[trigger] self@.dom().contains(k) implies !bytes_are(
                address@,
                self@[k].unicast,
            ) by {
                assert(keys@.contains(k));
                let j = choose|j: int| 0 <= j < keys@.len() && keys@[j] == k;
                assert(keys@[j] == k);
            }
        }
        None
    }
}

} // verus!
