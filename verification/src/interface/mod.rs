pub mod registry;

use vstd::prelude::*;

use crate::device::DeviceError;

verus! {

/// Stable key for an interface owned by an [`InterfaceRegistry`](crate::interface::registry::InterfaceRegistry).
#[derive(Debug, Clone, Copy, PartialEq, Eq, Hash, Structural)]
pub struct InterfaceKey {
    id: u64,
}

impl View for InterfaceKey {
    type V = u64;

    closed spec fn view(&self) -> u64 {
        self.id
    }
}

impl InterfaceKey {
    pub(crate) fn from_id(id: u64) -> (r: InterfaceKey)
        ensures
            r@ == id,
    {
        InterfaceKey { id }
    }

    /// The number that identifies this key within its registry.
    pub fn id(&self) -> (r: u64)
        ensures
            r == self@,
    {
        self.id
    }

    /// A key is determined by its number.
    pub proof fn lemma_view(self, other: InterfaceKey)
        ensures
            self@ == other@ ==> self == other,
    {
    }
}

/// Address category understood by an interface.
#[derive(Debug, Clone, Copy, PartialEq, Eq, Hash, Structural)]
pub enum AddressFamily {
    Ipv4,
    Ipv6,
}

/// Errors of interface bookkeeping.
#[derive(Debug, Clone, Copy, PartialEq, Eq, Structural)]
pub enum InterfaceError {
    NotFound,
    AlreadyAttached,
}

/// Errors sending a frame through an interface.
#[derive(Debug, Clone, PartialEq, Eq)]
pub enum InterfaceOutputError {
    NotAttached,
    DeviceNotFound,
    Device(DeviceError),
}

} // verus!
