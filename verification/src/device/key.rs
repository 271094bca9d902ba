use vstd::prelude::*;

verus! {

/// Stable key for a device owned by a [`DeviceRegistry`](crate::device::registry::DeviceRegistry).
#[derive(Debug, Clone, Copy, PartialEq, Eq, Hash, Structural)]
pub struct DeviceKey {
    id: u64,
}

impl View for DeviceKey {
    type V = u64;

    closed spec fn view(&self) -> u64 {
        self.id
    }
}

impl DeviceKey {
    pub(crate) fn from_id(id: u64) -> (r: DeviceKey)
        ensures
            r@ == id,
    {
        DeviceKey { id }
    }

    /// The number that identifies this key within its registry.
    pub fn id(&self) -> (r: u64)
        ensures
            r == self@,
    {
        self.id
    }

    /// A key is determined by its number.
    pub proof fn lemma_view(self, other: DeviceKey)
        ensures
            self@ == other@ ==> self == other,
    {
    }
}

} // verus!
