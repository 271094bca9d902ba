use vstd::prelude::*;

use slotmap::{DefaultKey, Key, KeyData, SlotMap};

use crate::device::Device;
use crate::protocol::ipv4::interface::Ipv4Interface;
use crate::protocol::socket::SocketEntry;
use crate::protocol::tcp::pcb::TcpPcb;
use crate::protocol::udp::registry::UdpPcb;

verus! {

/// What the registries of the stack keep in their slot maps: each registry
/// keeps entries of one kind only.
pub enum RegistryEntry {
    Device(Device),
    Interface(Ipv4Interface),
    TcpPcb(TcpPcb),
    UdpPcb(UdpPcb),
    Socket(SocketEntry),
    /// Left in a slot while its entry is worked on elsewhere.
    Vacant,
}

/// The slot map every registry keeps its entries in: a `slotmap::SlotMap`,
/// which verification sees only through the functions below.
#[verifier::external_body]
pub struct Slots {
    inner: SlotMap<DefaultKey, RegistryEntry>,
}

/// What a slot map holds, by the 64-bit number of each key
/// (`KeyData::as_ffi`).
pub uninterp spec fn slot_entries(m: Slots) -> Map<u64, RegistryEntry>;

/// A map with no entry.
pub open spec fn no_entries() -> Map<u64, RegistryEntry> {
    Map::empty()
}

/// The number of the key that `KeyData::from_ffi(id)` rebuilds: the key
/// number with its version made odd, as every live key's is.
pub open spec fn canonical_key(id: u64) -> u64 {
    id | 0x1_0000_0000
}

/// A key number made canonical stays as it is.
pub proof fn lemma_canonical_idempotent(id: u64)
    ensures
        canonical_key(canonical_key(id)) == canonical_key(id),
{
    assert((id | 0x1_0000_0000) | 0x1_0000_0000 == id | 0x1_0000_0000) by (bit_vector);
}

/// A new, empty slot map (`SlotMap::new`).
#[verifier::external_body]
pub(crate) fn slots_new() -> (r: Slots)
    ensures
        slot_entries(r) == no_entries(),
{
    Slots { inner: SlotMap::new() }
}

/// Stores `value` under a fresh key and gives its number (`SlotMap::insert`,
/// then `KeyData::as_ffi`). The slot map panics when full, which cannot
/// happen below `u32::MAX - 1` entries.
#[verifier::external_body]
pub(crate) fn slots_insert(m: &mut Slots, value: RegistryEntry) -> (r: u64)
    requires
        slot_entries(*old(m)).len() < u32::MAX - 1,
        slot_entries(*old(m)).dom().finite(),
    ensures
        !slot_entries(*old(m)).dom().contains(r),
        canonical_key(r) == r,
        slot_entries(*final(m)) == slot_entries(*old(m)).insert(r, value),
        slot_entries(*final(m)).dom().finite(),
{
    m.inner.insert(value).data().as_ffi()
}

/// Takes the value stored under key number `id` out of the map
/// (`SlotMap::remove` with `KeyData::from_ffi`).
#[verifier::external_body]
pub(crate) fn slots_remove(m: &mut Slots, id: u64) -> (r: Option<RegistryEntry>)
    ensures
        slot_entries(*old(m)).dom().contains(canonical_key(id)) ==> r == Some(
            slot_entries(*old(m))[canonical_key(id)],
        ) && slot_entries(*final(m)) == slot_entries(*old(m)).remove(canonical_key(id)),
        !slot_entries(*old(m)).dom().contains(canonical_key(id)) ==> r is None && slot_entries(
            *final(m),
        ) == slot_entries(*old(m)),
        slot_entries(*old(m)).dom().finite() ==> slot_entries(*final(m)).dom().finite(),
{
    m.inner.remove(KeyData::from_ffi(id).into())
}

/// The value stored under key number `id` (`SlotMap::get`).
#[verifier::external_body]
pub(crate) fn slots_get(m: &Slots, id: u64) -> (r: Option<&RegistryEntry>)
    ensures
        match r {
            Some(v) => slot_entries(*m).dom().contains(canonical_key(id)) && *v == slot_entries(
                *m,
            )[canonical_key(id)],
            None => !slot_entries(*m).dom().contains(canonical_key(id)),
        },
{
    m.inner.get(KeyData::from_ffi(id).into())
}

/// Puts `value` under key number `id` in place of what it held, which is
/// handed back (`SlotMap::get_mut`); nothing changes when the key is not
/// in the map.
#[verifier::external_body]
pub(crate) fn slots_replace(m: &mut Slots, id: u64, value: RegistryEntry) -> (r:
    Option<RegistryEntry>)
    ensures
        slot_entries(*old(m)).dom().contains(canonical_key(id)) ==> r == Some(
            slot_entries(*old(m))[canonical_key(id)],
        ) && slot_entries(*final(m)) == slot_entries(*old(m)).insert(canonical_key(id), value),
        !slot_entries(*old(m)).dom().contains(canonical_key(id)) ==> r is None && slot_entries(
            *final(m),
        ) == slot_entries(*old(m)),
        slot_entries(*old(m)).dom().finite() ==> slot_entries(*final(m)).dom().finite(),
{
    match m.inner.get_mut(KeyData::from_ffi(id).into()) {
        Some(slot) => Some(core::mem::replace(slot, value)),
        None => None,
    }
}

/// The numbers of all keys in the map, each once, in an order the caller
/// must not rely on (`SlotMap::keys`).
#[verifier::external_body]
pub(crate) fn slots_keys(m: &Slots) -> (r: Vec<u64>)
    ensures
        r@.no_duplicates(),
        forall|i: int| 0 <= i < r@.len() ==> slot_entries(*m).dom().contains(#[trigger] r@[i]),
        forall|i: int| 0 <= i < r@.len() ==> canonical_key(#[trigger] r@[i]) == r@[i],
        forall|k: u64| slot_entries(*m).dom().contains(k) ==> r@.contains(k),
{
    m.inner.keys().map(|k| k.data().as_ffi()).collect()
}

} // verus!
