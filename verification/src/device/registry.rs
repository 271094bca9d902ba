use vstd::prelude::*;

use crate::device::key::DeviceKey;
use crate::device::queue::InputQueue;
use crate::device::{flags_up, BackendCall, Device, DeviceError, DeviceKind, DeviceMeta, DEVICE_FLAG_UP};
use crate::protocol::ethernet::MacAddr;
use crate::protocol::udp::registry::canonical_id;
use crate::slots::{
    canonical_key, slot_entries, slots_get, slots_insert, slots_keys, slots_new, slots_replace,
    RegistryEntry, Slots,
};

verus! {

/// What the registry knows of a device: its metadata, state flags and key.
pub struct DeviceView {
    pub meta: DeviceMeta,
    pub state: u16,
    pub key: Option<DeviceKey>,
}

/// The device view of a registry entry.
pub open spec fn device_entry_view(e: RegistryEntry) -> DeviceView {
    match e {
        RegistryEntry::Device(d) => DeviceView {
            meta: d.spec_meta(),
            state: d.spec_state(),
            key: d.spec_device_key(),
        },
        _ => arbitrary(),
    }
}

/// The calls that the backend of a registry entry's device answered.
pub open spec fn device_entry_calls(e: RegistryEntry) -> Seq<BackendCall> {
    match e {
        RegistryEntry::Device(d) => d.backend_calls(),
        _ => arbitrary(),
    }
}

/// What a device's backend answered, as the registry passes it on.
pub open spec fn backend_result(r: Result<bool, DeviceError>) -> Result<(), DeviceError> {
    match r {
        Ok(_) => Ok(()),
        Err(e) => Err(e),
    }
}

/// The same devices with the same metadata and keys.
pub open spec fn same_devices(a: Map<u64, DeviceView>, b: Map<u64, DeviceView>) -> bool {
    &&& a.dom() == b.dom()
    &&& forall|k: u64| #[trigger] a.dom().contains(k) ==> a[k].meta == b[k].meta && a[k].key == b[k].key
}

/// What opening a device did, seen from its state flags and the calls its
/// backend answered, before and after: it was down, its backend was asked
/// to open, once, and agreed, and it is up.
pub open spec fn open_answered(
    before: u16,
    after: u16,
    calls_before: Seq<BackendCall>,
    calls_after: Seq<BackendCall>,
) -> bool {
    &&& !flags_up(before)
    &&& after == before | DEVICE_FLAG_UP
    &&& exists|o: Result<(), DeviceError>| #[trigger]
        calls_before.push(BackendCall::Open { result: o }) == calls_after && o is Ok
}

/// What a failed attempt to open every device left of one device: it was
/// not reached, its backend refused to open it, or it was opened and then
/// asked to close again, being down again exactly when its backend agreed.
pub open spec fn open_rolled_back(
    before: u16,
    after: u16,
    calls_before: Seq<BackendCall>,
    calls_after: Seq<BackendCall>,
) -> bool {
    ||| calls_after == calls_before && after == before
    ||| exists|o: Result<(), DeviceError>| #[trigger]
        calls_before.push(BackendCall::Open { result: o }) == calls_after && o is Err && after == before
    ||| exists|o: Result<(), DeviceError>, c: Result<(), DeviceError>| #[trigger]
        calls_before.push(BackendCall::Open { result: o }).push(BackendCall::Close { result: c })
            == calls_after && o is Ok && !flags_up(before) && after == if c is Ok {
            before
        } else {
            before | DEVICE_FLAG_UP
        }
}

/// The device whose opening failed with `e`: it was up already, which the
/// registry refuses, or its backend answered `e`.
pub open spec fn open_refused(
    before: u16,
    calls_before: Seq<BackendCall>,
    calls_after: Seq<BackendCall>,
    e: DeviceError,
) -> bool {
    ||| flags_up(before) && e == DeviceError::AlreadyOpen && calls_after == calls_before
    ||| !flags_up(before) && calls_after == calls_before.push(
        BackendCall::Open { result: Err(e) },
    )
}

/// What closing a device did, seen from its state flags and the calls its
/// backend answered, before and after: a device that was up was asked to
/// close, once, and is down exactly when its backend agreed; one that was
/// down was left alone.
pub open spec fn close_answered(
    before: u16,
    after: u16,
    calls_before: Seq<BackendCall>,
    calls_after: Seq<BackendCall>,
) -> bool {
    if flags_up(before) {
        exists|c: Result<(), DeviceError>| #[trigger]
            calls_before.push(BackendCall::Close { result: c }) == calls_after && after == if c is Ok {
                before & !DEVICE_FLAG_UP
            } else {
                before
            }
    } else {
        calls_after == calls_before && after == before
    }
}

/// A frame handed to a device's backend: the key number of the device,
/// the frame type, the data and the link-layer destination, if any.
pub struct SentFrame {
    pub device: u64,
    pub frame_type: u16,
    pub data: Seq<u8>,
    pub destination: Option<Seq<u8>>,
}

/// The frame that a backend's record shows it was handed in `call`, on the
/// device with key number `device`.
pub open spec fn frame_of_call(device: u64, call: BackendCall) -> SentFrame {
    match call {
        BackendCall::Output { frame_type, data, destination, .. } => SentFrame { device, frame_type, data, destination },
        _ => arbitrary(),
    }
}

/// The bytes of an optional destination address.
pub open spec fn destination_view(destination: Option<&[u8]>) -> Option<Seq<u8>> {
    match destination {
        Some(d) => Some(d@),
        None => None,
    }
}

/// The device `k` of `devices` takes a frame of `len` bytes: it exists, is
/// up, and the frame fits its MTU.
pub open spec fn device_takes(devices: Map<u64, DeviceView>, k: u64, len: nat) -> bool {
    devices.dom().contains(k) && flags_up(devices[k].state) && len <= devices[k].meta.spec_mtu()
}

/// The record `sent` after a frame is offered to the device `k`: the
/// frame is handed to its backend when the device takes it.
pub open spec fn sent_after_output(
    devices: Map<u64, DeviceView>,
    sent: Seq<SentFrame>,
    k: u64,
    frame_type: u16,
    data: Seq<u8>,
    destination: Option<Seq<u8>>,
) -> Seq<SentFrame> {
    if device_takes(devices, k, data.len()) {
        sent.push(SentFrame { device: k, frame_type, data, destination })
    } else {
        sent
    }
}

/// The devices of the stack, and a record of every frame handed to their
/// backends through the registry, over all devices, oldest first: each
/// entry is taken from the record of the backend that answered the
/// `output` call (see [`DeviceRegistry::output`]).
pub struct DeviceRegistry {
    devices: Slots,
    sent: Ghost<Seq<SentFrame>>,
}

impl View for DeviceRegistry {
    type V = Map<u64, DeviceView>;

    closed spec fn view(&self) -> Map<u64, DeviceView> {
        slot_entries(self.devices).map_values(|e: RegistryEntry| device_entry_view(e))
    }
}

impl DeviceRegistry {
    /// The frames handed to the backends so far, oldest first.
    pub closed spec fn sent(&self) -> Seq<SentFrame> {
        self.sent@
    }

    /// The calls that each device's backend answered, with its answers,
    /// oldest first, by the key number of the device.
    pub closed spec fn backend_calls(&self) -> Map<u64, Seq<BackendCall>> {
        slot_entries(self.devices).map_values(|e: RegistryEntry| device_entry_calls(e))
    }

    /// Every entry is a device, and there are finitely many.
    pub closed spec fn wf(&self) -> bool {
        &&& slot_entries(self.devices).dom().finite()
        &&& forall|k: u64| #[trigger]
            slot_entries(self.devices).dom().contains(k) ==> slot_entries(self.devices)[k] is Device
    }

    pub fn new() -> (r: DeviceRegistry)
        ensures
            r.wf(),
            r@ == Map::<u64, DeviceView>::empty(),
            r.sent() == Seq::<SentFrame>::empty(),
    {
        let r = DeviceRegistry { devices: slots_new(), sent: Ghost(Seq::empty()) };
        assert(r@ =~= Map::<u64, DeviceView>::empty());
        r
    }

    /// Adds `device`, tells it its key, and gives the key.
    pub fn register(&mut self, device: Device) -> (r: DeviceKey)
        requires
            old(self).wf(),
            old(self)@.len() < u32::MAX - 1,
        ensures
            final(self).wf(),
            !old(self)@.dom().contains(r@),
            canonical_key(r@) == r@,
            final(self)@ == old(self)@.insert(
                r@,
                DeviceView { meta: device.spec_meta(), state: device.spec_state(), key: Some(r) },
            ),
            final(self).backend_calls() == old(self).backend_calls().insert(r@, device.backend_calls()),
            final(self).sent() == old(self).sent(),
    {
        let ghost meta = device.spec_meta();
        let ghost state = device.spec_state();
        let ghost calls = device.backend_calls();
        proof {
            assert(slot_entries(self.devices).dom() =~= self@.dom());
        }
        let id = slots_insert(&mut self.devices, RegistryEntry::Device(device));
        let key = DeviceKey::from_id(id);
        let ghost inserted = self@;
        match slots_replace(&mut self.devices, id, RegistryEntry::Vacant) {
            Some(RegistryEntry::Device(mut d)) => {
                d.set_device_key(key);
                let _ = slots_replace(&mut self.devices, id, RegistryEntry::Device(d));
            },
            _ => {},
        }
        assert(self@ =~= old(self)@.insert(id, DeviceView { meta, state, key: Some(key) }));
        assert(self.backend_calls() =~= old(self).backend_calls().insert(id, calls));
        key
    }

    /// The device `key`, if it exists.
    pub fn get(&self, key: DeviceKey) -> (r: Option<&Device>)
        requires
            self.wf(),
        ensures
            match r {
                Some(d) => self@.dom().contains(canonical_key(key@)) && self@[canonical_key(key@)]
                    == (DeviceView {
                    meta: d.spec_meta(),
                    state: d.spec_state(),
                    key: d.spec_device_key(),
                }),
                None => !self@.dom().contains(canonical_key(key@)),
            },
    {
        match slots_get(&self.devices, key.id()) {
            Some(RegistryEntry::Device(d)) => Some(d),
            _ => None,
        }
    }

    pub fn contains(&self, key: DeviceKey) -> (r: bool)
        requires
            self.wf(),
        ensures
            r == self@.dom().contains(canonical_key(key@)),
    {
        self.get(key).is_some()
    }

    /// The hardware address of the device `key`, as its backend reports it;
    /// none when there is no such device.
    pub fn hardware_address(&self, key: DeviceKey) -> (r: Option<MacAddr>)
        requires
            self.wf(),
        ensures
            !self@.dom().contains(canonical_key(key@)) ==> r is None,
    {
        match self.get(key) {
            Some(d) => d.hardware_address(),
            None => None,
        }
    }

    /// The keys of all devices, each once.
    pub fn keys(&self) -> (r: Vec<DeviceKey>)
        requires
            self.wf(),
        ensures
            r@.len() == self@.len(),
            forall|i: int| 0 <= i < r@.len() ==> self@.dom().contains(#[trigger] r@[i]@),
            forall|k: u64| #[trigger] self@.dom().contains(k) ==> exists|i: int| 0 <= i < r@.len() && r@[i]@ == k,
    {
        let ids = slots_keys(&self.devices);
        proof {
            assert(ids@.to_set() =~= self@.dom());
            ids@.unique_seq_to_set();
        }
        let mut r: Vec<DeviceKey> = Vec::new();
        let mut i: usize = 0;
        while i < ids.len()
            invariant
                i <= ids@.len(),
                r@.len() == i,
                forall|j: int| 0 <= j < i ==> (#[trigger] r@[j])@ == ids@[j],
            decreases ids@.len() - i,
        {
            r.push(DeviceKey::from_id(ids[i]));
            i = i + 1;
        }
        proof {
            assert forall|k: u64| #[trigger] self@.dom().contains(k) implies exists|i: int|
                0 <= i < r@.len() && r@[i]@ == k by {
                assert(ids@.contains(k));
                let j = choose|j: int| 0 <= j < ids@.len() && ids@[j] == k;
                assert(r@[j]@ == k);
            }
        }
        r
    }

    /// Sends a frame on the device `key`: refused when there is no such
    /// device, it is down or the frame exceeds its MTU; otherwise the frame
    /// is handed to the device's backend, whose answer is the result, and
    /// success says whether the device loops frames back, so that the input
    /// queue wants processing.
    pub fn output(
        &mut self,
        key: DeviceKey,
        frame_type: u16,
        data: &[u8],
        destination: Option<&[u8]>,
        queue: &mut InputQueue,
    ) -> (r: Result<bool, DeviceError>)
        requires
            old(self).wf(),
        ensures
            final(self).wf(),
            final(self)@ == old(self)@,
            final(self).backend_calls() == if device_takes(old(self)@, canonical_key(key@), data@.len()) {
                old(self).backend_calls().insert(
                    canonical_key(key@),
                    old(self).backend_calls()[canonical_key(key@)].push(
                        BackendCall::Output {
                            frame_type,
                            data: data@,
                            destination: destination_view(destination),
                            result: backend_result(r),
                        },
                    ),
                )
            } else {
                old(self).backend_calls()
            },
            final(self).sent() == sent_after_output(
                old(self)@,
                old(self).sent(),
                canonical_key(key@),
                frame_type,
                data@,
                destination_view(destination),
            ),
            ({
                let k = canonical_key(key@);
                if !old(self)@.dom().contains(k) {
                    r == Err::<bool, DeviceError>(DeviceError::NotOpen)
                } else if !flags_up(old(self)@[k].state) {
                    r == Err::<bool, DeviceError>(DeviceError::NotOpen)
                } else if data@.len() > old(self)@[k].meta.spec_mtu() {
                    r == Err::<bool, DeviceError>(
                        DeviceError::PayloadTooLarge {
                            mtu: old(self)@[k].meta.spec_mtu(),
                            len: data@.len() as usize,
                        },
                    )
                } else {
                    r matches Ok(looped) ==> looped == (old(self)@[k].meta.spec_kind()
                        == DeviceKind::Loopback)
                }
            }),
    {
        let id = canonical_id(key.id());
        match slots_replace(&mut self.devices, id, RegistryEntry::Vacant) {
            Some(RegistryEntry::Device(mut d)) => {
                let loopback = d.meta().kind() == DeviceKind::Loopback;
                let ghost before_calls = d.backend_calls();
                assert(old(self).backend_calls()[id] == before_calls);
                let result = d.output(frame_type, data, destination, queue);
                let ghost calls = d.backend_calls();
                proof {
                    if calls.len() > before_calls.len() {
                        // The frame the backend was handed, as its own record shows it.
                        self.sent@ = self.sent@.push(frame_of_call(id, calls.last()));
                    }
                }
                let ghost answered = result;
                let _ = slots_replace(&mut self.devices, id, RegistryEntry::Device(d));
                assert(self@ =~= old(self)@);
                let r = match result {
                    Ok(()) => Ok(loopback),
                    Err(e) => Err(e),
                };
                let ghost rr = r;
                proof {
                    match rr {
                        Ok(_) => {
                            assert(answered is Ok);
                            assert(answered == Ok::<(), DeviceError>(answered->Ok_0));
                        },
                        Err(e) => {
                            assert(answered == Err::<(), DeviceError>(e));
                        },
                    }
                }
                proof {
                    if device_takes(old(self)@, id, data@.len()) {
                        assert(backend_result(r) == answered);
                        assert(self.backend_calls() =~= old(self).backend_calls().insert(id, calls));
                    } else {
                        assert(self.backend_calls() =~= old(self).backend_calls());
                    }
                }
                r
            },
            _ => {
                assert(self@ =~= old(self)@);
                assert(self.backend_calls() =~= old(self).backend_calls());
                Err(DeviceError::NotOpen)
            },
        }
    }
}

impl DeviceRegistry {
    fn open_one(&mut self, id: u64) -> (r: Result<(), DeviceError>)
        requires
            old(self).wf(),
            old(self)@.dom().contains(id),
            canonical_key(id) == id,
        ensures
            final(self).wf(),
            final(self)@ == old(self)@.insert(id, final(self)@[id]),
            same_devices(final(self)@, old(self)@),
            final(self).sent() == old(self).sent(),
            r is Ok ==> !flags_up(old(self)@[id].state) && final(self)@[id].state == old(self)@[id].state | DEVICE_FLAG_UP,
            r is Err ==> final(self)@[id].state == old(self)@[id].state,
            flags_up(old(self)@[id].state) ==> r == Err::<(), DeviceError>(DeviceError::AlreadyOpen)
                && final(self)@ == old(self)@,
            final(self).backend_calls() == if flags_up(old(self)@[id].state) {
                old(self).backend_calls()
            } else {
                old(self).backend_calls().insert(id, old(self).backend_calls()[id].push(BackendCall::Open { result: r }))
            },
    {
        match slots_replace(&mut self.devices, id, RegistryEntry::Vacant) {
            Some(RegistryEntry::Device(mut d)) => {
                assert(old(self)@[id].meta == d.spec_meta() && old(self)@[id].key == d.spec_device_key()
                    && old(self)@[id].state == d.spec_state());
                assert(old(self).backend_calls()[id] == d.backend_calls());
                let result = d.open();
                let ghost dv = DeviceView {
                    meta: d.spec_meta(),
                    state: d.spec_state(),
                    key: d.spec_device_key(),
                };
                let ghost calls = d.backend_calls();
                let _ = slots_replace(&mut self.devices, id, RegistryEntry::Device(d));
                assert(self@ =~= old(self)@.insert(id, dv));
                assert(self@.dom() =~= old(self)@.dom());
                assert(self.backend_calls() =~= old(self).backend_calls().insert(id, calls));
                proof {
                    if flags_up(old(self)@[id].state) {
                        assert(self.backend_calls() =~= old(self).backend_calls());
                    }
                }
                result
            },
            _ => {
                assert(self@ =~= old(self)@);
                Err(DeviceError::NotOpen)
            },
        }
    }

    fn close_one(&mut self, id: u64) -> (r: Result<(), DeviceError>)
        requires
            old(self).wf(),
            old(self)@.dom().contains(id),
            canonical_key(id) == id,
        ensures
            final(self).wf(),
            final(self)@ == old(self)@.insert(id, final(self)@[id]),
            same_devices(final(self)@, old(self)@),
            final(self).sent() == old(self).sent(),
            final(self)@[id].state == if flags_up(old(self)@[id].state) && r is Ok {
                old(self)@[id].state & !DEVICE_FLAG_UP
            } else {
                old(self)@[id].state
            },
            !flags_up(old(self)@[id].state) ==> r == Err::<(), DeviceError>(DeviceError::NotOpen),
            final(self).backend_calls() == if flags_up(old(self)@[id].state) {
                old(self).backend_calls().insert(id, old(self).backend_calls()[id].push(BackendCall::Close { result: r }))
            } else {
                old(self).backend_calls()
            },
    {
        match slots_replace(&mut self.devices, id, RegistryEntry::Vacant) {
            Some(RegistryEntry::Device(mut d)) => {
                assert(old(self)@[id].meta == d.spec_meta() && old(self)@[id].key == d.spec_device_key()
                    && old(self)@[id].state == d.spec_state());
                assert(old(self).backend_calls()[id] == d.backend_calls());
                let result = d.close();
                let ghost dv = DeviceView {
                    meta: d.spec_meta(),
                    state: d.spec_state(),
                    key: d.spec_device_key(),
                };
                let ghost calls = d.backend_calls();
                let _ = slots_replace(&mut self.devices, id, RegistryEntry::Device(d));
                assert(self@ =~= old(self)@.insert(id, dv));
                assert(self@.dom() =~= old(self)@.dom());
                assert(self.backend_calls() =~= old(self).backend_calls().insert(id, calls));
                proof {
                    if !flags_up(old(self)@[id].state) {
                        assert(self.backend_calls() =~= old(self).backend_calls());
                    }
                }
                result
            },
            _ => {
                assert(self@ =~= old(self)@);
                Err(DeviceError::NotOpen)
            },
        }
    }

    /// Opens every device; when one fails, closes again those opened before
    /// it and gives its error.
    pub fn open_all(&mut self) -> (r: Result<(), DeviceError>)
        requires
            old(self).wf(),
        ensures
            final(self).wf(),
            same_devices(final(self)@, old(self)@),
            final(self).sent() == old(self).sent(),
            final(self).backend_calls().dom() == old(self).backend_calls().dom(),
            r is Ok ==> forall|k: u64| #[trigger]
                old(self)@.dom().contains(k) ==> open_answered(
                    old(self)@[k].state,
                    final(self)@[k].state,
                    old(self).backend_calls()[k],
                    final(self).backend_calls()[k],
                ),
            old(self)@.dom() == Set::<u64>::empty() ==> r is Ok,
            r is Err ==> forall|k: u64| #[trigger]
                old(self)@.dom().contains(k) ==> open_rolled_back(
                    old(self)@[k].state,
                    final(self)@[k].state,
                    old(self).backend_calls()[k],
                    final(self).backend_calls()[k],
                ),
            r matches Err(e) ==> exists|k: u64| #[trigger]
                old(self)@.dom().contains(k) && open_refused(
                    old(self)@[k].state,
                    old(self).backend_calls()[k],
                    final(self).backend_calls()[k],
                    e,
                ),
    {
        let keys = slots_keys(&self.devices);
        let mut i: usize = 0;
        while i < keys.len()
            invariant
                self.wf(),
                same_devices(self@, old(self)@),
                self.sent() == old(self).sent(),
                self.backend_calls().dom() == old(self).backend_calls().dom(),
                self@.dom() == self.backend_calls().dom(),
                old(self)@.dom() == old(self).backend_calls().dom(),
                i <= keys@.len(),
                keys@.no_duplicates(),
                forall|j: int| 0 <= j < keys@.len() ==> old(self)@.dom().contains(#[trigger] keys@[j]),
                forall|k: u64| old(self)@.dom().contains(k) ==> keys@.contains(k),
                forall|j: int| 0 <= j < keys@.len() ==> canonical_key(#[trigger] keys@[j]) == keys@[j],
                forall|j: int|
                    0 <= j < i ==> open_answered(
                        old(self)@[#[trigger] keys@[j]].state,
                        self@[keys@[j]].state,
                        old(self).backend_calls()[keys@[j]],
                        self.backend_calls()[keys@[j]],
                    ),
                forall|j: int|
                    i <= j < keys@.len() ==> self@[#[trigger] keys@[j]].state == old(self)@[keys@[j]].state
                        && self.backend_calls()[keys@[j]] == old(self).backend_calls()[keys@[j]],
            decreases keys@.len() - i,
        {
            let k = keys[i];
            let opened = self.open_one(k);
            proof {
                assert(keys@[i as int] == k);
                assert forall|x: int| i < x < keys@.len() implies self@[#[trigger] keys@[x]].state
                    == old(self)@[keys@[x]].state && self.backend_calls()[keys@[x]] == old(self).backend_calls()[
                    keys@[x]] by {
                    assert(keys@[x] != k);
                }
                assert forall|x: int| 0 <= x < i implies open_answered(
                    old(self)@[#[trigger] keys@[x]].state,
                    self@[keys@[x]].state,
                    old(self).backend_calls()[keys@[x]],
                    self.backend_calls()[keys@[x]],
                ) by {
                    assert(keys@[x] != k);
                }
            }
            match opened {
                Ok(()) => {
                    proof {
                        assert(old(self).backend_calls()[k].push(BackendCall::Open { result: opened })
                            == self.backend_calls()[k]);
                        assert(open_answered(
                            old(self)@[k].state,
                            self@[k].state,
                            old(self).backend_calls()[k],
                            self.backend_calls()[k],
                        ));
                    }
                },
                Err(e) => {
                    let ghost failed = k;
                    proof {
                        assert(open_refused(
                            old(self)@[k].state,
                            old(self).backend_calls()[k],
                            self.backend_calls()[k],
                            e,
                        ));
                    }
                    let mut j: usize = i;
                    while j > 0
                        invariant
                            self.wf(),
                            same_devices(self@, old(self)@),
                            self.sent() == old(self).sent(),
                            self.backend_calls().dom() == old(self).backend_calls().dom(),
                            self@.dom() == self.backend_calls().dom(),
                            old(self)@.dom() == old(self).backend_calls().dom(),
                            j <= i < keys@.len(),
                            failed == keys@[i as int],
                            keys@.no_duplicates(),
                            forall|x: int| 0 <= x < keys@.len() ==> old(self)@.dom().contains(#[trigger] keys@[x]),
                            forall|x: int| 0 <= x < keys@.len() ==> canonical_key(#[trigger] keys@[x]) == keys@[x],
                            forall|x: int|
                                0 <= x < j ==> open_answered(
                                    old(self)@[#[trigger] keys@[x]].state,
                                    self@[keys@[x]].state,
                                    old(self).backend_calls()[keys@[x]],
                                    self.backend_calls()[keys@[x]],
                                ),
                            forall|x: int|
                                j <= x < keys@.len() ==> open_rolled_back(
                                    old(self)@[#[trigger] keys@[x]].state,
                                    self@[keys@[x]].state,
                                    old(self).backend_calls()[keys@[x]],
                                    self.backend_calls()[keys@[x]],
                                ),
                            open_refused(
                                old(self)@[failed].state,
                                old(self).backend_calls()[failed],
                                self.backend_calls()[failed],
                                e,
                            ),
                        decreases j,
                    {
                        j = j - 1;
                        let c = keys[j];
                        let ghost mid = self.backend_calls();
                        let ghost mid_view = self@;
                        let closed = self.close_one(c);
                        proof {
                            assert(c != failed);
                            let s0 = old(self)@[c].state;
                            assert(open_answered(s0, mid_view[c].state, old(self).backend_calls()[c], mid[c]));
                            let o = choose|o: Result<(), DeviceError>| #[trigger]
                                old(self).backend_calls()[c].push(BackendCall::Open { result: o }) == mid[c] && o is Ok;
                            assert(flags_up(s0 | DEVICE_FLAG_UP)) by (bit_vector);
                            assert((s0 | DEVICE_FLAG_UP) & !DEVICE_FLAG_UP == s0) by (bit_vector)
                                requires
                                    !(s0 & DEVICE_FLAG_UP == DEVICE_FLAG_UP),
                            ;
                            assert(old(self).backend_calls()[c].push(BackendCall::Open { result: o }).push(
                                BackendCall::Close { result: closed },
                            ) == self.backend_calls()[c]);
                            assert(open_rolled_back(
                                s0,
                                self@[c].state,
                                old(self).backend_calls()[c],
                                self.backend_calls()[c],
                            ));
                            assert forall|x: int| 0 <= x < j implies open_answered(
                                old(self)@[#[trigger] keys@[x]].state,
                                self@[keys@[x]].state,
                                old(self).backend_calls()[keys@[x]],
                                self.backend_calls()[keys@[x]],
                            ) by {
                                assert(keys@[x] != c);
                            }
                            assert forall|x: int| j <= x < keys@.len() implies open_rolled_back(
                                old(self)@[#[trigger] keys@[x]].state,
                                self@[keys@[x]].state,
                                old(self).backend_calls()[keys@[x]],
                                self.backend_calls()[keys@[x]],
                            ) by {
                                if x > j {
                                    assert(keys@[x] != c);
                                }
                            }
                        }
                    }
                    proof {
                        assert forall|kk: u64| #[trigger] old(self)@.dom().contains(kk) implies open_rolled_back(
                            old(self)@[kk].state,
                            self@[kk].state,
                            old(self).backend_calls()[kk],
                            self.backend_calls()[kk],
                        ) by {
                            assert(keys@.contains(kk));
                            let x = choose|x: int| 0 <= x < keys@.len() && keys@[x] == kk;
                            assert(keys@[x] == kk);
                        }
                        assert(old(self)@.dom().contains(failed));
                    }
                    return Err(e);
                },
            }
            i = i + 1;
        }
        proof {
            assert forall|k: u64| #[trigger] old(self)@.dom().contains(k) implies open_answered(
                old(self)@[k].state,
                self@[k].state,
                old(self).backend_calls()[k],
                self.backend_calls()[k],
            ) by {
                assert(keys@.contains(k));
                let j = choose|j: int| 0 <= j < keys@.len() && keys@[j] == k;
                assert(keys@[j] == k);
            }
        }
        Ok(())
    }

    /// Closes every device, ignoring those that refuse.
    pub fn close_all(&mut self)
        requires
            old(self).wf(),
        ensures
            final(self).wf(),
            same_devices(final(self)@, old(self)@),
            final(self).sent() == old(self).sent(),
            final(self).backend_calls().dom() == old(self).backend_calls().dom(),
            forall|k: u64| #[trigger]
                old(self)@.dom().contains(k) ==> close_answered(
                    old(self)@[k].state,
                    final(self)@[k].state,
                    old(self).backend_calls()[k],
                    final(self).backend_calls()[k],
                ),
    {
        let keys = slots_keys(&self.devices);
        let mut j: usize = keys.len();
        while j > 0
            invariant
                self.wf(),
                same_devices(self@, old(self)@),
                self.sent() == old(self).sent(),
                self.backend_calls().dom() == old(self).backend_calls().dom(),
                self@.dom() == self.backend_calls().dom(),
                old(self)@.dom() == old(self).backend_calls().dom(),
                j <= keys@.len(),
                keys@.no_duplicates(),
                forall|x: int| 0 <= x < keys@.len() ==> old(self)@.dom().contains(#[trigger] keys@[x]),
                forall|k: u64| old(self)@.dom().contains(k) ==> keys@.contains(k),
                forall|x: int| 0 <= x < keys@.len() ==> canonical_key(#[trigger] keys@[x]) == keys@[x],
                forall|x: int|
                    j <= x < keys@.len() ==> close_answered(
                        old(self)@[#[trigger] keys@[x]].state,
                        self@[keys@[x]].state,
                        old(self).backend_calls()[keys@[x]],
                        self.backend_calls()[keys@[x]],
                    ),
                forall|x: int|
                    0 <= x < j ==> self@[#[trigger] keys@[x]].state == old(self)@[keys@[x]].state
                        && self.backend_calls()[keys@[x]] == old(self).backend_calls()[keys@[x]],
            decreases j,
        {
            j = j - 1;
            let k = keys[j];
            let ghost before_calls = self.backend_calls();
            let result = self.close_one(k);
            proof {
                let s0 = old(self)@[k].state;
                if flags_up(s0) {
                    assert(old(self).backend_calls()[k].push(BackendCall::Close { result }) == self.backend_calls()[k]);
                }
                assert forall|x: int| j <= x < keys@.len() implies close_answered(
                    old(self)@[#[trigger] keys@[x]].state,
                    self@[keys@[x]].state,
                    old(self).backend_calls()[keys@[x]],
                    self.backend_calls()[keys@[x]],
                ) by {
                    if x > j {
                        assert(keys@[x] != k);
                    }
                }
                assert forall|x: int| 0 <= x < j implies self@[#[trigger] keys@[x]].state == old(self)@[keys@[x]].state
                    && self.backend_calls()[keys@[x]] == old(self).backend_calls()[keys@[x]] by {
                    assert(keys@[x] != k);
                }
            }
        }
        proof {
            assert forall|k: u64| #[trigger] old(self)@.dom().contains(k) implies close_answered(
                old(self)@[k].state,
                self@[k].state,
                old(self).backend_calls()[k],
                self.backend_calls()[k],
            ) by {
                assert(keys@.contains(k));
                let x = choose|x: int| 0 <= x < keys@.len() && keys@[x] == k;
                assert(keys@[x] == k);
            }
        }
    }
}

} // verus!
