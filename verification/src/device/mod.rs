pub mod backend;
pub mod key;
pub mod queue;
pub mod registry;

use vstd::prelude::*;

use crate::device::backend::DeviceBackend;
use crate::device::key::DeviceKey;
use crate::device::queue::InputQueue;
use crate::protocol::ethernet::MacAddr;
use crate::device::registry::destination_view;

verus! {

/// The kinds of network device.
#[derive(Debug, Clone, Copy, PartialEq, Eq, Structural)]
pub enum DeviceKind {
    Dummy,
    Loopback,
    Ethernet,
}

/// The device is up.
pub const DEVICE_FLAG_UP: u16 = 0x0001;

/// The device loops frames back.
pub const DEVICE_FLAG_LOOPBACK: u16 = 0x0010;

/// The device can broadcast.
pub const DEVICE_FLAG_BROADCAST: u16 = 0x0020;

/// The device is a point-to-point link.
pub const DEVICE_FLAG_POINT_TO_POINT: u16 = 0x0040;

/// The device needs address resolution.
pub const DEVICE_FLAG_NEED_ARP: u16 = 0x0100;

/// The state flags of a device.
#[derive(Debug, Clone, Copy, PartialEq, Eq, Hash, Structural)]
pub struct DeviceFlags {
    pub bits: u16,
}

impl DeviceFlags {
    pub fn empty() -> (r: DeviceFlags)
        ensures
            r.bits == 0,
    {
        DeviceFlags { bits: 0 }
    }

    pub fn up() -> (r: DeviceFlags)
        ensures
            r.bits == DEVICE_FLAG_UP,
    {
        DeviceFlags { bits: DEVICE_FLAG_UP }
    }

    /// Every flag of `other` is set.
    pub fn contains(&self, other: DeviceFlags) -> (r: bool)
        ensures
            r == (self.bits & other.bits == other.bits),
    {
        self.bits & other.bits == other.bits
    }

    /// Sets the flags of `other`.
    pub fn insert(&mut self, other: DeviceFlags)
        ensures
            final(self).bits == old(self).bits | other.bits,
    {
        self.bits = self.bits | other.bits;
    }

    /// Clears the flags of `other`.
    pub fn remove(&mut self, other: DeviceFlags)
        ensures
            final(self).bits == old(self).bits & !other.bits,
    {
        self.bits = self.bits & !other.bits;
    }
}

impl Default for DeviceFlags {
    fn default() -> (r: DeviceFlags)
        ensures
            r.bits == 0,
    {
        DeviceFlags::empty()
    }
}

/// The name, kind and MTU of a device.
#[derive(Debug, Clone, PartialEq, Eq)]
pub struct DeviceMeta {
    name: String,
    kind: DeviceKind,
    mtu: usize,
}

impl DeviceMeta {
    pub closed spec fn spec_name(&self) -> Seq<char> {
        self.name@
    }

    pub closed spec fn spec_kind(&self) -> DeviceKind {
        self.kind
    }

    pub closed spec fn spec_mtu(&self) -> usize {
        self.mtu
    }

    pub fn new(name: &str, kind: DeviceKind, mtu: usize) -> (r: DeviceMeta)
        ensures
            r.spec_name() == name@,
            r.spec_kind() == kind,
            r.spec_mtu() == mtu,
    {
        DeviceMeta { name: name.to_owned(), kind, mtu }
    }

    pub fn name(&self) -> (r: &str)
        ensures
            r@ == self.spec_name(),
    {
        self.name.as_str()
    }

    pub fn kind(&self) -> (r: DeviceKind)
        ensures
            r == self.spec_kind(),
    {
        self.kind
    }

    pub fn mtu(&self) -> (r: usize)
        ensures
            r == self.spec_mtu(),
    {
        self.mtu
    }
}

/// Whether a device is up, and its other flags.
#[derive(Debug, Clone, Copy, PartialEq, Eq, Structural)]
pub struct DeviceState {
    flags: DeviceFlags,
}

impl View for DeviceState {
    type V = u16;

    closed spec fn view(&self) -> u16 {
        self.flags.bits
    }
}

/// The flag bits say the device is up.
pub open spec fn flags_up(bits: u16) -> bool {
    bits & DEVICE_FLAG_UP == DEVICE_FLAG_UP
}

impl DeviceState {
    /// A state with no flag set: the device is down.
    pub fn new() -> (r: DeviceState)
        ensures
            r@ == 0,
    {
        DeviceState { flags: DeviceFlags::empty() }
    }

    pub fn is_up(&self) -> (r: bool)
        ensures
            r == flags_up(self@),
    {
        self.flags.contains(DeviceFlags::up())
    }

    /// Marks the device up, leaving the other flags as they were.
    pub fn up(&mut self)
        ensures
            final(self)@ == old(self)@ | DEVICE_FLAG_UP,
    {
        self.flags.insert(DeviceFlags::up());
    }

    /// Marks the device down, leaving the other flags as they were.
    pub fn down(&mut self)
        ensures
            final(self)@ == old(self)@ & !DEVICE_FLAG_UP,
    {
        self.flags.remove(DeviceFlags::up());
    }
}

impl Default for DeviceState {
    fn default() -> (r: DeviceState)
        ensures
            r@ == 0,
    {
        DeviceState::new()
    }
}

/// Bringing a device up makes it up, bringing it down makes it down, and
/// neither touches another flag.
pub proof fn lemma_up_down(bits: u16)
    ensures
        flags_up(bits | DEVICE_FLAG_UP),
        !flags_up(bits & !DEVICE_FLAG_UP),
        (bits | DEVICE_FLAG_UP) & !DEVICE_FLAG_UP == bits & !DEVICE_FLAG_UP,
        (bits & !DEVICE_FLAG_UP) | DEVICE_FLAG_UP == bits | DEVICE_FLAG_UP,
        !flags_up(0),
{
    assert(flags_up(bits | DEVICE_FLAG_UP)) by (bit_vector);
    assert(!flags_up(bits & !DEVICE_FLAG_UP)) by (bit_vector);
    assert((bits | DEVICE_FLAG_UP) & !DEVICE_FLAG_UP == bits & !DEVICE_FLAG_UP) by (bit_vector);
    assert((bits & !DEVICE_FLAG_UP) | DEVICE_FLAG_UP == bits | DEVICE_FLAG_UP) by (bit_vector);
    assert(!flags_up(0)) by (bit_vector);
}

/// Errors of device operations.
#[derive(Debug, Clone, PartialEq, Eq)]
pub enum DeviceError {
    AlreadyOpen,
    NotOpen,
    MissingDeviceKey,
    InputIrq,
    Backend { message: String },
    MissingDestination,
    InvalidDestination { len: usize },
    PayloadTooLarge { mtu: usize, len: usize },
}

/// A call that a device made to its backend, with the backend's answer.
pub enum BackendCall {
    Open { result: Result<(), DeviceError> },
    Close { result: Result<(), DeviceError> },
    Output { frame_type: u16, data: Seq<u8>, destination: Option<Seq<u8>>, result: Result<(), DeviceError> },
    Input { result: Result<(), DeviceError> },
}

/// A network device: its metadata and state, and the backend that moves
/// its frames.
pub struct Device {
    backend: Box<dyn DeviceBackend>,
    device_key: Option<DeviceKey>,
    meta: DeviceMeta,
    state: DeviceState,
}

impl Device {
    /// The calls that the backend answered so far, with its answers,
    /// oldest first.
    pub closed spec fn backend_calls(&self) -> Seq<BackendCall> {
        self.backend.calls()
    }

    pub closed spec fn spec_meta(&self) -> DeviceMeta {
        self.meta
    }

    pub closed spec fn spec_state(&self) -> u16 {
        self.state@
    }

    pub closed spec fn spec_device_key(&self) -> Option<DeviceKey> {
        self.device_key
    }

    /// A device that is down and has no key yet.
    pub fn new(meta: DeviceMeta, backend: Box<dyn DeviceBackend>) -> (r: Device)
        ensures
            r.spec_meta() == meta,
            r.spec_state() == 0,
            r.spec_device_key() is None,
    {
        Device { backend, device_key: None, meta, state: DeviceState::new() }
    }

    pub fn meta(&self) -> (r: &DeviceMeta)
        ensures
            *r == self.spec_meta(),
    {
        &self.meta
    }

    pub fn state(&self) -> (r: &DeviceState)
        ensures
            r@ == self.spec_state(),
    {
        &self.state
    }

    pub fn device_key(&self) -> (r: Option<DeviceKey>)
        ensures
            r == self.spec_device_key(),
    {
        self.device_key
    }

    /// The hardware address the backend reports, if any.
    pub fn hardware_address(&self) -> (r: Option<MacAddr>) {
        self.backend.hardware_address()
    }

    /// Opens the device: refused when it is already up; otherwise the
    /// backend is opened, its answer is the result, and the device is up
    /// exactly when that answer is `Ok`.
    pub fn open(&mut self) -> (r: Result<(), DeviceError>)
        ensures
            flags_up(old(self).spec_state()) ==> r == Err::<(), DeviceError>(DeviceError::AlreadyOpen)
                && final(self).spec_state() == old(self).spec_state(),
            !flags_up(old(self).spec_state()) && r is Ok ==> final(self).spec_state() == old(self).spec_state() | DEVICE_FLAG_UP,
            r is Err ==> final(self).spec_state() == old(self).spec_state(),
            final(self).spec_meta() == old(self).spec_meta(),
            final(self).spec_device_key() == old(self).spec_device_key(),
            final(self).backend_calls() == if flags_up(old(self).spec_state()) {
                old(self).backend_calls()
            } else {
                old(self).backend_calls().push(BackendCall::Open { result: r })
            },
    {
        if self.state.is_up() {
            return Err(DeviceError::AlreadyOpen);
        }
        let r = self.backend.open();
        if r.is_ok() {
            self.state.up();
        }
        r
    }

    /// Records the key the registry gave the device, and tells the backend.
    pub fn set_device_key(&mut self, device: DeviceKey)
        ensures
            final(self).spec_device_key() == Some(device),
            final(self).spec_meta() == old(self).spec_meta(),
            final(self).spec_state() == old(self).spec_state(),
            final(self).backend_calls() == old(self).backend_calls(),
    {
        self.device_key = Some(device);
        self.backend.set_device_key(device);
    }

    /// Closes the device: refused when it is not up; otherwise the backend
    /// is closed, its answer is the result, and the device is down exactly
    /// when that answer is `Ok`.
    pub fn close(&mut self) -> (r: Result<(), DeviceError>)
        ensures
            !flags_up(old(self).spec_state()) ==> r == Err::<(), DeviceError>(DeviceError::NotOpen)
                && final(self).spec_state() == old(self).spec_state(),
            flags_up(old(self).spec_state()) && r is Ok ==> final(self).spec_state() == old(self).spec_state() & !DEVICE_FLAG_UP,
            r is Err ==> final(self).spec_state() == old(self).spec_state(),
            final(self).spec_meta() == old(self).spec_meta(),
            final(self).spec_device_key() == old(self).spec_device_key(),
            final(self).backend_calls() == if flags_up(old(self).spec_state()) {
                old(self).backend_calls().push(BackendCall::Close { result: r })
            } else {
                old(self).backend_calls()
            },
    {
        if !self.state.is_up() {
            return Err(DeviceError::NotOpen);
        }
        let r = self.backend.close();
        if r.is_ok() {
            self.state.down();
        }
        r
    }

    /// Sends a frame: refused when the device is down or `data` exceeds the
    /// MTU; otherwise the frame is handed to the backend, whose answer is
    /// the result.
    pub fn output(&mut self, frame_type: u16, data: &[u8], dst: Option<&[u8]>, queue: &mut InputQueue) -> (r: Result<(), DeviceError>)
        ensures
            !flags_up(old(self).spec_state()) ==> r == Err::<(), DeviceError>(DeviceError::NotOpen),
            flags_up(old(self).spec_state()) && data@.len() > old(self).spec_meta().spec_mtu()
                ==> r == Err::<(), DeviceError>(
                DeviceError::PayloadTooLarge { mtu: old(self).spec_meta().spec_mtu(), len: data@.len() as usize },
            ),
            !flags_up(old(self).spec_state()) || data@.len() > old(self).spec_meta().spec_mtu()
                ==> final(queue)@ == old(queue)@,
            final(self).backend_calls() == if flags_up(old(self).spec_state()) && data@.len()
                <= old(self).spec_meta().spec_mtu() {
                old(self).backend_calls().push(
                    BackendCall::Output {
                        frame_type,
                        data: data@,
                        destination: destination_view(dst),
                        result: r,
                    },
                )
            } else {
                old(self).backend_calls()
            },
            final(self).spec_state() == old(self).spec_state(),
            final(self).spec_meta() == old(self).spec_meta(),
            final(self).spec_device_key() == old(self).spec_device_key(),
    {
        if !self.state.is_up() {
            return Err(DeviceError::NotOpen);
        }
        if data.len() > self.meta.mtu() {
            return Err(DeviceError::PayloadTooLarge { mtu: self.meta.mtu(), len: data.len() });
        }
        self.backend.output(frame_type, data, dst, queue)
    }

    /// Lets the backend queue the frames it has received: refused when the
    /// device is down; otherwise the backend's answer.
    pub fn input(&mut self, queue: &mut InputQueue) -> (r: Result<(), DeviceError>)
        ensures
            !flags_up(old(self).spec_state()) ==> r == Err::<(), DeviceError>(DeviceError::NotOpen)
                && final(queue)@ == old(queue)@,
            final(self).backend_calls() == if flags_up(old(self).spec_state()) {
                old(self).backend_calls().push(BackendCall::Input { result: r })
            } else {
                old(self).backend_calls()
            },
            final(self).spec_state() == old(self).spec_state(),
            final(self).spec_meta() == old(self).spec_meta(),
            final(self).spec_device_key() == old(self).spec_device_key(),
    {
        if !self.state.is_up() {
            return Err(DeviceError::NotOpen);
        }
        self.backend.input(queue)
    }
}

} // verus!
