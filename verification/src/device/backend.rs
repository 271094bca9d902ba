use vstd::prelude::*;

use crate::device::key::DeviceKey;
use crate::device::queue::InputQueue;
use crate::device::registry::destination_view;
use crate::device::{BackendCall, DeviceError};
use crate::protocol::ethernet::MacAddr;

verus! {

/// What moves a device's frames: a driver implements this. Each call that
/// moves frames or changes the driver's state is answered, and the driver
/// keeps the record of those calls with their answers, oldest first, that
/// [`DeviceBackend::calls`] names.
pub trait DeviceBackend {
    /// The calls this driver has answered, with their answers, oldest
    /// first. The empty record here only stands for drivers that are not
    /// checked against the contracts below: a driver that is checked
    /// cannot meet them without keeping a record of its own.
    open spec fn calls(&self) -> Seq<BackendCall> {
        Seq::empty()
    }

    /// Brings the driver up.
    fn open(&mut self) -> (r: Result<(), DeviceError>)
        ensures
            final(self).calls() == old(self).calls().push(BackendCall::Open { result: r }),
    ;

    /// Takes the driver down.
    fn close(&mut self) -> (r: Result<(), DeviceError>)
        ensures
            final(self).calls() == old(self).calls().push(BackendCall::Close { result: r }),
    ;

    /// Tells the driver the key its device got.
    fn set_device_key(&mut self, device: DeviceKey)
        ensures
            final(self).calls() == old(self).calls(),
    {
    }

    /// The hardware address of the device, if it has one.
    fn hardware_address(&self) -> (r: Option<MacAddr>) {
        None
    }

    /// Sends a frame; a backend that loops frames back queues them on `queue`.
    fn output(&mut self, frame_type: u16, data: &[u8], dst: Option<&[u8]>, queue: &mut InputQueue) -> (r:
        Result<(), DeviceError>)
        ensures
            final(self).calls() == old(self).calls().push(
                BackendCall::Output { frame_type, data: data@, destination: destination_view(dst), result: r },
            ),
    ;

    /// Reads available frames from the device and queues them on `queue`.
    fn input(&mut self, queue: &mut InputQueue) -> (r: Result<(), DeviceError>)
        ensures
            final(self).calls() == old(self).calls().push(BackendCall::Input { result: r }),
    ;
}

} // verus!
