use vstd::prelude::*;

use crate::device::backend::DeviceBackend;
use crate::device::key::DeviceKey;
use crate::device::queue::{InputQueue, ReceivedFrame, ReceivedFrameView};
use crate::device::registry::destination_view;
use crate::device::{BackendCall, DeviceError};

verus! {

/// A device whose output comes back as its input.
pub struct LoopbackDevice {
    device_key: Option<DeviceKey>,
    calls: Ghost<Seq<BackendCall>>,
}

impl LoopbackDevice {
    pub closed spec fn spec_device_key(&self) -> Option<DeviceKey> {
        self.device_key
    }

    pub fn new() -> (r: LoopbackDevice)
        ensures
            r.spec_device_key() is None,
            r.calls() == Seq::<BackendCall>::empty(),
    {
        LoopbackDevice { device_key: None, calls: Ghost(Seq::empty()) }
    }

    /// Queues a frame as received on this device; refused while the device
    /// has no key.
    fn input_frame(&mut self, frame_type: u16, data: &[u8], queue: &mut InputQueue) -> (r: Result<(), DeviceError>)
        ensures
            final(self).spec_device_key() == old(self).spec_device_key(),
            final(self).calls@ == old(self).calls@,
            match old(self).spec_device_key() {
                Some(k) => r is Ok && final(queue)@ == old(queue)@.push(
                    ReceivedFrameView { device: k, frame_type, data: data@ },
                ),
                None => r == Err::<(), DeviceError>(DeviceError::MissingDeviceKey) && final(queue)@
                    == old(queue)@,
            },
    {
        let device = match self.device_key {
            Some(k) => k,
            None => {
                return Err(DeviceError::MissingDeviceKey);
            },
        };
        queue.push(ReceivedFrame::new(device, frame_type, data));
        Ok(())
    }
}

impl Default for LoopbackDevice {
    fn default() -> (r: LoopbackDevice)
        ensures
            r.spec_device_key() is None,
            r.calls() == Seq::<BackendCall>::empty(),
    {
        LoopbackDevice::new()
    }
}

impl DeviceBackend for LoopbackDevice {
    closed spec fn calls(&self) -> Seq<BackendCall> {
        self.calls@
    }

    fn open(&mut self) -> (r: Result<(), DeviceError>)
        ensures
            r is Ok,
            final(self).spec_device_key() == old(self).spec_device_key(),
    {
        proof {
            self.calls@ = self.calls@.push(BackendCall::Open { result: Ok(()) });
        }
        Ok(())
    }

    fn close(&mut self) -> (r: Result<(), DeviceError>)
        ensures
            r is Ok,
            final(self).spec_device_key() == old(self).spec_device_key(),
    {
        proof {
            self.calls@ = self.calls@.push(BackendCall::Close { result: Ok(()) });
        }
        Ok(())
    }

    fn input(&mut self, queue: &mut InputQueue) -> (r: Result<(), DeviceError>)
        ensures
            r is Ok,
            final(queue)@ == old(queue)@,
            final(self).spec_device_key() == old(self).spec_device_key(),
    {
        proof {
            self.calls@ = self.calls@.push(BackendCall::Input { result: Ok(()) });
        }
        Ok(())
    }

    fn set_device_key(&mut self, device: DeviceKey)
        ensures
            final(self).spec_device_key() == Some(device),
    {
        self.device_key = Some(device);
    }

    fn output(&mut self, frame_type: u16, data: &[u8], dst: Option<&[u8]>, queue: &mut InputQueue) -> (r:
        Result<(), DeviceError>)
        ensures
            match old(self).spec_device_key() {
                Some(k) => r is Ok && final(queue)@ == old(queue)@.push(
                    ReceivedFrameView { device: k, frame_type, data: data@ },
                ),
                None => r == Err::<(), DeviceError>(DeviceError::MissingDeviceKey) && final(queue)@
                    == old(queue)@,
            },
    {
        let r = self.input_frame(frame_type, data, queue);
        proof {
            self.calls@ = self.calls@.push(
                BackendCall::Output { frame_type, data: data@, destination: destination_view(dst), result: r },
            );
        }
        r
    }
}

} // verus!
