use vstd::prelude::*;

use crate::device::backend::DeviceBackend;
use crate::device::queue::InputQueue;
use crate::device::registry::destination_view;
use crate::device::{BackendCall, DeviceError};

verus! {

/// A device that accepts every frame and delivers none.
pub struct DummyDevice {
    calls: Ghost<Seq<BackendCall>>,
}

impl DummyDevice {
    /// A dummy device that has answered no call yet.
    pub fn new() -> (r: DummyDevice)
        ensures
            r.calls() == Seq::<BackendCall>::empty(),
    {
        DummyDevice { calls: Ghost(Seq::empty()) }
    }
}

impl Default for DummyDevice {
    fn default() -> (r: DummyDevice)
        ensures
            r.calls() == Seq::<BackendCall>::empty(),
    {
        DummyDevice::new()
    }
}

impl DeviceBackend for DummyDevice {
    closed spec fn calls(&self) -> Seq<BackendCall> {
        self.calls@
    }

    fn open(&mut self) -> (r: Result<(), DeviceError>)
        ensures
            r is Ok,
    {
        proof {
            self.calls@ = self.calls@.push(BackendCall::Open { result: Ok(()) });
        }
        Ok(())
    }

    fn close(&mut self) -> (r: Result<(), DeviceError>)
        ensures
            r is Ok,
    {
        proof {
            self.calls@ = self.calls@.push(BackendCall::Close { result: Ok(()) });
        }
        Ok(())
    }

    fn output(&mut self, frame_type: u16, data: &[u8], dst: Option<&[u8]>, queue: &mut InputQueue) -> (r:
        Result<(), DeviceError>)
        ensures
            r is Ok,
            final(queue)@ == old(queue)@,
    {
        proof {
            self.calls@ = self.calls@.push(
                BackendCall::Output { frame_type, data: data@, destination: destination_view(dst), result: Ok(()) },
            );
        }
        Ok(())
    }

    fn input(&mut self, queue: &mut InputQueue) -> (r: Result<(), DeviceError>)
        ensures
            r is Ok,
            final(queue)@ == old(queue)@,
    {
        proof {
            self.calls@ = self.calls@.push(BackendCall::Input { result: Ok(()) });
        }
        Ok(())
    }
}

} // verus!
