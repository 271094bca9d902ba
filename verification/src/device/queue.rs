use std::collections::VecDeque;
use vstd::prelude::*;

use crate::device::key::DeviceKey;
use crate::protocol::wire::copy_range;

verus! {

/// An owned frame waiting for processing outside device input context.
#[derive(Debug, PartialEq, Eq)]
pub struct ReceivedFrame {
    device: DeviceKey,
    frame_type: u16,
    data: Vec<u8>,
}

/// What a [`ReceivedFrame`] holds.
pub struct ReceivedFrameView {
    pub device: DeviceKey,
    pub frame_type: u16,
    pub data: Seq<u8>,
}

impl View for ReceivedFrame {
    type V = ReceivedFrameView;

    closed spec fn view(&self) -> ReceivedFrameView {
        ReceivedFrameView { device: self.device, frame_type: self.frame_type, data: self.data@ }
    }
}

impl ReceivedFrame {
    /// A frame of `frame_type` received on `device`, with a copy of `data`.
    pub fn new(device: DeviceKey, frame_type: u16, data: &[u8]) -> (r: ReceivedFrame)
        ensures
            r@ == (ReceivedFrameView { device, frame_type, data: data@ }),
    {
        let copy = copy_range(data, 0, data.len());
        assert(data@.subrange(0, data@.len() as int) =~= data@);
        ReceivedFrame { device, frame_type, data: copy }
    }

    pub fn device(&self) -> (r: DeviceKey)
        ensures
            r == self@.device,
    {
        self.device
    }

    pub fn frame_type(&self) -> (r: u16)
        ensures
            r == self@.frame_type,
    {
        self.frame_type
    }

    pub fn data(&self) -> (r: &[u8])
        ensures
            r@ == self@.data,
    {
        self.data.as_slice()
    }
}

/// The queue of received frames, oldest first.
#[derive(Debug)]
pub struct InputQueueInner {
    frames: VecDeque<ReceivedFrame>,
}

/// The input queue shared by the stack and its devices.
pub type InputQueue = InputQueueInner;

impl View for InputQueueInner {
    type V = Seq<ReceivedFrameView>;

    closed spec fn view(&self) -> Seq<ReceivedFrameView> {
        self.frames@.map_values(|f: ReceivedFrame| f@)
    }
}

impl InputQueueInner {
    pub fn new() -> (r: InputQueueInner)
        ensures
            r@ == Seq::<ReceivedFrameView>::empty(),
    {
        let r = InputQueueInner { frames: VecDeque::new() };
        assert(r@ =~= Seq::<ReceivedFrameView>::empty());
        r
    }

    /// Queues `frame` behind every frame already waiting.
    pub fn push(&mut self, frame: ReceivedFrame)
        ensures
            final(self)@ == old(self)@.push(frame@),
    {
        let ghost f = frame@;
        self.frames.push_back(frame);
        assert(self@ =~= old(self)@.push(f));
    }

    /// Takes the oldest waiting frame.
    pub fn pop(&mut self) -> (r: Option<ReceivedFrame>)
        ensures
            old(self)@.len() == 0 ==> r is None && final(self)@ == old(self)@,
            old(self)@.len() > 0 ==> (r matches Some(f) && f@ == old(self)@[0] && final(self)@
                == old(self)@.drop_first()),
    {
        let r = self.frames.pop_front();
        proof {
            if old(self)@.len() > 0 {
                assert(self@ =~= old(self)@.drop_first());
            }
        }
        r
    }

    /// The number of waiting frames.
    pub fn len(&self) -> (r: usize)
        ensures
            r == self@.len(),
    {
        self.frames.len()
    }
}

impl Default for InputQueueInner {
    fn default() -> (r: InputQueueInner)
        ensures
            r@ == Seq::<ReceivedFrameView>::empty(),
    {
        InputQueueInner::new()
    }
}

/// Frames leave the queue in the order they entered it.
pub proof fn lemma_queue_is_fifo(q: Seq<ReceivedFrameView>, f: ReceivedFrameView)
    ensures
        q.len() > 0 ==> q.push(f)[0] == q[0] && q.push(f).drop_first() == q.drop_first().push(f),
        q.len() == 0 ==> q.push(f)[0] == f && q.push(f).drop_first() == q,
{
    if q.len() > 0 {
        assert(q.push(f).drop_first() =~= q.drop_first().push(f));
    } else {
        assert(q.push(f).drop_first() =~= q);
    }
}

} // verus!
