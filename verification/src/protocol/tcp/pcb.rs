use std::collections::VecDeque;
use vstd::prelude::*;

use crate::protocol::ipv4::addr::{Ipv4Addr, Ipv4Endpoint};
use crate::protocol::tcp::header::{flags_contain, TcpFlags, TCP_ACK, TCP_FIN, TCP_RST, TCP_SYN};
use crate::protocol::tcp::retrans::{
    retrans_any_expired, retrans_cleanup, retrans_due_entries, retrans_new, retrans_step, Retrans,
    RetransInfo, RetransQueue, RetransView,
};
use crate::protocol::tcp::{TcpPcbKey, TcpState};

verus! {

/// The receive window a connection starts with.
pub const RECEIVE_WINDOW_SIZE: u16 = 65535;

/// How long a connection stays in TIME-WAIT, in seconds.
pub const TIME_WAIT_SECONDS: u64 = 30;

/// An arriving segment, as the state machine sees it.
#[derive(Debug, Clone, Copy, PartialEq, Eq)]
pub struct TcpSegment<'a> {
    pub seq: u32,
    pub ack: u32,
    /// The sequence space the segment occupies: its payload, and one for
    /// each of SYN and FIN.
    pub length: u32,
    pub window: u16,
    pub flags: TcpFlags,
    pub data: &'a [u8],
}

/// What a [`TcpSegment`] holds.
pub struct TcpSegmentView {
    pub seq: u32,
    pub ack: u32,
    pub length: u32,
    pub window: u16,
    pub flags: u8,
    pub data: Seq<u8>,
}

impl<'a> View for TcpSegment<'a> {
    type V = TcpSegmentView;

    open spec fn view(&self) -> TcpSegmentView {
        TcpSegmentView {
            seq: self.seq,
            ack: self.ack,
            length: self.length,
            window: self.window,
            flags: self.flags@,
            data: self.data@,
        }
    }
}

/// The segment to send in answer to an arriving one.
#[derive(Debug, Clone, Copy, PartialEq, Eq, Structural)]
pub enum TcpResponse {
    /// A segment with these flags and the connection's own numbers.
    FromPcb(TcpFlags),
    /// A reset with the given numbers.
    Reset { seq: u32, ack: u32 },
}

/// What the owner of the connection must do after a segment arrived.
#[derive(Debug, Clone, Copy, PartialEq, Eq, Structural)]
pub enum TcpPcbEvent {
    Nothing,
    /// A listener received a SYN: a child connection is to be made.
    AcceptSyn { seq: u32 },
    /// The connection has just become established.
    Established,
    /// The connection is to be removed.
    Close,
}

/// The answer to an arriving segment.
#[derive(Debug, Clone, Copy, PartialEq, Eq, Structural)]
pub struct TcpPcbAction {
    pub response: Option<TcpResponse>,
    pub event: TcpPcbEvent,
}

/// The outcome of processing an acknowledgment number.
#[derive(Debug, Clone, Copy, PartialEq, Eq, Structural)]
pub enum TcpAckResult {
    Accepted,
    Old,
    TooNew,
    Unchanged,
    Ignored,
}

/// A TCP protocol control block: the state of one connection.
#[derive(Debug)]
pub struct TcpPcb {
    state: TcpState,
    local: Ipv4Endpoint,
    remote: Ipv4Endpoint,
    iss: u32,
    snd_nxt: u32,
    snd_una: u32,
    rcv_nxt: u32,
    rcv_wnd: u16,
    snd_wnd: u16,
    snd_wl1: u32,
    snd_wl2: u32,
    mss: usize,
    receive_buffer: VecDeque<u8>,
    retrans_queue: RetransQueue,
    time_wait_until: Option<u64>,
    parent: Option<TcpPcbKey>,
    backlog: VecDeque<TcpPcbKey>,
    backlog_max: usize,
}

/// What a [`TcpPcb`] holds.
pub struct TcpPcbView {
    pub state: TcpState,
    pub local: Ipv4Endpoint,
    pub remote: Ipv4Endpoint,
    pub iss: u32,
    pub snd_nxt: u32,
    pub snd_una: u32,
    pub rcv_nxt: u32,
    pub rcv_wnd: u16,
    pub snd_wnd: u16,
    pub snd_wl1: u32,
    pub snd_wl2: u32,
    pub mss: usize,
    pub receive_buffer: Seq<u8>,
    pub retrans: Seq<RetransView>,
    pub time_wait_until: Option<u64>,
    pub parent: Option<TcpPcbKey>,
    pub backlog: Seq<TcpPcbKey>,
    pub backlog_max: usize,
}

impl View for TcpPcb {
    type V = TcpPcbView;

    closed spec fn view(&self) -> TcpPcbView {
        TcpPcbView {
            state: self.state,
            local: self.local,
            remote: self.remote,
            iss: self.iss,
            snd_nxt: self.snd_nxt,
            snd_una: self.snd_una,
            rcv_nxt: self.rcv_nxt,
            rcv_wnd: self.rcv_wnd,
            snd_wnd: self.snd_wnd,
            snd_wl1: self.snd_wl1,
            snd_wl2: self.snd_wl2,
            mss: self.mss,
            receive_buffer: self.receive_buffer@,
            retrans: self.retrans_queue@,
            time_wait_until: self.time_wait_until,
            parent: self.parent,
            backlog: self.backlog@,
            backlog_max: self.backlog_max,
        }
    }
}

/// The unspecified endpoint `0.0.0.0:0`.
pub open spec fn unspecified() -> Ipv4Endpoint {
    Ipv4Endpoint::spec_new(Ipv4Addr::spec_from_seq(seq![0u8, 0, 0, 0]), 0)
}

/// A fresh control block: closed, unbound, with nothing queued.
pub open spec fn tcp_fresh_view() -> TcpPcbView {
    TcpPcbView {
        state: TcpState::Closed,
        local: unspecified(),
        remote: unspecified(),
        iss: 0,
        snd_nxt: 0,
        snd_una: 0,
        rcv_nxt: 0,
        rcv_wnd: 0,
        snd_wnd: 0,
        snd_wl1: 0,
        snd_wl2: 0,
        mss: 0,
        receive_buffer: Seq::empty(),
        retrans: Seq::empty(),
        time_wait_until: None,
        parent: None,
        backlog: Seq::empty(),
        backlog_max: 0,
    }
}

/// The control block is fresh.
pub open spec fn pcb_fresh(p: TcpPcbView) -> bool {
    p == tcp_fresh_view()
}

/// Keeps every key but `key`.
pub open spec fn other_than(key: TcpPcbKey) -> spec_fn(TcpPcbKey) -> bool {
    |k: TcpPcbKey| k != key
}

/// An answer that sends a segment with `bits` and changes nothing else.
pub open spec fn respond_with(bits: u8) -> TcpPcbAction {
    TcpPcbAction { response: Some(TcpResponse::FromPcb(TcpFlags { bits })), event: TcpPcbEvent::Nothing }
}

/// An answer that does nothing.
pub open spec fn no_action() -> TcpPcbAction {
    TcpPcbAction { response: None, event: TcpPcbEvent::Nothing }
}

/// An answer that resets the peer.
pub open spec fn reset_action(seq: u32, ack: u32) -> TcpPcbAction {
    TcpPcbAction { response: Some(TcpResponse::Reset { seq, ack }), event: TcpPcbEvent::Nothing }
}

/// The state after `accept_syn`: a listener's child that answered a SYN.
pub open spec fn pcb_accept_syn(
    p: TcpPcbView,
    local: Ipv4Endpoint,
    remote: Ipv4Endpoint,
    seq: u32,
    iss: u32,
) -> TcpPcbView {
    TcpPcbView {
        local,
        remote,
        iss,
        rcv_nxt: seq.wrapping_add(1),
        rcv_wnd: RECEIVE_WINDOW_SIZE,
        snd_nxt: iss.wrapping_add(1),
        snd_una: iss,
        state: TcpState::SynReceived,
        ..p
    }
}

/// The state after `connect`: a SYN has been sent.
pub open spec fn pcb_connect(p: TcpPcbView, local: Ipv4Endpoint, remote: Ipv4Endpoint, iss: u32) -> TcpPcbView {
    TcpPcbView {
        local,
        remote,
        iss,
        rcv_wnd: RECEIVE_WINDOW_SIZE,
        snd_nxt: iss.wrapping_add(1),
        snd_una: iss,
        state: TcpState::SynSent,
        ..p
    }
}

/// The state after a SYN-ACK arrived in SYN-SENT: the peer's sequence is
/// taken, and the connection is established when the ACK covers our SYN.
pub open spec fn pcb_accept_syn_ack(p: TcpPcbView, seq: u32, ack: u32, window: u16) -> TcpPcbView {
    let p1 = TcpPcbView { rcv_nxt: seq.wrapping_add(1), ..p };
    if p1.snd_una < ack && ack <= p1.snd_nxt {
        TcpPcbView {
            snd_una: ack,
            retrans: retrans_cleanup(p1.retrans, ack),
            snd_wnd: window,
            snd_wl1: seq,
            snd_wl2: ack,
            state: TcpState::Established,
            ..p1
        }
    } else {
        p1
    }
}

/// The state after a SYN arrived in SYN-SENT without an acceptable ACK.
pub open spec fn pcb_accept_simultaneous_syn(p: TcpPcbView, seq: u32) -> TcpPcbView {
    TcpPcbView { rcv_nxt: seq.wrapping_add(1), state: TcpState::SynReceived, ..p }
}

/// A segment at `seq` occupying `length` sequence numbers falls within the
/// receive window (RFC 793, "segment acceptance").
pub open spec fn pcb_accept_segment(p: TcpPcbView, seq: u32, length: u32) -> bool {
    let window_end = p.rcv_nxt.wrapping_add(p.rcv_wnd as u32);
    if length == 0 {
        if p.rcv_wnd == 0 {
            seq == p.rcv_nxt
        } else {
            p.rcv_nxt <= seq && seq < window_end
        }
    } else if p.rcv_wnd == 0 {
        false
    } else {
        let last = seq.wrapping_add((length - 1) as u32);
        (p.rcv_nxt <= seq && seq < window_end) || (p.rcv_nxt <= last && last < window_end)
    }
}

/// The states in which an acknowledgment is processed.
pub open spec fn ack_processing_state(s: TcpState) -> bool {
    s == TcpState::SynReceived || s == TcpState::Established || s == TcpState::CloseWait || s
        == TcpState::FinWait1 || s == TcpState::FinWait2 || s == TcpState::Closing
}

/// The state and outcome after processing the acknowledgment `ack` of a
/// segment at `seq` advertising `window`.
pub open spec fn pcb_accept_ack(p: TcpPcbView, seq: u32, ack: u32, window: u16) -> (TcpPcbView, TcpAckResult) {
    if !ack_processing_state(p.state) {
        (p, TcpAckResult::Ignored)
    } else {
        let accepted = if p.state == TcpState::SynReceived {
            p.snd_una <= ack && ack <= p.snd_nxt
        } else {
            p.snd_una < ack && ack <= p.snd_nxt
        };
        if accepted {
            let p1 = TcpPcbView { snd_una: if ack > p.snd_una { ack } else { p.snd_una }, ..p };
            let p2 = if p1.snd_wl1 < seq || (p1.snd_wl1 == seq && p1.snd_wl2 <= ack) {
                TcpPcbView { snd_wnd: window, snd_wl1: seq, snd_wl2: ack, ..p1 }
            } else {
                p1
            };
            let p3 = if p2.state == TcpState::SynReceived {
                TcpPcbView { state: TcpState::Established, ..p2 }
            } else if p2.state == TcpState::FinWait1 && ack == p2.snd_nxt {
                TcpPcbView { state: TcpState::FinWait2, ..p2 }
            } else {
                p2
            };
            (TcpPcbView { retrans: retrans_cleanup(p3.retrans, p3.snd_una), ..p3 }, TcpAckResult::Accepted)
        } else if ack < p.snd_una {
            (p, TcpAckResult::Old)
        } else if p.snd_nxt < ack {
            (p, TcpAckResult::TooNew)
        } else {
            (p, TcpAckResult::Unchanged)
        }
    }
}

/// The TIME-WAIT deadline restarted from `timestamp`.
pub open spec fn pcb_restart_time_wait(p: TcpPcbView, timestamp: u64) -> TcpPcbView {
    TcpPcbView { time_wait_until: Some(timestamp.saturating_add(TIME_WAIT_SECONDS)), ..p }
}

/// The state after entering TIME-WAIT at `timestamp`.
pub open spec fn pcb_enter_time_wait(p: TcpPcbView, timestamp: u64) -> TcpPcbView {
    pcb_restart_time_wait(TcpPcbView { state: TcpState::TimeWait, ..p }, timestamp)
}

/// The state after a FIN at `seq` behind `payload_len` bytes of payload,
/// and whether the FIN was in sequence.
pub open spec fn pcb_accept_fin_at(p: TcpPcbView, seq: u32, payload_len: usize, timestamp: u64) -> (
    TcpPcbView,
    bool,
) {
    if p.rcv_nxt != seq.wrapping_add(payload_len as u32) {
        (p, false)
    } else {
        let p1 = TcpPcbView { rcv_nxt: p.rcv_nxt.wrapping_add(1), ..p };
        let p2 = if p1.state == TcpState::SynReceived || p1.state == TcpState::Established {
            TcpPcbView { state: TcpState::CloseWait, ..p1 }
        } else if p1.state == TcpState::FinWait2 {
            pcb_enter_time_wait(p1, timestamp)
        } else if p1.state == TcpState::TimeWait {
            pcb_restart_time_wait(p1, timestamp)
        } else {
            p1
        };
        (p2, true)
    }
}

/// The state after payload at `seq`, and whether it was taken: it must be
/// the next expected byte and fit in the receive window.
pub open spec fn pcb_accept_payload(p: TcpPcbView, seq: u32, payload: Seq<u8>) -> (TcpPcbView, bool) {
    if p.rcv_nxt != seq || (p.rcv_wnd as int) < payload.len() {
        (p, false)
    } else {
        (
            TcpPcbView {
                receive_buffer: p.receive_buffer + payload,
                rcv_nxt: p.rcv_nxt.wrapping_add(payload.len() as u32),
                rcv_wnd: (p.rcv_wnd - payload.len()) as u16,
                ..p
            },
            true,
        )
    }
}

/// How many bytes a read into a buffer of `capacity` bytes takes.
pub open spec fn receive_len(p: TcpPcbView, capacity: int) -> int {
    if capacity < p.receive_buffer.len() {
        capacity
    } else {
        p.receive_buffer.len() as int
    }
}

/// The state after a read of `length` bytes: they leave the buffer and
/// reopen the window.
pub open spec fn pcb_after_receive(p: TcpPcbView, length: int) -> TcpPcbView {
    TcpPcbView {
        receive_buffer: p.receive_buffer.subrange(length, p.receive_buffer.len() as int),
        rcv_wnd: p.rcv_wnd.saturating_add(length as u16),
        ..p
    }
}

/// The details retransmissions are sent with.
pub open spec fn pcb_retrans_info(p: TcpPcbView) -> RetransInfo {
    RetransInfo { local: p.local, remote: p.remote, ack: p.rcv_nxt, window: p.rcv_wnd }
}

/// The answer of a listener: a reset for an ACK, a new child for a SYN.
pub open spec fn pcb_on_listen(p: TcpPcbView, seg: TcpSegmentView) -> TcpPcbAction {
    if flags_contain(seg.flags, TCP_ACK) {
        reset_action(seg.ack, 0)
    } else if flags_contain(seg.flags, TCP_SYN) {
        TcpPcbAction { response: None, event: TcpPcbEvent::AcceptSyn { seq: seg.seq } }
    } else {
        no_action()
    }
}

/// The state and answer of a connection in SYN-SENT (RFC 793, "SYN-SENT STATE").
pub open spec fn pcb_on_syn_sent(p: TcpPcbView, seg: TcpSegmentView) -> (TcpPcbView, TcpPcbAction) {
    let has_ack = flags_contain(seg.flags, TCP_ACK);
    if has_ack && (seg.ack <= p.iss || seg.ack > p.snd_nxt) {
        (p, reset_action(seg.ack, 0))
    } else if flags_contain(seg.flags, TCP_RST) {
        (
            p,
            TcpPcbAction {
                response: None,
                event: if has_ack { TcpPcbEvent::Close } else { TcpPcbEvent::Nothing },
            },
        )
    } else if !flags_contain(seg.flags, TCP_SYN) {
        (p, no_action())
    } else {
        let p1 = if has_ack { pcb_accept_syn_ack(p, seg.seq, seg.ack, seg.window) } else { p };
        if has_ack && p1.state == TcpState::Established {
            (
                p1,
                TcpPcbAction {
                    response: Some(TcpResponse::FromPcb(TcpFlags { bits: TCP_ACK })),
                    event: TcpPcbEvent::Established,
                },
            )
        } else {
            (pcb_accept_simultaneous_syn(p1, seg.seq), respond_with(TCP_SYN | TCP_ACK))
        }
    }
}

/// The states in which a FIN is processed.
pub open spec fn fin_processing_state(s: TcpState) -> bool {
    s != TcpState::Closed && s != TcpState::Listen && s != TcpState::SynSent
}

/// The FIN step of [`pcb_on_connected`]: `state` is the state the segment
/// found, `response` and `event` what the earlier steps decided.
pub open spec fn pcb_on_fin(
    p: TcpPcbView,
    seg: TcpSegmentView,
    timestamp: u64,
    state: TcpState,
    response: Option<TcpResponse>,
    event: TcpPcbEvent,
) -> (TcpPcbView, TcpPcbAction) {
    if flags_contain(seg.flags, TCP_FIN) && fin_processing_state(state) {
        let (p1, ok) = pcb_accept_fin_at(p, seg.seq, seg.data.len() as usize, timestamp);
        if !ok {
            (p1, respond_with(TCP_ACK))
        } else {
            let p2 = if state == TcpState::FinWait1 {
                if seg.ack == p1.snd_nxt {
                    pcb_enter_time_wait(p1, timestamp)
                } else {
                    TcpPcbView { state: TcpState::Closing, ..p1 }
                }
            } else {
                p1
            };
            (
                p2,
                TcpPcbAction {
                    response: Some(TcpResponse::FromPcb(TcpFlags { bits: TCP_ACK })),
                    event,
                },
            )
        }
    } else {
        (p, TcpPcbAction { response, event })
    }
}

/// The states in which payload is taken.
pub open spec fn data_processing_state(s: TcpState) -> bool {
    s == TcpState::Established || s == TcpState::FinWait1 || s == TcpState::FinWait2
}

/// The state and answer of a synchronized connection (RFC 793, "Otherwise"):
/// sequence check, RST, SYN, ACK, payload and FIN, in that order.
pub open spec fn pcb_on_connected(p: TcpPcbView, seg: TcpSegmentView, timestamp: u64) -> (
    TcpPcbView,
    TcpPcbAction,
) {
    let state = p.state;
    if !pcb_accept_segment(p, seg.seq, seg.length) {
        (p, if !flags_contain(seg.flags, TCP_RST) { respond_with(TCP_ACK) } else { no_action() })
    } else if flags_contain(seg.flags, TCP_RST) {
        (p, TcpPcbAction { response: None, event: TcpPcbEvent::Close })
    } else if flags_contain(seg.flags, TCP_SYN) {
        (
            p,
            TcpPcbAction {
                response: Some(TcpResponse::FromPcb(TcpFlags { bits: TCP_RST })),
                event: TcpPcbEvent::Close,
            },
        )
    } else if state == TcpState::LastAck && flags_contain(seg.flags, TCP_ACK) && seg.ack
        == p.snd_nxt {
        (p, TcpPcbAction { response: None, event: TcpPcbEvent::Close })
    } else if !flags_contain(seg.flags, TCP_ACK) {
        (p, no_action())
    } else {
        let (p1, result) = pcb_accept_ack(p, seg.seq, seg.ack, seg.window);
        if result == TcpAckResult::TooNew {
            (p1, respond_with(TCP_ACK))
        } else {
            let became = state == TcpState::SynReceived && p1.state == TcpState::Established;
            let p2 = if state == TcpState::Closing && seg.ack == p1.snd_nxt {
                pcb_enter_time_wait(p1, timestamp)
            } else {
                p1
            };
            let event = if became { TcpPcbEvent::Established } else { TcpPcbEvent::Nothing };
            if data_processing_state(state) && seg.data.len() > 0 {
                let (p3, ok) = pcb_accept_payload(p2, seg.seq, seg.data);
                if !ok {
                    (p3, respond_with(TCP_ACK))
                } else {
                    pcb_on_fin(
                        p3,
                        seg,
                        timestamp,
                        state,
                        Some(TcpResponse::FromPcb(TcpFlags { bits: TCP_ACK })),
                        event,
                    )
                }
            } else {
                pcb_on_fin(p2, seg, timestamp, state, None, event)
            }
        }
    }
}

/// The state and answer after `seg` arrives at `timestamp` (seconds).
pub open spec fn pcb_on_segment(p: TcpPcbView, seg: TcpSegmentView, timestamp: u64) -> (
    TcpPcbView,
    TcpPcbAction,
) {
    if p.state == TcpState::Closed {
        (p, no_action())
    } else if p.state == TcpState::Listen {
        (p, pcb_on_listen(p, seg))
    } else if p.state == TcpState::SynSent {
        pcb_on_syn_sent(p, seg)
    } else {
        pcb_on_connected(p, seg, timestamp)
    }
}

/// A copy of a deque of copyable items.
fn copy_deque<T: Copy>(d: &VecDeque<T>) -> (r: VecDeque<T>)
    ensures
        r@ == d@,
{
    let mut r: VecDeque<T> = VecDeque::new();
    let mut i: usize = 0;
    while i < d.len()
        invariant
            i <= d@.len(),
            r@ == d@.subrange(0, i as int),
        decreases d@.len() - i,
    {
        r.push_back(d[i]);
        i = i + 1;
        assert(r@ =~= d@.subrange(0, i as int));
    }
    assert(d@.subrange(0, d@.len() as int) =~= d@);
    r
}

impl TcpPcbAction {
    fn none() -> (r: TcpPcbAction)
        ensures
            r == no_action(),
    {
        TcpPcbAction { response: None, event: TcpPcbEvent::Nothing }
    }

    fn respond(flags: TcpFlags) -> (r: TcpPcbAction)
        ensures
            r == respond_with(flags@),
    {
        TcpPcbAction { response: Some(TcpResponse::FromPcb(flags)), event: TcpPcbEvent::Nothing }
    }
}

} // verus!
verus! {

impl TcpPcb {
    /// A closed, unbound control block with nothing queued.
    pub fn new() -> (r: TcpPcb)
        ensures
            pcb_fresh(r@),
    {
        let any = Ipv4Addr::any();
        proof {
            Ipv4Addr::lemma_spec_from_view(any);
        }
        let unspecified = Ipv4Endpoint::new(any, 0);
        let r = TcpPcb {
            state: TcpState::Closed,
            local: unspecified,
            remote: unspecified,
            iss: 0,
            snd_nxt: 0,
            snd_una: 0,
            rcv_nxt: 0,
            rcv_wnd: 0,
            snd_wnd: 0,
            snd_wl1: 0,
            snd_wl2: 0,
            mss: 0,
            receive_buffer: VecDeque::new(),
            retrans_queue: RetransQueue::new(),
            time_wait_until: None,
            parent: None,
            backlog: VecDeque::new(),
            backlog_max: 0,
        };
        assert(r@.receive_buffer =~= Seq::<u8>::empty());
        assert(r@.backlog =~= Seq::<TcpPcbKey>::empty());
        r
    }

    /// A copy of the control block.
    pub fn duplicate(&self) -> (r: TcpPcb)
        ensures
            r@ == self@,
    {
        TcpPcb {
            state: self.state,
            local: self.local,
            remote: self.remote,
            iss: self.iss,
            snd_nxt: self.snd_nxt,
            snd_una: self.snd_una,
            rcv_nxt: self.rcv_nxt,
            rcv_wnd: self.rcv_wnd,
            snd_wnd: self.snd_wnd,
            snd_wl1: self.snd_wl1,
            snd_wl2: self.snd_wl2,
            mss: self.mss,
            receive_buffer: copy_deque(&self.receive_buffer),
            retrans_queue: self.retrans_queue.duplicate(),
            time_wait_until: self.time_wait_until,
            parent: self.parent,
            backlog: copy_deque(&self.backlog),
            backlog_max: self.backlog_max,
        }
    }

    pub fn state(&self) -> (r: TcpState)
        ensures
            r == self@.state,
    {
        self.state
    }

    pub fn local(&self) -> (r: Ipv4Endpoint)
        ensures
            r == self@.local,
    {
        self.local
    }

    pub fn set_local(&mut self, local: Ipv4Endpoint)
        ensures
            final(self)@ == (TcpPcbView { local, ..old(self)@ }),
    {
        self.local = local;
    }

    pub fn remote(&self) -> (r: Ipv4Endpoint)
        ensures
            r == self@.remote,
    {
        self.remote
    }

    pub fn iss(&self) -> (r: u32)
        ensures
            r == self@.iss,
    {
        self.iss
    }

    pub fn snd_nxt(&self) -> (r: u32)
        ensures
            r == self@.snd_nxt,
    {
        self.snd_nxt
    }

    pub fn snd_una(&self) -> (r: u32)
        ensures
            r == self@.snd_una,
    {
        self.snd_una
    }

    pub fn rcv_nxt(&self) -> (r: u32)
        ensures
            r == self@.rcv_nxt,
    {
        self.rcv_nxt
    }

    pub fn rcv_wnd(&self) -> (r: u16)
        ensures
            r == self@.rcv_wnd,
    {
        self.rcv_wnd
    }

    pub fn snd_wnd(&self) -> (r: u16)
        ensures
            r == self@.snd_wnd,
    {
        self.snd_wnd
    }

    pub fn snd_wl1(&self) -> (r: u32)
        ensures
            r == self@.snd_wl1,
    {
        self.snd_wl1
    }

    pub fn snd_wl2(&self) -> (r: u32)
        ensures
            r == self@.snd_wl2,
    {
        self.snd_wl2
    }

    pub fn mss(&self) -> (r: usize)
        ensures
            r == self@.mss,
    {
        self.mss
    }

    pub fn set_mss(&mut self, mss: usize)
        ensures
            final(self)@ == (TcpPcbView { mss, ..old(self)@ }),
    {
        self.mss = mss;
    }

    pub fn parent(&self) -> (r: Option<TcpPcbKey>)
        ensures
            r == self@.parent,
    {
        self.parent
    }

    pub fn set_parent(&mut self, parent: Option<TcpPcbKey>)
        ensures
            final(self)@ == (TcpPcbView { parent, ..old(self)@ }),
    {
        self.parent = parent;
    }

    pub fn backlog_max(&self) -> (r: usize)
        ensures
            r == self@.backlog_max,
    {
        self.backlog_max
    }

    pub fn set_backlog_max(&mut self, backlog_max: usize)
        ensures
            final(self)@ == (TcpPcbView { backlog_max, ..old(self)@ }),
    {
        self.backlog_max = backlog_max;
    }

    /// The number of established children waiting to be accepted.
    pub fn backlog_len(&self) -> (r: usize)
        ensures
            r == self@.backlog.len(),
    {
        self.backlog.len()
    }

    /// Whether `child` waits in the backlog.
    pub fn backlog_contains(&self, child: TcpPcbKey) -> (r: bool)
        ensures
            r == self@.backlog.contains(child),
    {
        let mut i: usize = 0;
        while i < self.backlog.len()
            invariant
                i <= self@.backlog.len(),
                forall|j: int| 0 <= j < i ==> self@.backlog[j] != child,
            decreases self@.backlog.len() - i,
        {
            if self.backlog[i] == child {
                return true;
            }
            i = i + 1;
        }
        false
    }

    /// Adds `child` at the end of the backlog.
    pub fn backlog_push(&mut self, child: TcpPcbKey)
        ensures
            final(self)@ == (TcpPcbView { backlog: old(self)@.backlog.push(child), ..old(self)@ }),
    {
        self.backlog.push_back(child);
    }

    /// Takes the oldest child from the backlog.
    pub fn backlog_pop(&mut self) -> (r: Option<TcpPcbKey>)
        ensures
            old(self)@.backlog.len() == 0 ==> r is None && final(self)@ == old(self)@,
            old(self)@.backlog.len() > 0 ==> r == Some(old(self)@.backlog[0]) && final(self)@ == (
            TcpPcbView { backlog: old(self)@.backlog.drop_first(), ..old(self)@ }),
    {
        let r = self.backlog.pop_front();
        proof {
            if old(self)@.backlog.len() > 0 {
                assert(self@.backlog =~= old(self)@.backlog.drop_first());
            }
        }
        r
    }

    /// Removes every occurrence of `child` from the backlog.
    pub fn backlog_remove(&mut self, child: TcpPcbKey)
        ensures
            final(self)@ == (TcpPcbView {
                backlog: old(self)@.backlog.filter(other_than(child)),
                ..old(self)@
            }),
    {
        let n = self.backlog.len();
        let ghost start = self@.backlog;
        let mut kept: VecDeque<TcpPcbKey> = VecDeque::new();
        let mut i: usize = 0;
        while i < n
            invariant
                n == start.len(),
                self@.backlog == start,
                i <= n,
                kept@ == start.subrange(0, i as int).filter(other_than(child)),
            decreases n - i,
        {
            let k = self.backlog[i];
            proof {
                let s1 = start.subrange(0, i as int + 1);
                assert(s1.drop_last() =~= start.subrange(0, i as int));
                assert(s1.last() == k);
                reveal(Seq::filter);
            }
            if k != child {
                kept.push_back(k);
            }
            i = i + 1;
        }
        assert(start.subrange(0, n as int) =~= start);
        self.backlog = kept;
    }

    /// Empties the backlog, handing out the children it held.
    pub fn take_backlog(&mut self) -> (r: Vec<TcpPcbKey>)
        ensures
            r@ == old(self)@.backlog,
            final(self)@ == (TcpPcbView { backlog: Seq::empty(), ..old(self)@ }),
    {
        let mut r: Vec<TcpPcbKey> = Vec::new();
        let mut i: usize = 0;
        while i < self.backlog.len()
            invariant
                i <= self@.backlog.len(),
                self@ == old(self)@,
                r@ == self@.backlog.subrange(0, i as int),
            decreases self@.backlog.len() - i,
        {
            r.push(self.backlog[i]);
            i = i + 1;
            assert(r@ =~= self@.backlog.subrange(0, i as int));
        }
        assert(r@ =~= old(self)@.backlog);
        self.backlog = VecDeque::new();
        assert(self@.backlog =~= Seq::<TcpPcbKey>::empty());
        r
    }

    /// Starts listening on `local` for `remote`.
    pub fn listen(&mut self, local: Ipv4Endpoint, remote: Ipv4Endpoint)
        ensures
            final(self)@ == (TcpPcbView { local, remote, state: TcpState::Listen, ..old(self)@ }),
    {
        self.local = local;
        self.remote = remote;
        self.state = TcpState::Listen;
    }

    /// Takes a SYN at `seq` from `remote`, choosing `iss` as our initial
    /// sequence number: the block is then in SYN-RECEIVED.
    pub fn accept_syn(&mut self, local: Ipv4Endpoint, remote: Ipv4Endpoint, seq: u32, iss: u32)
        ensures
            final(self)@ == pcb_accept_syn(old(self)@, local, remote, seq, iss),
    {
        self.local = local;
        self.remote = remote;
        self.iss = iss;
        self.rcv_nxt = seq.wrapping_add(1);
        self.rcv_wnd = RECEIVE_WINDOW_SIZE;
        self.snd_nxt = iss.wrapping_add(1);
        self.snd_una = iss;
        self.state = TcpState::SynReceived;
    }

    /// Records an active open from `local` to `remote` with `iss`: the
    /// block is then in SYN-SENT.
    pub fn connect(&mut self, local: Ipv4Endpoint, remote: Ipv4Endpoint, iss: u32)
        ensures
            final(self)@ == pcb_connect(old(self)@, local, remote, iss),
    {
        self.local = local;
        self.remote = remote;
        self.iss = iss;
        self.rcv_wnd = RECEIVE_WINDOW_SIZE;
        self.snd_nxt = iss.wrapping_add(1);
        self.snd_una = iss;
        self.state = TcpState::SynSent;
    }

    fn cleanup_retrans(&mut self)
        ensures
            final(self)@ == (TcpPcbView {
                retrans: retrans_cleanup(old(self)@.retrans, old(self)@.snd_una),
                ..old(self)@
            }),
    {
        self.retrans_queue.cleanup(self.snd_una);
    }

    /// Takes a SYN-ACK: see [`pcb_accept_syn_ack`].
    pub fn accept_syn_ack(&mut self, seq: u32, ack: u32, window: u16)
        ensures
            final(self)@ == pcb_accept_syn_ack(old(self)@, seq, ack, window),
    {
        self.rcv_nxt = seq.wrapping_add(1);
        if self.snd_una < ack && ack <= self.snd_nxt {
            self.snd_una = ack;
            self.cleanup_retrans();
            self.snd_wnd = window;
            self.snd_wl1 = seq;
            self.snd_wl2 = ack;
            self.state = TcpState::Established;
        }
    }

    /// Takes a SYN that crossed ours: the block is then in SYN-RECEIVED.
    pub fn accept_simultaneous_syn(&mut self, seq: u32)
        ensures
            final(self)@ == pcb_accept_simultaneous_syn(old(self)@, seq),
    {
        self.rcv_nxt = seq.wrapping_add(1);
        self.state = TcpState::SynReceived;
    }

    /// Processes an arriving segment: see [`pcb_on_segment`].
    pub fn on_segment(&mut self, segment: &TcpSegment<'_>, timestamp: u64) -> (r: TcpPcbAction)
        ensures
            (final(self)@, r) == pcb_on_segment(old(self)@, segment@, timestamp),
    {
        match self.state {
            TcpState::Closed => TcpPcbAction::none(),
            TcpState::Listen => self.on_listen(segment),
            TcpState::SynSent => self.on_syn_sent(segment),
            _ => self.on_connected(segment, timestamp),
        }
    }

    fn on_listen(&self, segment: &TcpSegment<'_>) -> (r: TcpPcbAction)
        ensures
            r == pcb_on_listen(self@, segment@),
    {
        if segment.flags.contains(TcpFlags::ack()) {
            return TcpPcbAction {
                response: Some(TcpResponse::Reset { seq: segment.ack, ack: 0 }),
                event: TcpPcbEvent::Nothing,
            };
        }
        if segment.flags.contains(TcpFlags::syn()) {
            return TcpPcbAction {
                response: None,
                event: TcpPcbEvent::AcceptSyn { seq: segment.seq },
            };
        }
        TcpPcbAction::none()
    }

    fn on_syn_sent(&mut self, segment: &TcpSegment<'_>) -> (r: TcpPcbAction)
        ensures
            (final(self)@, r) == pcb_on_syn_sent(old(self)@, segment@),
    {
        let ack_acceptable = if segment.flags.contains(TcpFlags::ack()) {
            if segment.ack <= self.iss || segment.ack > self.snd_nxt {
                return TcpPcbAction {
                    response: Some(TcpResponse::Reset { seq: segment.ack, ack: 0 }),
                    event: TcpPcbEvent::Nothing,
                };
            }
            true
        } else {
            false
        };
        if segment.flags.contains(TcpFlags::rst()) {
            return TcpPcbAction {
                response: None,
                event: if ack_acceptable {
                    TcpPcbEvent::Close
                } else {
                    TcpPcbEvent::Nothing
                },
            };
        }
        if !segment.flags.contains(TcpFlags::syn()) {
            return TcpPcbAction::none();
        }
        if ack_acceptable {
            self.accept_syn_ack(segment.seq, segment.ack, segment.window);
            if self.state == TcpState::Established {
                return TcpPcbAction {
                    response: Some(TcpResponse::FromPcb(TcpFlags::ack())),
                    event: TcpPcbEvent::Established,
                };
            }
        }
        self.accept_simultaneous_syn(segment.seq);
        TcpPcbAction::respond(TcpFlags::syn().union(TcpFlags::ack()))
    }

    fn on_fin(
        &mut self,
        segment: &TcpSegment<'_>,
        timestamp: u64,
        state: TcpState,
        response: Option<TcpResponse>,
        event: TcpPcbEvent,
    ) -> (r: TcpPcbAction)
        ensures
            (final(self)@, r) == pcb_on_fin(old(self)@, segment@, timestamp, state, response, event),
    {
        if segment.flags.contains(TcpFlags::fin()) && state != TcpState::Closed && state
            != TcpState::Listen && state != TcpState::SynSent {
            if !self.accept_fin_at(segment.seq, segment.data.len(), timestamp) {
                return TcpPcbAction::respond(TcpFlags::ack());
            }
            if state == TcpState::FinWait1 {
                if segment.ack == self.snd_nxt {
                    self.enter_time_wait(timestamp);
                } else {
                    self.set_closing();
                }
            }
            return TcpPcbAction { response: Some(TcpResponse::FromPcb(TcpFlags::ack())), event };
        }
        TcpPcbAction { response, event }
    }

    fn on_connected(&mut self, segment: &TcpSegment<'_>, timestamp: u64) -> (r: TcpPcbAction)
        ensures
            (final(self)@, r) == pcb_on_connected(old(self)@, segment@, timestamp),
    {
        let state = self.state;
        if !self.accept_segment(segment.seq, segment.length) {
            return if !segment.flags.contains(TcpFlags::rst()) {
                TcpPcbAction::respond(TcpFlags::ack())
            } else {
                TcpPcbAction::none()
            };
        }
        if segment.flags.contains(TcpFlags::rst()) {
            return TcpPcbAction { response: None, event: TcpPcbEvent::Close };
        }
        if segment.flags.contains(TcpFlags::syn()) {
            return TcpPcbAction {
                response: Some(TcpResponse::FromPcb(TcpFlags::rst())),
                event: TcpPcbEvent::Close,
            };
        }
        if state == TcpState::LastAck && segment.flags.contains(TcpFlags::ack()) && segment.ack
            == self.snd_nxt {
            return TcpPcbAction { response: None, event: TcpPcbEvent::Close };
        }
        if !segment.flags.contains(TcpFlags::ack()) {
            return TcpPcbAction::none();
        }
        match self.accept_ack(segment.seq, segment.ack, segment.window) {
            TcpAckResult::TooNew => {
                return TcpPcbAction::respond(TcpFlags::ack());
            },
            _ => {},
        }
        let became_established = state == TcpState::SynReceived && self.state
            == TcpState::Established;
        if state == TcpState::Closing && segment.ack == self.snd_nxt {
            self.enter_time_wait(timestamp);
        }
        let event = if became_established {
            TcpPcbEvent::Established
        } else {
            TcpPcbEvent::Nothing
        };
        if (state == TcpState::Established || state == TcpState::FinWait1 || state
            == TcpState::FinWait2) && segment.data.len() > 0 {
            if !self.accept_payload(segment.seq, segment.data) {
                return TcpPcbAction::respond(TcpFlags::ack());
            }
            return self.on_fin(
                segment,
                timestamp,
                state,
                Some(TcpResponse::FromPcb(TcpFlags::ack())),
                event,
            );
        }
        self.on_fin(segment, timestamp, state, None, event)
    }

    /// Whether a segment at `seq` occupying `length` sequence numbers is
    /// acceptable: see [`pcb_accept_segment`].
    pub fn accept_segment(&self, seq: u32, length: u32) -> (r: bool)
        ensures
            r == pcb_accept_segment(self@, seq, length),
    {
        let window_end = self.rcv_nxt.wrapping_add(self.rcv_wnd as u32);
        if length == 0 {
            if self.rcv_wnd == 0 {
                return seq == self.rcv_nxt;
            }
            return self.rcv_nxt <= seq && seq < window_end;
        }
        if self.rcv_wnd == 0 {
            return false;
        }
        let last = seq.wrapping_add(length - 1);
        (self.rcv_nxt <= seq && seq < window_end) || (self.rcv_nxt <= last && last < window_end)
    }

    /// Processes an acknowledgment: see [`pcb_accept_ack`].
    pub fn accept_ack(&mut self, seq: u32, ack: u32, window: u16) -> (r: TcpAckResult)
        ensures
            (final(self)@, r) == pcb_accept_ack(old(self)@, seq, ack, window),
    {
        if !(self.state == TcpState::SynReceived || self.state == TcpState::Established
            || self.state == TcpState::CloseWait || self.state == TcpState::FinWait1 || self.state
            == TcpState::FinWait2 || self.state == TcpState::Closing) {
            return TcpAckResult::Ignored;
        }
        let accepted = if self.state == TcpState::SynReceived {
            self.snd_una <= ack && ack <= self.snd_nxt
        } else {
            self.snd_una < ack && ack <= self.snd_nxt
        };
        if accepted {
            if ack > self.snd_una {
                self.snd_una = ack;
            }
            if self.snd_wl1 < seq || (self.snd_wl1 == seq && self.snd_wl2 <= ack) {
                self.snd_wnd = window;
                self.snd_wl1 = seq;
                self.snd_wl2 = ack;
            }
            if self.state == TcpState::SynReceived {
                self.state = TcpState::Established;
            } else if self.state == TcpState::FinWait1 && ack == self.snd_nxt {
                self.state = TcpState::FinWait2;
            }
            self.cleanup_retrans();
            TcpAckResult::Accepted
        } else if ack < self.snd_una {
            TcpAckResult::Old
        } else if self.snd_nxt < ack {
            TcpAckResult::TooNew
        } else {
            TcpAckResult::Unchanged
        }
    }

    /// Takes a FIN with no timestamp: see [`TcpPcb::accept_fin_at`].
    pub fn accept_fin(&mut self, seq: u32, payload_len: usize) -> (r: bool)
        ensures
            (final(self)@, r) == pcb_accept_fin_at(old(self)@, seq, payload_len, 0),
    {
        self.accept_fin_at(seq, payload_len, 0)
    }

    /// Takes a FIN at `seq` behind `payload_len` bytes: see [`pcb_accept_fin_at`].
    pub fn accept_fin_at(&mut self, seq: u32, payload_len: usize, timestamp: u64) -> (r: bool)
        ensures
            (final(self)@, r) == pcb_accept_fin_at(old(self)@, seq, payload_len, timestamp),
    {
        if self.rcv_nxt != seq.wrapping_add(payload_len as u32) {
            return false;
        }
        self.rcv_nxt = self.rcv_nxt.wrapping_add(1);
        match self.state {
            TcpState::SynReceived | TcpState::Established => self.state = TcpState::CloseWait,
            TcpState::FinWait2 => self.enter_time_wait(timestamp),
            TcpState::TimeWait => self.restart_time_wait(timestamp),
            _ => {},
        }
        true
    }

    /// Sends our FIN: one more sequence number is used and the block is in
    /// FIN-WAIT-1.
    pub fn enter_fin_wait1(&mut self)
        ensures
            final(self)@ == (TcpPcbView {
                snd_nxt: old(self)@.snd_nxt.wrapping_add(1),
                state: TcpState::FinWait1,
                ..old(self)@
            }),
    {
        self.advance_send(1);
        self.state = TcpState::FinWait1;
    }

    pub fn set_closing(&mut self)
        ensures
            final(self)@ == (TcpPcbView { state: TcpState::Closing, ..old(self)@ }),
    {
        self.state = TcpState::Closing;
    }

    /// Sends our FIN after the peer's: one more sequence number is used and
    /// the block is in LAST-ACK.
    pub fn enter_last_ack(&mut self)
        ensures
            final(self)@ == (TcpPcbView {
                snd_nxt: old(self)@.snd_nxt.wrapping_add(1),
                state: TcpState::LastAck,
                ..old(self)@
            }),
    {
        self.advance_send(1);
        self.state = TcpState::LastAck;
    }

    pub fn enter_time_wait(&mut self, timestamp: u64)
        ensures
            final(self)@ == pcb_enter_time_wait(old(self)@, timestamp),
    {
        self.state = TcpState::TimeWait;
        self.restart_time_wait(timestamp);
    }

    pub fn restart_time_wait(&mut self, timestamp: u64)
        ensures
            final(self)@ == pcb_restart_time_wait(old(self)@, timestamp),
    {
        self.time_wait_until = Some(timestamp.saturating_add(TIME_WAIT_SECONDS));
    }

    /// The block is in TIME-WAIT and its deadline has passed.
    pub fn time_wait_expired(&self, timestamp: u64) -> (r: bool)
        ensures
            r == (self@.state == TcpState::TimeWait && match self@.time_wait_until {
                Some(until) => timestamp > until,
                None => false,
            }),
    {
        self.state == TcpState::TimeWait && match self.time_wait_until {
            Some(until) => timestamp > until,
            None => false,
        }
    }

    /// Takes in-sequence payload: see [`pcb_accept_payload`].
    pub fn accept_payload(&mut self, seq: u32, payload: &[u8]) -> (r: bool)
        ensures
            (final(self)@, r) == pcb_accept_payload(old(self)@, seq, payload@),
    {
        if self.rcv_nxt != seq || (self.rcv_wnd as usize) < payload.len() {
            return false;
        }
        let mut i: usize = 0;
        while i < payload.len()
            invariant
                i <= payload@.len(),
                self@ == (TcpPcbView {
                    receive_buffer: old(self)@.receive_buffer + payload@.subrange(0, i as int),
                    ..old(self)@
                }),
            decreases payload@.len() - i,
        {
            self.receive_buffer.push_back(payload[i]);
            i = i + 1;
            assert(self@.receive_buffer =~= old(self)@.receive_buffer + payload@.subrange(
                0,
                i as int,
            ));
        }
        assert(payload@.subrange(0, payload@.len() as int) =~= payload@);
        self.rcv_nxt = self.rcv_nxt.wrapping_add(payload.len() as u32);
        self.rcv_wnd = self.rcv_wnd - payload.len() as u16;
        true
    }

    /// Reads received data into `buffer`, as much as both hold; the bytes
    /// read leave the receive buffer and reopen the window.
    pub fn receive(&mut self, buffer: &mut [u8]) -> (r: usize)
        ensures
            r == receive_len(old(self)@, old(buffer)@.len() as int),
            final(buffer)@ == old(self)@.receive_buffer.subrange(0, r as int) + old(buffer)@.subrange(r as int, old(buffer)@.len() as int),
            final(self)@ == pcb_after_receive(old(self)@, r as int),
    {
        let length = if buffer.len() < self.receive_buffer.len() {
            buffer.len()
        } else {
            self.receive_buffer.len()
        };
        let mut i: usize = 0;
        assert(old(self)@.receive_buffer.subrange(0, old(self)@.receive_buffer.len() as int)
            =~= old(self)@.receive_buffer);
        assert(buffer@ =~= old(self)@.receive_buffer.subrange(0, 0) + old(buffer)@.subrange(
            0,
            old(buffer)@.len() as int,
        ));
        while i < length
            invariant
                length == receive_len(old(self)@, old(buffer)@.len() as int),
                i <= length,
                buffer@.len() == old(buffer)@.len(),
                self@ == (TcpPcbView {
                    receive_buffer: old(self)@.receive_buffer.subrange(
                        i as int,
                        old(self)@.receive_buffer.len() as int,
                    ),
                    ..old(self)@
                }),
                buffer@ == old(self)@.receive_buffer.subrange(0, i as int) + old(buffer)@.subrange(
                    i as int,
                    old(buffer)@.len() as int,
                ),
            decreases length - i,
        {
            let ghost before = self@.receive_buffer;
            let byte = match self.receive_buffer.pop_front() {
                Some(b) => b,
                None => 0,
            };
            buffer[i] = byte;
            i = i + 1;
            assert(self@.receive_buffer =~= old(self)@.receive_buffer.subrange(
                i as int,
                old(self)@.receive_buffer.len() as int,
            ));
            assert(buffer@ =~= old(self)@.receive_buffer.subrange(0, i as int) + old(buffer)@.subrange(i as int, old(buffer)@.len() as int));
        }
        self.rcv_wnd = self.rcv_wnd.saturating_add(length as u16);
        length
    }

    pub fn has_received_data(&self) -> (r: bool)
        ensures
            r == (self@.receive_buffer.len() > 0),
    {
        self.receive_buffer.len() > 0
    }

    /// Moves `snd_nxt` past `length` sent sequence numbers.
    pub fn advance_send(&mut self, length: usize)
        ensures
            final(self)@ == (TcpPcbView {
                snd_nxt: old(self)@.snd_nxt.wrapping_add(length as u32),
                ..old(self)@
            }),
    {
        self.snd_nxt = self.snd_nxt.wrapping_add(length as u32);
    }

    /// Queues a segment sent at `timestamp` (microseconds) for retransmission.
    pub fn queue_retrans(&mut self, seq: u32, flags: TcpFlags, payload: &[u8], timestamp: u64)
        ensures
            final(self)@ == (TcpPcbView {
                retrans: old(self)@.retrans.push(
                    retrans_new(seq, flags@, payload@, timestamp, pcb_retrans_info(old(self)@)),
                ),
                ..old(self)@
            }),
    {
        let info = RetransInfo {
            local: self.local,
            remote: self.remote,
            ack: self.rcv_nxt,
            window: self.rcv_wnd,
        };
        self.retrans_queue.enqueue(seq, flags, payload, timestamp, info);
    }

    /// The segments due for retransmission at `timestamp` (microseconds);
    /// when one has waited past the deadline the block is closed instead.
    pub fn due_retrans(&mut self, timestamp: u64) -> (r: Vec<Retrans>)
        ensures
            retrans_any_expired(old(self)@.retrans, timestamp) ==> r@.len() == 0 && final(self)@
                == (TcpPcbView { state: TcpState::Closed, ..old(self)@ }),
            !retrans_any_expired(old(self)@.retrans, timestamp) ==> {
                &&& r@.map_values(|e: Retrans| e@) == retrans_due_entries(
                    old(self)@.retrans,
                    timestamp,
                    pcb_retrans_info(old(self)@),
                )
                &&& final(self)@ == (TcpPcbView {
                    retrans: old(self)@.retrans.map_values(
                        |e: RetransView| retrans_step(e, timestamp, pcb_retrans_info(old(self)@)),
                    ),
                    ..old(self)@
                })
            },
    {
        let info = RetransInfo {
            local: self.local,
            remote: self.remote,
            ack: self.rcv_nxt,
            window: self.rcv_wnd,
        };
        let result = self.retrans_queue.due(timestamp, info);
        if result.expired {
            self.state = TcpState::Closed;
        }
        result.entries
    }
}

impl Default for TcpPcb {
    fn default() -> (r: TcpPcb)
        ensures
            pcb_fresh(r@),
    {
        TcpPcb::new()
    }
}

} // verus!

verus! {

/// Received data is read back in the order it arrived: when in-sequence
/// payload is taken, a read with room for everything buffered returns the
/// bytes buffered before it followed by that payload, and empties the buffer.
pub proof fn lemma_receive_returns_accepted_payload(
    p: TcpPcbView,
    payload: Seq<u8>,
    capacity: int,
)
    requires
        p.rcv_wnd >= payload.len(),
        capacity >= p.receive_buffer.len() + payload.len(),
    ensures
        ({
            let (p1, ok) = pcb_accept_payload(p, p.rcv_nxt, payload);
            let n = receive_len(p1, capacity);
            &&& ok
            &&& n == p.receive_buffer.len() + payload.len()
            &&& p1.receive_buffer.subrange(0, n) == p.receive_buffer + payload
            &&& pcb_after_receive(p1, n).receive_buffer.len() == 0
        }),
{
    let (p1, ok) = pcb_accept_payload(p, p.rcv_nxt, payload);
    assert(p1.receive_buffer.subrange(0, p1.receive_buffer.len() as int) =~= p.receive_buffer
        + payload);
}

/// Window accounting: taking payload moves bytes from the window into the
/// buffer, and reading moves them back, so the window plus what is buffered
/// stays the same (a read does so while the window does not saturate).
pub proof fn lemma_window_accounting(p: TcpPcbView, seq: u32, payload: Seq<u8>, capacity: int)
    requires
        capacity >= 0,
    ensures
        ({
            let (p1, ok) = pcb_accept_payload(p, seq, payload);
            p1.rcv_wnd + p1.receive_buffer.len() == p.rcv_wnd + p.receive_buffer.len()
        }),
        ({
            let n = receive_len(p, capacity);
            p.rcv_wnd + p.receive_buffer.len() <= u16::MAX ==> pcb_after_receive(p, n).rcv_wnd
                + pcb_after_receive(p, n).receive_buffer.len() == p.rcv_wnd + p.receive_buffer.len()
        }),
{
}

/// Passive open: a child that answered a SYN at `seq` with `iss` becomes
/// established when the peer acknowledges our SYN (three-way handshake), and
/// tells its owner so without sending anything.
pub proof fn lemma_passive_open_completes(
    p: TcpPcbView,
    local: Ipv4Endpoint,
    remote: Ipv4Endpoint,
    seq: u32,
    iss: u32,
    window: u16,
    timestamp: u64,
)
    requires
        seq.wrapping_add(1) as int + RECEIVE_WINDOW_SIZE <= u32::MAX,
        iss < u32::MAX,
    ensures
        ({
            let c = pcb_accept_syn(p, local, remote, seq, iss);
            let seg = TcpSegmentView {
                seq: seq.wrapping_add(1),
                ack: (iss + 1) as u32,
                length: 0,
                window,
                flags: TCP_ACK,
                data: Seq::empty(),
            };
            let (c1, action) = pcb_on_segment(c, seg, timestamp);
            &&& c.state == TcpState::SynReceived
            &&& c1.state == TcpState::Established
            &&& c1.snd_una == iss + 1
            &&& action == TcpPcbAction { response: None, event: TcpPcbEvent::Established }
        }),
{
    assert(TCP_ACK & TCP_RST != TCP_RST) by (bit_vector);
    assert(TCP_ACK & TCP_SYN != TCP_SYN) by (bit_vector);
    assert(TCP_ACK & TCP_FIN != TCP_FIN) by (bit_vector);
    assert(TCP_ACK & TCP_ACK == TCP_ACK) by (bit_vector);
}

/// Active open: a connection that sent its SYN with `iss` becomes
/// established when a SYN acknowledging it arrives, and answers with an ACK.
pub proof fn lemma_active_open_completes(
    p: TcpPcbView,
    local: Ipv4Endpoint,
    remote: Ipv4Endpoint,
    iss: u32,
    seq: u32,
    window: u16,
    timestamp: u64,
)
    requires
        iss < u32::MAX,
    ensures
        ({
            let c = pcb_connect(p, local, remote, iss);
            let seg = TcpSegmentView {
                seq,
                ack: (iss + 1) as u32,
                length: 1,
                window,
                flags: TCP_SYN | TCP_ACK,
                data: Seq::empty(),
            };
            let (c1, action) = pcb_on_segment(c, seg, timestamp);
            &&& c.state == TcpState::SynSent
            &&& c1.state == TcpState::Established
            &&& c1.rcv_nxt == seq.wrapping_add(1)
            &&& c1.snd_una == iss + 1
            &&& c1.snd_wnd == window
            &&& action == TcpPcbAction {
                response: Some(TcpResponse::FromPcb(TcpFlags { bits: TCP_ACK })),
                event: TcpPcbEvent::Established,
            }
        }),
{
    assert((TCP_SYN | TCP_ACK) & TCP_RST != TCP_RST) by (bit_vector);
    assert((TCP_SYN | TCP_ACK) & TCP_SYN == TCP_SYN) by (bit_vector);
    assert((TCP_SYN | TCP_ACK) & TCP_ACK == TCP_ACK) by (bit_vector);
}

/// Payload and FIN in one segment: in ESTABLISHED, an in-sequence segment
/// that carries payload and then a FIN, and acknowledges nothing we have
/// not sent, buffers the payload, takes the FIN behind it, enters
/// CLOSE-WAIT and is answered with an ACK.
pub proof fn lemma_payload_and_fin_in_one_segment(p: TcpPcbView, seg: TcpSegmentView, timestamp: u64)
    requires
        p.state == TcpState::Established,
        seg.flags == TCP_ACK | TCP_FIN,
        seg.seq == p.rcv_nxt,
        seg.data.len() > 0,
        seg.length == seg.data.len() + 1,
        seg.data.len() <= p.rcv_wnd,
        p.rcv_nxt + p.rcv_wnd <= u32::MAX,
        seg.ack <= p.snd_nxt,
    ensures
        ({
            let (p1, action) = pcb_on_segment(p, seg, timestamp);
            &&& p1.state == TcpState::CloseWait
            &&& p1.receive_buffer == p.receive_buffer + seg.data
            &&& p1.rcv_nxt == p.rcv_nxt.wrapping_add(seg.data.len() as u32).wrapping_add(1)
            &&& action == TcpPcbAction {
                response: Some(TcpResponse::FromPcb(TcpFlags { bits: TCP_ACK })),
                event: TcpPcbEvent::Nothing,
            }
        }),
{
    assert((TCP_ACK | TCP_FIN) & TCP_RST != TCP_RST) by (bit_vector);
    assert((TCP_ACK | TCP_FIN) & TCP_SYN != TCP_SYN) by (bit_vector);
    assert((TCP_ACK | TCP_FIN) & TCP_ACK == TCP_ACK) by (bit_vector);
    assert((TCP_ACK | TCP_FIN) & TCP_FIN == TCP_FIN) by (bit_vector);
    assert(p.rcv_nxt.wrapping_add(p.rcv_wnd as u32) == p.rcv_nxt + p.rcv_wnd);
    assert(pcb_accept_segment(p, seg.seq, seg.length));
}

/// A reset in a synchronized state: an acceptable segment with RST set
/// closes the connection, unchanged, without an answer (RFC 793, "first
/// check the sequence number", "second check the RST bit").
pub proof fn lemma_reset_closes(p: TcpPcbView, seg: TcpSegmentView, timestamp: u64)
    requires
        p.state != TcpState::Closed,
        p.state != TcpState::Listen,
        p.state != TcpState::SynSent,
        pcb_accept_segment(p, seg.seq, seg.length),
        flags_contain(seg.flags, TCP_RST),
    ensures
        pcb_on_segment(p, seg, timestamp) == (p, TcpPcbAction {
            response: None,
            event: TcpPcbEvent::Close,
        }),
{
}

/// A SYN in the window of a synchronized connection is an error: the
/// connection answers with a reset and is closed (RFC 793, "fourth, check
/// the SYN bit").
pub proof fn lemma_syn_in_window_resets(p: TcpPcbView, seg: TcpSegmentView, timestamp: u64)
    requires
        p.state != TcpState::Closed,
        p.state != TcpState::Listen,
        p.state != TcpState::SynSent,
        pcb_accept_segment(p, seg.seq, seg.length),
        !flags_contain(seg.flags, TCP_RST),
        flags_contain(seg.flags, TCP_SYN),
    ensures
        pcb_on_segment(p, seg, timestamp) == (p, TcpPcbAction {
            response: Some(TcpResponse::FromPcb(TcpFlags { bits: TCP_RST })),
            event: TcpPcbEvent::Close,
        }),
{
}

/// A listener answers an acknowledgment with a reset at the acknowledged
/// number, and takes a SYN without one as a request for a new connection
/// (RFC 793, "LISTEN STATE"); it never changes itself.
pub proof fn lemma_listen_transitions(p: TcpPcbView, seg: TcpSegmentView, timestamp: u64)
    requires
        p.state == TcpState::Listen,
    ensures
        pcb_on_segment(p, seg, timestamp).0 == p,
        flags_contain(seg.flags, TCP_ACK) ==> pcb_on_segment(p, seg, timestamp).1 == reset_action(
            seg.ack,
            0,
        ),
        !flags_contain(seg.flags, TCP_ACK) && flags_contain(seg.flags, TCP_SYN) ==> pcb_on_segment(
            p,
            seg,
            timestamp,
        ).1 == (TcpPcbAction { response: None, event: TcpPcbEvent::AcceptSyn { seq: seg.seq } }),
{
}

/// In SYN-SENT, an acknowledgment of something never sent is answered
/// with a reset and changes nothing (RFC 793, "SYN-SENT STATE", "first
/// check the ACK bit").
pub proof fn lemma_syn_sent_refuses_a_bad_ack(p: TcpPcbView, seg: TcpSegmentView, timestamp: u64)
    requires
        p.state == TcpState::SynSent,
        flags_contain(seg.flags, TCP_ACK),
        seg.ack <= p.iss || seg.ack > p.snd_nxt,
    ensures
        pcb_on_segment(p, seg, timestamp) == (p, reset_action(seg.ack, 0)),
{
}

/// In LAST-ACK, an acceptable segment that acknowledges our FIN closes the
/// connection without an answer.
pub proof fn lemma_last_ack_closes(p: TcpPcbView, seg: TcpSegmentView, timestamp: u64)
    requires
        p.state == TcpState::LastAck,
        pcb_accept_segment(p, seg.seq, seg.length),
        seg.flags == TCP_ACK,
        seg.ack == p.snd_nxt,
    ensures
        pcb_on_segment(p, seg, timestamp) == (p, TcpPcbAction {
            response: None,
            event: TcpPcbEvent::Close,
        }),
{
    assert(TCP_ACK & TCP_RST != TCP_RST) by (bit_vector);
    assert(TCP_ACK & TCP_SYN != TCP_SYN) by (bit_vector);
    assert(TCP_ACK & TCP_ACK == TCP_ACK) by (bit_vector);
}

/// A segment outside the receive window changes nothing; it is answered
/// with an ACK unless it is a reset.
pub proof fn lemma_unacceptable_segment_changes_nothing(p: TcpPcbView, seg: TcpSegmentView, timestamp: u64)
    requires
        p.state != TcpState::Closed,
        p.state != TcpState::Listen,
        p.state != TcpState::SynSent,
        !pcb_accept_segment(p, seg.seq, seg.length),
    ensures
        pcb_on_segment(p, seg, timestamp).0 == p,
        pcb_on_segment(p, seg, timestamp).1 == if flags_contain(seg.flags, TCP_RST) {
            no_action()
        } else {
            respond_with(TCP_ACK)
        },
{
}

/// An accepted acknowledgment never moves `snd_una` backwards nor past
/// `snd_nxt`.
pub proof fn lemma_accept_ack_keeps_una_in_range(p: TcpPcbView, seq: u32, ack: u32, window: u16)
    ensures
        ({
            let (p1, r) = pcb_accept_ack(p, seq, ack, window);
            &&& p1.snd_una >= p.snd_una
            &&& r == TcpAckResult::Accepted ==> p1.snd_una <= p1.snd_nxt && p1.snd_nxt == p.snd_nxt
            &&& r != TcpAckResult::Accepted ==> p1 == p
        }),
{
}

/// FIN in FIN-WAIT-2 (RFC 793, "eighth, check the FIN bit"): a FIN in
/// sequence behind `payload_len` bytes, taken by a connection whose own FIN
/// was already acknowledged, uses one sequence number and moves it to
/// TIME-WAIT, with its deadline TIME_WAIT_SECONDS after the arrival;
/// nothing else of the block changes.
pub proof fn lemma_fin_in_fin_wait2_enters_time_wait(p: TcpPcbView, seq: u32, payload_len: usize, timestamp: u64)
    requires
        p.state == TcpState::FinWait2,
        p.rcv_nxt == seq.wrapping_add(payload_len as u32),
    ensures
        ({
            let (p1, ok) = pcb_accept_fin_at(p, seq, payload_len, timestamp);
            &&& ok
            &&& p1.state == TcpState::TimeWait
            &&& p1.time_wait_until == Some(timestamp.saturating_add(TIME_WAIT_SECONDS))
            &&& p1.rcv_nxt == p.rcv_nxt.wrapping_add(1)
            &&& p1 == TcpPcbView {
                state: p1.state,
                rcv_nxt: p1.rcv_nxt,
                time_wait_until: p1.time_wait_until,
                ..p
            }
        }),
{
}

/// The same seen from a whole segment: a connection in FIN-WAIT-2 that
/// receives an in-sequence FIN with an ACK (of nothing it has not sent)
/// and no payload enters TIME-WAIT, its deadline set from the arrival
/// time, takes the FIN's sequence number and answers with an ACK.
pub proof fn lemma_fin_wait2_segment_enters_time_wait(p: TcpPcbView, seg: TcpSegmentView, timestamp: u64)
    requires
        p.state == TcpState::FinWait2,
        seg.flags == TCP_ACK | TCP_FIN,
        seg.seq == p.rcv_nxt,
        seg.data.len() == 0,
        seg.length == 1,
        p.rcv_wnd > 0,
        p.rcv_nxt + p.rcv_wnd <= u32::MAX,
        seg.ack <= p.snd_nxt,
    ensures
        ({
            let (p1, action) = pcb_on_segment(p, seg, timestamp);
            &&& p1.state == TcpState::TimeWait
            &&& p1.time_wait_until == Some(timestamp.saturating_add(TIME_WAIT_SECONDS))
            &&& p1.rcv_nxt == p.rcv_nxt.wrapping_add(1)
            &&& action == TcpPcbAction {
                response: Some(TcpResponse::FromPcb(TcpFlags { bits: TCP_ACK })),
                event: TcpPcbEvent::Nothing,
            }
        }),
{
    assert((TCP_ACK | TCP_FIN) & TCP_RST != TCP_RST) by (bit_vector);
    assert((TCP_ACK | TCP_FIN) & TCP_SYN != TCP_SYN) by (bit_vector);
    assert((TCP_ACK | TCP_FIN) & TCP_ACK == TCP_ACK) by (bit_vector);
    assert((TCP_ACK | TCP_FIN) & TCP_FIN == TCP_FIN) by (bit_vector);
    assert(p.rcv_nxt.wrapping_add(p.rcv_wnd as u32) == p.rcv_nxt + p.rcv_wnd);
    assert(seg.seq.wrapping_add(0) == seg.seq);
    assert(pcb_accept_segment(p, seg.seq, seg.length));
}

/// Window update (RFC 793, "If SND.UNA < SEG.ACK =< SND.NXT ... the send
/// window should be updated"): an acceptable acknowledgment carried by a
/// segment not older than the last window update (`snd_wl1 < seq`, or
/// `snd_wl1 == seq` and `snd_wl2 <= ack`) takes the window the segment
/// advertises and records the segment as the last update; from an older
/// segment the window stays as it was.
pub proof fn lemma_accepted_ack_updates_the_window(p: TcpPcbView, seq: u32, ack: u32, window: u16)
    requires
        ack_processing_state(p.state),
        p.state == TcpState::SynReceived ==> p.snd_una <= ack,
        p.state != TcpState::SynReceived ==> p.snd_una < ack,
        ack <= p.snd_nxt,
    ensures
        ({
            let (p1, r) = pcb_accept_ack(p, seq, ack, window);
            &&& r == TcpAckResult::Accepted
            &&& p1.snd_una == ack
            &&& (p.snd_wl1 < seq || (p.snd_wl1 == seq && p.snd_wl2 <= ack)) ==> p1.snd_wnd == window
                && p1.snd_wl1 == seq && p1.snd_wl2 == ack
            &&& !(p.snd_wl1 < seq || (p.snd_wl1 == seq && p.snd_wl2 <= ack)) ==> p1.snd_wnd == p.snd_wnd
                && p1.snd_wl1 == p.snd_wl1 && p1.snd_wl2 == p.snd_wl2
        }),
{
}

/// A passive open whose child starts with no window update recorded
/// (`snd_wl1` and `snd_wl2` zero, as a fresh block has them): the
/// handshake's final ACK at `seq + 1`, acknowledging our SYN, establishes
/// the child with the window that ACK advertises, so data can be sent.
pub proof fn lemma_passive_open_takes_the_peer_window(
    p: TcpPcbView,
    local: Ipv4Endpoint,
    remote: Ipv4Endpoint,
    seq: u32,
    iss: u32,
    window: u16,
    timestamp: u64,
)
    requires
        p.snd_wl1 == 0,
        p.snd_wl2 == 0,
        seq < u32::MAX,
        seq + 1 + RECEIVE_WINDOW_SIZE <= u32::MAX,
        iss < u32::MAX,
    ensures
        ({
            let c = pcb_accept_syn(p, local, remote, seq, iss);
            let seg = TcpSegmentView {
                seq: (seq + 1) as u32,
                ack: (iss + 1) as u32,
                length: 0,
                window,
                flags: TCP_ACK,
                data: Seq::empty(),
            };
            let (c1, action) = pcb_on_segment(c, seg, timestamp);
            &&& c1.state == TcpState::Established
            &&& c1.snd_wnd == window
            &&& action.event == TcpPcbEvent::Established
        }),
{
    assert(TCP_ACK & TCP_RST != TCP_RST) by (bit_vector);
    assert(TCP_ACK & TCP_SYN != TCP_SYN) by (bit_vector);
    assert(TCP_ACK & TCP_FIN != TCP_FIN) by (bit_vector);
    assert(TCP_ACK & TCP_ACK == TCP_ACK) by (bit_vector);
    assert(seq.wrapping_add(1) == seq + 1);
    assert(iss.wrapping_add(1) == iss + 1);
}

/// An active open leaves the block in SYN-SENT offering the full receive
/// window, the same window a passive open offers, with our SYN (at `iss`)
/// outstanding and nothing else changed.
pub proof fn lemma_active_open_offers_the_receive_window(
    p: TcpPcbView,
    local: Ipv4Endpoint,
    remote: Ipv4Endpoint,
    iss: u32,
    seq: u32,
)
    ensures
        ({
            let c = pcb_connect(p, local, remote, iss);
            &&& c.rcv_wnd == RECEIVE_WINDOW_SIZE
            &&& c.rcv_wnd == pcb_accept_syn(p, local, remote, seq, iss).rcv_wnd
            &&& c.state == TcpState::SynSent
            &&& c.local == local && c.remote == remote
            &&& c.iss == iss && c.snd_una == iss && c.snd_nxt == iss.wrapping_add(1)
            &&& c.rcv_nxt == p.rcv_nxt && c.receive_buffer == p.receive_buffer
        }),
{
}

/// After a local close the peer may still send (RFC 793, "seventh, process
/// the segment text" in ESTABLISHED, FIN-WAIT-1 and FIN-WAIT-2): an
/// acceptable in-sequence segment with an ACK (of nothing we have not
/// sent), payload that fits the receive window and no FIN appends the
/// payload to the receive buffer, advances `rcv_nxt` and shrinks the
/// window by its length, and is answered with an ACK.
pub proof fn lemma_payload_taken_while_closing(p: TcpPcbView, seg: TcpSegmentView, timestamp: u64)
    requires
        p.state == TcpState::Established || p.state == TcpState::FinWait1 || p.state
            == TcpState::FinWait2,
        seg.flags == TCP_ACK,
        seg.seq == p.rcv_nxt,
        seg.data.len() > 0,
        seg.length == seg.data.len(),
        seg.data.len() <= p.rcv_wnd,
        p.rcv_nxt + p.rcv_wnd <= u32::MAX,
        seg.ack <= p.snd_nxt,
    ensures
        ({
            let (p1, action) = pcb_on_segment(p, seg, timestamp);
            &&& p1.receive_buffer == p.receive_buffer + seg.data
            &&& p1.rcv_nxt == p.rcv_nxt.wrapping_add(seg.data.len() as u32)
            &&& p1.rcv_wnd == p.rcv_wnd - seg.data.len()
            &&& action == TcpPcbAction {
                response: Some(TcpResponse::FromPcb(TcpFlags { bits: TCP_ACK })),
                event: TcpPcbEvent::Nothing,
            }
        }),
{
    assert(TCP_ACK & TCP_RST != TCP_RST) by (bit_vector);
    assert(TCP_ACK & TCP_SYN != TCP_SYN) by (bit_vector);
    assert(TCP_ACK & TCP_FIN != TCP_FIN) by (bit_vector);
    assert(TCP_ACK & TCP_ACK == TCP_ACK) by (bit_vector);
    assert(p.rcv_nxt.wrapping_add(p.rcv_wnd as u32) == p.rcv_nxt + p.rcv_wnd);
    assert(pcb_accept_segment(p, seg.seq, seg.length));
}

/// Our FIN acknowledged (RFC 793, "FIN-WAIT-1 STATE ... if our FIN is now
/// acknowledged then enter FIN-WAIT-2"): in FIN-WAIT-1, an acknowledgment
/// of everything sent, our FIN included, is accepted and moves the
/// connection to FIN-WAIT-2 with nothing left unacknowledged.
pub proof fn lemma_fin_acknowledged_enters_fin_wait2(p: TcpPcbView, seq: u32, window: u16)
    requires
        p.state == TcpState::FinWait1,
        p.snd_una < p.snd_nxt,
    ensures
        ({
            let (p1, r) = pcb_accept_ack(p, seq, p.snd_nxt, window);
            &&& r == TcpAckResult::Accepted
            &&& p1.state == TcpState::FinWait2
            &&& p1.snd_una == p.snd_nxt
        }),
{
}

/// The same seen from a whole segment: in FIN-WAIT-1, an acceptable
/// segment with only an ACK of everything sent moves the connection to
/// FIN-WAIT-2 without an answer.
pub proof fn lemma_fin_wait1_segment_enters_fin_wait2(p: TcpPcbView, seg: TcpSegmentView, timestamp: u64)
    requires
        p.state == TcpState::FinWait1,
        p.snd_una < p.snd_nxt,
        seg.flags == TCP_ACK,
        seg.ack == p.snd_nxt,
        seg.data.len() == 0,
        pcb_accept_segment(p, seg.seq, seg.length),
    ensures
        ({
            let (p1, action) = pcb_on_segment(p, seg, timestamp);
            &&& p1.state == TcpState::FinWait2
            &&& p1.snd_una == p.snd_nxt
            &&& action == TcpPcbAction { response: None, event: TcpPcbEvent::Nothing }
        }),
{
    assert(TCP_ACK & TCP_RST != TCP_RST) by (bit_vector);
    assert(TCP_ACK & TCP_SYN != TCP_SYN) by (bit_vector);
    assert(TCP_ACK & TCP_FIN != TCP_FIN) by (bit_vector);
    assert(TCP_ACK & TCP_ACK == TCP_ACK) by (bit_vector);
}

} // verus!
