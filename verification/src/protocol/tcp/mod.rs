pub mod header;
pub mod packet;
pub mod pcb;
pub mod registry;
pub mod retrans;

use vstd::prelude::*;

use crate::os::{Random, Time};
use crate::protocol::ipv4::addr::{is_any, Ipv4Addr, Ipv4Endpoint};
use crate::protocol::ipv4::interface::{Ipv4Interface, Ipv4InterfaceView};
use crate::protocol::ipv4::packet::{Ipv4Packet, Ipv4PacketView};
use crate::protocol::ipv4::route::{lemma_lookup_is_best, routed_interface, Ipv4Route};
use crate::protocol::ipv4::{
    ipv4_carries, ipv4_output_outcome, ipv4_packet_sent, lemma_sent_carries, is_limited_broadcast, Ipv4OutputError, Ipv4Protocol,
};
use crate::protocol::tcp::header::{
    flags_contain, header_len_of, TcpError, TcpFlags, TcpHeaderView, TCP_ACK, TCP_FIN, TCP_PSH, TCP_RST,
    TCP_SYN,
};
use crate::protocol::tcp::packet::{tcp_packet_parse, tcp_segment, TcpPacket};
use crate::protocol::tcp::pcb::{
    pcb_accept_syn, pcb_connect, pcb_on_segment, pcb_retrans_info, tcp_fresh_view, TcpPcb,
    TcpPcbAction, TcpPcbEvent, TcpPcbView, TcpResponse, TcpSegment, TcpSegmentView,
};
use crate::protocol::tcp::registry::{
    tcp_due_concat, tcp_assign_outcome, tcp_bind_outcome, tcp_closed, tcp_due_step, tcp_listen_outcome,
    tcp_match_taken, tcp_matches, tcp_time_wait_expired, tcp_with_established, TcpPcbError,
    TcpPcbRegistry,
};
use crate::protocol::tcp::retrans::{retrans_new, Retrans, RetransView};
use crate::slots::canonical_key;
use crate::stack::Stack;
use crate::device::registry::SentFrame;

verus! {

/// Length of the TCP header without options, in bytes.
pub const TCP_HEADER_LEN: usize = 20;

/// The states of a TCP connection (RFC 793).
#[derive(Debug, Clone, Copy, PartialEq, Eq, Hash, Structural)]
pub enum TcpState {
    Closed,
    Listen,
    SynSent,
    SynReceived,
    Established,
    FinWait1,
    FinWait2,
    CloseWait,
    Closing,
    LastAck,
    TimeWait,
}

/// Whether a connection is opened by sending a SYN or by waiting for one.
#[derive(Debug, Clone, Copy, PartialEq, Eq, Structural)]
pub enum TcpOpenMode {
    Active,
    Passive,
}

/// Stable key for a TCP PCB owned by a PCB registry.
#[derive(Debug, Clone, Copy, PartialEq, Eq, Hash, Structural)]
pub struct TcpPcbKey {
    id: u64,
}

impl View for TcpPcbKey {
    type V = u64;

    closed spec fn view(&self) -> u64 {
        self.id
    }
}

impl TcpPcbKey {
    pub(crate) fn from_id(id: u64) -> (r: TcpPcbKey)
        ensures
            r@ == id,
    {
        TcpPcbKey { id }
    }

    /// The number that identifies this key within its registry.
    pub fn id(&self) -> (r: u64)
        ensures
            r == self@,
    {
        self.id
    }

    /// A key is determined by its number.
    pub proof fn lemma_view(self, other: TcpPcbKey)
        ensures
            self@ == other@ ==> self == other,
    {
    }
}

/// Errors opening a connection.
#[derive(Debug)]
pub enum TcpOpenError<E> {
    Pcb(TcpPcbError),
    NetworkUnavailable,
    Random(E),
    Output(TcpOutputError<E>),
}

/// Errors sending data.
#[derive(Debug)]
pub enum TcpSendError<E> {
    Pcb(TcpPcbError),
    State(TcpState),
    Output(TcpOutputError<E>),
}

/// Errors receiving data.
#[derive(Debug, Clone, Copy, PartialEq, Eq, Structural)]
pub enum TcpReceiveError {
    Pcb(TcpPcbError),
    State(TcpState),
}

/// Errors closing a connection.
#[derive(Debug)]
pub enum TcpCloseError<E> {
    Pcb(TcpPcbError),
    Output(TcpOutputError<E>),
    State(TcpState),
}

/// What went wrong taking a received segment.
#[derive(Debug)]
pub enum TcpInputError<E> {
    Packet(TcpError),
    Pcb(TcpPcbError),
    Broadcast,
    Random(E),
    Output(TcpOutputError<E>),
}

/// Errors sending a segment.
#[derive(Debug)]
pub enum TcpOutputError<E> {
    Packet(TcpError),
    Ipv4(Ipv4OutputError<E>),
}

/// The states in which data may be sent.
pub open spec fn send_state(s: TcpState) -> bool {
    s == TcpState::Established || s == TcpState::FinWait1 || s == TcpState::FinWait2 || s
        == TcpState::CloseWait
}

/// The maximum segment size a device MTU allows, if any: what is left
/// after the IPv4 and TCP headers, when something is.
pub open spec fn mss_for_mtu(mtu: usize) -> Option<usize> {
    if mtu > 40 {
        Some((mtu - 40) as usize)
    } else {
        None
    }
}

/// What sending the segment that `local`, `remote`, `seq`, `ack`, `flags`,
/// `window` and `payload` make owes, with the routes and interfaces of the
/// stack: a payload too large for a segment is refused; without a route to
/// `remote`, or without the interface it names, the destination is
/// unreachable; otherwise the segment goes out through that interface as
/// [`ipv4_output_outcome`] says, and success gives the payload length.
pub open spec fn tcp_segment_output_outcome<E>(
    routes: Seq<Ipv4Route>,
    interfaces: Map<u64, Ipv4InterfaceView>,
    local: Ipv4Endpoint,
    remote: Ipv4Endpoint,
    seq: u32,
    ack: u32,
    flags: u8,
    window: u16,
    payload: Seq<u8>,
    r: Result<usize, TcpOutputError<E>>,
) -> bool {
    if TCP_HEADER_LEN + payload.len() > u16::MAX {
        r == Err::<usize, TcpOutputError<E>>(
            TcpOutputError::Packet(TcpError::PayloadTooLarge { len: payload.len() as usize }),
        )
    } else {
        match routed_interface(routes, interfaces, remote.spec_address()) {
            None => r == Err::<usize, TcpOutputError<E>>(
                TcpOutputError::Ipv4(Ipv4OutputError::DestinationUnreachable),
            ),
            Some(i) => {
                &&& r matches Ok(n) ==> n == payload.len()
                &&& exists|sent: Result<usize, Ipv4OutputError<E>>| #[trigger]
                    ipv4_output_outcome(
                        routes,
                        interfaces,
                        i,
                        tcp_segment(local, remote, seq, ack, flags, window, payload).len(),
                        local.spec_address(),
                        remote.spec_address(),
                        sent,
                    ) && (sent is Ok <==> r is Ok) && (sent matches Err(e) ==> r
                        == Err::<usize, TcpOutputError<E>>(TcpOutputError::Ipv4(e)))
            },
        }
    }
}

/// The record of frames `sent` is that of `before` with the segment of
/// `p` with `flags` and `payload` added (see [`Tcp::output`]): from its
/// initial sequence number for a SYN, else from `snd_nxt`, acknowledging
/// `rcv_nxt` and advertising its receive window, carried in an IPv4 packet
/// as [`ipv4_packet_sent`] says.
pub open spec fn tcp_segment_sent(
    before: Stack,
    sent: Seq<SentFrame>,
    p: TcpPcbView,
    flags: u8,
    payload: Seq<u8>,
) -> bool {
    ipv4_packet_sent(
        before,
        sent,
        Ipv4Protocol::Tcp.spec_value(),
        tcp_segment(p.local, p.remote, output_seq(p, flags), p.rcv_nxt, flags, p.rcv_wnd, payload),
        p.local.spec_address(),
        p.remote.spec_address(),
    )
}

/// What a failed send of the segment of `p` with `flags` and `payload`
/// owes (see [`tcp_segment_output_outcome`]).
pub open spec fn tcp_segment_refused<E>(
    before: Stack,
    p: TcpPcbView,
    flags: u8,
    payload: Seq<u8>,
    e: TcpOutputError<E>,
) -> bool {
    tcp_segment_output_outcome(
        before.ipv4_routes@,
        before.interfaces@,
        p.local,
        p.remote,
        output_seq(p, flags),
        p.rcv_nxt,
        flags,
        p.rcv_wnd,
        payload,
        Err(e),
    )
}

/// The sequence number of the reset that answers `seg`: the number it
/// acknowledged, or zero when it acknowledged nothing.
pub open spec fn reset_seq(seg: TcpSegmentView) -> u32 {
    if flags_contain(seg.flags, TCP_ACK) {
        seg.ack
    } else {
        0
    }
}

/// The acknowledgment number of the reset that answers `seg`: zero when
/// `seg` acknowledged something, else the end of `seg`.
pub open spec fn reset_ack(seg: TcpSegmentView) -> u32 {
    if flags_contain(seg.flags, TCP_ACK) {
        0
    } else {
        seg.seq.wrapping_add(seg.length)
    }
}

/// The flags of the reset that answers `seg`: RST, and ACK as well when
/// `seg` acknowledged nothing.
pub open spec fn reset_flags(seg: TcpSegmentView) -> u8 {
    if flags_contain(seg.flags, TCP_ACK) {
        TCP_RST
    } else {
        TCP_RST | TCP_ACK
    }
}

/// What answering `seg` from `remote` to `local`, which no open
/// connection takes, owes (RFC 793, "If the connection does not exist"):
/// a reset with [`reset_seq`], [`reset_ack`] and [`reset_flags`], no
/// window and no data, goes out as an IPv4 packet; a failure to send it is
/// reported as an output error, as [`tcp_segment_output_outcome`] says.
pub open spec fn tcp_reset_outcome<E>(
    before: Stack,
    sent: Seq<SentFrame>,
    seg: TcpSegmentView,
    local: Ipv4Endpoint,
    remote: Ipv4Endpoint,
    r: Result<(), TcpInputError<E>>,
) -> bool {
    match r {
        Ok(_) => ipv4_packet_sent(
            before,
            sent,
            Ipv4Protocol::Tcp.spec_value(),
            tcp_segment(local, remote, reset_seq(seg), reset_ack(seg), reset_flags(seg), 0, Seq::empty()),
            local.spec_address(),
            remote.spec_address(),
        ),
        Err(TcpInputError::Output(e)) => tcp_segment_output_outcome(
            before.ipv4_routes@,
            before.interfaces@,
            local,
            remote,
            reset_seq(seg),
            reset_ack(seg),
            reset_flags(seg),
            0,
            Seq::empty(),
            Err(e),
        ),
        Err(_) => false,
    }
}

/// No connection of `m` takes segments from `remote` to `local`.
pub open spec fn tcp_no_connection(m: Map<u64, TcpPcbView>, local: Ipv4Endpoint, remote: Ipv4Endpoint) -> bool {
    forall|k: u64| #[trigger] m.dom().contains(k) ==> !tcp_matches(m[k], local, remote)
}

/// The PCBs of `m` that are still there once TIME-WAITs that ended by
/// `now` (seconds) are over.
pub open spec fn tcp_expired(m: Map<u64, TcpPcbView>, now: u64) -> Map<u64, TcpPcbView> {
    m.restrict(m.dom().filter(|k: u64| !tcp_time_wait_expired(m[k], now)))
}

/// `frame` carries the retransmission `e`: its segment, in an IPv4 packet
/// from its local to its remote address (see [`ipv4_carries`]).
pub open spec fn tcp_retrans_frame(
    routes: Seq<Ipv4Route>,
    interfaces: Map<u64, Ipv4InterfaceView>,
    frame: SentFrame,
    e: RetransView,
) -> bool {
    ipv4_carries(
        routes,
        interfaces,
        frame,
        Ipv4Protocol::Tcp.spec_value(),
        tcp_segment(e.local, e.remote, e.seq, e.ack, e.flags, e.window, e.payload),
        e.local.spec_address(),
        e.remote.spec_address(),
    )
}

/// The frames handed to the devices after `base` begin with `frames`.
pub open spec fn frames_follow(base: Seq<SentFrame>, frames: Seq<SentFrame>, sent: Seq<SentFrame>) -> bool {
    (base + frames).is_prefix_of(sent)
}

/// What retransmitting the segments `due` in order hands to the devices,
/// from the stack `before` on: first one frame carrying each segment that
/// went out, in the order of `due`. Success means every one of them went
/// out and nothing else was sent; an error is that of the first segment
/// that could not be sent, as [`tcp_segment_output_outcome`] says, and no
/// frame follows those of the segments before it but at most one of that
/// failed send.
pub open spec fn tcp_retransmitted<E>(
    before: Stack,
    sent: Seq<SentFrame>,
    due: Seq<RetransView>,
    r: Result<(), TcpOutputError<E>>,
) -> bool {
    exists|frames: Seq<SentFrame>|
        #[trigger] frames_follow(before.devices.sent(), frames, sent) && frames.len() <= due.len()
            && (forall|j: int|
            0 <= j < frames.len() ==> tcp_retrans_frame(
                before.ipv4_routes@,
                before.interfaces@,
                #[trigger] frames[j],
                due[j],
            )) && match r {
            Ok(_) => frames.len() == due.len() && sent == before.devices.sent() + frames,
            Err(e) => {
                let d = due[frames.len() as int];
                &&& frames.len() < due.len()
                &&& sent.len() <= before.devices.sent().len() + frames.len() + 1
                &&& tcp_segment_output_outcome(
                    before.ipv4_routes@,
                    before.interfaces@,
                    d.local,
                    d.remote,
                    d.seq,
                    d.ack,
                    d.flags,
                    d.window,
                    d.payload,
                    Err(e),
                )
            },
        }
}

/// One tick of the TCP timers, with the clock read as `now` seconds and
/// `timestamp` microseconds and the PCBs visited in the order `keys`:
/// connections in TIME-WAIT whose time is up are removed and the others
/// updated as [`tcp_ticked`] says, and the segments due for
/// retransmission, PCB by PCB in that order, are sent again as
/// [`tcp_retransmitted`] says.
pub open spec fn tcp_tick_at<E>(
    before: Stack,
    after: Stack,
    now: u64,
    timestamp: u64,
    keys: Seq<u64>,
    r: Result<(), TcpOutputError<E>>,
) -> bool {
    let expired = tcp_expired(before.tcp_pcbs@, now);
    &&& keys.no_duplicates()
    &&& keys.to_set() == expired.dom()
    &&& tcp_ticked(before.tcp_pcbs@, after.tcp_pcbs@, now, timestamp)
    &&& tcp_retransmitted(before, after.devices.sent(), tcp_due_concat(expired, keys, timestamp), r)
}

/// `frame` carries the data segment of `p` that holds `data[from..to]`:
/// ACK and PSH set, numbered `from` past `snd_nxt`, acknowledging `rcv_nxt`
/// and advertising the receive window of `p`.
#[verifier::opaque]
pub open spec fn tcp_data_frame(
    routes: Seq<Ipv4Route>,
    interfaces: Map<u64, Ipv4InterfaceView>,
    frame: SentFrame,
    p: TcpPcbView,
    data: Seq<u8>,
    from: int,
    to: int,
) -> bool {
    ipv4_carries(
        routes,
        interfaces,
        frame,
        Ipv4Protocol::Tcp.spec_value(),
        tcp_segment(
            p.local,
            p.remote,
            p.snd_nxt.wrapping_add(from as u32),
            p.rcv_nxt,
            TCP_ACK | TCP_PSH,
            p.rcv_wnd,
            data.subrange(from, to),
        ),
        p.local.spec_address(),
        p.remote.spec_address(),
    )
}

/// `frames` carry `data` from its start, cut at `cuts`, as data segments
/// of `p` of at most its segment size each (see [`tcp_data_frame`]).
pub open spec fn tcp_data_split(
    before: Stack,
    p: TcpPcbView,
    data: Seq<u8>,
    frames: Seq<SentFrame>,
    cuts: Seq<int>,
) -> bool {
    &&& cuts.len() == frames.len() + 1
    &&& cuts[0] == 0
    &&& cuts.last() <= data.len()
    &&& forall|j: int|
        0 <= j < frames.len() ==> cuts[j] < cuts[j + 1] <= cuts[j] + p.mss && tcp_data_frame(
            before.ipv4_routes@,
            before.interfaces@,
            #[trigger] frames[j],
            p,
            data,
            cuts[j],
            cuts[j + 1],
        )
}

/// One more data segment, carrying the piece of `data` after those already
/// cut, extends a split of `data` (see [`tcp_data_split`]).
pub proof fn lemma_data_split_extend(
    before: Stack,
    p: TcpPcbView,
    data: Seq<u8>,
    frames: Seq<SentFrame>,
    cuts: Seq<int>,
    f: SentFrame,
    to: int,
)
    requires
        tcp_data_split(before, p, data, frames, cuts),
        cuts.last() < to <= cuts.last() + p.mss,
        to <= data.len(),
        tcp_data_frame(before.ipv4_routes@, before.interfaces@, f, p, data, cuts.last(), to),
    ensures
        tcp_data_split(before, p, data, frames.push(f), cuts.push(to)),
{
    let frames2 = frames.push(f);
    let cuts2 = cuts.push(to);
    assert(cuts2[0] == 0);
    assert(cuts2.last() == to);
    assert forall|j: int| 0 <= j < frames2.len() implies #[trigger] cuts2[j] < cuts2[j + 1] && cuts2[j + 1] <= cuts2[j]
        + p.mss by {
        if j < frames.len() {
            assert(frames2[j] == frames[j]);
            assert(cuts2[j] == cuts[j] && cuts2[j + 1] == cuts[j + 1]);
        } else {
            assert(cuts2[j] == cuts[cuts.len() - 1]);
            assert(cuts2[j + 1] == to);
        }
    }
    assert forall|j: int| 0 <= j < frames2.len() implies tcp_data_frame(
        before.ipv4_routes@,
        before.interfaces@,
        #[trigger] frames2[j],
        p,
        data,
        cuts2[j],
        cuts2[j + 1],
    ) by {
        if j < frames.len() {
            assert(frames2[j] == frames[j]);
            assert(cuts2[j] == cuts[j] && cuts2[j + 1] == cuts[j + 1]);
        } else {
            assert(cuts2[j] == cuts[cuts.len() - 1]);
            assert(cuts2[j + 1] == to);
            assert(frames2[j] == f);
        }
    }
    assert forall|j: int| 0 <= j < frames2.len() implies cuts2[j] < cuts2[j + 1] <= cuts2[j] + p.mss
        && tcp_data_frame(
        before.ipv4_routes@,
        before.interfaces@,
        #[trigger] frames2[j],
        p,
        data,
        cuts2[j],
        cuts2[j + 1],
    ) by {
        assert(cuts2[j] < cuts2[j + 1] && cuts2[j + 1] <= cuts2[j] + p.mss);
    }
}

/// What sending `data` on `pcb` hands to the devices: for a PCB that sends
/// data, first the segments that went out, in order, each carrying the
/// next piece of `data` (see [`tcp_data_split`]); success means exactly
/// those went out and together they carry the count given; otherwise
/// nothing is sent.
pub open spec fn tcp_send_sent<E>(
    before: Stack,
    sent: Seq<SentFrame>,
    pcb: TcpPcbKey,
    data: Seq<u8>,
    r: Result<usize, TcpSendError<E>>,
) -> bool {
    let k = canonical_key(pcb@);
    if before.tcp_pcbs@.dom().contains(k) && send_state(before.tcp_pcbs@[k].state) {
        exists|frames: Seq<SentFrame>, cuts: Seq<int>|
            #[trigger] tcp_data_split(before, before.tcp_pcbs@[k], data, frames, cuts) && frames_follow(
                before.devices.sent(),
                frames,
                sent,
            ) && (r matches Ok(n) ==> sent == before.devices.sent() + frames && cuts.last() == n)
    } else {
        sent == before.devices.sent()
    }
}

/// The sequence number that a segment of `p` sent with `flags` starts at:
/// the initial one for a SYN, else the next one to send.
pub open spec fn output_seq(p: TcpPcbView, flags: u8) -> u32 {
    if flags_contain(flags, TCP_SYN) {
        p.iss
    } else {
        p.snd_nxt
    }
}

/// `p` after it sent a segment with `flags` and `payload` at `timestamp`
/// (microseconds): one that occupies sequence space is kept for
/// retransmission.
pub open spec fn pcb_after_output(p: TcpPcbView, flags: u8, payload: Seq<u8>, timestamp: u64) -> TcpPcbView {
    if flags & (TCP_SYN | TCP_FIN) != 0 || payload.len() > 0 {
        TcpPcbView {
            retrans: p.retrans.push(
                retrans_new(output_seq(p, flags), flags, payload, timestamp, pcb_retrans_info(p)),
            ),
            ..p
        }
    } else {
        p
    }
}

/// `p` after it answered with `response` at `timestamp`: a segment of its
/// own is sent as by [`pcb_after_output`]; a reset leaves it as it is.
pub open spec fn pcb_after_response(p: TcpPcbView, response: Option<TcpResponse>, timestamp: u64) -> TcpPcbView {
    match response {
        Some(TcpResponse::FromPcb(f)) => pcb_after_output(p, f@, Seq::empty(), timestamp),
        _ => p,
    }
}

/// `key` is a connection that takes segments from `remote` to `local` in
/// `m`, and not a listener where another such connection is not one.
pub open spec fn tcp_selected(m: Map<u64, TcpPcbView>, key: TcpPcbKey, local: Ipv4Endpoint, remote: Ipv4Endpoint) -> bool {
    &&& m.dom().contains(key@)
    &&& canonical_key(key@) == key@
    &&& tcp_matches(m[key@], local, remote)
    &&& (exists|k: u64| #[trigger]
        m.dom().contains(k) && tcp_matches(m[k], local, remote) && m[k].state != TcpState::Listen)
        ==> m[key@].state != TcpState::Listen
}

/// The child that `listener` makes for a SYN at `seq` from `remote` to
/// `local`, with initial sequence number `iss`, before it answers.
pub open spec fn syn_child(listener: TcpPcbKey, local: Ipv4Endpoint, remote: Ipv4Endpoint, seq: u32, iss: u32) -> TcpPcbView {
    pcb_accept_syn(TcpPcbView { parent: Some(listener), ..tcp_fresh_view() }, local, remote, seq, iss)
}

/// `after` is `before` with a new child of `listener` for a SYN at `seq`
/// from `remote` to `local`, with initial sequence number `iss`, that has
/// not answered yet.
pub open spec fn tcp_child_allocated(
    before: Map<u64, TcpPcbView>,
    after: Map<u64, TcpPcbView>,
    listener: TcpPcbKey,
    child: TcpPcbKey,
    local: Ipv4Endpoint,
    remote: Ipv4Endpoint,
    seq: u32,
    iss: u32,
) -> bool {
    &&& !before.dom().contains(child@)
    &&& after == before.insert(child@, syn_child(listener, local, remote, seq, iss))
}

/// `after` is `before` with a new child of `listener` for a SYN at `seq`
/// from `remote` to `local`, with initial sequence number `iss`, that sent
/// its SYN-ACK at `timestamp`.
pub open spec fn tcp_child_made(
    before: Map<u64, TcpPcbView>,
    after: Map<u64, TcpPcbView>,
    listener: TcpPcbKey,
    child: TcpPcbKey,
    local: Ipv4Endpoint,
    remote: Ipv4Endpoint,
    seq: u32,
    iss: u32,
    timestamp: u64,
) -> bool {
    &&& !before.dom().contains(child@)
    &&& after == before.insert(
        child@,
        pcb_after_output(syn_child(listener, local, remote, seq, iss), TCP_SYN | TCP_ACK, Seq::empty(), timestamp),
    )
}

/// What the answer `response` of the connection `p` (after it took a
/// segment from `remote` to `local`) hands to the devices, for the outcome
/// `r`: a segment of its own goes out as [`tcp_segment_sent`] says, and a
/// reset with the numbers it names, no window and no data, as an IPv4
/// packet; when that send fails, `r` is its output error as
/// [`tcp_segment_output_outcome`] says. Without an answer nothing is sent,
/// unless the connection is a listener that makes a child.
pub open spec fn tcp_answer_sent<E>(
    before: Stack,
    sent: Seq<SentFrame>,
    p: TcpPcbView,
    a: TcpPcbAction,
    local: Ipv4Endpoint,
    remote: Ipv4Endpoint,
    r: Result<(), TcpInputError<E>>,
) -> bool {
    match a.response {
        Some(TcpResponse::FromPcb(f)) => match r {
            Err(TcpInputError::Output(e)) => tcp_segment_refused(before, p, f@, Seq::empty(), e),
            _ => tcp_segment_sent(before, sent, p, f@, Seq::empty()),
        },
        Some(TcpResponse::Reset { seq, ack }) => match r {
            Err(TcpInputError::Output(e)) => tcp_segment_output_outcome(
                before.ipv4_routes@,
                before.interfaces@,
                local,
                remote,
                seq,
                ack,
                TCP_RST,
                0,
                Seq::empty(),
                Err(e),
            ),
            _ => ipv4_packet_sent(
                before,
                sent,
                Ipv4Protocol::Tcp.spec_value(),
                tcp_segment(local, remote, seq, ack, TCP_RST, 0, Seq::empty()),
                local.spec_address(),
                remote.spec_address(),
            ),
        },
        None => a.event is AcceptSyn || sent == before.devices.sent(),
    }
}

/// What the connection `key` does with the segment `seg` from `remote` to
/// `local` when the clock reads `now` seconds and its own answer leaves at
/// `timestamp` microseconds: the block takes the segment (see
/// [`pcb_on_segment`]) and answers as [`tcp_answer_sent`] says; when the
/// answer cannot be sent, the PCBs are left as they were. Otherwise the
/// block stays, is queued on its listener once established (the PCB
/// staying updated when that fails), or is closed; a listener makes a
/// child for a SYN, which answers with a SYN-ACK, when its backlog and the
/// table have room, and draws the child's initial sequence number first:
/// when that fails, or there is no room, nothing changes.
pub open spec fn tcp_segment_step<E>(
    before: Stack,
    after: Stack,
    key: TcpPcbKey,
    seg: TcpSegmentView,
    local: Ipv4Endpoint,
    remote: Ipv4Endpoint,
    r: Result<(), TcpInputError<E>>,
    now: u64,
    timestamp: u64,
) -> bool {
    let m = before.tcp_pcbs@;
    let m2 = after.tcp_pcbs@;
    let sent = after.devices.sent();
    let p = m[key@];
    let (p2, a) = pcb_on_segment(p, seg, now);
    let p3 = pcb_after_response(p2, a.response, timestamp);
    &&& tcp_answer_sent(before, sent, p2, a, local, remote, r)
    &&& match a.event {
        TcpPcbEvent::Nothing => match r {
            Ok(_) => m2 == m.insert(key@, p3),
            Err(TcpInputError::Output(_)) => m2 == m,
            Err(_) => false,
        },
        TcpPcbEvent::Established => match r {
            Ok(_) => m2 == tcp_with_established(m.insert(key@, p3), key),
            Err(TcpInputError::Output(_)) => m2 == m,
            Err(TcpInputError::Pcb(_)) => m2 == m.insert(key@, p3),
            Err(_) => false,
        },
        TcpPcbEvent::Close => match r {
            Ok(_) => tcp_closed(m, m2, key),
            Err(TcpInputError::Output(_)) => m2 == m,
            Err(_) => false,
        },
        TcpPcbEvent::AcceptSyn { seq } => match r {
            Ok(_) => if m.len() >= 0xffff_fffd || p.backlog.len() >= p.backlog_max {
                m2 == m && sent == before.devices.sent()
            } else {
                exists|child: TcpPcbKey, iss: u32, ts: u64| #[trigger]
                    tcp_child_made(m, m2, key, child, local, remote, seq, iss, ts) && tcp_segment_sent(
                        before,
                        sent,
                        syn_child(key, local, remote, seq, iss),
                        TCP_SYN | TCP_ACK,
                        Seq::empty(),
                    )
            },
            Err(TcpInputError::Output(e)) => exists|child: TcpPcbKey, iss: u32| #[trigger]
                tcp_child_allocated(m, m2, key, child, local, remote, seq, iss) && tcp_segment_refused(
                    before,
                    syn_child(key, local, remote, seq, iss),
                    TCP_SYN | TCP_ACK,
                    Seq::empty(),
                    e,
                ),
            Err(TcpInputError::Random(_)) => after == before,
            Err(_) => false,
        },
    }
}

/// What a segment `seg` from `remote` to `local` that no open connection
/// takes owes (RFC 793, "If the connection does not exist"): the PCBs stay
/// as they are; a reset is taken quietly, and anything else is answered as
/// [`tcp_reset_outcome`] says.
pub open spec fn tcp_unknown_answered<E>(
    before: Stack,
    after: Stack,
    seg: TcpSegmentView,
    local: Ipv4Endpoint,
    remote: Ipv4Endpoint,
    r: Result<(), TcpInputError<E>>,
) -> bool {
    &&& after.tcp_pcbs@ == before.tcp_pcbs@
    &&& if flags_contain(seg.flags, TCP_RST) {
        r is Ok && after == before
    } else {
        tcp_reset_outcome(before, after.devices.sent(), seg, local, remote, r)
    }
}

/// What the segment `seg` from `remote` to `local` does when it arrives:
/// without a connection for it, or with a closed one, it is answered as
/// [`tcp_unknown_answered`] says; otherwise the connection chosen takes it
/// as [`tcp_segment_step`] says, for some reading of the clocks.
pub open spec fn tcp_segment_outcome<E>(
    before: Stack,
    after: Stack,
    seg: TcpSegmentView,
    local: Ipv4Endpoint,
    remote: Ipv4Endpoint,
    r: Result<(), TcpInputError<E>>,
) -> bool {
    let m = before.tcp_pcbs@;
    if tcp_no_connection(m, local, remote) {
        tcp_unknown_answered(before, after, seg, local, remote, r)
    } else {
        exists|key: TcpPcbKey| #[trigger]
            tcp_selected(m, key, local, remote) && if m[key@].state == TcpState::Closed {
                tcp_unknown_answered(before, after, seg, local, remote, r)
            } else {
                exists|now: u64, timestamp: u64| #[trigger]
                    tcp_segment_step(before, after, key, seg, local, remote, r, now, timestamp)
            }
    }
}

/// The segment that the valid header `h` and `payload` make: its length is
/// that of the payload and one for each of SYN and FIN, modulo 2^32.
pub open spec fn arrived_segment(h: TcpHeaderView, payload: Seq<u8>) -> TcpSegmentView {
    let syn: u32 = if flags_contain(h.flags, TCP_SYN) {
        1
    } else {
        0
    };
    let fin: u32 = if flags_contain(h.flags, TCP_FIN) {
        1
    } else {
        0
    };
    TcpSegmentView {
        seq: h.seq,
        ack: h.ack,
        length: (payload.len() as u32).wrapping_add(syn).wrapping_add(fin),
        window: h.window_size,
        flags: h.flags,
        data: payload,
    }
}

/// A segment in `packet` arriving on `interface` is refused before any
/// connection sees it: it is not a valid segment, or it comes from or goes
/// to a broadcast address.
pub open spec fn tcp_input_refused(interface: Ipv4InterfaceView, packet: Ipv4PacketView) -> bool {
    let src = packet.header.src;
    let dest = packet.header.dest;
    ||| tcp_packet_parse(src, dest, packet.payload) is Err
    ||| is_limited_broadcast(src)
    ||| src == interface.broadcast
    ||| is_limited_broadcast(dest)
    ||| dest == interface.broadcast
}

/// What the segment in `packet`, arriving on `interface`, does: an
/// invalid one is refused with its error, one from or to a broadcast
/// address as such, both with nothing changed; otherwise it arrives as
/// [`tcp_segment_outcome`] says.
pub open spec fn tcp_input_outcome<E>(
    before: Stack,
    after: Stack,
    interface: Ipv4InterfaceView,
    packet: Ipv4PacketView,
    r: Result<(), TcpInputError<E>>,
) -> bool {
    let src = packet.header.src;
    let dest = packet.header.dest;
    match tcp_packet_parse(src, dest, packet.payload) {
        Err(e) => r == Err::<(), TcpInputError<E>>(TcpInputError::Packet(e)) && after == before,
        Ok(h) => if tcp_input_refused(interface, packet) {
            r matches Err(TcpInputError::Broadcast) && after == before
        } else {
            tcp_segment_outcome(
                before,
                after,
                arrived_segment(
                    h,
                    packet.payload.subrange(header_len_of(h.data_offset), packet.payload.len() as int),
                ),
                Ipv4Endpoint::spec_new(dest, h.dest_port),
                Ipv4Endpoint::spec_new(src, h.src_port),
                r,
            )
        },
    }
}

/// The segment size toward `remote` in `stack`: from the MTU of the device
/// of the interface that the route to it names, where all of them exist
/// and the MTU leaves room.
pub open spec fn mss_toward(stack: Stack, remote: Ipv4Addr) -> Option<usize> {
    match routed_interface(stack.ipv4_routes@, stack.interfaces@, remote) {
        None => None,
        Some(i) => match i.device {
            None => None,
            Some(d) => {
                let dk = canonical_key(d@);
                if stack.devices@.dom().contains(dk) {
                    mss_for_mtu(stack.devices@[dk].meta.spec_mtu())
                } else {
                    None
                }
            },
        },
    }
}

/// What taking an established child from the listener `pcb` does to the
/// PCBs of `before`: refused for a missing PCB or one that does not listen;
/// `None` when no child waits; otherwise the oldest child leaves the
/// backlog, takes the segment size toward its remote end, and is given
/// with that end.
pub open spec fn tcp_accept_outcome<E>(
    before: Stack,
    after: Stack,
    pcb: TcpPcbKey,
    r: Result<Option<(TcpPcbKey, Ipv4Endpoint)>, TcpOpenError<E>>,
) -> bool {
    let k = canonical_key(pcb@);
    let m = before.tcp_pcbs@;
    if !m.dom().contains(k) {
        r == Err::<Option<(TcpPcbKey, Ipv4Endpoint)>, TcpOpenError<E>>(
            TcpOpenError::Pcb(TcpPcbError::NotFound),
        ) && after.tcp_pcbs@ == m
    } else if m[k].state != TcpState::Listen {
        r == Err::<Option<(TcpPcbKey, Ipv4Endpoint)>, TcpOpenError<E>>(
            TcpOpenError::Pcb(TcpPcbError::InvalidState(m[k].state)),
        ) && after.tcp_pcbs@ == m
    } else if m[k].backlog.len() == 0 {
        r == Ok::<Option<(TcpPcbKey, Ipv4Endpoint)>, TcpOpenError<E>>(None) && after.tcp_pcbs@ == m
    } else {
        let child = m[k].backlog[0];
        let m1 = m.insert(k, TcpPcbView { backlog: m[k].backlog.drop_first(), ..m[k] });
        let ck = canonical_key(child@);
        if !m1.dom().contains(ck) {
            r == Err::<Option<(TcpPcbKey, Ipv4Endpoint)>, TcpOpenError<E>>(
                TcpOpenError::Pcb(TcpPcbError::NotFound),
            ) && after.tcp_pcbs@ == m1
        } else {
            match mss_toward(before, m1[ck].remote.spec_address()) {
                None => r == Err::<Option<(TcpPcbKey, Ipv4Endpoint)>, TcpOpenError<E>>(
                    TcpOpenError::NetworkUnavailable,
                ) && after.tcp_pcbs@ == m1,
                Some(mss) => r == Ok::<Option<(TcpPcbKey, Ipv4Endpoint)>, TcpOpenError<E>>(
                    Some((child, m1[ck].remote)),
                ) && after.tcp_pcbs@ == m1.insert(ck, TcpPcbView { mss, ..m1[ck] }),
            }
        }
    }
}

/// The local endpoint an active open from `local` to `remote` uses: an
/// unspecified address becomes that of the interface the route names.
pub open spec fn active_open_source(before: Stack, local: Ipv4Endpoint, remote: Ipv4Endpoint) -> Ipv4Endpoint {
    if is_any(local.spec_address()) {
        Ipv4Endpoint::spec_new(
            routed_interface(before.ipv4_routes@, before.interfaces@, remote.spec_address())->0.unicast,
            local.spec_port(),
        )
    } else {
        local
    }
}

/// The rest of an active open of `pcb` to `remote` once the local endpoint
/// was assigned with the outcome `assigned`, leaving the PCBs `assigned_map`
/// (from `before`): on a refusal nothing changed; otherwise the PCB takes
/// a random initial sequence number, enters SYN-SENT and sends its SYN,
/// unless drawing the number or sending fails.
pub open spec fn tcp_after_assign<E>(
    before: Map<u64, TcpPcbView>,
    assigned_map: Map<u64, TcpPcbView>,
    after: Map<u64, TcpPcbView>,
    pcb: TcpPcbKey,
    remote: Ipv4Endpoint,
    assigned: Result<Ipv4Endpoint, TcpPcbError>,
    r: Result<(), TcpOpenError<E>>,
) -> bool {
    let k = canonical_key(pcb@);
    match assigned {
        Err(e) => r == Err::<(), TcpOpenError<E>>(TcpOpenError::Pcb(e)) && after == before,
        Ok(l) => match r {
            Ok(_) => after == assigned_map.insert(k, after[k]) && exists|iss: u32, timestamp: u64|
                #[trigger] pcb_after_output(
                    pcb_connect(assigned_map[k], l, remote, iss),
                    TCP_SYN,
                    Seq::empty(),
                    timestamp,
                ) == after[k],
            Err(e) => (e is Random || e is Output) && after == assigned_map,
        },
    }
}

/// What starting an active open of `pcb` from `local` to `remote` does to
/// the PCBs of `before`: refused when the local address is unspecified and
/// no interface is routed to; otherwise the PCB gets its local endpoint
/// (see [`active_open_source`] and [`tcp_assign_outcome`]) and goes on as
/// [`tcp_after_assign`] says.
pub open spec fn tcp_active_open_outcome<E>(
    before: Stack,
    after: Stack,
    pcb: TcpPcbKey,
    local: Ipv4Endpoint,
    remote: Ipv4Endpoint,
    r: Result<(), TcpOpenError<E>>,
) -> bool {
    let m = before.tcp_pcbs@;
    if is_any(local.spec_address()) && routed_interface(
        before.ipv4_routes@,
        before.interfaces@,
        remote.spec_address(),
    ) is None {
        r == Err::<(), TcpOpenError<E>>(TcpOpenError::NetworkUnavailable) && after.tcp_pcbs@ == m
    } else {
        exists|assigned: Result<Ipv4Endpoint, TcpPcbError>, assigned_map: Map<u64, TcpPcbView>|
            #[trigger] tcp_assign_outcome(
                m,
                assigned_map,
                pcb,
                active_open_source(before, local, remote),
                remote,
                assigned,
            ) && tcp_after_assign(m, assigned_map, after.tcp_pcbs@, pcb, remote, assigned, r)
    }
}

/// What connecting `pcb` to `remote` does: refused for a missing PCB or one
/// that is not closed; otherwise an active open from its local endpoint.
pub open spec fn tcp_connect_outcome<E>(
    before: Stack,
    after: Stack,
    pcb: TcpPcbKey,
    remote: Ipv4Endpoint,
    r: Result<(), TcpOpenError<E>>,
) -> bool {
    let m = before.tcp_pcbs@;
    let k = canonical_key(pcb@);
    if !m.dom().contains(k) {
        r == Err::<(), TcpOpenError<E>>(TcpOpenError::Pcb(TcpPcbError::NotFound)) && after.tcp_pcbs@ == m
    } else if m[k].state != TcpState::Closed {
        r == Err::<(), TcpOpenError<E>>(TcpOpenError::Pcb(TcpPcbError::InvalidState(m[k].state)))
            && after.tcp_pcbs@ == m
    } else {
        tcp_active_open_outcome(before, after, pcb, m[k].local, remote, r)
    }
}

/// An open connection of `m` takes segments from `remote` to `local`.
pub open spec fn tcp_pair_in_use(m: Map<u64, TcpPcbView>, local: Ipv4Endpoint, remote: Ipv4Endpoint) -> bool {
    exists|k: u64|
        #[trigger] m.dom().contains(k) && m[k].state != TcpState::Closed && tcp_matches(m[k], local, remote)
}

/// Adding a block under a new key and leaving it out of the search finds
/// the open connections that were there.
pub proof fn lemma_pair_in_use_fresh(
    m: Map<u64, TcpPcbView>,
    k: u64,
    p: TcpPcbView,
    local: Ipv4Endpoint,
    remote: Ipv4Endpoint,
)
    requires
        !m.dom().contains(k),
    ensures
        tcp_match_taken(m.insert(k, p), k, local, remote, true) == tcp_pair_in_use(m, local, remote),
{
    let m2 = m.insert(k, p);
    if tcp_pair_in_use(m, local, remote) {
        let j = choose|j: u64|
            #[trigger] m.dom().contains(j) && m[j].state != TcpState::Closed && tcp_matches(m[j], local, remote);
        assert(m2.dom().contains(j) && j != k);
    }
    if tcp_match_taken(m2, k, local, remote, true) {
        let j = choose|j: u64|
            #[trigger] m2.dom().contains(j) && j != k && (!true || m2[j].state != TcpState::Closed)
                && tcp_matches(m2[j], local, remote);
        assert(m.dom().contains(j));
    }
}

/// `after` is `before` after the periodic work at `now` seconds and
/// `timestamp` microseconds: blocks whose TIME-WAIT ended are gone, and
/// each other one has taken its retransmission step.
pub open spec fn tcp_ticked(
    before: Map<u64, TcpPcbView>,
    after: Map<u64, TcpPcbView>,
    now: u64,
    timestamp: u64,
) -> bool {
    after == before.restrict(before.dom().filter(|k: u64| !tcp_time_wait_expired(before[k], now))).map_values(
        |p: TcpPcbView| tcp_due_step(p, timestamp),
    )
}

/// How many sequence numbers `p` may send now: its send window less what is
/// in flight, none when as much is in flight.
pub open spec fn send_capacity(p: TcpPcbView) -> int {
    let in_flight = p.snd_nxt.wrapping_sub(p.snd_una);
    if in_flight >= p.snd_wnd {
        0
    } else {
        p.snd_wnd - in_flight
    }
}

/// The smaller of two numbers.
pub open spec fn min_of(a: int, b: int) -> int {
    if a <= b {
        a
    } else {
        b
    }
}

/// `after` is `before` once the connection `k` sent its FIN at `timestamp`
/// (kept for retransmission): it then waits in LAST-ACK when the peer had
/// closed first, else in FIN-WAIT-1.
pub open spec fn tcp_fin_sent(
    before: Map<u64, TcpPcbView>,
    after: Map<u64, TcpPcbView>,
    k: u64,
    timestamp: u64,
) -> bool {
    let p = before[k];
    let q = pcb_after_output(p, TCP_ACK | TCP_FIN, Seq::empty(), timestamp);
    after == before.insert(
        k,
        TcpPcbView {
            snd_nxt: q.snd_nxt.wrapping_add(1),
            state: if p.state == TcpState::CloseWait {
                TcpState::LastAck
            } else {
                TcpState::FinWait1
            },
            ..q
        },
    )
}

/// What closing `pcb` hands to the devices: a connection that has to say
/// goodbye (SYN-RECEIVED, ESTABLISHED or CLOSE-WAIT) sends its FIN with an
/// ACK as [`tcp_segment_sent`] says, or reports why it could not as
/// [`tcp_segment_refused`] says; any other close sends nothing.
pub open spec fn tcp_close_sent<E>(
    before: Stack,
    sent: Seq<SentFrame>,
    pcb: TcpPcbKey,
    r: Result<(), TcpCloseError<E>>,
) -> bool {
    let k = canonical_key(pcb@);
    let p = before.tcp_pcbs@[k];
    if before.tcp_pcbs@.dom().contains(k) && (p.state == TcpState::SynReceived || p.state
        == TcpState::Established || p.state == TcpState::CloseWait) {
        &&& r is Ok ==> tcp_segment_sent(before, sent, p, TCP_ACK | TCP_FIN, Seq::empty())
        &&& r matches Err(TcpCloseError::Output(e)) ==> tcp_segment_refused(
            before,
            p,
            TCP_ACK | TCP_FIN,
            Seq::empty(),
            e,
        )
    } else {
        sent == before.devices.sent()
    }
}

/// What starting to connect `pcb` hands to the devices: success means its
/// SYN went out as [`tcp_segment_sent`] says; a refusal other than an
/// output error sends nothing.
pub open spec fn tcp_connect_sent<E>(before: Stack, after: Stack, pcb: TcpPcbKey, r: Result<(), TcpOpenError<E>>) -> bool {
    match r {
        Ok(_) => tcp_segment_sent(
            before,
            after.devices.sent(),
            after.tcp_pcbs@[canonical_key(pcb@)],
            TCP_SYN,
            Seq::empty(),
        ),
        Err(e) => !(e is Output) ==> after.devices.sent() == before.devices.sent(),
    }
}

/// What closing `pcb` does to the PCBs `before`: refused for a missing
/// PCB; a listener or a connection in SYN-SENT is removed; a connection in
/// SYN-RECEIVED, ESTABLISHED or CLOSE-WAIT sends its FIN (see
/// [`tcp_fin_sent`]), changing nothing when that fails; in any other state
/// the close is refused.
pub open spec fn tcp_close_outcome<E>(
    before: Map<u64, TcpPcbView>,
    after: Map<u64, TcpPcbView>,
    pcb: TcpPcbKey,
    r: Result<(), TcpCloseError<E>>,
) -> bool {
    let k = canonical_key(pcb@);
    if !before.dom().contains(k) {
        r == Err::<(), TcpCloseError<E>>(TcpCloseError::Pcb(TcpPcbError::NotFound)) && after == before
    } else {
        let s = before[k].state;
        if s == TcpState::Listen || s == TcpState::SynSent {
            r is Ok && tcp_closed(before, after, pcb)
        } else if s == TcpState::SynReceived || s == TcpState::Established || s == TcpState::CloseWait {
            match r {
                Ok(_) => exists|timestamp: u64| #[trigger] tcp_fin_sent(before, after, k, timestamp),
                Err(e) => e is Output && after == before,
            }
        } else {
            r == Err::<(), TcpCloseError<E>>(TcpCloseError::State(s)) && after == before
        }
    }
}

/// What reading received data of `pcb` into a buffer holding `buf_before`
/// does: refused for a missing PCB and in states before the connection is
/// up; `Some(0)` at the end of the peer's data or for an empty buffer;
/// `None` while nothing has arrived; otherwise as much as fits is copied
/// to the front of the buffer and leaves the receive buffer.
pub open spec fn tcp_receive_outcome(
    before: Map<u64, TcpPcbView>,
    after: Map<u64, TcpPcbView>,
    pcb: TcpPcbKey,
    buf_before: Seq<u8>,
    buf_after: Seq<u8>,
    r: Result<Option<usize>, TcpReceiveError>,
) -> bool {
    let k = canonical_key(pcb@);
    if !before.dom().contains(k) {
        r == Err::<Option<usize>, TcpReceiveError>(TcpReceiveError::Pcb(TcpPcbError::NotFound))
            && after == before && buf_after == buf_before
    } else {
        let p = before[k];
        if p.state == TcpState::Closed || p.state == TcpState::Listen || p.state
            == TcpState::SynSent || p.state == TcpState::SynReceived {
            r == Err::<Option<usize>, TcpReceiveError>(TcpReceiveError::State(p.state)) && after
                == before && buf_after == buf_before
        } else if (p.state == TcpState::CloseWait && p.receive_buffer.len() == 0) || p.state
            == TcpState::Closing || p.state == TcpState::LastAck || p.state
            == TcpState::TimeWait || buf_before.len() == 0 {
            r == Ok::<Option<usize>, TcpReceiveError>(Some(0)) && after == before && buf_after
                == buf_before
        } else if p.receive_buffer.len() == 0 {
            r == Ok::<Option<usize>, TcpReceiveError>(None) && after == before && buf_after
                == buf_before
        } else {
            let n = crate::protocol::tcp::pcb::receive_len(p, buf_before.len() as int);
            &&& r == Ok::<Option<usize>, TcpReceiveError>(Some(n as usize))
            &&& buf_after.subrange(0, n) == p.receive_buffer.subrange(0, n)
            &&& after == before.insert(
                k,
                crate::protocol::tcp::pcb::pcb_after_receive(p, n),
            )
        }
    }
}

/// What sending `data` on `pcb` does to the PCBs `before`: refused for a
/// missing PCB or one in a state that sends no data; otherwise as much of
/// `data` as the peer's window lets through now goes out in segments of at
/// most the segment size, each kept for retransmission, and the count
/// sent is given; empty data sends nothing and gives 0; a failed output is
/// reported as such.
pub open spec fn tcp_send_outcome<E>(
    before: Map<u64, TcpPcbView>,
    after: Map<u64, TcpPcbView>,
    pcb: TcpPcbKey,
    data: Seq<u8>,
    r: Result<usize, TcpSendError<E>>,
) -> bool {
    let k = canonical_key(pcb@);
    if !before.dom().contains(k) {
        r == Err::<usize, TcpSendError<E>>(TcpSendError::Pcb(TcpPcbError::NotFound)) && after == before
    } else if !send_state(before[k].state) {
        r == Err::<usize, TcpSendError<E>>(TcpSendError::State(before[k].state)) && after == before
    } else {
        let p = before[k];
        let q = after[k];
        &&& data.len() == 0 ==> r == Ok::<usize, TcpSendError<E>>(0) && after == before
        &&& after == before.insert(k, q)
        &&& q == TcpPcbView { snd_nxt: q.snd_nxt, retrans: q.retrans, ..p }
        &&& p.retrans.is_prefix_of(q.retrans)
        &&& match r {
            Ok(n) => {
                &&& n <= data.len()
                &&& p.mss > 0 ==> n == min_of(data.len() as int, send_capacity(p))
                &&& q.snd_nxt == p.snd_nxt.wrapping_add(n as u32)
            },
            Err(e) => e is Output,
        }
    }
}

/// TCP operations on the connections of a stack.
pub struct Tcp;

impl Tcp {
    /// Opens a fresh PCB.
    pub fn socket(stack: &mut Stack) -> (r: TcpPcbKey)
        requires
            old(stack).wf(),
            old(stack).tcp_pcbs@.len() < u32::MAX - 1,
        ensures
            final(stack).wf(),
            final(stack).same_except_tcp(old(stack)),
            !old(stack).tcp_pcbs@.dom().contains(r@),
            canonical_key(r@) == r@,
            final(stack).tcp_pcbs@ == old(stack).tcp_pcbs@.insert(r@, tcp_fresh_view()),
    {
        stack.tcp_pcbs.open()
    }

    /// Binds `pcb` to `local`: see [`TcpPcbRegistry::bind`].
    pub fn bind(stack: &mut Stack, pcb: TcpPcbKey, local: Ipv4Endpoint) -> (r: Result<(), TcpPcbError>)
        requires
            old(stack).wf(),
        ensures
            final(stack).wf(),
            final(stack).same_except_tcp(old(stack)),
            tcp_bind_outcome(old(stack).tcp_pcbs@, final(stack).tcp_pcbs@, pcb, local, r),
    {
        stack.tcp_pcbs.bind(pcb, local)
    }

    /// Makes `pcb` listen: see [`TcpPcbRegistry::listen`].
    pub fn listen(stack: &mut Stack, pcb: TcpPcbKey, backlog: usize) -> (r: Result<(), TcpPcbError>)
        requires
            old(stack).wf(),
        ensures
            final(stack).wf(),
            final(stack).same_except_tcp(old(stack)),
            tcp_listen_outcome(old(stack).tcp_pcbs@, final(stack).tcp_pcbs@, pcb, backlog, r),
    {
        stack.tcp_pcbs.listen(pcb, backlog)
    }

    /// The maximum segment size toward `remote`: the MTU of the device of
    /// the interface routing to it, less the headers.
    pub fn mss<E>(stack: &Stack, remote: Ipv4Endpoint) -> (r: Result<usize, TcpOpenError<E>>)
        requires
            stack.wf(),
        ensures
            r == match mss_toward(*stack, remote.spec_address()) {
                Some(m) => Ok::<usize, TcpOpenError<E>>(m),
                None => Err(TcpOpenError::NetworkUnavailable),
            },
            r matches Ok(m) ==> m > 0,
    {
        let found = stack.ipv4_routes.lookup(remote.address());
        proof {
            lemma_lookup_is_best(stack.ipv4_routes@, remote.spec_address(), found);
        }
        let route = match found {
            Some(r) => r,
            None => {
                return Err(TcpOpenError::NetworkUnavailable);
            },
        };
        let interface = match stack.interfaces.interface_as(route.interface()) {
            Some(i) => i,
            None => {
                return Err(TcpOpenError::NetworkUnavailable);
            },
        };
        let device = match interface.device() {
            Some(d) => d,
            None => {
                return Err(TcpOpenError::NetworkUnavailable);
            },
        };
        let mtu = match stack.devices.get(device) {
            Some(d) => d.meta().mtu(),
            None => {
                return Err(TcpOpenError::NetworkUnavailable);
            },
        };
        match mtu.checked_sub(20 + TCP_HEADER_LEN) {
            Some(mss) => {
                if mss == 0 {
                    Err(TcpOpenError::NetworkUnavailable)
                } else {
                    Ok(mss)
                }
            },
            None => Err(TcpOpenError::NetworkUnavailable),
        }
    }

    /// Takes the oldest established child of the listener `pcb` and sets its
    /// segment size; `None` when none waits, so that the caller may wait and
    /// try again.
    pub fn accept<E>(stack: &mut Stack, pcb: TcpPcbKey) -> (r: Result<Option<(TcpPcbKey, Ipv4Endpoint)>, TcpOpenError<E>>)
        requires
            old(stack).wf(),
        ensures
            final(stack).wf(),
            final(stack).same_except_tcp(old(stack)),
            tcp_accept_outcome(*old(stack), *final(stack), pcb, r),
    {
        let child = match stack.tcp_pcbs.accept(pcb) {
            Ok(Some(c)) => c,
            Ok(None) => {
                return Ok(None);
            },
            Err(e) => {
                return Err(TcpOpenError::Pcb(e));
            },
        };
        let mut accepted = match stack.tcp_pcbs.get(child) {
            Ok(p) => p,
            Err(e) => {
                return Err(TcpOpenError::Pcb(e));
            },
        };
        let mss = match Tcp::mss(stack, accepted.remote()) {
            Ok(m) => m,
            Err(e) => {
                return Err(e);
            },
        };
        accepted.set_mss(mss);
        let remote = accepted.remote();
        match stack.tcp_pcbs.replace(child, accepted) {
            Ok(()) => Ok(Some((child, remote))),
            Err(e) => Err(TcpOpenError::Pcb(e)),
        }
    }

    /// Starts an active open of the closed `pcb` to `remote`; the caller then
    /// waits with [`Tcp::poll_connect`].
    pub fn connect<R: Random, T: Time>(stack: &mut Stack, pcb: TcpPcbKey, remote: Ipv4Endpoint) -> (r: Result<
        (),
        TcpOpenError<R::Error>,
    >)
        requires
            old(stack).wf(),
        ensures
            final(stack).wf(),
            final(stack).same_except_tcp(old(stack)),
            tcp_connect_outcome(*old(stack), *final(stack), pcb, remote, r),
            final(stack).tcp_pcbs@.dom() == old(stack).tcp_pcbs@.dom(),
            forall|j: u64|
                j != canonical_key(pcb@) && #[trigger] old(stack).tcp_pcbs@.dom().contains(j)
                    ==> final(stack).tcp_pcbs@[j] == old(stack).tcp_pcbs@[j],
            old(stack).tcp_pcbs@.dom().contains(canonical_key(pcb@)) ==> final(stack).tcp_pcbs@[canonical_key(pcb@)].backlog
                == old(stack).tcp_pcbs@[canonical_key(pcb@)].backlog,
            r is Ok ==> final(stack).tcp_pcbs@.dom().contains(canonical_key(pcb@))
                && final(stack).tcp_pcbs@[canonical_key(pcb@)].state == TcpState::SynSent,
            tcp_connect_sent(*old(stack), *final(stack), pcb, r),
    {
        let current = match stack.tcp_pcbs.get(pcb) {
            Ok(p) => p,
            Err(e) => {
                return Err(TcpOpenError::Pcb(e));
            },
        };
        if current.state() != TcpState::Closed {
            return Err(TcpOpenError::Pcb(TcpPcbError::InvalidState(current.state())));
        }
        Tcp::start_active::<R, T>(stack, pcb, current.local(), remote)
    }

    /// How an active open stands: `Ok(true)` once established, when the
    /// segment size is set from the MTU of the device the route to the peer
    /// leads to (see [`mss_toward`]), `Ok(false)` while the handshake goes
    /// on; a connection that failed is removed.
    pub fn poll_connect<E>(stack: &mut Stack, pcb: TcpPcbKey) -> (r: Result<bool, TcpOpenError<E>>)
        requires
            old(stack).wf(),
        ensures
            final(stack).wf(),
            final(stack).same_except_tcp(old(stack)),
            ({
                let k = canonical_key(pcb@);
                if !old(stack).tcp_pcbs@.dom().contains(k) {
                    r matches Err(TcpOpenError::Pcb(e)) && e == TcpPcbError::NotFound
                } else {
                    let s = old(stack).tcp_pcbs@[k].state;
                    &&& (s == TcpState::SynSent || s == TcpState::SynReceived) ==> (r matches Ok(false)
                        && final(stack).tcp_pcbs@ == old(stack).tcp_pcbs@)
                    &&& (s != TcpState::SynSent && s != TcpState::SynReceived && s
                        != TcpState::Established) ==> (r matches Err(TcpOpenError::Pcb(e)) && e
                        == TcpPcbError::NotFound) && !final(stack).tcp_pcbs@.dom().contains(k)
                    &&& (r matches Ok(true)) ==> s == TcpState::Established
                    &&& s == TcpState::Established ==> match mss_toward(
                        *old(stack),
                        old(stack).tcp_pcbs@[k].remote.spec_address(),
                    ) {
                        Some(m) => (r matches Ok(true)) && final(stack).tcp_pcbs@
                            == old(stack).tcp_pcbs@.insert(
                            k,
                            TcpPcbView { mss: m, ..old(stack).tcp_pcbs@[k] },
                        ),
                        None => (r matches Err(TcpOpenError::NetworkUnavailable))
                            && final(stack).tcp_pcbs@ == old(stack).tcp_pcbs@,
                    }
                }
            }),
    {
        let current = match stack.tcp_pcbs.get(pcb) {
            Ok(p) => p,
            Err(e) => {
                return Err(TcpOpenError::Pcb(e));
            },
        };
        let state = current.state();
        if state == TcpState::Established {
            let mut established = current;
            let mss = match Tcp::mss(stack, established.remote()) {
                Ok(m) => m,
                Err(e) => {
                    return Err(e);
                },
            };
            established.set_mss(mss);
            return match stack.tcp_pcbs.replace(pcb, established) {
                Ok(()) => Ok(true),
                Err(e) => Err(TcpOpenError::Pcb(e)),
            };
        }
        if state == TcpState::SynSent || state == TcpState::SynReceived {
            return Ok(false);
        }
        let _ = stack.tcp_pcbs.close(pcb);
        Err(TcpOpenError::Pcb(TcpPcbError::NotFound))
    }

    /// Opens a connection from `local`: actively to `remote` (then wait with
    /// [`Tcp::poll_connect`]), or passively by listening (then wait with
    /// [`Tcp::accept`] on the key given). A PCB that could not be set up is
    /// removed again.
    pub fn open<R: Random, T: Time>(stack: &mut Stack, local: Ipv4Endpoint, remote: Ipv4Endpoint, mode: TcpOpenMode) -> (r:
        Result<TcpPcbKey, TcpOpenError<R::Error>>)
        requires
            old(stack).wf(),
            old(stack).tcp_pcbs@.len() < u32::MAX - 1,
        ensures
            final(stack).wf(),
            final(stack).same_except_tcp(old(stack)),
            match r {
                Ok(key) => {
                    &&& !old(stack).tcp_pcbs@.dom().contains(key@)
                    &&& canonical_key(key@) == key@
                    &&& final(stack).tcp_pcbs@.dom() == old(stack).tcp_pcbs@.dom().insert(key@)
                    &&& mode == TcpOpenMode::Passive ==> final(stack).tcp_pcbs@ == old(stack).tcp_pcbs@.insert(
                        key@,
                        TcpPcbView {
                            local,
                            remote: crate::protocol::tcp::pcb::unspecified(),
                            state: TcpState::Listen,
                            backlog_max: 1,
                            ..tcp_fresh_view()
                        },
                    )
                    &&& mode == TcpOpenMode::Active ==> final(stack).tcp_pcbs@[key@].state
                        == TcpState::SynSent && final(stack).tcp_pcbs@[key@].remote == remote
                },
                Err(_) => final(stack).tcp_pcbs@.dom() == old(stack).tcp_pcbs@.dom(),
            },
            mode == TcpOpenMode::Passive ==> (r is Ok <==> (!tcp_pair_in_use(
                old(stack).tcp_pcbs@,
                local,
                remote,
            ) && local.spec_port() != 0)),
            mode == TcpOpenMode::Passive && tcp_pair_in_use(old(stack).tcp_pcbs@, local, remote) ==> r
                matches Err(TcpOpenError::Pcb(TcpPcbError::AlreadyBound)),
    {
        let pcb = Tcp::socket(stack);
        let mut fresh = match stack.tcp_pcbs.get(pcb) {
            Ok(p) => p,
            Err(e) => {
                return Err(TcpOpenError::Pcb(e));
            },
        };
        if mode == TcpOpenMode::Active {
            fresh.set_local(local);
            match stack.tcp_pcbs.replace(pcb, fresh) {
                Ok(()) => {},
                Err(e) => {
                    return Err(TcpOpenError::Pcb(e));
                },
            }
            match Tcp::connect::<R, T>(stack, pcb, remote) {
                Ok(()) => Ok(pcb),
                Err(e) => {
                    let _ = stack.tcp_pcbs.close(pcb);
                    Err(e)
                },
            }
        } else {
            proof {
                lemma_pair_in_use_fresh(old(stack).tcp_pcbs@, pcb@, tcp_fresh_view(), local, remote);
            }
            if stack.tcp_pcbs.endpoint_in_use(pcb, local, remote) {
                let _ = stack.tcp_pcbs.close(pcb);
                return Err(TcpOpenError::Pcb(TcpPcbError::AlreadyBound));
            }
            fresh.set_local(local);
            match stack.tcp_pcbs.replace(pcb, fresh) {
                Ok(()) => {},
                Err(e) => {
                    return Err(TcpOpenError::Pcb(e));
                },
            }
            match stack.tcp_pcbs.listen(pcb, 1) {
                Ok(()) => Ok(pcb),
                Err(e) => {
                    let _ = stack.tcp_pcbs.close(pcb);
                    Err(TcpOpenError::Pcb(e))
                },
            }
        }
    }

    fn start_active<R: Random, T: Time>(stack: &mut Stack, pcb: TcpPcbKey, local: Ipv4Endpoint, remote: Ipv4Endpoint) -> (r:
        Result<(), TcpOpenError<R::Error>>)
        requires
            old(stack).wf(),
        ensures
            final(stack).wf(),
            final(stack).same_except_tcp(old(stack)),
            tcp_active_open_outcome(*old(stack), *final(stack), pcb, local, remote, r),
            final(stack).tcp_pcbs@.dom() == old(stack).tcp_pcbs@.dom(),
            forall|j: u64|
                j != canonical_key(pcb@) && #[trigger] old(stack).tcp_pcbs@.dom().contains(j)
                    ==> final(stack).tcp_pcbs@[j] == old(stack).tcp_pcbs@[j],
            old(stack).tcp_pcbs@.dom().contains(canonical_key(pcb@)) ==> final(stack).tcp_pcbs@[canonical_key(pcb@)].backlog
                == old(stack).tcp_pcbs@[canonical_key(pcb@)].backlog,
            r is Ok ==> final(stack).tcp_pcbs@.dom().contains(canonical_key(pcb@))
                && final(stack).tcp_pcbs@[canonical_key(pcb@)].state == TcpState::SynSent,
            tcp_connect_sent(*old(stack), *final(stack), pcb, r),
    {
        let ghost m = old(stack).tcp_pcbs@;
        let ghost k = canonical_key(pcb@);
        let ghost given = local;
        let ghost routed = routed_interface(old(stack).ipv4_routes@, old(stack).interfaces@, remote.spec_address());
        let mut local = local;
        if local.address().is_unspecified() {
            let found = stack.ipv4_routes.lookup(remote.address());
            proof {
                lemma_lookup_is_best(stack.ipv4_routes@, remote.spec_address(), found);
            }
            let route = match found {
                Some(r) => r,
                None => {
                    return Err(TcpOpenError::NetworkUnavailable);
                },
            };
            let interface = match stack.interfaces.interface_as(route.interface()) {
                Some(i) => i,
                None => {
                    return Err(TcpOpenError::NetworkUnavailable);
                },
            };
            local = Ipv4Endpoint::new(interface.unicast(), local.port());
            assert(routed == Some(interface@));
        }
        let ghost from = local;
        assert(from == active_open_source(*old(stack), given, remote));
        let assigned = stack.tcp_pcbs.assign_dynamic_port(pcb, local, remote);
        let ghost m2 = stack.tcp_pcbs@;
        assert(tcp_assign_outcome(m, m2, pcb, from, remote, assigned));
        local = match assigned {
            Ok(l) => l,
            Err(e) => {
                return Err(TcpOpenError::Pcb(e));
            },
        };
        let iss = match R::random32() {
            Ok(v) => v,
            Err(e) => {
                assert(tcp_after_assign(m, m2, stack.tcp_pcbs@, pcb, remote, assigned, Err::<(), TcpOpenError<R::Error>>(TcpOpenError::Random(e))));
                return Err(TcpOpenError::Random(e));
            },
        };
        let mut active = match stack.tcp_pcbs.get(pcb) {
            Ok(p) => p,
            Err(e) => {
                assert(false);
                return Err(TcpOpenError::Pcb(e));
            },
        };
        active.connect(local, remote, iss);
        let ghost connected = active@;
        let no_payload: &[u8] = &[];
        assert(no_payload@ =~= Seq::<u8>::empty());
        match Tcp::output::<R, T>(stack, &mut active, TcpFlags::syn(), no_payload) {
            Ok(_) => {},
            Err(e) => {
                return Err(TcpOpenError::Output(e));
            },
        }
        let ghost ts = choose|t: u64| #[trigger] pcb_after_output(connected, TCP_SYN, no_payload@, t) == active@;
        let r = match stack.tcp_pcbs.replace(pcb, active) {
            Ok(()) => Ok(()),
            Err(e) => Err(TcpOpenError::Pcb(e)),
        };
        assert(pcb_after_output(pcb_connect(m2[k], local, remote, iss), TCP_SYN, Seq::empty(), ts)
            == stack.tcp_pcbs@[k]);
        assert(tcp_segment_sent(*old(stack), stack.devices.sent(), connected, TCP_SYN, Seq::empty()));
        assert(tcp_segment_sent(*old(stack), stack.devices.sent(), stack.tcp_pcbs@[k], TCP_SYN, Seq::empty()));
        r
    }

    /// Closes `pcb`: a listener or a connection still in SYN-SENT is removed;
    /// an established or half-open one sends its FIN.
    pub fn close<R: Random, T: Time>(stack: &mut Stack, pcb: TcpPcbKey) -> (r: Result<(), TcpCloseError<R::Error>>)
        requires
            old(stack).wf(),
        ensures
            final(stack).wf(),
            final(stack).same_except_tcp(old(stack)),
            tcp_close_outcome(old(stack).tcp_pcbs@, final(stack).tcp_pcbs@, pcb, r),
            tcp_close_sent(*old(stack), final(stack).devices.sent(), pcb, r),
    {
        let mut current = match stack.tcp_pcbs.get(pcb) {
            Ok(p) => p,
            Err(e) => {
                return Err(TcpCloseError::Pcb(e));
            },
        };
        let state = current.state();
        if state == TcpState::Listen || state == TcpState::SynSent {
            let _ = stack.tcp_pcbs.close(pcb);
            return Ok(());
        }
        if state == TcpState::SynReceived || state == TcpState::Established || state
            == TcpState::CloseWait {
            let ghost p = current@;
            let no_payload: &[u8] = &[];
            assert(no_payload@ =~= Seq::<u8>::empty());
            let fin = TcpFlags::ack().union(TcpFlags::fin());
            match Tcp::output::<R, T>(stack, &mut current, fin, no_payload) {
                Ok(_) => {},
                Err(e) => {
                    return Err(TcpCloseError::Output(e));
                },
            }
            let ghost ts = choose|t: u64| #[trigger] pcb_after_output(p, fin@, no_payload@, t) == current@;
            if state == TcpState::CloseWait {
                current.enter_last_ack();
            } else {
                current.enter_fin_wait1();
            }
            let r = match stack.tcp_pcbs.replace(pcb, current) {
                Ok(()) => Ok(()),
                Err(e) => Err(TcpCloseError::Pcb(e)),
            };
            assert(tcp_fin_sent(old(stack).tcp_pcbs@, stack.tcp_pcbs@, canonical_key(pcb@), ts));
            return r;
        }
        Err(TcpCloseError::State(state))
    }

    /// Sends as much of `data` as the peer's window and the segment size let
    /// through now, in segments, and gives how much was sent; the caller
    /// sends the rest once the window opens.
    pub fn send<R: Random, T: Time>(stack: &mut Stack, pcb: TcpPcbKey, data: &[u8]) -> (r: Result<
        usize,
        TcpSendError<R::Error>,
    >)
        requires
            old(stack).wf(),
        ensures
            final(stack).wf(),
            final(stack).same_except_tcp(old(stack)),
            tcp_send_outcome(old(stack).tcp_pcbs@, final(stack).tcp_pcbs@, pcb, data@, r),
            tcp_send_sent(*old(stack), final(stack).devices.sent(), pcb, data@, r),
    {
        let current = match stack.tcp_pcbs.get(pcb) {
            Ok(p) => p,
            Err(e) => {
                return Err(TcpSendError::Pcb(e));
            },
        };
        let state = current.state();
        if !(state == TcpState::Established || state == TcpState::FinWait1 || state
            == TcpState::FinWait2 || state == TcpState::CloseWait) {
            return Err(TcpSendError::State(state));
        }
        let ghost k = canonical_key(pcb@);
        let ghost p = old(stack).tcp_pcbs@[k];
        let mut sent: usize = 0;
        let ghost base = old(stack).devices.sent();
        let ghost mut frames: Seq<SentFrame> = Seq::empty();
        let ghost mut cuts: Seq<int> = seq![0int];
        proof {
            assert(p.retrans.is_prefix_of(p.retrans));
            assert(old(stack).tcp_pcbs@ =~= old(stack).tcp_pcbs@.insert(k, p));
            assert(base + frames =~= base);
        }
        while sent < data.len()
            invariant
                stack.wf(),
                stack.same_except_tcp(old(stack)),
                sent <= data@.len(),
                old(stack).tcp_pcbs@.dom().contains(k),
                k == canonical_key(pcb@),
                p == old(stack).tcp_pcbs@[k],
                send_state(p.state),
                stack.tcp_pcbs@ == old(stack).tcp_pcbs@.insert(k, stack.tcp_pcbs@[k]),
                stack.tcp_pcbs@[k] == (TcpPcbView {
                    snd_nxt: stack.tcp_pcbs@[k].snd_nxt,
                    retrans: stack.tcp_pcbs@[k].retrans,
                    ..p
                }),
                p.retrans.is_prefix_of(stack.tcp_pcbs@[k].retrans),
                stack.tcp_pcbs@[k].snd_nxt == p.snd_nxt.wrapping_add(sent as u32),
                sent <= send_capacity(p),
                send_capacity(p) > 0 ==> stack.tcp_pcbs@[k].snd_nxt.wrapping_sub(p.snd_una) == p.snd_nxt.wrapping_sub(p.snd_una) + sent,
                p.mss > 0 ==> sent <= data@.len(),
                sent == 0 ==> stack.tcp_pcbs@ == old(stack).tcp_pcbs@,
                base == old(stack).devices.sent(),
                stack.devices.sent() == base + frames,
                cuts.last() == sent,
                tcp_data_split(*old(stack), p, data@, frames, cuts),
            decreases data@.len() - sent,
        {
            let mut current = match stack.tcp_pcbs.get(pcb) {
                Ok(p) => p,
                Err(e) => {
                    return Err(TcpSendError::Pcb(e));
                },
            };
            let state = current.state();
            if !(state == TcpState::Established || state == TcpState::FinWait1 || state
                == TcpState::FinWait2 || state == TcpState::CloseWait) {
                return Err(TcpSendError::State(state));
            }
            let in_flight = current.snd_nxt().wrapping_sub(current.snd_una());
            let capacity = (current.snd_wnd() as u32).saturating_sub(in_flight) as usize;
            if capacity == 0 {
                return Ok(sent);
            }
            let mut length = capacity;
            if current.mss() < length {
                length = current.mss();
            }
            if data.len() - sent < length {
                length = data.len() - sent;
            }
            if length == 0 {
                return Ok(sent);
            }
            let chunk = vstd::slice::slice_subrange(data, sent, sent + length);
            let ghost at = *stack;
            let ghost q = current@;
            match Tcp::output::<R, T>(stack, &mut current, TcpFlags::ack().union(TcpFlags::psh()), chunk) {
                Ok(_) => {
                    proof {
                        assert((TCP_ACK | TCP_PSH) & TCP_SYN != TCP_SYN) by (bit_vector);
                        lemma_sent_carries(
                            at,
                            stack.devices.sent(),
                            Ipv4Protocol::Tcp.spec_value(),
                            tcp_segment(
                                q.local,
                                q.remote,
                                output_seq(q, TCP_ACK | TCP_PSH),
                                q.rcv_nxt,
                                TCP_ACK | TCP_PSH,
                                q.rcv_wnd,
                                chunk@,
                            ),
                            q.local.spec_address(),
                            q.remote.spec_address(),
                        );
                        let f = stack.devices.sent().last();
                        assert(chunk@ == data@.subrange(sent as int, sent + length));
                        reveal(tcp_data_frame);
                        assert(tcp_data_frame(
                            old(stack).ipv4_routes@,
                            old(stack).interfaces@,
                            f,
                            p,
                            data@,
                            sent as int,
                            sent + length,
                        ));
                        lemma_data_split_extend(*old(stack), p, data@, frames, cuts, f, sent + length);
                        frames = frames.push(f);
                        cuts = cuts.push(sent + length);
                        assert(stack.devices.sent() =~= base + frames);
                    }
                },
                Err(e) => {
                    proof {
                        assert(base + frames =~= at.devices.sent());
                        assert(frames_follow(base, frames, stack.devices.sent()));
                    }
                    return Err(TcpSendError::Output(e));
                },
            }
            current.advance_send(length);
            match stack.tcp_pcbs.replace(pcb, current) {
                Ok(()) => {},
                Err(e) => {
                    return Err(TcpSendError::Pcb(e));
                },
            }
            sent = sent + length;
        }
        Ok(sent)
    }

    /// Reads received data of `pcb` into `buffer`: `Some(0)` at the end of
    /// the peer's data or for an empty buffer, `None` while nothing has
    /// arrived yet, so that the caller may wait and try again.
    pub fn receive(stack: &mut Stack, pcb: TcpPcbKey, buffer: &mut [u8]) -> (r: Result<
        Option<usize>,
        TcpReceiveError,
    >)
        requires
            old(stack).wf(),
        ensures
            final(stack).wf(),
            final(stack).same_except_tcp(old(stack)),
            tcp_receive_outcome(
                old(stack).tcp_pcbs@,
                final(stack).tcp_pcbs@,
                pcb,
                old(buffer)@,
                final(buffer)@,
                r,
            ),
    {
        let mut current = match stack.tcp_pcbs.get(pcb) {
            Ok(p) => p,
            Err(_) => {
                return Err(TcpReceiveError::Pcb(TcpPcbError::NotFound));
            },
        };
        let state = current.state();
        if state == TcpState::Closed || state == TcpState::Listen || state == TcpState::SynSent
            || state == TcpState::SynReceived {
            return Err(TcpReceiveError::State(state));
        }
        if (state == TcpState::CloseWait && !current.has_received_data()) || state
            == TcpState::Closing || state == TcpState::LastAck || state == TcpState::TimeWait {
            return Ok(Some(0));
        }
        if buffer.len() == 0 {
            return Ok(Some(0));
        }
        let ghost p = current@;
        let length = current.receive(buffer);
        if length != 0 {
            let r = match stack.tcp_pcbs.replace(pcb, current) {
                Ok(()) => Ok(Some(length)),
                Err(e) => Err(TcpReceiveError::Pcb(e)),
            };
            assert(buffer@.subrange(0, length as int) =~= p.receive_buffer.subrange(0, length as int));
            return r;
        }
        assert(buffer@ =~= old(buffer)@);
        Ok(None)
    }

    /// The periodic work: connections whose TIME-WAIT ended are removed, and
    /// due segments are sent again.
    pub fn tick<R: Random, T: Time>(stack: &mut Stack) -> (r: Result<(), TcpOutputError<R::Error>>)
        requires
            old(stack).wf(),
        ensures
            final(stack).wf(),
            final(stack).same_except_tcp(old(stack)),
            exists|now: u64, timestamp: u64, keys: Seq<u64>| #[trigger]
                tcp_tick_at(*old(stack), *final(stack), now, timestamp, keys, r),
    {
        let now = T::monotonic_time_seconds();
        stack.tcp_pcbs.expire_time_wait(now);
        let ghost expired = stack.tcp_pcbs@;
        assert(expired == tcp_expired(old(stack).tcp_pcbs@, now));
        let timestamp = T::monotonic_time_microseconds();
        let due = stack.tcp_pcbs.due_retrans(timestamp);
        let ghost ticked = stack.tcp_pcbs@;
        let ghost due_view = due@.map_values(|e: Retrans| e@);
        let ghost keys = choose|keys: Seq<u64>|
            keys.no_duplicates() && keys.to_set() == expired.dom() && #[trigger] tcp_due_concat(
                expired,
                keys,
                timestamp,
            ) == due_view;
        assert(tcp_ticked(old(stack).tcp_pcbs@, ticked, now, timestamp));
        let ghost base = old(stack).devices.sent();
        let ghost mut frames: Seq<SentFrame> = Seq::empty();
        assert(base + frames =~= base);
        let mut i: usize = 0;
        while i < due.len()
            invariant
                stack.wf(),
                stack.same_except_tcp(old(stack)),
                stack.tcp_pcbs@ == ticked,
                tcp_ticked(old(stack).tcp_pcbs@, ticked, now, timestamp),
                i <= due@.len(),
                due_view == due@.map_values(|e: Retrans| e@),
                expired == tcp_expired(old(stack).tcp_pcbs@, now),
                keys.no_duplicates(),
                keys.to_set() == expired.dom(),
                tcp_due_concat(expired, keys, timestamp) == due_view,
                frames.len() == i,
                stack.devices.sent() == base + frames,
                base == old(stack).devices.sent(),
                forall|j: int|
                    0 <= j < frames.len() ==> tcp_retrans_frame(
                        old(stack).ipv4_routes@,
                        old(stack).interfaces@,
                        #[trigger] frames[j],
                        due_view[j],
                    ),
            decreases due@.len() - i,
        {
            let retrans = &due[i];
            let ghost at = *stack;
            assert(due_view[i as int] == retrans@);
            match Tcp::output_segment::<R, T>(
                stack,
                retrans.seq(),
                retrans.ack(),
                retrans.flags(),
                retrans.window(),
                retrans.payload(),
                retrans.local(),
                retrans.remote(),
            ) {
                Ok(_) => {
                    proof {
                        let e = retrans@;
                        lemma_sent_carries(
                            at,
                            stack.devices.sent(),
                            Ipv4Protocol::Tcp.spec_value(),
                            tcp_segment(e.local, e.remote, e.seq, e.ack, e.flags, e.window, e.payload),
                            e.local.spec_address(),
                            e.remote.spec_address(),
                        );
                        let f = stack.devices.sent().last();
                        assert(tcp_retrans_frame(old(stack).ipv4_routes@, old(stack).interfaces@, f, e));
                        frames = frames.push(f);
                        assert(stack.devices.sent() =~= base + frames);
                    }
                },
                Err(e) => {
                    proof {
                        assert(base + frames =~= at.devices.sent());
                        assert(frames_follow(base, frames, stack.devices.sent()));
                        assert(due_view[frames.len() as int] == retrans@);
                        assert(tcp_due_concat(tcp_expired(old(stack).tcp_pcbs@, now), keys, timestamp) == due_view);
                        assert(tcp_retransmitted(*old(stack), stack.devices.sent(), due_view, Err::<(), TcpOutputError<R::Error>>(e)));
                        assert(tcp_tick_at(*old(stack), *stack, now, timestamp, keys, Err::<(), TcpOutputError<R::Error>>(e)));
                    }
                    return Err(e);
                },
            }
            i = i + 1;
        }
        assert(frames_follow(base, frames, stack.devices.sent()));
        assert(tcp_due_concat(tcp_expired(old(stack).tcp_pcbs@, now), keys, timestamp) == due_view);
        assert(tcp_retransmitted(*old(stack), stack.devices.sent(), due_view, Ok::<(), TcpOutputError<R::Error>>(())));
        assert(tcp_tick_at(*old(stack), *stack, now, timestamp, keys, Ok::<(), TcpOutputError<R::Error>>(())));
        Ok(())
    }

    /// Takes a received TCP segment: segments to or from a broadcast
    /// address are refused; others go to the connection they belong to.
    pub fn input<R: Random, T: Time>(stack: &mut Stack, packet: Ipv4Packet<'_>, interface: &Ipv4Interface) -> (r:
        Result<(), TcpInputError<R::Error>>)
        requires
            old(stack).wf(),
        ensures
            final(stack).wf(),
            final(stack).same_except_tcp(old(stack)),
            tcp_input_outcome(*old(stack), *final(stack), interface@, packet@, r),
    {
        let segment = match TcpPacket::from_ipv4(packet) {
            Ok(p) => p,
            Err(e) => {
                return Err(TcpInputError::Packet(e));
            },
        };
        let limited = Ipv4Addr::broadcast();
        let src = segment.src();
        let dest = segment.dest();
        proof {
            Ipv4Endpoint::lemma_spec_new(packet@.header.dest, segment@.header.dest_port);
            Ipv4Endpoint::lemma_spec_new(packet@.header.src, segment@.header.src_port);
            dest.lemma_fields(Ipv4Endpoint::spec_new(packet@.header.dest, segment@.header.dest_port));
            src.lemma_fields(Ipv4Endpoint::spec_new(packet@.header.src, segment@.header.src_port));
            src.spec_address().lemma_view(limited);
            dest.spec_address().lemma_view(limited);
        }
        if src.address() == limited || src.address() == interface.broadcast() || dest.address()
            == limited || dest.address() == interface.broadcast() {
            return Err(TcpInputError::Broadcast);
        }
        let header = segment.header();
        let flags = header.flags();
        let payload = segment.payload();
        let syn: u32 = if flags.contains(TcpFlags::syn()) {
            1
        } else {
            0
        };
        let fin: u32 = if flags.contains(TcpFlags::fin()) {
            1
        } else {
            0
        };
        let length = (payload.len() as u32).wrapping_add(syn).wrapping_add(fin);
        Tcp::segment_arrives::<R, T>(
            stack,
            TcpSegment {
                seq: header.sequence_number(),
                ack: header.ack(),
                length,
                window: header.window_size(),
                flags,
                data: payload,
            },
            dest,
            src,
        )
    }

    /// Hands an arrived segment to the connection it belongs to and carries
    /// out what the connection decides: see [`TcpPcb::on_segment`].
    #[verifier::rlimit(30)]
    fn segment_arrives<R: Random, T: Time>(
        stack: &mut Stack,
        segment: TcpSegment<'_>,
        local: Ipv4Endpoint,
        remote: Ipv4Endpoint,
    ) -> (r: Result<(), TcpInputError<R::Error>>)
        requires
            old(stack).wf(),
        ensures
            final(stack).wf(),
            final(stack).same_except_tcp(old(stack)),
            tcp_segment_outcome(*old(stack), *final(stack), segment@, local, remote, r),
    {
        let (pcb, state) = match stack.tcp_pcbs.select(local, remote) {
            Some(found) => found,
            None => {
                return Tcp::respond_to_unknown::<R, T>(stack, &segment, local, remote);
            },
        };
        let ghost before = old(stack).tcp_pcbs@;
        let ghost k = pcb@;
        assert(tcp_selected(before, pcb, local, remote));
        if state == TcpState::Closed {
            return Tcp::respond_to_unknown::<R, T>(stack, &segment, local, remote);
        }
        let mut pcb_state = match stack.tcp_pcbs.get(pcb) {
            Ok(p) => p,
            Err(e) => {
                return Err(TcpInputError::Pcb(e));
            },
        };
        let now = T::monotonic_time_seconds();
        let action = pcb_state.on_segment(&segment, now);
        let no_payload: &[u8] = &[];
        assert(no_payload@ =~= Seq::<u8>::empty());
        let ghost p2 = pcb_state@;
        let ghost mut ts: u64 = 0;
        match action.response {
            Some(TcpResponse::FromPcb(flags)) => {
                match Tcp::output::<R, T>(stack, &mut pcb_state, flags, no_payload) {
                    Ok(_) => {},
                    Err(e) => {
                        assert(tcp_segment_step(*old(stack), *stack, pcb, segment@, local, remote, Err::<(), TcpInputError<R::Error>>(TcpInputError::Output(e)), now, 0));
                        return Err(TcpInputError::Output(e));
                    },
                }
                proof {
                    ts = choose|t: u64| #[trigger] pcb_after_output(p2, flags@, no_payload@, t) == pcb_state@;
                }
            },
            Some(TcpResponse::Reset { seq, ack }) => {
                match Tcp::output_segment::<R, T>(stack, seq, ack, TcpFlags::rst(), 0, no_payload, local, remote) {
                    Ok(_) => {},
                    Err(e) => {
                        assert(tcp_segment_step(*old(stack), *stack, pcb, segment@, local, remote, Err::<(), TcpInputError<R::Error>>(TcpInputError::Output(e)), now, 0));
                        return Err(TcpInputError::Output(e));
                    },
                }
            },
            None => {},
        }
        assert(pcb_state@ == pcb_after_response(p2, action.response, ts));
        assert(stack.tcp_pcbs@ == before);
        match action.event {
            TcpPcbEvent::Nothing => {
                let r = match stack.tcp_pcbs.replace(pcb, pcb_state) {
                    Ok(()) => Ok(()),
                    Err(e) => Err(TcpInputError::Pcb(e)),
                };
                assert(tcp_segment_step(*old(stack), *stack, pcb, segment@, local, remote, r, now, ts));
                r
            },
            TcpPcbEvent::Established => {
                match stack.tcp_pcbs.replace(pcb, pcb_state) {
                    Ok(()) => {},
                    Err(e) => {
                        assert(tcp_segment_step(*old(stack), *stack, pcb, segment@, local, remote, Err::<(), TcpInputError<R::Error>>(TcpInputError::Pcb(e)), now, ts));
                        return Err(TcpInputError::Pcb(e));
                    },
                }
                let r = match stack.tcp_pcbs.enqueue_established(pcb) {
                    Ok(()) => Ok(()),
                    Err(e) => Err(TcpInputError::Pcb(e)),
                };
                assert(tcp_segment_step(*old(stack), *stack, pcb, segment@, local, remote, r, now, ts));
                r
            },
            TcpPcbEvent::Close => {
                let _ = stack.tcp_pcbs.close(pcb);
                assert(tcp_segment_step(*old(stack), *stack, pcb, segment@, local, remote, Ok::<(), TcpInputError<R::Error>>(()), now, ts));
                Ok(())
            },
            TcpPcbEvent::AcceptSyn { seq } => {
                let iss = match R::random32() {
                    Ok(v) => v,
                    Err(e) => {
                        assert(tcp_segment_step(*old(stack), *stack, pcb, segment@, local, remote, Err::<(), TcpInputError<R::Error>>(TcpInputError::Random(e)), now, ts));
                        return Err(TcpInputError::Random(e));
                    },
                };
                if stack.tcp_pcbs.len() >= 0xffff_fffd {
                    assert(tcp_segment_step(*old(stack), *stack, pcb, segment@, local, remote, Ok::<(), TcpInputError<R::Error>>(()), now, ts));
                    return Ok(());
                }
                let child = match stack.tcp_pcbs.allocate_child(pcb, local, remote, seq, iss) {
                    Ok(c) => c,
                    Err(TcpPcbError::BacklogFull) => {
                        assert(tcp_segment_step(*old(stack), *stack, pcb, segment@, local, remote, Ok::<(), TcpInputError<R::Error>>(()), now, ts));
                        return Ok(());
                    },
                    Err(e) => {
                        assert(tcp_segment_step(*old(stack), *stack, pcb, segment@, local, remote, Err::<(), TcpInputError<R::Error>>(TcpInputError::Pcb(e)), now, ts));
                        return Err(TcpInputError::Pcb(e));
                    },
                };
                let ghost child_view = stack.tcp_pcbs@[child@];
                let mut child_pcb = match stack.tcp_pcbs.get(child) {
                    Ok(p) => p,
                    Err(e) => {
                        return Err(TcpInputError::Pcb(e));
                    },
                };
                let handshake = TcpFlags::syn().union(TcpFlags::ack());
                assert(handshake@ == TCP_SYN | TCP_ACK);
                assert(child_view == syn_child(pcb, local, remote, seq, iss));
                assert(tcp_child_allocated(before, stack.tcp_pcbs@, pcb, child, local, remote, seq, iss));
                match Tcp::output::<R, T>(stack, &mut child_pcb, handshake, no_payload) {
                    Ok(_) => {},
                    Err(e) => {
                        assert(tcp_child_allocated(before, stack.tcp_pcbs@, pcb, child, local, remote, seq, iss));
                        assert(tcp_segment_refused(*old(stack), syn_child(pcb, local, remote, seq, iss), TCP_SYN | TCP_ACK, Seq::empty(), e));
                        assert(tcp_segment_step(*old(stack), *stack, pcb, segment@, local, remote, Err::<(), TcpInputError<R::Error>>(TcpInputError::Output(e)), now, ts));
                        return Err(TcpInputError::Output(e));
                    },
                }
                let ghost ts2 = choose|t: u64| #[trigger] pcb_after_output(child_view, handshake@, no_payload@, t) == child_pcb@;
                let r = match stack.tcp_pcbs.replace(child, child_pcb) {
                    Ok(()) => Ok(()),
                    Err(e) => Err(TcpInputError::Pcb(e)),
                };
                assert(!before.dom().contains(child@));
                assert(handshake@ == TCP_SYN | TCP_ACK);
                assert(child_view == pcb_accept_syn(
                    TcpPcbView { parent: Some(pcb), ..tcp_fresh_view() },
                    local,
                    remote,
                    seq,
                    iss,
                ));
                assert(no_payload@ == Seq::<u8>::empty());
                assert(r is Ok ==> stack.tcp_pcbs@ == before.insert(child@, child_pcb@));
                assert(tcp_child_made(before, stack.tcp_pcbs@, pcb, child, local, remote, seq, iss, ts2));
                assert(tcp_segment_step(*old(stack), *stack, pcb, segment@, local, remote, r, now, ts));
                r
            },
        }
    }

    /// Answers a segment for which no connection exists with a reset,
    /// unless it is one.
    fn respond_to_unknown<R: Random, T: Time>(
        stack: &mut Stack,
        segment: &TcpSegment<'_>,
        local: Ipv4Endpoint,
        remote: Ipv4Endpoint,
    ) -> (r: Result<(), TcpInputError<R::Error>>)
        requires
            old(stack).wf(),
        ensures
            final(stack).wf(),
            final(stack).same_except_tcp(old(stack)),
            tcp_unknown_answered(*old(stack), *final(stack), segment@, local, remote, r),
    {
        if segment.flags.contains(TcpFlags::rst()) {
            return Ok(());
        }
        let no_payload: &[u8] = &[];
        assert(no_payload@ =~= Seq::<u8>::empty());
        let result = if segment.flags.contains(TcpFlags::ack()) {
            Tcp::output_segment::<R, T>(stack, segment.ack, 0, TcpFlags::rst(), 0, no_payload, local, remote)
        } else {
            Tcp::output_segment::<R, T>(
                stack,
                0,
                segment.seq.wrapping_add(segment.length),
                TcpFlags::rst().union(TcpFlags::ack()),
                0,
                no_payload,
                local,
                remote,
            )
        };
        match result {
            Ok(_) => Ok(()),
            Err(e) => Err(TcpInputError::Output(e)),
        }
    }

    /// Sends a segment of `pcb` with `flags` and `payload`, from its
    /// initial sequence number for a SYN, else from `snd_nxt`; a segment
    /// that occupies sequence space is kept for retransmission.
    fn output<R: Random, T: Time>(stack: &mut Stack, pcb: &mut TcpPcb, flags: TcpFlags, payload: &[u8]) -> (r:
        Result<usize, TcpOutputError<R::Error>>)
        requires
            old(stack).wf(),
        ensures
            old(stack).devices.sent().is_prefix_of(final(stack).devices.sent()),
            final(stack).devices.sent().len() <= old(stack).devices.sent().len() + 1,
            final(stack).wf(),
            final(stack).same_except_tcp(old(stack)),
            final(stack).tcp_pcbs@ == old(stack).tcp_pcbs@,
            exists|ts: u64| #[trigger] pcb_after_output(old(pcb)@, flags@, payload@, ts) == final(pcb)@,
            tcp_segment_output_outcome(
                old(stack).ipv4_routes@,
                old(stack).interfaces@,
                old(pcb)@.local,
                old(pcb)@.remote,
                output_seq(old(pcb)@, flags@),
                old(pcb)@.rcv_nxt,
                flags@,
                old(pcb)@.rcv_wnd,
                payload@,
                r,
            ),
            r is Ok ==> tcp_segment_sent(*old(stack), final(stack).devices.sent(), old(pcb)@, flags@, payload@),
    {
        let seq = if flags.contains(TcpFlags::syn()) {
            pcb.iss()
        } else {
            pcb.snd_nxt()
        };
        let ghost mut used: u64 = 0;
        if flags.intersects(TcpFlags::syn().union(TcpFlags::fin())) || payload.len() > 0 {
            let ts = T::monotonic_time_microseconds();
            proof {
                used = ts;
            }
            pcb.queue_retrans(seq, flags, payload, ts);
        }
        assert(pcb_after_output(old(pcb)@, flags@, payload@, used) == pcb@);
        Tcp::output_segment::<R, T>(
            stack,
            seq,
            pcb.rcv_nxt(),
            flags,
            pcb.rcv_wnd(),
            payload,
            pcb.local(),
            pcb.remote(),
        )
    }

    /// Builds a segment and sends it through the interface the route for
    /// `remote` names; gives the payload length.
    fn output_segment<R: Random, T: Time>(
        stack: &mut Stack,
        seq: u32,
        ack: u32,
        flags: TcpFlags,
        window_size: u16,
        payload: &[u8],
        local: Ipv4Endpoint,
        remote: Ipv4Endpoint,
    ) -> (r: Result<usize, TcpOutputError<R::Error>>)
        requires
            old(stack).wf(),
        ensures
            old(stack).devices.sent().is_prefix_of(final(stack).devices.sent()),
            final(stack).devices.sent().len() <= old(stack).devices.sent().len() + 1,
            final(stack).wf(),
            final(stack).same_except_tcp(old(stack)),
            final(stack).tcp_pcbs@ == old(stack).tcp_pcbs@,
            tcp_segment_output_outcome(
                old(stack).ipv4_routes@,
                old(stack).interfaces@,
                local,
                remote,
                seq,
                ack,
                flags@,
                window_size,
                payload@,
                r,
            ),
            r is Ok ==> ipv4_packet_sent(
                *old(stack),
                final(stack).devices.sent(),
                Ipv4Protocol::Tcp.spec_value(),
                tcp_segment(local, remote, seq, ack, flags@, window_size, payload@),
                local.spec_address(),
                remote.spec_address(),
            ),
    {
        let segment = match TcpPacket::build(local, remote, seq, ack, flags, window_size, payload) {
            Ok(s) => s,
            Err(e) => {
                return Err(TcpOutputError::Packet(e));
            },
        };
        let found = stack.ipv4_routes.lookup(remote.address());
        proof {
            lemma_lookup_is_best(stack.ipv4_routes@, remote.spec_address(), found);
        }
        let route = match found {
            Some(r) => r,
            None => {
                return Err(TcpOutputError::Ipv4(Ipv4OutputError::DestinationUnreachable));
            },
        };
        let interface = match stack.interfaces.interface_as(route.interface()) {
            Some(i) => i,
            None => {
                return Err(TcpOutputError::Ipv4(Ipv4OutputError::DestinationUnreachable));
            },
        };
        assert(routed_interface(old(stack).ipv4_routes@, old(stack).interfaces@, remote.spec_address())
            == Some(interface@));
        let sent = crate::protocol::ipv4::Ipv4::output::<R, T>(
            stack,
            &interface,
            Ipv4Protocol::Tcp.value(),
            segment.as_slice(),
            local.address(),
            remote.address(),
        );
        assert(ipv4_output_outcome(
            old(stack).ipv4_routes@,
            old(stack).interfaces@,
            interface@,
            tcp_segment(local, remote, seq, ack, flags@, window_size, payload@).len(),
            local.spec_address(),
            remote.spec_address(),
            sent,
        ));
        match sent {
            Ok(_) => Ok(payload.len()),
            Err(e) => Err(TcpOutputError::Ipv4(e)),
        }
    }
}

} // verus!
