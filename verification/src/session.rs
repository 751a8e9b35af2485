//! A session: its control stream and the path state machine.
use crate::bytes::{append, be32, be_bytes, be_value, lemma_be_bytes_len, to_be32, to_vec};
use crate::card::{
    law_mapping_round_trip, law_udp_hint_round_trip, mapped_octets, udp_matches, udp_value,
    unmapped, Hint, HintView, HINT_UDP,
};
use crate::net::{plain_addr, IpAddr, SocketAddr};
use crate::path::{
    copy_opt_text, opt_text, FailReason, PathReport, PathReportView, PathStatus,
};
use crate::path_socket::{elapsed, fresh, is_fresh, since, Proven};
use crate::relay_client::{RelayStatus, RelayStatusView};
use crate::text::{decimal, decimal_text};
use vstd::prelude::*;
use vstd::slice::slice_subrange;
use vstd::string::*;

verus! {

// ---------------------------------------------------------------------------
// The control stream.  Candidates do not travel through relay frames.
// ---------------------------------------------------------------------------
/// A list of candidates follows.
pub const CONTROL_CANDIDATES: u8 = 0x01;

/// No body: start a probing round now, so that both ends punch together.
pub const CONTROL_PUNCH_NOW: u8 = 0x02;

/// The longest control message.
pub const CONTROL_MAX_BYTES: usize = 4096;

/// The most candidates that fit the longest control message.
pub const CONTROL_MAX_CANDIDATES: usize = 227;

/// A decoded control message.
#[derive(Debug)]
pub enum Control {
    Candidates(Vec<SocketAddr>),
    PunchNow,
    /// A kind this version does not know; ignored, not fatal.
    Unknown,
}

/// Some candidates on the wire, eighteen bytes each.
pub open spec fn candidates_bytes(addrs: Seq<SocketAddr>) -> Seq<u8>
    decreases addrs.len(),
{
    if addrs.len() == 0 {
        Seq::empty()
    } else {
        candidates_bytes(addrs.drop_last()) + udp_value(addrs.last())
    }
}

/// At most 255 candidates are sent.
pub open spec fn candidates_kept(addrs: Seq<SocketAddr>) -> Seq<SocketAddr> {
    if addrs.len() <= 255 {
        addrs
    } else {
        addrs.take(255)
    }
}

/// The body of a candidates message.
pub open spec fn candidates_body(addrs: Seq<SocketAddr>) -> Seq<u8> {
    let kept = candidates_kept(addrs);
    seq![CONTROL_CANDIDATES, kept.len() as u8] + candidates_bytes(kept)
}

/// A control message: the length of its body in four bytes, and the body.
pub open spec fn control_bytes(body: Seq<u8>) -> Seq<u8> {
    be_bytes(body.len(), 4) + body
}

/// The message that asks for a probing round.
pub fn punch_now_message() -> (r: Vec<u8>)
    ensures
        r@ == control_bytes(seq![CONTROL_PUNCH_NOW]),
{
    let r = vec![0, 0, 0, 1, CONTROL_PUNCH_NOW];
    proof {
        reveal_with_fuel(be_bytes, 5);
        assert(r@ =~= control_bytes(seq![CONTROL_PUNCH_NOW]));
    }
    r
}

proof fn lemma_udp_value_len(addr: SocketAddr)
    ensures
        udp_value(addr).len() == 18,
{
    lemma_be_bytes_len(addr.port as nat, 2);
}

proof fn lemma_candidates_len(addrs: Seq<SocketAddr>)
    ensures
        candidates_bytes(addrs).len() == 18 * addrs.len(),
    decreases addrs.len(),
{
    if addrs.len() > 0 {
        lemma_candidates_len(addrs.drop_last());
        lemma_udp_value_len(addrs.last());
    }
}

/// Each candidate stands in its eighteen bytes.
proof fn lemma_candidate_at(addrs: Seq<SocketAddr>, i: int)
    requires
        0 <= i < addrs.len(),
    ensures
        candidates_bytes(addrs).len() == 18 * addrs.len(),
        candidates_bytes(addrs).subrange(18 * i, 18 * i + 18) == udp_value(addrs[i]),
    decreases addrs.len(),
{
    let front = addrs.drop_last();
    lemma_candidates_len(addrs);
    lemma_candidates_len(front);
    lemma_udp_value_len(addrs.last());
    let all = candidates_bytes(addrs);
    if i == addrs.len() - 1 {
        assert(all.subrange(18 * i, 18 * i + 18) =~= udp_value(addrs.last()));
    } else {
        lemma_candidate_at(front, i);
        assert(all.subrange(18 * i, 18 * i + 18) =~= candidates_bytes(front).subrange(
            18 * i,
            18 * i + 18,
        ));
    }
}

/// The message that lists this side's candidates.
pub fn candidates_message(candidates: &[SocketAddr]) -> (r: Vec<u8>)
    ensures
        r@ == control_bytes(candidates_body(candidates@)),
{
    let count: usize = if candidates.len() <= 255 {
        candidates.len()
    } else {
        255
    };
    let ghost kept = candidates_kept(candidates@);
    let mut body: Vec<u8> = vec![CONTROL_CANDIDATES, count as u8];
    let ghost header = body@;
    let mut i: usize = 0;
    assert(body@ =~= header + candidates_bytes(kept.take(0)));
    while i < count
        invariant
            i <= count == kept.len(),
            count <= candidates.len(),
            count <= 255,
            kept == candidates_kept(candidates@),
            header.len() == 2,
            body@ == header + candidates_bytes(kept.take(i as int)),
        decreases count - i,
    {
        let hint = Hint::udp(candidates[i]);
        append(&mut body, hint.value.as_slice());
        proof {
            let next = kept.take(i + 1);
            assert(next.drop_last() =~= kept.take(i as int));
            assert(next.last() == candidates@[i as int]);
            assert(body@ =~= header + candidates_bytes(next));
        }
        i += 1;
    }
    proof {
        assert(kept.take(count as int) =~= kept);
        lemma_candidates_len(kept);
        assert(header =~= seq![CONTROL_CANDIDATES, kept.len() as u8]);
    }
    let mut out = to_vec(&to_be32(body.len() as u32));
    append(&mut out, body.as_slice());
    out
}

/// The length of the body that a header announces, when a reader accepts it.
pub fn control_length(header: &[u8; 4]) -> (r: Option<usize>)
    ensures
        r is Some <==> 1 <= be_value(header@) <= CONTROL_MAX_BYTES,
        r matches Some(length) ==> length == be_value(header@),
{
    let length: u32 = be32(header);
    if length == 0 || length > CONTROL_MAX_BYTES as u32 {
        None
    } else {
        Some(length as usize)
    }
}

/// Whether `addr` is candidate `i` of a candidates body.
pub open spec fn candidate_at(body: Seq<u8>, i: int, addr: SocketAddr) -> bool {
    udp_matches(
        HintView { kind: HINT_UDP, value: body.subrange(2 + 18 * i, 20 + 18 * i) },
        addr,
    )
}

/// Whether a body holds the candidates that it counts.
pub open spec fn candidates_whole(body: Seq<u8>) -> bool {
    body.len() >= 2 && body.len() == 2 + 18 * body[1]
}

/// Whether `control` is what a body says; `None` is a message that ends the
/// stream.
pub open spec fn control_reads(body: Seq<u8>, control: Option<Control>) -> bool {
    if body.len() == 0 {
        control is None
    } else if body[0] == CONTROL_CANDIDATES {
        match control {
            Some(Control::Candidates(list)) => candidates_whole(body) && list@.len() == body[1]
                && forall|i: int|
                0 <= i < list@.len() ==> candidate_at(body, i, #[trigger] list@[i]),
            None => !candidates_whole(body),
            _ => false,
        }
    } else if body[0] == CONTROL_PUNCH_NOW {
        control == Some(Control::PunchNow)
    } else {
        control == Some(Control::Unknown)
    }
}

fn parse_candidates(body: &[u8]) -> (r: Option<Vec<SocketAddr>>)
    requires
        body@.len() >= 1,
    ensures
        r is Some <==> candidates_whole(body@),
        r matches Some(list) ==> list@.len() == body@[1] && forall|i: int|
            0 <= i < list@.len() ==> candidate_at(body@, i, #[trigger] list@[i]),
{
    if body.len() < 2 {
        return None;
    }
    let count: usize = body[1] as usize;
    if body.len() - 2 != count * 18 {
        return None;
    }
    let mut out: Vec<SocketAddr> = Vec::with_capacity(count);
    let mut i: usize = 0;
    while i < count
        invariant
            i <= count,
            count <= 255,
            candidates_whole(body@),
            count == body@[1],
            out@.len() == i,
            forall|k: int| 0 <= k < i ==> candidate_at(body@, k, #[trigger] out@[k]),
        decreases count - i,
    {
        let at: usize = 2 + 18 * i;
        let hint = Hint { kind: HINT_UDP, value: to_vec(slice_subrange(body, at, at + 18)) };
        match hint.as_udp() {
            Some(addr) => {
                assert(candidate_at(body@, i as int, addr));
                out.push(addr);
            },
            None => {
                assert(false);
            },
        }
        i += 1;
    }
    Some(out)
}

/// Read the body of a control message.
pub fn parse_control(body: &[u8]) -> (r: Option<Control>)
    ensures
        control_reads(body@, r),
{
    if body.len() == 0 {
        return None;
    }
    let kind: u8 = body[0];
    if kind == CONTROL_CANDIDATES {
        match parse_candidates(body) {
            Some(list) => Some(Control::Candidates(list)),
            None => None,
        }
    } else if kind == CONTROL_PUNCH_NOW {
        Some(Control::PunchNow)
    } else {
        Some(Control::Unknown)
    }
}

/// Whether `got` is what the other side reads of `sent`: the same address, IPv4
/// through its mapped form.
pub open spec fn candidate_arrives(sent: SocketAddr, got: SocketAddr) -> bool {
    &&& got.ip matches IpAddr::V6(octets) && octets@ == mapped_octets(sent.ip)
    &&& got.port == sent.port
    &&& unmapped(got) == unmapped(plain_addr(sent.ip, sent.port))
}

/// What one side lists, the other reads: a list that fits the bound is accepted
/// whole and in order.
pub proof fn law_candidates_survive_the_wire(addrs: Seq<SocketAddr>, control: Option<Control>)
    requires
        addrs.len() <= CONTROL_MAX_CANDIDATES,
        control_reads(candidates_body(addrs), control),
    ensures
        1 <= candidates_body(addrs).len() <= CONTROL_MAX_BYTES,
        control matches Some(Control::Candidates(list)) && list@.len() == addrs.len() && forall|
            i: int,
        |
            0 <= i < addrs.len() ==> candidate_arrives(addrs[i], #[trigger] list@[i]),
{
    let body = candidates_body(addrs);
    lemma_candidates_len(addrs);
    assert(body[0] == CONTROL_CANDIDATES);
    assert(body[1] == addrs.len());
    assert(candidates_whole(body));
    let list = control->0->Candidates_0@;
    assert forall|i: int| 0 <= i < addrs.len() implies candidate_arrives(
        addrs[i],
        #[trigger] list[i],
    ) by {
        lemma_candidate_at(addrs, i);
        assert(body.subrange(2 + 18 * i, 20 + 18 * i) =~= candidates_bytes(addrs).subrange(
            18 * i,
            18 * i + 18,
        ));
        law_udp_hint_round_trip(addrs[i]);
        assert(candidate_at(body, i, list[i]));
        match (list[i].ip, addrs[i].ip) {
            (IpAddr::V6(octets), IpAddr::V4(v4)) => {
                law_mapping_round_trip(v4, octets, addrs[i].port);
                assert(list[i] == plain_addr(IpAddr::V6(octets), addrs[i].port));
            },
            (IpAddr::V6(octets), IpAddr::V6(other)) => {
                assert(octets =~= other);
                assert(list[i] == plain_addr(addrs[i].ip, addrs[i].port));
            },
            _ => {},
        }
    }
}

// ---------------------------------------------------------------------------
// The path machine
// ---------------------------------------------------------------------------
/// How long a probing round runs before it has failed, in milliseconds.
pub const PROBE_ROUND: u64 = 5_000;

/// After a failed round, wait this long before probing again, in milliseconds.
pub const PROBE_COOLDOWN: u64 = 30_000;

/// While a round runs, probes are sent again at this interval, in milliseconds.
pub const PROBE_RESEND: u64 = 500;

/// While direct, prove again at this interval so that the proof stays fresh, in
/// milliseconds.
pub const REPROVE_INTERVAL: u64 = 5_000;

/// How often the machine looks, in milliseconds.
pub const TICK: u64 = 100;

/// The longest transition history.
pub const HISTORY_CAP: usize = 256;

/// The time a reflector reply gets before candidates are announced again, in
/// milliseconds.
pub const REFLECTOR_GRACE: u64 = 300;

/// Who has asked for a probing round.
#[derive(Clone, Copy, Debug, PartialEq, Eq, Structural)]
pub enum Asked {
    Nobody,
    /// This side asked.
    Here,
    /// The peer asked with a punch-now message.
    Peer,
}

/// Why a probing round starts.
#[derive(Clone, Copy, Debug, PartialEq, Eq, Structural)]
pub enum RoundCause {
    Settled,
    Peer,
    Here,
    Cooldown,
}

/// The words for the cause of a round.
pub open spec fn round_words(cause: RoundCause) -> Seq<char> {
    match cause {
        RoundCause::Settled => "settle delay elapsed"@,
        RoundCause::Peer => "punch-now from peer"@,
        RoundCause::Here => "requested here"@,
        RoundCause::Cooldown => "cooldown elapsed"@,
    }
}

impl RoundCause {
    /// The words for this cause.
    pub fn words(&self) -> (r: &'static str)
        ensures
            r@ == round_words(*self),
    {
        match self {
            RoundCause::Settled => "settle delay elapsed",
            RoundCause::Peer => "punch-now from peer",
            RoundCause::Here => "requested here",
            RoundCause::Cooldown => "cooldown elapsed",
        }
    }
}

/// How a connection ended.
#[derive(Debug)]
pub enum Ending {
    /// One side closed it on purpose.
    Closed,
    TimedOut,
    /// Anything else, in words.
    Other(String),
}

/// What happened to a session.
#[derive(Debug)]
pub enum SessionEvent {
    /// The connection ended.
    Ended(Ending),
    /// A newer session with the same peer took this one's place.
    Superseded,
    /// The relay driver entered a status.
    Relay(RelayStatus),
    /// The host's addresses changed.
    Interfaces,
    /// Time passed.
    Tick,
}

/// What the path socket knows at the moment of an event.
#[derive(Debug)]
pub struct Seen {
    /// The time, in milliseconds.
    pub now: u64,
    /// The relay the home driver is on.
    pub relay: Option<String>,
    /// How many candidates the peer has offered.
    pub candidates: usize,
    /// The direct proof, fresh or not.
    pub proven: Option<Proven>,
    /// The proved address in words.
    pub proven_text: String,
}

/// How a connection ended, as mathematics.
pub enum EndingView {
    Closed,
    TimedOut,
    Other(Seq<char>),
}

/// What happened to a session, as mathematics.
pub enum SessionEventView {
    Ended(EndingView),
    Superseded,
    Relay(RelayStatusView),
    Interfaces,
    Tick,
}

/// What the path socket knows, as mathematics.
pub struct SeenView {
    pub now: u64,
    pub relay: Option<Seq<char>>,
    pub candidates: usize,
    pub proven: Option<Proven>,
    pub proven_text: Seq<char>,
}

impl View for Ending {
    type V = EndingView;

    open spec fn view(&self) -> EndingView {
        match self {
            Ending::Closed => EndingView::Closed,
            Ending::TimedOut => EndingView::TimedOut,
            Ending::Other(words) => EndingView::Other(words@),
        }
    }
}

impl View for SessionEvent {
    type V = SessionEventView;

    open spec fn view(&self) -> SessionEventView {
        match self {
            SessionEvent::Ended(ending) => SessionEventView::Ended(ending@),
            SessionEvent::Superseded => SessionEventView::Superseded,
            SessionEvent::Relay(status) => SessionEventView::Relay(status@),
            SessionEvent::Interfaces => SessionEventView::Interfaces,
            SessionEvent::Tick => SessionEventView::Tick,
        }
    }
}

impl View for Seen {
    type V = SeenView;

    open spec fn view(&self) -> SeenView {
        SeenView {
            now: self.now,
            relay: opt_text(self.relay),
            candidates: self.candidates,
            proven: self.proven,
            proven_text: self.proven_text@,
        }
    }
}

/// What a session does after an event.
#[derive(Clone, Copy, Debug, PartialEq, Eq, Structural)]
pub struct SessionOrder {
    /// Ask the reflector again.
    pub requery: bool,
    /// Send the candidates and a punch-now to the peer.
    pub announce: bool,
    /// Ping every probe target of the peer.
    pub probe: bool,
    /// Forget the direct path.
    pub drop_direct: bool,
    /// The session has ended.
    pub done: bool,
}

/// Nothing to do.
pub open spec fn no_order() -> SessionOrder {
    SessionOrder {
        requery: false,
        announce: false,
        probe: false,
        drop_direct: false,
        done: false,
    }
}

/// The path state of one session.
#[derive(Debug)]
pub struct SessionPath {
    allow_direct: bool,
    report: PathReport,
    history: Vec<PathReport>,
    relay: RelayStatus,
    previous: PathStatus,
    reconnect_since: Option<u64>,
    round_ends: Option<u64>,
    next_attempt: u64,
    last_sent: Option<u64>,
    announced: bool,
    cause: RoundCause,
    reannounce_at: Option<u64>,
    asked: Asked,
    punch_requests: u32,
}

/// The path state of one session, as mathematics.
#[verifier::ext_equal]
pub struct SessionView {
    /// Whether the owner allows direct paths.
    pub allow_direct: bool,
    pub report: PathReportView,
    /// Every transition so far, oldest first.
    pub history: Seq<PathReportView>,
    /// What the relay driver last said.
    pub relay: RelayStatusView,
    /// The path before the relay was lost.
    pub previous: PathStatus,
    pub reconnect_since: Option<u64>,
    pub round_ends: Option<u64>,
    /// No round starts before this.
    pub next_attempt: u64,
    /// When probes were last sent; none is as long ago as any interval.
    pub last_sent: Option<u64>,
    pub announced: bool,
    pub cause: RoundCause,
    pub reannounce_at: Option<u64>,
    pub asked: Asked,
    pub punch_requests: u32,
}

/// The views of some reports.
pub open spec fn report_views(reports: Seq<PathReport>) -> Seq<PathReportView> {
    reports.map_values(|report: PathReport| report@)
}

impl View for SessionPath {
    type V = SessionView;

    closed spec fn view(&self) -> SessionView {
        SessionView {
            allow_direct: self.allow_direct,
            report: self.report@,
            history: report_views(self.history@),
            relay: self.relay@,
            previous: self.previous,
            reconnect_since: self.reconnect_since,
            round_ends: self.round_ends,
            next_attempt: self.next_attempt,
            last_sent: self.last_sent,
            announced: self.announced,
            cause: self.cause,
            reannounce_at: self.reannounce_at,
            asked: self.asked,
            punch_requests: self.punch_requests,
        }
    }
}

/// The time `wait` after `now`, or the end of time.
pub open spec fn later(now: u64, wait: u64) -> u64 {
    if now + wait <= u64::MAX {
        (now + wait) as u64
    } else {
        u64::MAX
    }
}

fn time_after(now: u64, wait: u64) -> (r: u64)
    ensures
        r == later(now, wait),
{
    if now <= u64::MAX - wait {
        now + wait
    } else {
        u64::MAX
    }
}

/// Whether probes were last sent at least `interval` ago.
pub open spec fn send_due(last: Option<u64>, now: u64, interval: u64) -> bool {
    last matches Some(last) ==> elapsed(last, now) >= interval
}

fn is_send_due(last: Option<u64>, now: u64, interval: u64) -> (r: bool)
    ensures
        r == send_due(last, now, interval),
{
    match last {
        Some(last) => since(last, now) >= interval,
        None => true,
    }
}

/// The address a report names for a status.
pub open spec fn direct_of(status: PathStatus, seen: SeenView) -> Option<SocketAddr> {
    match (status, seen.proven) {
        (PathStatus::Direct, Some(proven)) => Some(proven.addr),
        _ => None,
    }
}

/// The session on a new path: a transition is recorded with its cause and its
/// time; staying on a path only refreshes what is observed of it.
pub open spec fn moved(
    s: SessionView,
    status: PathStatus,
    cause: Seq<char>,
    seen: SeenView,
) -> SessionView {
    let direct = direct_of(status, seen);
    if s.report.status == status {
        SessionView {
            report: PathReportView { relay: seen.relay, direct, ..s.report },
            ..s
        }
    } else {
        let report = PathReportView {
            status,
            relay: seen.relay,
            direct,
            since: seen.now,
            cause,
        };
        SessionView {
            report,
            history: if s.history.len() < HISTORY_CAP {
                s.history.push(report)
            } else {
                s.history
            },
            ..s
        }
    }
}

/// The session and its order once the event itself is taken in.
pub open spec fn absorbed(s: SessionView, event: SessionEventView, seen: SeenView) -> (
    SessionView,
    SessionOrder,
) {
    let done = SessionOrder { done: true, ..no_order() };
    match event {
        SessionEventView::Ended(ending) => (
            if s.report.status is Failed {
                s
            } else {
                match ending {
                    EndingView::Closed => s,
                    EndingView::TimedOut => moved(
                        s,
                        PathStatus::Failed(FailReason::Timeout),
                        "QUIC idle timeout"@,
                        seen,
                    ),
                    EndingView::Other(words) => moved(
                        s,
                        PathStatus::Failed(FailReason::Relay),
                        "connection ended: "@ + words,
                        seen,
                    ),
                }
            },
            done,
        ),
        SessionEventView::Superseded => (
            if s.report.status is Failed {
                s
            } else {
                moved(
                    s,
                    PathStatus::Failed(FailReason::Superseded),
                    "superseded by a newer session with this peer"@,
                    seen,
                )
            },
            done,
        ),
        SessionEventView::Relay(status) => (
            SessionView { relay: status, ..s },
            SessionOrder { done: s.report.status is Failed, ..no_order() },
        ),
        SessionEventView::Interfaces => (
            SessionView { reannounce_at: Some(later(seen.now, REFLECTOR_GRACE)), ..s },
            SessionOrder { requery: true, done: s.report.status is Failed, ..no_order() },
        ),
        SessionEventView::Tick => (
            s,
            SessionOrder { done: s.report.status is Failed, ..no_order() },
        ),
    }
}

/// What the relay's availability leaves to do.
#[derive(Clone, Copy, Debug, PartialEq, Eq, Structural)]
pub enum RelayVerdict {
    /// The session has failed.
    Ended,
    /// There is nothing to do until the relay is back.
    Away,
    /// The relay is up.
    Up,
}

/// How long the relay was away, in milliseconds.
pub open spec fn away_for(s: SessionView, now: u64) -> nat {
    match s.reconnect_since {
        Some(then) => elapsed(then, now) as nat,
        None => 0,
    }
}

/// The session after it followed the relay: availability drives reconnecting for
/// both relayed and direct paths.
pub open spec fn followed(s: SessionView, seen: SeenView) -> (SessionView, RelayVerdict) {
    match s.relay {
        RelayStatusView::Failed => (
            moved(s, PathStatus::Failed(FailReason::Relay), "no relay within 60 s"@, seen),
            RelayVerdict::Ended,
        ),
        RelayStatusView::Superseded => (
            moved(
                s,
                PathStatus::Failed(FailReason::Superseded),
                "relay slot superseded by a newer process"@,
                seen,
            ),
            RelayVerdict::Ended,
        ),
        RelayStatusView::Reconnecting | RelayStatusView::Connecting => (
            if s.report.status == PathStatus::Reconnecting {
                s
            } else {
                moved(
                    SessionView {
                        previous: s.report.status,
                        reconnect_since: Some(seen.now),
                        ..s
                    },
                    PathStatus::Reconnecting,
                    "relay session lost"@,
                    seen,
                )
            },
            RelayVerdict::Away,
        ),
        RelayStatusView::Up(_) => (
            if s.report.status == PathStatus::Reconnecting {
                SessionView {
                    reconnect_since: None,
                    ..moved(
                        s,
                        s.previous,
                        "new relay welcome after "@ + decimal_text(away_for(s, seen.now)) + " ms"@,
                        seen,
                    )
                }
            } else {
                s
            },
            RelayVerdict::Up,
        ),
    }
}

/// Whether the addresses are announced again now.
pub open spec fn announces(s: SessionView, now: u64) -> bool {
    s.reannounce_at matches Some(at) && now >= at
}

/// The session after a due announcement: this side asks for a round.
pub open spec fn announcing(s: SessionView, now: u64) -> SessionView {
    if announces(s, now) {
        SessionView { reannounce_at: None, asked: Asked::Here, ..s }
    } else {
        s
    }
}

/// The session after a request for a round was taken up: it starts at once, and a
/// direct path is proved again at once.
pub open spec fn heeding(s: SessionView, now: u64) -> SessionView {
    if s.asked == Asked::Nobody {
        s
    } else {
        SessionView {
            asked: Asked::Nobody,
            next_attempt: now,
            cause: if s.asked == Asked::Peer {
                RoundCause::Peer
            } else {
                RoundCause::Here
            },
            last_sent: None,
            ..s
        }
    }
}

/// The session and its order on a relayed path.
pub open spec fn on_relayed(s: SessionView, seen: SeenView) -> (SessionView, SessionOrder) {
    if fresh(seen.proven, seen.now) {
        (
            moved(s, PathStatus::Direct, "signed pong proved "@ + seen.proven_text, seen),
            no_order(),
        )
    } else if seen.candidates == 0 {
        (
            if s.announced {
                s
            } else {
                moved(
                    SessionView { announced: true, ..s },
                    PathStatus::Relayed,
                    "peer offered no candidates"@,
                    seen,
                )
            },
            no_order(),
        )
    } else if seen.now < s.next_attempt {
        (s, no_order())
    } else {
        (
            SessionView {
                cause: RoundCause::Cooldown,
                round_ends: Some(later(seen.now, PROBE_ROUND)),
                last_sent: Some(seen.now),
                ..moved(
                    s,
                    PathStatus::Probing,
                    decimal_text(seen.candidates as nat) + " peer candidates, "@ + round_words(
                        s.cause,
                    ),
                    seen,
                )
            },
            SessionOrder { probe: true, ..no_order() },
        )
    }
}

/// The session and its order while a round runs.
pub open spec fn on_probing(s: SessionView, seen: SeenView) -> (SessionView, SessionOrder) {
    if fresh(seen.proven, seen.now) {
        (
            SessionView {
                round_ends: None,
                ..moved(s, PathStatus::Direct, "signed pong proved "@ + seen.proven_text, seen)
            },
            no_order(),
        )
    } else {
        let probe = send_due(s.last_sent, seen.now, PROBE_RESEND);
        let sent = if probe {
            SessionView { last_sent: Some(seen.now), ..s }
        } else {
            s
        };
        let over = s.round_ends matches Some(end) && seen.now >= end;
        (
            if over {
                moved(
                    SessionView {
                        round_ends: None,
                        next_attempt: later(seen.now, PROBE_COOLDOWN),
                        ..sent
                    },
                    PathStatus::Relayed,
                    "direct_failed: all probes timed out"@,
                    seen,
                )
            } else {
                sent
            },
            SessionOrder { probe, ..no_order() },
        )
    }
}

/// The session and its order on a direct path.
pub open spec fn on_direct(s: SessionView, seen: SeenView) -> (SessionView, SessionOrder) {
    if fresh(seen.proven, seen.now) {
        let probe = send_due(s.last_sent, seen.now, REPROVE_INTERVAL);
        (
            if probe {
                SessionView { last_sent: Some(seen.now), ..s }
            } else {
                s
            },
            SessionOrder { probe, ..no_order() },
        )
    } else {
        (
            moved(
                SessionView { next_attempt: later(seen.now, PROBE_COOLDOWN), ..s },
                PathStatus::Relayed,
                "direct_lost: proof older than 15 s and re-probe failed"@,
                seen,
            ),
            SessionOrder { drop_direct: true, ..no_order() },
        )
    }
}

/// The session and its order while the relay is up.
pub open spec fn on_path(s: SessionView, seen: SeenView) -> (SessionView, SessionOrder) {
    if !s.allow_direct {
        (
            if s.report.status == PathStatus::Relayed && !s.announced {
                moved(
                    SessionView { announced: true, ..s },
                    PathStatus::Relayed,
                    "owner declined direct paths"@,
                    seen,
                )
            } else {
                s
            },
            no_order(),
        )
    } else {
        let ready = heeding(announcing(s, seen.now), seen.now);
        let (after, order) = match ready.report.status {
            PathStatus::Relayed => on_relayed(ready, seen),
            PathStatus::Probing => on_probing(ready, seen),
            PathStatus::Direct => on_direct(ready, seen),
            _ => (ready, no_order()),
        };
        (after, SessionOrder { announce: announces(s, seen.now), ..order })
    }
}

/// The session and its order after an event.
pub open spec fn session_step(s: SessionView, event: SessionEventView, seen: SeenView) -> (
    SessionView,
    SessionOrder,
) {
    let (taken, first) = absorbed(s, event, seen);
    if first.done {
        (taken, first)
    } else {
        let (there, verdict) = followed(taken, seen);
        match verdict {
            RelayVerdict::Ended => (there, SessionOrder { done: true, ..first }),
            RelayVerdict::Away => (there, first),
            RelayVerdict::Up => {
                let (after, order) = on_path(there, seen);
                (after, SessionOrder { requery: first.requery, ..order })
            },
        }
    }
}

fn nothing() -> (r: SessionOrder)
    ensures
        r == no_order(),
{
    SessionOrder { requery: false, announce: false, probe: false, drop_direct: false, done: false }
}

impl SessionPath {
    /// A session whose handshake over the relay has just succeeded.
    pub fn start(
        allow_direct: bool,
        probe_delay: u64,
        now: u64,
        relay: RelayStatus,
        relay_url: Option<String>,
    ) -> (r: Self)
        ensures
            r@ == started(allow_direct, probe_delay, now, relay@, opt_text(relay_url)),
    {
        let initial = PathReport {
            status: PathStatus::Rendezvous,
            relay: copy_opt_text(&relay_url),
            direct: None,
            since: now,
            cause: "connect".to_owned(),
        };
        let report = PathReport {
            status: PathStatus::Relayed,
            relay: relay_url,
            direct: None,
            since: now,
            cause: "QUIC handshake over relay ok".to_owned(),
        };
        let r = SessionPath {
            allow_direct,
            report: report.clone(),
            history: vec![initial, report],
            relay,
            previous: PathStatus::Relayed,
            reconnect_since: None,
            round_ends: None,
            next_attempt: time_after(now, probe_delay),
            last_sent: None,
            announced: false,
            cause: RoundCause::Settled,
            reannounce_at: None,
            asked: Asked::Nobody,
            punch_requests: 0,
        };
        proof {
            let wanted = started(allow_direct, probe_delay, now, relay@, opt_text(relay_url));
            assert(r@.history =~= wanted.history);
            assert(r@ =~= wanted);
        }
        r
    }

    /// The exact current path.
    pub fn path(&self) -> (r: PathReport)
        ensures
            r@ == self@.report,
    {
        self.report.clone()
    }

    /// Every transition this session has made, oldest first, so that an observer
    /// sees a short-lived path without having to catch it in flight.
    pub fn history(&self) -> (r: Vec<PathReport>)
        ensures
            report_views(r@) == self@.history,
    {
        let mut out: Vec<PathReport> = Vec::new();
        let mut i: usize = 0;
        while i < self.history.len()
            invariant
                i <= self.history.len(),
                report_views(out@) == self@.history.take(i as int),
            decreases self.history.len() - i,
        {
            let ghost before = out@;
            let report = self.history[i].clone();
            out.push(report);
            proof {
                assert(report@ == self@.history[i as int]);
                assert(report_views(out@) =~= report_views(before).push(report@));
                assert(self@.history.take(i + 1) =~= self@.history.take(i as int).push(report@));
            }
            i += 1;
        }
        assert(self@.history.take(i as int) =~= self@.history);
        out
    }

    /// The current status.
    pub fn status(&self) -> (r: PathStatus)
        ensures
            r == self@.report.status,
    {
        self.report.status
    }

    /// How many times the peer has asked this side for a probing round, so that an
    /// operator can tell a peer that never asked from one whose probes were lost.
    pub fn punch_requests(&self) -> (r: u32)
        ensures
            r == self@.punch_requests,
    {
        self.punch_requests
    }

    /// Ask for a direct path now rather than waiting out the delay.
    pub fn request_direct(&mut self)
        ensures
            final(self)@ == (SessionView { asked: Asked::Here, ..old(self)@ }),
    {
        self.asked = Asked::Here;
    }

    /// The peer asked for a probing round.
    pub fn peer_punches(&mut self)
        ensures
            final(self)@ == (SessionView {
                asked: Asked::Peer,
                punch_requests: if old(self)@.punch_requests == u32::MAX {
                    0
                } else {
                    (old(self)@.punch_requests + 1) as u32
                },
                ..old(self)@
            }),
    {
        self.punch_requests = self.punch_requests.wrapping_add(1);
        self.asked = Asked::Peer;
    }

    fn transition(&mut self, status: PathStatus, cause: String, seen: &Seen)
        ensures
            final(self)@ == moved(old(self)@, status, cause@, seen@),
    {
        let direct = match (status, &seen.proven) {
            (PathStatus::Direct, Some(proven)) => Some(proven.addr),
            _ => None,
        };
        if self.report.status == status {
            self.report.relay = copy_opt_text(&seen.relay);
            self.report.direct = direct;
            return;
        }
        let report = PathReport {
            status,
            relay: copy_opt_text(&seen.relay),
            direct,
            since: seen.now,
            cause,
        };
        if self.history.len() < HISTORY_CAP {
            let recorded = report.clone();
            self.history.push(recorded);
            assert(self@.history =~= old(self)@.history.push(report@));
        }
        self.report = report;
    }

    fn absorb(&mut self, event: SessionEvent, seen: &Seen) -> (r: SessionOrder)
        ensures
            (final(self)@, r) == absorbed(old(self)@, event@, seen@),
    {
        let failed = matches!(self.report.status, PathStatus::Failed(_));
        let mut order = nothing();
        match event {
            SessionEvent::Ended(ending) => {
                order.done = true;
                if !failed {
                    match ending {
                        Ending::Closed => {},
                        Ending::TimedOut => {
                            self.transition(
                                PathStatus::Failed(FailReason::Timeout),
                                "QUIC idle timeout".to_owned(),
                                seen,
                            );
                        },
                        Ending::Other(words) => {
                            self.transition(
                                PathStatus::Failed(FailReason::Relay),
                                "connection ended: ".to_owned().concat(words.as_str()),
                                seen,
                            );
                        },
                    }
                }
            },
            SessionEvent::Superseded => {
                order.done = true;
                if !failed {
                    self.transition(
                        PathStatus::Failed(FailReason::Superseded),
                        "superseded by a newer session with this peer".to_owned(),
                        seen,
                    );
                }
            },
            SessionEvent::Relay(status) => {
                self.relay = status;
                order.done = failed;
            },
            SessionEvent::Interfaces => {
                self.reannounce_at = Some(time_after(seen.now, REFLECTOR_GRACE));
                order.requery = true;
                order.done = failed;
            },
            SessionEvent::Tick => {
                order.done = failed;
            },
        }
        order
    }

    fn follow_relay(&mut self, seen: &Seen) -> (r: RelayVerdict)
        ensures
            (final(self)@, r) == followed(old(self)@, seen@),
    {
        match &self.relay {
            RelayStatus::Failed => {
                self.transition(
                    PathStatus::Failed(FailReason::Relay),
                    "no relay within 60 s".to_owned(),
                    seen,
                );
                RelayVerdict::Ended
            },
            RelayStatus::Superseded => {
                self.transition(
                    PathStatus::Failed(FailReason::Superseded),
                    "relay slot superseded by a newer process".to_owned(),
                    seen,
                );
                RelayVerdict::Ended
            },
            RelayStatus::Reconnecting | RelayStatus::Connecting => {
                if self.report.status != PathStatus::Reconnecting {
                    self.previous = self.report.status;
                    self.reconnect_since = Some(seen.now);
                    self.transition(
                        PathStatus::Reconnecting,
                        "relay session lost".to_owned(),
                        seen,
                    );
                }
                RelayVerdict::Away
            },
            RelayStatus::Up(_) => {
                if self.report.status == PathStatus::Reconnecting {
                    let waited: u64 = match self.reconnect_since {
                        Some(then) => since(then, seen.now),
                        None => 0,
                    };
                    let cause = "new relay welcome after ".to_owned().concat(
                        decimal(waited).as_str(),
                    ).concat(" ms");
                    self.transition(self.previous, cause, seen);
                    self.reconnect_since = None;
                }
                RelayVerdict::Up
            },
        }
    }

    fn step_relayed(&mut self, seen: &Seen) -> (r: SessionOrder)
        ensures
            (final(self)@, r) == on_relayed(old(self)@, seen@),
    {
        let mut order = nothing();
        if is_fresh(&seen.proven, seen.now) {
            let cause = "signed pong proved ".to_owned().concat(seen.proven_text.as_str());
            self.transition(PathStatus::Direct, cause, seen);
        } else if seen.candidates == 0 {
            if !self.announced {
                self.announced = true;
                self.transition(
                    PathStatus::Relayed,
                    "peer offered no candidates".to_owned(),
                    seen,
                );
            }
        } else if seen.now >= self.next_attempt {
            let cause = decimal(seen.candidates as u64).concat(" peer candidates, ").concat(
                self.cause.words(),
            );
            self.transition(PathStatus::Probing, cause, seen);
            self.cause = RoundCause::Cooldown;
            self.round_ends = Some(time_after(seen.now, PROBE_ROUND));
            self.last_sent = Some(seen.now);
            order.probe = true;
        }
        order
    }

    fn step_probing(&mut self, seen: &Seen) -> (r: SessionOrder)
        ensures
            (final(self)@, r) == on_probing(old(self)@, seen@),
    {
        let mut order = nothing();
        if is_fresh(&seen.proven, seen.now) {
            let cause = "signed pong proved ".to_owned().concat(seen.proven_text.as_str());
            self.transition(PathStatus::Direct, cause, seen);
            self.round_ends = None;
            return order;
        }
        if is_send_due(self.last_sent, seen.now, PROBE_RESEND) {
            self.last_sent = Some(seen.now);
            order.probe = true;
        }
        let over = match self.round_ends {
            Some(end) => seen.now >= end,
            None => false,
        };
        if over {
            self.round_ends = None;
            self.next_attempt = time_after(seen.now, PROBE_COOLDOWN);
            self.transition(
                PathStatus::Relayed,
                "direct_failed: all probes timed out".to_owned(),
                seen,
            );
        }
        order
    }

    fn step_direct(&mut self, seen: &Seen) -> (r: SessionOrder)
        ensures
            (final(self)@, r) == on_direct(old(self)@, seen@),
    {
        let mut order = nothing();
        if is_fresh(&seen.proven, seen.now) {
            if is_send_due(self.last_sent, seen.now, REPROVE_INTERVAL) {
                self.last_sent = Some(seen.now);
                order.probe = true;
            }
        } else {
            self.next_attempt = time_after(seen.now, PROBE_COOLDOWN);
            self.transition(
                PathStatus::Relayed,
                "direct_lost: proof older than 15 s and re-probe failed".to_owned(),
                seen,
            );
            order.drop_direct = true;
        }
        order
    }

    fn step_path(&mut self, seen: &Seen) -> (r: SessionOrder)
        ensures
            (final(self)@, r) == on_path(old(self)@, seen@),
    {
        if !self.allow_direct {
            if self.report.status == PathStatus::Relayed && !self.announced {
                self.announced = true;
                self.transition(
                    PathStatus::Relayed,
                    "owner declined direct paths".to_owned(),
                    seen,
                );
            }
            return nothing();
        }
        let announce = match self.reannounce_at {
            Some(at) => seen.now >= at,
            None => false,
        };
        if announce {
            self.reannounce_at = None;
            self.asked = Asked::Here;
        }
        if self.asked != Asked::Nobody {
            self.next_attempt = seen.now;
            self.cause = if self.asked == Asked::Peer {
                RoundCause::Peer
            } else {
                RoundCause::Here
            };
            self.last_sent = None;
            self.asked = Asked::Nobody;
        }
        let mut order = match self.report.status {
            PathStatus::Relayed => self.step_relayed(seen),
            PathStatus::Probing => self.step_probing(seen),
            PathStatus::Direct => self.step_direct(seen),
            _ => nothing(),
        };
        order.announce = announce;
        order
    }

    /// Take an event in: follow the relay first, then the direct path.
    pub fn step(&mut self, event: SessionEvent, seen: &Seen) -> (r: SessionOrder)
        ensures
            (final(self)@, r) == session_step(old(self)@, event@, seen@),
    {
        let mut first = self.absorb(event, seen);
        if first.done {
            return first;
        }
        match self.follow_relay(seen) {
            RelayVerdict::Ended => {
                first.done = true;
                first
            },
            RelayVerdict::Away => first,
            RelayVerdict::Up => {
                let mut order = self.step_path(seen);
                order.requery = first.requery;
                order
            },
        }
    }
}

/// A session whose handshake over the relay has just succeeded.
pub open spec fn started(
    allow_direct: bool,
    probe_delay: u64,
    now: u64,
    relay: RelayStatusView,
    relay_url: Option<Seq<char>>,
) -> SessionView {
    let initial = PathReportView {
        status: PathStatus::Rendezvous,
        relay: relay_url,
        direct: None,
        since: now,
        cause: "connect"@,
    };
    let report = PathReportView {
        status: PathStatus::Relayed,
        cause: "QUIC handshake over relay ok"@,
        ..initial
    };
    SessionView {
        allow_direct,
        report,
        history: seq![initial, report],
        relay,
        previous: PathStatus::Relayed,
        reconnect_since: None,
        round_ends: None,
        next_attempt: later(now, probe_delay),
        last_sent: None,
        announced: false,
        cause: RoundCause::Settled,
        reannounce_at: None,
        asked: Asked::Nobody,
        punch_requests: 0,
    }
}

// ---------------------------------------------------------------------------
// What holds of every session
// ---------------------------------------------------------------------------
/// The history starts where the session started, keeps its bound, and until the
/// bound is reached ends with the path the session is on.
pub open spec fn recorded(s: SessionView) -> bool {
    &&& 1 <= s.history.len() <= HISTORY_CAP
    &&& s.history[0].status == PathStatus::Rendezvous
    &&& s.history.len() < HISTORY_CAP ==> {
        &&& s.history.last().status == s.report.status
        &&& s.history.last().cause == s.report.cause
        &&& s.history.last().since == s.report.since
    }
}

/// The paths a session can be on, and the path it returns to.
pub open spec fn pathed(s: SessionView) -> bool {
    &&& s.previous == PathStatus::Relayed || s.previous == PathStatus::Probing || s.previous
        == PathStatus::Direct
    &&& s.report.status != PathStatus::Idle
    &&& s.report.status != PathStatus::Rendezvous
    &&& !s.allow_direct ==> {
        &&& s.previous == PathStatus::Relayed
        &&& s.report.status != PathStatus::Probing
        &&& s.report.status != PathStatus::Direct
    }
}

/// Whether `t` goes on from `s`: what was recorded stays.
spec fn goes_on(s: SessionView, t: SessionView) -> bool {
    &&& recorded(t)
    &&& pathed(t)
    &&& t.allow_direct == s.allow_direct
    &&& s.history.is_prefix_of(t.history)
}

/// A transition keeps the record.
proof fn lemma_moved(s: SessionView, status: PathStatus, cause: Seq<char>, seen: SeenView)
    requires
        recorded(s),
    ensures
        ({
            let t = moved(s, status, cause, seen);
            &&& recorded(t)
            &&& s.history.is_prefix_of(t.history)
            &&& t.report.status == status
            &&& t.previous == s.previous
            &&& t.allow_direct == s.allow_direct
        }),
{
    let t = moved(s, status, cause, seen);
    assert(s.history =~= t.history.take(s.history.len() as int));
}

proof fn lemma_absorbed(s: SessionView, event: SessionEventView, seen: SeenView)
    requires
        recorded(s),
        pathed(s),
    ensures
        goes_on(s, absorbed(s, event, seen).0),
{
    match event {
        SessionEventView::Ended(EndingView::TimedOut) => {
            lemma_moved(
                s,
                PathStatus::Failed(FailReason::Timeout),
                "QUIC idle timeout"@,
                seen,
            );
        },
        SessionEventView::Ended(EndingView::Other(words)) => {
            lemma_moved(
                s,
                PathStatus::Failed(FailReason::Relay),
                "connection ended: "@ + words,
                seen,
            );
        },
        SessionEventView::Superseded => {
            lemma_moved(
                s,
                PathStatus::Failed(FailReason::Superseded),
                "superseded by a newer session with this peer"@,
                seen,
            );
        },
        _ => {},
    }
    assert(s.history =~= s.history.take(s.history.len() as int));
}

proof fn lemma_followed(s: SessionView, seen: SeenView)
    requires
        recorded(s),
        pathed(s),
        s.report.status !is Failed,
    ensures
        goes_on(s, followed(s, seen).0),
        followed(s, seen).1 == RelayVerdict::Up ==> followed(s, seen).0.report.status !is Failed
            && followed(s, seen).0.report.status != PathStatus::Reconnecting,
{
    match s.relay {
        RelayStatusView::Failed => {
            lemma_moved(s, PathStatus::Failed(FailReason::Relay), "no relay within 60 s"@, seen);
        },
        RelayStatusView::Superseded => {
            lemma_moved(
                s,
                PathStatus::Failed(FailReason::Superseded),
                "relay slot superseded by a newer process"@,
                seen,
            );
        },
        RelayStatusView::Reconnecting | RelayStatusView::Connecting => {
            let lost = SessionView {
                previous: s.report.status,
                reconnect_since: Some(seen.now),
                ..s
            };
            lemma_moved(lost, PathStatus::Reconnecting, "relay session lost"@, seen);
        },
        RelayStatusView::Up(_) => {
            let cause = "new relay welcome after "@ + decimal_text(away_for(s, seen.now))
                + " ms"@;
            lemma_moved(s, s.previous, cause, seen);
        },
    }
    assert(s.history =~= s.history.take(s.history.len() as int));
}

proof fn lemma_on_path(s: SessionView, seen: SeenView)
    requires
        recorded(s),
        pathed(s),
    ensures
        goes_on(s, on_path(s, seen).0),
{
    assert(s.history =~= s.history.take(s.history.len() as int));
    assert forall|t: SessionView, status: PathStatus, cause: Seq<char>|
        recorded(t) implies ({
        let u = #[trigger] moved(t, status, cause, seen);
        &&& recorded(u)
        &&& t.history.is_prefix_of(u.history)
        &&& u.report.status == status
        &&& u.previous == t.previous
        &&& u.allow_direct == t.allow_direct
    }) by {
        lemma_moved(t, status, cause, seen);
    }
    if s.allow_direct {
        let ready = heeding(announcing(s, seen.now), seen.now);
        match ready.report.status {
            PathStatus::Relayed => {
                assert(goes_on(s, on_relayed(ready, seen).0));
            },
            PathStatus::Probing => {
                assert(goes_on(s, on_probing(ready, seen).0));
            },
            PathStatus::Direct => {
                assert(goes_on(s, on_direct(ready, seen).0));
            },
            _ => {},
        }
    }
}

/// A session stays recorded and on its paths: every transition is appended, none
/// is rewritten, and an owner who declines direct paths has neither a probing
/// round nor a direct path.
pub proof fn law_transitions_are_recorded(
    s: SessionView,
    event: SessionEventView,
    seen: SeenView,
)
    requires
        recorded(s),
        pathed(s),
    ensures
        ({
            let after = session_step(s, event, seen).0;
            &&& recorded(after)
            &&& pathed(after)
            &&& after.allow_direct == s.allow_direct
            &&& s.history.is_prefix_of(after.history)
        }),
{
    lemma_absorbed(s, event, seen);
    let (taken, first) = absorbed(s, event, seen);
    if !first.done {
        lemma_followed(taken, seen);
        let (there, verdict) = followed(taken, seen);
        assert(s.history.is_prefix_of(there.history)) by {
            assert(s.history =~= there.history.take(s.history.len() as int));
        }
        if verdict == RelayVerdict::Up {
            lemma_on_path(there, seen);
            let after = on_path(there, seen).0;
            assert(s.history =~= after.history.take(s.history.len() as int));
        }
    }
}

/// A new session is recorded and on the relay.
pub proof fn law_session_starts_relayed(
    allow_direct: bool,
    probe_delay: u64,
    now: u64,
    relay: RelayStatusView,
    relay_url: Option<Seq<char>>,
)
    ensures
        ({
            let s = started(allow_direct, probe_delay, now, relay, relay_url);
            &&& recorded(s)
            &&& pathed(s)
            &&& s.report.status == PathStatus::Relayed
        }),
{
}

/// A failed session stays failed, whatever happens: it does not resume.
pub proof fn law_failed_is_final(s: SessionView, event: SessionEventView, seen: SeenView)
    requires
        s.report.status is Failed,
    ensures
        session_step(s, event, seen).0.report == s.report,
        session_step(s, event, seen).0.history == s.history,
        session_step(s, event, seen).1.done,
{
}

/// A session that goes on reports a direct path only while the proof of its
/// address is fresh, and names that address when it moves there.
pub proof fn law_direct_needs_a_fresh_proof(
    s: SessionView,
    event: SessionEventView,
    seen: SeenView,
)
    requires
        pathed(s),
        session_step(s, event, seen).0.report.status == PathStatus::Direct,
        !session_step(s, event, seen).1.done,
    ensures
        fresh(seen.proven, seen.now),
        s.report.status != PathStatus::Direct ==> session_step(s, event, seen).0.report.direct
            == Some(seen.proven->0.addr),
{
}

/// A relay outage is recorded whatever its duration: the event that ends it finds
/// the session reconnecting, and the session returns to the path it was on.
pub proof fn law_an_outage_is_recorded(
    s: SessionView,
    lost: SeenView,
    back: SeenView,
    url: Seq<char>,
)
    requires
        recorded(s),
        s.history.len() + 2 <= HISTORY_CAP,
        s.report.status == PathStatus::Relayed || s.report.status == PathStatus::Probing
            || s.report.status == PathStatus::Direct,
    ensures
        ({
            let during = session_step(
                s,
                SessionEventView::Relay(RelayStatusView::Reconnecting),
                lost,
            ).0;
            let returned = followed(
                absorbed(
                    during,
                    SessionEventView::Relay(RelayStatusView::Up(url)),
                    back,
                ).0,
                back,
            ).0;
            &&& during.report.status == PathStatus::Reconnecting
            &&& during.history == s.history.push(during.report)
            &&& returned.report.status == s.report.status
            &&& returned.history == during.history.push(returned.report)
        }),
{
}

/// A round starts only on the relayed path, with candidates to probe, when its
/// time has come or when either side asked; a failed round keeps the next one
/// away for the cooldown unless someone asks.
pub proof fn law_rounds_wait_their_turn(s: SessionView, event: SessionEventView, seen: SeenView)
    requires
        pathed(s),
        s.report.status == PathStatus::Relayed,
        session_step(s, event, seen).0.report.status == PathStatus::Probing,
    ensures
        seen.candidates > 0,
        s.allow_direct,
        seen.now >= s.next_attempt || s.asked != Asked::Nobody || announces(
            absorbed(s, event, seen).0,
            seen.now,
        ),
        session_step(s, event, seen).1.probe,
{
}

} // verus!
