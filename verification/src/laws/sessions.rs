//! The path of a session.
use crate::path::{FailReason, PathStatus};
use crate::path_socket::Proven;
use crate::relay_client::RelayStatusView;
use crate::session::{
    absorbed, announcing, followed, heeding, on_path, session_step, started, Asked, EndingView,
    RoundCause, SeenView, SessionEventView, SessionView,
};
use crate::text::decimal_text;
use vstd::prelude::*;

verus! {

/// What the relay driver says once an event is known.
pub open spec fn relay_after(s: SessionView, event: SessionEventView) -> RelayStatusView {
    match event {
        SessionEventView::Relay(status) => status,
        _ => s.relay,
    }
}

/// Whether an event leaves the connection standing.
pub open spec fn stands(event: SessionEventView) -> bool {
    !(event is Ended) && !(event is Superseded)
}

/// Whether the direct address was proved within the last fifteen seconds.
pub open spec fn proof_holds(seen: SeenView) -> bool {
    seen.proven matches Some(proven) && seen.now < proven.proved_at + 15_000
}

/// Whether a session on `status` looks at its direct path when an event comes: it
/// lives, its relay is up and its owner allows direct paths.
pub open spec fn looks(s: SessionView, event: SessionEventView, status: PathStatus) -> bool {
    &&& s.report.status == status
    &&& stands(event)
    &&& relay_after(s, event) is Up
    &&& s.allow_direct
}

/// Whether somebody wants a round now: either side asked, or an announcement after a
/// change of the interfaces is due.
pub open spec fn round_wanted(s: SessionView, event: SessionEventView, now: u64) -> bool {
    ||| s.asked != Asked::Nobody
    ||| !(event is Interfaces) && (s.reannounce_at matches Some(at) && at <= now)
}

/// Whether `after` has one more transition on record than `before`, at the end: to
/// `status`, at `now`, for `cause`.  A full record stays as it is.
pub open spec fn records(
    before: SessionView,
    after: SessionView,
    status: PathStatus,
    cause: Seq<char>,
    now: u64,
) -> bool {
    &&& after.report.status == status
    &&& after.report.cause == cause
    &&& after.report.since == now
    &&& before.history.len() < 256 ==> after.history.len() == before.history.len() + 1
        && after.history.last() == after.report && after.history.drop_last() == before.history
    &&& before.history.len() >= 256 ==> after.history == before.history
}

/// A probing round ends at the first look at or after its end: the session is back on
/// the relay, the failure is recorded, and the next round is thirty seconds away.
pub proof fn law_a_round_ends_in_time(
    s: SessionView,
    event: SessionEventView,
    seen: SeenView,
    end: u64,
)
    requires
        looks(s, event, PathStatus::Probing),
        s.round_ends == Some(end),
        end <= seen.now,
        !proof_holds(seen),
        seen.now + 30_000 <= u64::MAX,
    ensures
        ({
            let (t, order) = session_step(s, event, seen);
            &&& records(
                s,
                t,
                PathStatus::Relayed,
                "direct_failed: all probes timed out"@,
                seen.now,
            )
            &&& t.round_ends is None
            &&& t.next_attempt == seen.now + 30_000
            &&& t.report.direct is None
            &&& t.report.relay == seen.relay
            &&& !order.done
            &&& !order.drop_direct
        }),
{
    let t = session_step(s, event, seen).0;
    if s.history.len() < 256 {
        assert(t.history.drop_last() =~= s.history);
    }
}

/// Before its end a round without a proof goes on: probes are sent again every half
/// second, or at once when somebody asks, and nothing is recorded.
pub proof fn law_a_round_goes_on(s: SessionView, event: SessionEventView, seen: SeenView)
    requires
        looks(s, event, PathStatus::Probing),
        s.round_ends is None || seen.now < s.round_ends->0,
        !proof_holds(seen),
        event is Interfaces ==> seen.now + 300 <= u64::MAX,
    ensures
        ({
            let (t, order) = session_step(s, event, seen);
            &&& t.report == s.report
            &&& t.history == s.history
            &&& t.round_ends == s.round_ends
            &&& order.probe <==> s.last_sent is None || seen.now >= s.last_sent->0 + 500
                || round_wanted(s, event, seen.now)
            &&& order.probe ==> t.last_sent == Some(seen.now)
            &&& !order.probe ==> t.last_sent == s.last_sent
            &&& !order.done
            &&& !order.drop_direct
        }),
{
}

/// A proof that is fresh makes the path direct, from the relay and from a round alike:
/// the report names the proved address, and no round is left running.
pub proof fn law_a_fresh_proof_makes_the_path_direct(
    s: SessionView,
    event: SessionEventView,
    seen: SeenView,
    proven: Proven,
)
    requires
        looks(s, event, PathStatus::Relayed) || looks(s, event, PathStatus::Probing),
        seen.proven == Some(proven),
        seen.now < proven.proved_at + 15_000,
    ensures
        ({
            let (t, order) = session_step(s, event, seen);
            &&& records(
                s,
                t,
                PathStatus::Direct,
                "signed pong proved "@ + seen.proven_text,
                seen.now,
            )
            &&& t.report.direct == Some(proven.addr)
            &&& t.report.relay == seen.relay
            &&& s.report.status == PathStatus::Probing ==> t.round_ends is None
            &&& !order.probe
            &&& !order.done
            &&& !order.drop_direct
        }),
{
    let t = session_step(s, event, seen).0;
    if s.history.len() < 256 {
        assert(t.history.drop_last() =~= s.history);
    }
}

/// On the relay, with a candidate to probe and no proof, a round starts when its time
/// has come or somebody asked: probes go out at once and the round lasts five seconds.
pub proof fn law_a_round_starts_when_due(s: SessionView, event: SessionEventView, seen: SeenView)
    requires
        looks(s, event, PathStatus::Relayed),
        !proof_holds(seen),
        seen.candidates > 0,
        s.next_attempt <= seen.now || round_wanted(s, event, seen.now),
        seen.now + 5_000 <= u64::MAX,
    ensures
        ({
            let (t, order) = session_step(s, event, seen);
            let why = if !(event is Interfaces) && (s.reannounce_at matches Some(at) && at
                <= seen.now) || s.asked == Asked::Here {
                "requested here"@
            } else if s.asked == Asked::Peer {
                "punch-now from peer"@
            } else {
                match s.cause {
                    RoundCause::Settled => "settle delay elapsed"@,
                    RoundCause::Peer => "punch-now from peer"@,
                    RoundCause::Here => "requested here"@,
                    RoundCause::Cooldown => "cooldown elapsed"@,
                }
            };
            &&& records(
                s,
                t,
                PathStatus::Probing,
                decimal_text(seen.candidates as nat) + " peer candidates, "@ + why,
                seen.now,
            )
            &&& t.round_ends == Some((seen.now + 5_000) as u64)
            &&& t.last_sent == Some(seen.now)
            &&& t.cause == RoundCause::Cooldown
            &&& t.asked == Asked::Nobody
            &&& t.report.direct is None
            &&& order.probe
            &&& !order.done
            &&& !order.drop_direct
        }),
{
    let t = session_step(s, event, seen).0;
    if s.history.len() < 256 {
        assert(t.history.drop_last() =~= s.history);
    }
}

/// On the relay nothing is probed and the session stays there, without a proof, as long
/// as there is no candidate or the time of the next round has not come and nobody asked.
pub proof fn law_no_round_starts_early(s: SessionView, event: SessionEventView, seen: SeenView)
    requires
        looks(s, event, PathStatus::Relayed),
        !proof_holds(seen),
        seen.candidates == 0 || seen.now < s.next_attempt && !round_wanted(s, event, seen.now),
        event is Interfaces ==> seen.now + 300 <= u64::MAX,
    ensures
        ({
            let (t, order) = session_step(s, event, seen);
            &&& t.report.status == PathStatus::Relayed
            &&& t.report.cause == s.report.cause
            &&& t.report.since == s.report.since
            &&& t.history == s.history
            &&& t.round_ends == s.round_ends
            &&& !order.probe
            &&& !order.done
            &&& !order.drop_direct
            &&& !round_wanted(s, event, seen.now) ==> t.next_attempt == s.next_attempt
        }),
{
}

/// After a round that failed, no look in the next thirty seconds starts another one
/// unless somebody asks or a proof turns up.
pub proof fn law_a_failed_round_cools_down(
    s: SessionView,
    seen: SeenView,
    end: u64,
    event: SessionEventView,
    next: SeenView,
)
    requires
        looks(s, SessionEventView::Tick, PathStatus::Probing),
        s.round_ends == Some(end),
        end <= seen.now <= next.now < seen.now + 30_000,
        !proof_holds(seen),
        !proof_holds(next),
        seen.now + 30_000 <= u64::MAX,
        event is Tick || event is Relay,
        relay_after(s, event) is Up,
        s.asked == Asked::Nobody,
        s.reannounce_at is None,
    ensures
        ({
            let t = session_step(s, SessionEventView::Tick, seen).0;
            let (u, order) = session_step(t, event, next);
            &&& t.report.status == PathStatus::Relayed
            &&& u.report.status == PathStatus::Relayed
            &&& !order.probe
            &&& u.next_attempt == seen.now + 30_000
        }),
{
    law_a_round_ends_in_time(s, SessionEventView::Tick, seen, end);
    let t = session_step(s, SessionEventView::Tick, seen).0;
    law_no_round_starts_early(t, event, next);
}

/// A direct path whose proof is fresh stays direct, and is proved again every five
/// seconds, or at once when somebody asks.
pub proof fn law_a_direct_path_is_kept_proved(
    s: SessionView,
    event: SessionEventView,
    seen: SeenView,
)
    requires
        looks(s, event, PathStatus::Direct),
        proof_holds(seen),
        event is Interfaces ==> seen.now + 300 <= u64::MAX,
    ensures
        ({
            let (t, order) = session_step(s, event, seen);
            &&& t.report == s.report
            &&& t.history == s.history
            &&& order.probe <==> s.last_sent is None || seen.now >= s.last_sent->0 + 5_000
                || round_wanted(s, event, seen.now)
            &&& order.probe ==> t.last_sent == Some(seen.now)
            &&& !order.probe ==> t.last_sent == s.last_sent
            &&& !order.done
            &&& !order.drop_direct
        }),
{
}

/// A direct path whose proof is older than fifteen seconds, or gone, falls back to the
/// relay: the path is forgotten, and the next round is thirty seconds away.
pub proof fn law_a_stale_proof_falls_back(s: SessionView, event: SessionEventView, seen: SeenView)
    requires
        looks(s, event, PathStatus::Direct),
        !proof_holds(seen),
        seen.now + 30_000 <= u64::MAX,
    ensures
        ({
            let (t, order) = session_step(s, event, seen);
            &&& records(
                s,
                t,
                PathStatus::Relayed,
                "direct_lost: proof older than 15 s and re-probe failed"@,
                seen.now,
            )
            &&& t.next_attempt == seen.now + 30_000
            &&& t.report.direct is None
            &&& t.report.relay == seen.relay
            &&& order.drop_direct
            &&& !order.probe
            &&& !order.done
        }),
{
    let t = session_step(s, event, seen).0;
    if s.history.len() < 256 {
        assert(t.history.drop_last() =~= s.history);
    }
}

/// An owner who declines direct paths stays on the relay whatever is proved: nothing is
/// probed and nothing is announced.
pub proof fn law_a_declined_path_stays_relayed(
    s: SessionView,
    event: SessionEventView,
    seen: SeenView,
)
    requires
        !s.allow_direct,
        s.report.status == PathStatus::Relayed,
        stands(event),
        relay_after(s, event) is Up,
    ensures
        ({
            let (t, order) = session_step(s, event, seen);
            &&& t.report.status == PathStatus::Relayed
            &&& t.report.cause == s.report.cause
            &&& t.report.since == s.report.since
            &&& t.history == s.history
            &&& !order.probe
            &&& !order.announce
            &&& !order.drop_direct
            &&& !order.done
        }),
{
}

/// An owner who declines direct paths is told once what the path is: the first look at it
/// takes in the relay, and later ones change nothing.
pub proof fn law_a_declined_path_is_looked_at_once(s: SessionView, seen: SeenView)
    requires
        !s.allow_direct,
        s.report.status == PathStatus::Relayed,
        s.relay is Up,
    ensures
        ({
            let (t, order) = session_step(s, SessionEventView::Tick, seen);
            &&& t.announced
            &&& s.announced ==> t == s
            &&& !s.announced ==> t.report.relay == seen.relay && t.report.direct is None
            &&& t.round_ends == s.round_ends
            &&& t.next_attempt == s.next_attempt
            &&& t.last_sent == s.last_sent
        }),
{
}

/// A relay that is away makes a living session reconnect, from every path: the path it
/// was on and the time are kept, and nothing is probed meanwhile.
pub proof fn law_a_lost_relay_is_waited_for(
    s: SessionView,
    event: SessionEventView,
    seen: SeenView,
)
    requires
        s.report.status !is Failed,
        stands(event),
        relay_after(s, event) is Reconnecting || relay_after(s, event) is Connecting,
    ensures
        ({
            let (t, order) = session_step(s, event, seen);
            &&& s.report.status != PathStatus::Reconnecting ==> {
                &&& records(s, t, PathStatus::Reconnecting, "relay session lost"@, seen.now)
                &&& t.previous == s.report.status
                &&& t.reconnect_since == Some(seen.now)
            }
            &&& s.report.status == PathStatus::Reconnecting ==> {
                &&& t.report == s.report
                &&& t.history == s.history
                &&& t.previous == s.previous
                &&& t.reconnect_since == s.reconnect_since
            }
            &&& t.round_ends == s.round_ends
            &&& t.next_attempt == s.next_attempt
            &&& !order.probe
            &&& !order.announce
            &&& !order.drop_direct
            &&& !order.done
        }),
{
    let t = session_step(s, event, seen).0;
    if s.history.len() < 256 && s.report.status != PathStatus::Reconnecting {
        assert(t.history.drop_last() =~= s.history);
    }
}

/// A relay that is back returns a reconnecting session to the path it was on; the
/// record says how long the relay was away.
pub proof fn law_a_returned_relay_resumes_the_path(
    s: SessionView,
    event: SessionEventView,
    seen: SeenView,
    lost: u64,
)
    requires
        s.report.status == PathStatus::Reconnecting,
        s.previous == PathStatus::Relayed || s.previous == PathStatus::Probing || s.previous
            == PathStatus::Direct,
        s.reconnect_since == Some(lost),
        lost <= seen.now,
        stands(event),
        relay_after(s, event) is Up,
        s.history.len() < 256,
    ensures
        ({
            let (t, order) = session_step(s, event, seen);
            let n = s.history.len() as int;
            &&& t.history.len() > n
            &&& t.history.take(n) == s.history
            &&& t.history[n].status == s.previous
            &&& t.history[n].since == seen.now
            &&& t.history[n].relay == seen.relay
            &&& t.history[n].cause == "new relay welcome after "@ + decimal_text(
                (seen.now - lost) as nat,
            ) + " ms"@
            &&& t.reconnect_since is None
            &&& t.report.status != PathStatus::Reconnecting
            &&& !order.done
        }),
{
    let (taken, first) = absorbed(s, event, seen);
    let there = followed(taken, seen).0;
    let after = on_path(there, seen).0;
    assert(there.history =~= s.history.push(there.report));
    let ready = heeding(announcing(there, seen.now), seen.now);
    assert(ready.history == there.history);
    assert(after.history == there.history || after.history == there.history.push(after.report));
    assert(session_step(s, event, seen).0 == after);
    assert(after.history.take(s.history.len() as int) =~= s.history);
}

/// What comes after the return is what comes of a session that never left: an outage
/// changes the record and the request times, not the path that is taken.
pub proof fn law_an_outage_does_not_change_the_path(
    s: SessionView,
    lost: SeenView,
    back: SeenView,
    url: Seq<char>,
)
    requires
        s.report.status == PathStatus::Relayed || s.report.status == PathStatus::Probing
            || s.report.status == PathStatus::Direct,
        s.relay is Up,
    ensures
        ({
            let away = session_step(
                s,
                SessionEventView::Relay(RelayStatusView::Reconnecting),
                lost,
            ).0;
            let returned = session_step(
                away,
                SessionEventView::Relay(RelayStatusView::Up(url)),
                back,
            );
            let stayed = session_step(s, SessionEventView::Tick, back);
            &&& returned.0.report.status == stayed.0.report.status
            &&& returned.0.round_ends == stayed.0.round_ends
            &&& returned.0.next_attempt == stayed.0.next_attempt
            &&& returned.1 == stayed.1
        }),
{
}

/// A relay that gave up, or that a newer process took over, ends a living session with
/// that reason.
pub proof fn law_a_dead_relay_ends_the_session(
    s: SessionView,
    event: SessionEventView,
    seen: SeenView,
)
    requires
        s.report.status !is Failed,
        stands(event),
    ensures
        ({
            let (t, order) = session_step(s, event, seen);
            &&& relay_after(s, event) is Failed ==> order.done && records(
                s,
                t,
                PathStatus::Failed(FailReason::Relay),
                "no relay within 60 s"@,
                seen.now,
            )
            &&& relay_after(s, event) is Superseded ==> order.done && records(
                s,
                t,
                PathStatus::Failed(FailReason::Superseded),
                "relay slot superseded by a newer process"@,
                seen.now,
            )
            &&& order.done <==> relay_after(s, event) is Failed || relay_after(s, event)
                is Superseded
        }),
{
    let t = session_step(s, event, seen).0;
    if s.history.len() < 256 && (relay_after(s, event) is Failed || relay_after(s, event)
        is Superseded) {
        assert(t.history.drop_last() =~= s.history);
    }
}

/// The end of the connection ends the session: on purpose without a trace, otherwise
/// with the reason on record.
pub proof fn law_an_ended_connection_ends_the_session(
    s: SessionView,
    event: SessionEventView,
    seen: SeenView,
)
    requires
        s.report.status !is Failed,
        !stands(event),
    ensures
        ({
            let (t, order) = session_step(s, event, seen);
            &&& order.done
            &&& !order.probe
            &&& match event {
                SessionEventView::Ended(EndingView::Closed) => t == s,
                SessionEventView::Ended(EndingView::TimedOut) => records(
                    s,
                    t,
                    PathStatus::Failed(FailReason::Timeout),
                    "QUIC idle timeout"@,
                    seen.now,
                ),
                SessionEventView::Ended(EndingView::Other(words)) => records(
                    s,
                    t,
                    PathStatus::Failed(FailReason::Relay),
                    "connection ended: "@ + words,
                    seen.now,
                ),
                _ => records(
                    s,
                    t,
                    PathStatus::Failed(FailReason::Superseded),
                    "superseded by a newer session with this peer"@,
                    seen.now,
                ),
            }
        }),
{
    let t = session_step(s, event, seen).0;
    if s.history.len() < 256 && t.history.len() > s.history.len() {
        assert(t.history.drop_last() =~= s.history);
    }
}

/// A change of the interfaces asks the reflector at once, and three tenths of a second
/// later this side announces itself and starts a round.
pub proof fn law_new_interfaces_are_announced(
    s: SessionView,
    seen: SeenView,
    next: SeenView,
)
    requires
        looks(s, SessionEventView::Interfaces, PathStatus::Relayed),
        s.asked == Asked::Nobody,
        seen.candidates == 0 || seen.now < s.next_attempt,
        !proof_holds(seen),
        !proof_holds(next),
        seen.now + 300 <= next.now,
        next.now + 5_000 <= u64::MAX,
        next.candidates > 0,
    ensures
        ({
            let (t, first) = session_step(s, SessionEventView::Interfaces, seen);
            let (u, second) = session_step(t, SessionEventView::Tick, next);
            &&& first.requery
            &&& !first.announce
            &&& t.reannounce_at == Some((seen.now + 300) as u64)
            &&& second.announce
            &&& second.probe
            &&& !second.requery
            &&& u.report.status == PathStatus::Probing
            &&& u.reannounce_at is None
        }),
{
}

/// Announcements and reflector queries come of a change of the interfaces and of
/// nothing else.
pub proof fn law_only_new_interfaces_announce(
    s: SessionView,
    event: SessionEventView,
    seen: SeenView,
)
    requires
        s.report.status !is Failed,
    ensures
        ({
            let (t, order) = session_step(s, event, seen);
            &&& order.requery <==> event is Interfaces
            &&& order.announce ==> s.allow_direct && relay_after(s, event) is Up && (
            s.reannounce_at is Some && s.reannounce_at->0 <= seen.now || event is Interfaces)
        }),
{
}

/// What a step never touches.
pub proof fn law_a_step_keeps_the_rest(s: SessionView, event: SessionEventView, seen: SeenView)
    ensures
        ({
            let t = session_step(s, event, seen).0;
            &&& t.allow_direct == s.allow_direct
            &&& t.punch_requests == s.punch_requests
            &&& t.relay == relay_after(s, event)
            &&& t.asked == s.asked || t.asked == Asked::Nobody
            &&& s.history.len() <= t.history.len()
        }),
{
}

/// A session starts on the relay, and no round starts before the delay has passed.
pub proof fn law_a_session_starts_after_its_delay(
    allow_direct: bool,
    probe_delay: u64,
    now: u64,
    relay: RelayStatusView,
    url: Option<Seq<char>>,
    seen: SeenView,
)
    requires
        now + probe_delay <= u64::MAX,
        relay is Up,
        !proof_holds(seen),
        seen.candidates > 0,
        seen.now + 5_000 <= u64::MAX,
    ensures
        ({
            let s = started(allow_direct, probe_delay, now, relay, url);
            let (t, order) = session_step(s, SessionEventView::Tick, seen);
            &&& s.allow_direct == allow_direct
            &&& s.relay == relay
            &&& s.report.status == PathStatus::Relayed
            &&& s.report.relay == url
            &&& s.report.since == now
            &&& s.report.cause == "QUIC handshake over relay ok"@
            &&& s.report.direct is None
            &&& s.history.len() == 2
            &&& s.history[0].status == PathStatus::Rendezvous
            &&& s.history[0].cause == "connect"@
            &&& s.history[1] == s.report
            &&& s.punch_requests == 0
            &&& order.probe <==> allow_direct && now + probe_delay <= seen.now
            &&& t.report.status == if allow_direct && now + probe_delay <= seen.now {
                PathStatus::Probing
            } else {
                PathStatus::Relayed
            }
        }),
{
}

} // verus!
