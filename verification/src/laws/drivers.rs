//! Relay addresses, drivers, queues and pumps.
use crate::id::NodeId;
use crate::relay_client::{
    current_host, driver_after, driver_choice, driver_order, driver_sound, identity_step,
    not_waiting, pool_after, pool_sound, registers, relay_host, relay_url, tag_step, up_url, waiting,
    DriverChoice, DriverEventView, DriverView, PoolView, PumpEnd, PumpStep, RelayStatusView,
    RelayUrlError,
};
use crate::rendezvous::Tag;
use crate::rendezvous_book::{entry_count, epoch_window, owns_tag, BookView};
use crate::table::{has_key, keys_distinct, place};
use crate::text::{all_digits, decimal_text, decimal_value, unicode_lowercase};
use crate::wire::Frame;
use vstd::prelude::*;
use vstd::seq_lib::*;
use vstd::string::*;

verus! {

// ---------------------------------------------------------------------------
// The driver
// ---------------------------------------------------------------------------
/// Whether an event is the failure of an attempt or the loss of a session, after which
/// the driver goes on.
pub open spec fn fails(d: DriverView, event: DriverEventView) -> bool {
    match event {
        DriverEventView::Refused => true,
        DriverEventView::Ended(PumpEnd::Lost) => true,
        DriverEventView::Ended(PumpEnd::Superseded) => d.tag_mode,
        _ => false,
    }
}

/// The driver after a run of events.
pub open spec fn driver_run(d: DriverView, events: Seq<(DriverEventView, u64)>) -> DriverView
    decreases events.len(),
{
    if events.len() == 0 {
        d
    } else {
        let before = driver_run(d, events.drop_last());
        driver_after(before, events.last().0, events.last().1)
    }
}

/// A failure moves on to the next relay of the list, and after the last comes the first;
/// anything else stays with the relay.
pub proof fn law_a_failure_moves_on(d: DriverView, event: DriverEventView, now: u64)
    requires
        driver_sound(d),
    ensures
        ({
            let after = driver_after(d, event, now);
            &&& fails(d, event) ==> after.next == (d.next + 1) as int % d.relays as int
            &&& !fails(d, event) ==> after.next == d.next
            &&& after.relays == d.relays
            &&& after.tag_mode == d.tag_mode
            &&& 0 <= after.next < after.relays
        }),
{
    if d.next + 1 < d.relays {
        vstd::arithmetic::div_mod::lemma_small_mod((d.next + 1) as nat, d.relays);
    } else {
        vstd::arithmetic::div_mod::lemma_mod_self_0(d.relays as int);
    }
}

/// After any number of failures in a row the driver is that many relays further, round
/// and round the list.
pub proof fn law_failures_walk_the_list(d: DriverView, events: Seq<(DriverEventView, u64)>)
    requires
        driver_sound(d),
        forall|i: int| 0 <= i < events.len() ==> fails(d, (#[trigger] events[i]).0),
    ensures
        ({
            let after = driver_run(d, events);
            &&& after.next == (d.next + events.len()) as int % d.relays as int
            &&& after.relays == d.relays
            &&& after.tag_mode == d.tag_mode
            &&& driver_sound(after)
        }),
    decreases events.len(),
{
    if events.len() == 0 {
        vstd::arithmetic::div_mod::lemma_small_mod(d.next, d.relays);
    } else {
        let front = events.drop_last();
        assert forall|i: int| 0 <= i < front.len() implies fails(d, (#[trigger] front[i]).0) by {
            assert(front[i] == events[i]);
        }
        law_failures_walk_the_list(d, front);
        let before = driver_run(d, front);
        let (event, now) = events.last();
        assert(events[events.len() - 1] == events.last());
        law_a_failure_moves_on(before, event, now);
        crate::relay_client::law_driver_waits_are_bounded(before, event, now);
        vstd::arithmetic::div_mod::lemma_add_mod_noop_right(
            1,
            (d.next + front.len()) as int,
            d.relays as int,
        );
        let m = d.relays as int;
        let there = (d.next + front.len()) as int;
        assert((1 + there) % m == (1 + there % m) % m);
    }
}

/// As many failures as there are relays come back to where they began, and every relay
/// of the list is tried on the way.
pub proof fn law_every_relay_is_tried(
    d: DriverView,
    events: Seq<(DriverEventView, u64)>,
    relay: nat,
)
    requires
        driver_sound(d),
        relay < d.relays,
        events.len() == d.relays,
        forall|i: int| 0 <= i < events.len() ==> fails(d, (#[trigger] events[i]).0),
    ensures
        driver_run(d, events).next == d.next,
        exists|k: int|
            0 <= k < d.relays && #[trigger] driver_run(d, events.take(k)).next == relay,
{
    law_failures_walk_the_list(d, events);
    vstd::arithmetic::div_mod::lemma_mod_add_multiples_vanish(d.next as int, d.relays as int);
    vstd::arithmetic::div_mod::lemma_small_mod(d.next, d.relays);
    let k: int = if relay >= d.next {
        relay - d.next
    } else {
        relay + d.relays - d.next
    };
    let part = events.take(k);
    assert forall|i: int| 0 <= i < part.len() implies fails(d, (#[trigger] part[i]).0) by {
        assert(part[i] == events[i]);
    }
    law_failures_walk_the_list(d, part);
    vstd::arithmetic::div_mod::lemma_small_mod(relay, d.relays);
    if relay < d.next {
        vstd::arithmetic::div_mod::lemma_mod_add_multiples_vanish(relay as int, d.relays as int);
    }
    assert(driver_run(d, events.take(k)).next == relay);
}

/// A refused attempt waits as long as the driver is told to, and twice as long the next
/// time, up to thirty seconds; a welcome starts again at one second.
pub proof fn law_the_wait_doubles(d: DriverView, now: u64, url: Seq<char>)
    requires
        driver_sound(d),
    ensures
        driver_order(d, DriverEventView::Refused, now).sleep == d.backoff,
        driver_after(d, DriverEventView::Refused, now).backoff == if 2 * d.backoff < 30_000 {
            2 * d.backoff
        } else {
            30_000
        },
        driver_after(d, DriverEventView::Welcomed(url), now).backoff == 1_000,
        driver_order(d, DriverEventView::Welcomed(url), now).sleep == 0,
        1_000 <= d.backoff <= 30_000,
{
}

/// An outage begins with the first failure and lasts until a pair is missing or a
/// session was up; a refused attempt later than sixty seconds after its begin fails the
/// sessions, an earlier one leaves them reconnecting.
pub proof fn law_an_outage_is_timed_from_its_begin(d: DriverView, now: u64)
    requires
        driver_sound(d),
    ensures
        ({
            let after = driver_after(d, DriverEventView::Refused, now);
            let order = driver_order(d, DriverEventView::Refused, now);
            &&& d.down_since is None ==> after.down_since == Some(now)
                && after.status is Reconnecting
            &&& d.down_since matches Some(since) ==> after.down_since == Some(since)
                && after.status == (if now > since + 60_000 {
                RelayStatusView::Failed
            } else {
                RelayStatusView::Reconnecting
            })
            &&& order.wake <==> after.status is Failed
            &&& !order.stop
            &&& !order.drain
            &&& order.publish <==> after.status != d.status
        }),
{
}

/// A lost session is an outage that begins now; the next attempt is made at once, unless
/// in tag mode somebody took the place, which is given thirty seconds.
pub proof fn law_a_lost_session_is_an_outage(d: DriverView, end: PumpEnd, now: u64)
    requires
        fails(d, DriverEventView::Ended(end)),
    ensures
        ({
            let after = driver_after(d, DriverEventView::Ended(end), now);
            let order = driver_order(d, DriverEventView::Ended(end), now);
            &&& after.down_since == Some(now)
            &&& after.status is Reconnecting
            &&& after.backoff == d.backoff
            &&& order.wake
            &&& !order.stop
            &&& !order.drain
            &&& order.sleep == if end == PumpEnd::Superseded {
                30_000int
            } else {
                0int
            }
            &&& order.publish <==> !(d.status is Reconnecting)
        }),
{
}

/// A welcome puts the driver up at that relay, drops what was queued for another, and
/// wakes everyone who waits.
pub proof fn law_a_welcome_is_up(d: DriverView, url: Seq<char>, now: u64)
    ensures
        ({
            let after = driver_after(d, DriverEventView::Welcomed(url), now);
            let order = driver_order(d, DriverEventView::Welcomed(url), now);
            &&& after.status == RelayStatusView::Up(url)
            &&& after.next == d.next
            &&& order.drain
            &&& order.wake
            &&& !order.stop
            &&& order.publish <==> d.status != RelayStatusView::Up(url)
            &&& up_url(after.status) == Some(url)
        }),
{
}

/// A driver without a pair to register is idle and no outage: it looks again in a
/// second.
pub proof fn law_a_peerless_driver_is_idle(d: DriverView, now: u64)
    ensures
        ({
            let after = driver_after(d, DriverEventView::Peerless, now);
            let order = driver_order(d, DriverEventView::Peerless, now);
            &&& after.status is Connecting
            &&& after.down_since is None
            &&& after.next == d.next
            &&& after.backoff == d.backoff
            &&& order.sleep == 1_000
            &&& !order.stop
            &&& !order.wake
            &&& !order.drain
        }),
{
}

/// In identity mode a driver whose slot a newer process took stops, and says so.
pub proof fn law_a_superseded_identity_stops(d: DriverView, now: u64)
    requires
        !d.tag_mode,
    ensures
        ({
            let event = DriverEventView::Ended(PumpEnd::Superseded);
            &&& driver_after(d, event, now).status is Superseded
            &&& driver_order(d, event, now).stop
            &&& driver_order(d, event, now).wake
        }),
{
}

// ---------------------------------------------------------------------------
// The pool
// ---------------------------------------------------------------------------
/// The home driver serves the empty list, its own list, and every list once the pool is
/// closed; up to sixteen other lists get a driver of their own, each a different one.
pub proof fn law_lists_have_their_own_drivers(
    pool: PoolView,
    urls: Seq<Seq<char>>,
    other: Seq<Seq<char>>,
)
    requires
        pool_sound(pool),
        urls != other,
    ensures
        urls.len() == 0 || urls == pool.home || pool.stopped ==> driver_choice(pool, urls) is Home,
        urls.len() > 0 && urls != pool.home && !pool.stopped ==> {
            let choice = driver_choice(pool, urls);
            let known = exists|i: int|
                0 <= i < pool.extra.len() && (#[trigger] pool.extra[i]).0 == urls;
            &&& known ==> choice is Running
            &&& !known && pool.extra.len() < 16 ==> choice is Start
            &&& !known && pool.extra.len() >= 16 ==> choice is Home
        },
        ({
            let after = pool_after(pool, urls);
            &&& after.home == pool.home
            &&& after.stopped == pool.stopped
            &&& driver_choice(pool, urls) is Start ==> after.extra.len() == pool.extra.len() + 1
                && after.extra.last().0 == urls
            &&& !(driver_choice(pool, urls) is Start) ==> after == pool
            &&& match (driver_choice(pool, urls), driver_choice(after, other)) {
                (DriverChoice::Start(a), DriverChoice::Start(b)) => a != b,
                (DriverChoice::Start(a), DriverChoice::Running(b)) => a != b,
                (DriverChoice::Running(a), DriverChoice::Start(b)) => a != b,
                (DriverChoice::Running(a), DriverChoice::Running(b)) => a != b,
                _ => true,
            }
            &&& driver_choice(pool, urls) matches DriverChoice::Start(id) ==> id > 0
            &&& driver_choice(pool, urls) matches DriverChoice::Running(id) ==> id > 0
        }),
{
    let after = pool_after(pool, urls);
    if has_key(pool.extra, urls) {
        let i = place(pool.extra, urls);
        assert(pool.extra[i].0 == urls);
    }
    if has_key(after.extra, other) {
        let j = place(after.extra, other);
        assert(after.extra[j].0 == other);
        if j < pool.extra.len() {
            assert(pool.extra[j] == after.extra[j]);
        }
    }
}

// ---------------------------------------------------------------------------
// Waiters
// ---------------------------------------------------------------------------
/// Who registers waits, once, with the waker given last; the others wait as before and
/// in their order.
pub proof fn law_a_registered_waiter_waits<W>(list: Seq<(u64, W)>, id: u64, waker: W, i: int)
    requires
        keys_distinct(list),
        0 <= i < list.len(),
    ensures
        ({
            let after = waiting(list, id, waker);
            &&& list[i].0 != id ==> after[i] == list[i]
            &&& list[i].0 == id ==> after[i] == (id, waker) && after.len() == list.len()
            &&& (forall|k: int| 0 <= k < list.len() ==> (#[trigger] list[k]).0 != id)
                ==> after.len() == list.len() + 1 && after.last() == (id, waker)
        }),
        waiting(Seq::empty(), id, waker) == seq![(id, waker)],
{
    assert(waiting(Seq::empty(), id, waker) =~= seq![(id, waker)]);
    if has_key(list, id) {
        let at = place(list, id);
        assert(list[at].0 == id);
    }
    if list[i].0 == id {
        assert(has_key(list, id));
    }
}

/// Who unregisters waits no more; the others wait as before and in their order.
pub proof fn law_an_unregistered_waiter_is_gone<W>(list: Seq<(u64, W)>, id: u64, at: int)
    requires
        keys_distinct(list),
    ensures
        0 <= at < list.len() && list[at].0 == id ==> not_waiting(list, id) == list.remove(at),
        (forall|k: int| 0 <= k < list.len() ==> (#[trigger] list[k]).0 != id) ==> not_waiting(
            list,
            id,
        ) == list,
{
    if has_key(list, id) {
        let there = place(list, id);
        assert(list[there].0 == id);
    }
    if 0 <= at < list.len() && list[at].0 == id {
        assert(has_key(list, id));
    }
}

// ---------------------------------------------------------------------------
// The pump
// ---------------------------------------------------------------------------
/// In identity mode a delivery is handed on with its source and its bytes, a pong is
/// nothing, and everything else ends the session: reason two because a newer session
/// took the slot, any other reason because it was lost.
pub proof fn law_identity_mode_delivers(frame: Frame, driver: u64, step: PumpStep)
    requires
        identity_step(frame, driver, step),
    ensures
        match frame {
            Frame::Recv { source, datagram } => step matches PumpStep::Deliver(inbound)
                && inbound.source == source && inbound.datagram@ == datagram@ && inbound.driver
                == driver,
            Frame::Pong(_) => step is Ignore,
            Frame::Close(reason) => step == PumpStep::End(
                if reason == 2 {
                    PumpEnd::Superseded
                } else {
                    PumpEnd::Lost
                },
            ),
            _ => step == PumpStep::End(PumpEnd::Lost),
        },
{
}

/// In tag mode a delivery is handed on under an owner of its tag with its bytes, or
/// dropped if it has none; an identity delivery ends the session.
pub proof fn law_tag_mode_delivers_to_the_owner(
    frame: Frame,
    driver: u64,
    book: BookView,
    host: Seq<u8>,
    now: u64,
    step: PumpStep,
    owner: NodeId,
)
    requires
        tag_step(frame, driver, book, host, now, step),
    ensures
        match frame {
            Frame::RecvTag { tag, datagram } => {
                &&& owns_tag(book, owner, tag, host, now) ==> step is Deliver
                &&& step matches PumpStep::Deliver(inbound) ==> owns_tag(
                    book,
                    inbound.source,
                    tag,
                    host,
                    now,
                ) && inbound.datagram@ == datagram@ && inbound.driver == driver
                &&& !(step is End)
                &&& (forall|other: NodeId|
                    other != owner ==> !owns_tag(book, other, tag, host, now)) && owns_tag(
                    book,
                    owner,
                    tag,
                    host,
                    now,
                ) ==> step->Deliver_0.source == owner
            },
            Frame::Pong(_) => step is Ignore,
            Frame::Close(reason) => step == PumpStep::End(
                if reason == 2 {
                    PumpEnd::Superseded
                } else {
                    PumpEnd::Lost
                },
            ),
            _ => step == PumpStep::End(PumpEnd::Lost),
        },
{
}

// ---------------------------------------------------------------------------
// Relay addresses
// ---------------------------------------------------------------------------
/// A number reads back from its decimal digits, which are digits and at least one.
pub proof fn law_decimal_round_trip(n: nat)
    ensures
        decimal_value(decimal_text(n)) == n,
        all_digits(decimal_text(n)),
        decimal_text(n).len() >= 1,
    decreases n,
{
    let text = decimal_text(n);
    if n < 10 {
        assert(text =~= seq![(0x30 + n) as char]);
        assert(text.drop_last() =~= Seq::<char>::empty());
        assert(decimal_value(text.drop_last()) == 0);
        assert(text.last() as int == 0x30 + n);
    } else {
        law_decimal_round_trip(n / 10);
        let front = decimal_text(n / 10);
        let digit = (0x30 + n % 10) as char;
        assert(text.drop_last() =~= front);
        assert(text.last() == digit);
        assert(digit as int == 0x30 + n % 10);
        assert forall|k: int| 0 <= k < text.len() implies '0' <= #[trigger] text[k] <= '9' by {
            if k < front.len() {
                assert(text[k] == front[k]);
            }
        }
    }
}

proof fn lemma_first_place(front: Seq<char>, back: Seq<char>, c: char)
    requires
        !front.contains(c),
        back.len() > 0,
        back[0] == c,
    ensures
        (front + back).index_of_first(c) == Some(front.len() as int),
{
    let all = front + back;
    assert(all[front.len() as int] == c);
    assert(all.contains(c));
    all.index_of_first_ensures(c);
    let at = all.index_of_first(c)->0;
    if at < front.len() {
        assert(front[at] == c);
    } else if at > front.len() {
        assert(all.take(at)[front.len() as int] == c);
        assert(all.take(at).contains(c));
    }
}

proof fn lemma_last_place(front: Seq<char>, back: Seq<char>, c: char)
    requires
        back.len() > 0,
        back[0] == c,
        !back.skip(1).contains(c),
    ensures
        (front + back).index_of_last(c) == Some(front.len() as int),
{
    let all = front + back;
    assert(all[front.len() as int] == c);
    assert(all.contains(c));
    all.index_of_last_ensures(c);
    let at = all.index_of_last(c)->0;
    if at > front.len() {
        assert(back.skip(1)[at - front.len() - 1] == c);
    } else if at < front.len() {
        assert(all.skip(at + 1)[front.len() - at - 1] == c);
        assert(all.skip(at + 1).contains(c));
    }
}

/// A relay address reads back: the scheme tells TLS, and host, port and path come out as
/// they went in.
pub proof fn law_a_relay_address_reads_back(
    tls: bool,
    host: Seq<char>,
    port: u16,
    path: Seq<char>,
)
    requires
        host.len() > 0,
        !host.contains('/'),
        path.len() > 0,
        path[0] == '/',
    ensures
        ({
            let url = (if tls {
                "wss://"@
            } else {
                "ws://"@
            }) + (host + (seq![':'] + decimal_text(port as nat)) + path);
            relay_url(url) matches Ok(parts) && parts.tls == tls && parts.host == host
                && parts.port == port && parts.path == path
        }),
{
    reveal_strlit("wss://");
    reveal_strlit("ws://");
    let digits = decimal_text(port as nat);
    law_decimal_round_trip(port as nat);
    let tail = seq![':'] + digits;
    let authority = host + tail;
    let rest = authority + path;
    let scheme = if tls {
        "wss://"@
    } else {
        "ws://"@
    };
    let url = scheme + rest;
    assert forall|k: int| 0 <= k < authority.len() implies authority[k] != '/' by {
        if k < host.len() {
            assert(host[k] == authority[k]);
        } else if k > host.len() {
            assert(digits[k - host.len() - 1] == authority[k]);
        }
    }
    assert(!authority.contains('/'));
    lemma_first_place(authority, path, '/');
    assert(rest.take(authority.len() as int) =~= authority);
    assert(rest.skip(authority.len() as int) =~= path);
    assert(tail.skip(1) =~= digits);
    assert(!digits.contains(':')) by {
        if digits.contains(':') {
            let k = choose|k: int| 0 <= k < digits.len() && digits[k] == ':';
            assert('0' <= digits[k] <= '9');
        }
    }
    lemma_last_place(host, tail, ':');
    assert(authority.skip((host.len() + 1) as int) =~= digits);
    assert(authority.take(host.len() as int) =~= host);
    assert(url.skip(scheme.len() as int) =~= rest);
    assert(scheme =~= url.take(scheme.len() as int));
    if !tls {
        assert(url[2] == ':');
        assert(!("wss://"@.is_prefix_of(url)));
    }
}

/// An address without a port has the port of its scheme, one without a path the root;
/// an address of another scheme has no parts.
pub proof fn law_a_bare_relay_address_has_defaults(tls: bool, host: Seq<char>, url: Seq<char>)
    requires
        !host.contains('/'),
        !host.contains(':'),
    ensures
        ({
            let bare = (if tls {
                "wss://"@
            } else {
                "ws://"@
            }) + host;
            relay_url(bare) matches Ok(parts) && parts.tls == tls && parts.host == host
                && parts.port == (if tls {
                443u16
            } else {
                80u16
            }) && parts.path == seq!['/']
        }),
        !("wss://"@.is_prefix_of(url)) && !("ws://"@.is_prefix_of(url)) ==> relay_url(url) == Err::<
            crate::relay_client::RelayUrl,
            _,
        >(RelayUrlError::Scheme),
        relay_host(url) is Some <==> relay_url(url) is Ok,
        relay_url(url) matches Ok(parts) ==> relay_host(url) == Some(
            unicode_lowercase(parts.host),
        ),
        current_host(RelayStatusView::Up(url)) == relay_host(url),
{
    reveal_strlit("wss://");
    reveal_strlit("ws://");
    let scheme = if tls {
        "wss://"@
    } else {
        "ws://"@
    };
    let bare = scheme + host;
    host.index_of_first_ensures('/');
    host.index_of_last_ensures(':');
    assert(bare.skip(scheme.len() as int) =~= host);
    assert(scheme =~= bare.take(scheme.len() as int));
    if !tls {
        assert(bare[2] == ':');
        assert(!("wss://"@.is_prefix_of(bare)));
    }
}

/// A port above sixteen bits is refused.
pub proof fn law_a_port_has_sixteen_bits(tls: bool, host: Seq<char>, port: nat)
    requires
        host.len() > 0,
        !host.contains('/'),
        port > 0xffff,
    ensures
        relay_url(
            (if tls {
                "wss://"@
            } else {
                "ws://"@
            }) + (host + (seq![':'] + decimal_text(port))),
        ) == Err::<crate::relay_client::RelayUrl, _>(RelayUrlError::Port),
{
    reveal_strlit("wss://");
    reveal_strlit("ws://");
    let digits = decimal_text(port);
    law_decimal_round_trip(port);
    let tail = seq![':'] + digits;
    let rest = host + tail;
    let scheme = if tls {
        "wss://"@
    } else {
        "ws://"@
    };
    let url = scheme + rest;
    assert forall|k: int| 0 <= k < rest.len() implies rest[k] != '/' by {
        if k < host.len() {
            assert(host[k] == rest[k]);
        } else if k > host.len() {
            assert(digits[k - host.len() - 1] == rest[k]);
        }
    }
    assert(!rest.contains('/'));
    rest.index_of_first_ensures('/');
    assert(tail.skip(1) =~= digits);
    assert(!digits.contains(':')) by {
        if digits.contains(':') {
            let k = choose|k: int| 0 <= k < digits.len() && digits[k] == ':';
            assert('0' <= digits[k] <= '9');
        }
    }
    lemma_last_place(host, tail, ':');
    assert(rest.skip((host.len() + 1) as int) =~= digits);
    assert(url.skip(scheme.len() as int) =~= rest);
    assert(scheme =~= url.take(scheme.len() as int));
    if !tls {
        assert(url[2] == ':');
        assert(!("wss://"@.is_prefix_of(url)));
    }
}

/// The URL that a relay gives out is dialled as the relay listens: with TLS exactly if it
/// has a certificate, at the host it was asked for, at its port, under `/link`.
pub proof fn law_a_relay_is_dialled_where_it_listens(tls: bool, host: Seq<char>, port: u16)
    requires
        host.len() > 0,
        !host.contains('/'),
    ensures
        relay_url(crate::relay::relay_url(tls, host, port)) matches Ok(parts) && parts.tls == tls
            && parts.host == host && parts.port == port && parts.path == "/link"@,
{
    reveal_strlit("wss://");
    reveal_strlit("ws://");
    reveal_strlit("wss");
    reveal_strlit("ws");
    reveal_strlit("://");
    reveal_strlit(":");
    reveal_strlit("/link");
    law_a_relay_address_reads_back(tls, host, port, "/link"@);
    let digits = decimal_text(port as nat);
    let scheme = if tls {
        "wss://"@
    } else {
        "ws://"@
    };
    let name = if tls {
        "wss"@
    } else {
        "ws"@
    };
    assert(name + "://"@ =~= scheme);
    assert(":"@ =~= seq![':']);
    assert(crate::relay::relay_url(tls, host, port) =~= scheme + (host + (seq![':'] + digits)
        + "/link"@));
}

/// A registration names every tag of every entry, three hours of them after the first hour
/// of time, and no tag that nobody in the book owns.
pub proof fn law_a_registration_names_the_tags_that_are_owned(
    frame: Frame,
    book: BookView,
    host: Seq<u8>,
    now: u64,
    tag: Tag,
    node: NodeId,
)
    requires
        registers(frame, book, host, now),
    ensures
        frame matches Frame::Register { tags } && {
            &&& now >= 3600 ==> tags@.len() == 3 * (book.peers.dom().len() + book.pairing.dom().len()
                + book.live.dom().len())
            &&& owns_tag(book, node, tag, host, now) ==> tags@.contains(tag)
            &&& (forall|n: NodeId| !owns_tag(book, n, tag, host, now)) ==> !tags@.contains(tag)
        },
{
    if now >= 3600 {
        let current = now / 3600;
        assert(current > 0);
        assert(epoch_window(now).len() == 3);
        assert(entry_count(book) * 3 == 3 * entry_count(book));
    }
}

} // verus!
