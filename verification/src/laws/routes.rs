//! What holds of the routes of an engine and of what travels on them.
use crate::bytes::{be_bytes, be_value, lemma_be_round_trip, lemma_pow256_values};
use crate::card::{card_parse, lemma_node_id_of, self_signed};
use crate::ffi::{
    canonical_authorization, canonical_path, claimed_node, enrol_refusal, enrolled_verdict,
    forgotten, graphic, is_json, lists_sessions, media_type, names_sessions, pairing_refusal,
    pairing_time, pairings, request_fault, route_frame_bytes, route_refusal, route_verdict,
    session_of, set_up, start_verdict, upsert_refusal, LinkConfig, LinkFault, LinkHttpRequest,
    LinkPairingBundle, LinkRoute, PairedSecret, RouteView, RoutesView,
};
use crate::id::NodeId;
use crate::text::{ascii_lower, trimmed};
use vstd::prelude::*;

verus! {

// ---------------------------------------------------------------------------
// First contact
// ---------------------------------------------------------------------------
/// A first contact is registered for the milliseconds that are left of it, ten minutes at
/// most; one that is over, or ends more than eleven minutes from now, is refused.
pub proof fn law_a_first_contact_lasts_what_is_left(expires_at: u64, now: u64)
    ensures
        pairing_time(expires_at, now) is Ok <==> 0 < expires_at - now <= 660,
        0 < expires_at - now <= 600 ==> pairing_time(expires_at, now)->Ok_0 == 1_000 * (expires_at
            - now),
        600 < expires_at - now <= 660 ==> pairing_time(expires_at, now)->Ok_0 == 600_000,
        expires_at <= now ==> pairing_time(expires_at, now) == Err::<u64, _>(
            LinkFault::Route("pairing bundle is expired"@),
        ),
        expires_at - now > 660 ==> pairing_time(expires_at, now) == Err::<u64, _>(
            LinkFault::Route("pairing bundle lifetime is too long"@),
        ),
{
}

/// The node that a card claims stands in its bytes from the sixth to the thirty-seventh.
pub proof fn law_a_card_claims_its_node(card: Seq<u8>, i: int)
    requires
        card.len() >= 37,
        0 <= i < 32,
    ensures
        claimed_node(card).0@.len() == 32,
        claimed_node(card).0@[i] == card[5 + i],
{
    let part = card.subrange(5, 37);
    lemma_node_id_of(claimed_node(card), part);
    assert(part[i] == card[5 + i]);
}

/// A card is accepted at a time, above a serial and from the node it claims exactly if it
/// is whole, signed, and its claims hold then.
pub open spec fn good_at(bytes: Seq<u8>, now: u64) -> bool {
    &&& card_parse(bytes) is Ok
    &&& self_signed(bytes)
    &&& ({
        let card = card_parse(bytes)->Ok_0;
        &&& card.issued_at <= now + 300
        &&& now < card.expires_at
        &&& card.issued_at < card.expires_at <= card.issued_at + 604_800
    })
}

/// A persisted route is taken exactly if it has an id and a card that was good when it was
/// accepted, whose serial is the one that was retained.
pub proof fn law_which_routes_are_taken(route: LinkRoute)
    ensures
        route_verdict(route) is Ok <==> {
            &&& route.route_id@.len() > 0
            &&& route.card@.len() >= 37
            &&& good_at(route.card@, route.card_verified_at)
            &&& card_parse(route.card@)->Ok_0.node_id == claimed_node(route.card@)
            &&& card_parse(route.card@)->Ok_0.serial == route.card_serial
            &&& route.card_serial > 0
        },
        route_verdict(route) matches Ok(card) ==> Ok::<_, crate::card::RuleViolation>(card)
            == card_parse(route.card@),
        route.route_id@.len() == 0 ==> route_verdict(route) == Err::<crate::card::CardView, _>(
            LinkFault::Route("route id must not be empty"@),
        ),
        route.route_id@.len() > 0 && route.card@.len() >= 37 && route.card_serial == 0
            ==> route_verdict(route) == Err::<crate::card::CardView, _>(
            LinkFault::Route("card serial must be positive"@),
        ),
{
}

/// A route frame is `EVR1`, the length of the card in two bytes, and the card.
pub proof fn law_the_layout_of_a_route_frame(card: Seq<u8>)
    requires
        card.len() <= 0xffff,
    ensures
        ({
            let frame = route_frame_bytes(card);
            &&& frame.len() == 6 + card.len()
            &&& frame[0] as int == 'E' as int
            &&& frame[1] as int == 'V' as int
            &&& frame[2] as int == 'R' as int
            &&& frame[3] as int == '1' as int
            &&& be_value(frame.subrange(4, 6)) == card.len()
            &&& frame.skip(6) == card
        }),
{
    lemma_pow256_values();
    lemma_be_round_trip(card.len(), 2);
    let frame = route_frame_bytes(card);
    assert(frame.subrange(4, 6) =~= be_bytes(card.len(), 2));
    assert(frame.skip(6) =~= card);
}

// ---------------------------------------------------------------------------
// Requests
// ---------------------------------------------------------------------------
/// A request passes exactly if it is a `POST` or `PUT` to a path of visible ASCII under
/// `/cadence/v1/` of at most two kibibytes, without query and fragment, with one `Nostr`
/// value of at most forty-eight kibibytes and a body of at most two hundred and fifty-six.
pub proof fn law_which_requests_pass(request: LinkHttpRequest)
    ensures
        request_fault(request) is None <==> {
            let path = request.path@;
            let value = request.authorization@;
            &&& request.method@ == "POST"@ || request.method@ == "PUT"@
            &&& 12 <= path.len() <= 2_048
            &&& path.take(12) == "/cadence/v1/"@
            &&& forall|i: int|
                0 <= i < path.len() ==> 0x20 < (#[trigger] path[i]) as int && (path[i] as int) < 0x7f
                    && path[i] as int != 0x3f && path[i] as int != 0x23
            &&& 6 < value.len() <= 49_152
            &&& value.take(6) == "Nostr "@
            &&& forall|i: int| 6 <= i < value.len() ==> in_base64(#[trigger] value[i])
            &&& request.body@.len() <= 262_144
        },
{
    reveal_strlit("/cadence/v1/");
    reveal_strlit("Nostr ");
    let path = request.path@;
    let value = request.authorization@;
    if "/cadence/v1/"@.is_prefix_of(path) {
        assert(path.take(12) =~= "/cadence/v1/"@);
    }
    if "Nostr "@.is_prefix_of(value) {
        assert(value.take(6) =~= "Nostr "@);
    }
    if path.len() >= 12 && path.take(12) == "/cadence/v1/"@ {
        assert("/cadence/v1/"@ =~= path.subrange(0, 12));
    }
    if value.len() >= 6 && value.take(6) == "Nostr "@ {
        assert("Nostr "@ =~= value.subrange(0, 6));
    }
    if request_fault(request) is None {
        assert(canonical_path(path) && canonical_authorization(value));
        assert forall|i: int| 0 <= i < path.len() implies 0x20 < (#[trigger] path[i]) as int && (
        path[i] as int) < 0x7f && path[i] as int != 0x3f && path[i] as int != 0x23 by {
            assert(graphic(path[i]));
        }
    }
}

/// A digit of base64 or the padding, by its code.
pub open spec fn in_base64(c: char) -> bool {
    let n = c as int;
    0x41 <= n < 0x5b || 0x61 <= n < 0x7b || 0x2f <= n < 0x3a || n == 0x2b || n == 0x3d
}

/// The parameters of a content type do not count, nor does white space around it, nor the
/// case of its letters.
pub proof fn law_json_in_any_dress(kind: Seq<char>, parameters: Seq<char>)
    requires
        !kind.contains(';'),
    ensures
        media_type(kind + seq![';'] + parameters) == trimmed(kind),
        media_type(kind) == trimmed(kind),
        is_json(kind + seq![';'] + parameters) <==> is_json(kind),
        is_json(kind) <==> trimmed(kind).len() == 16 && forall|i: int|
            0 <= i < 16 ==> ascii_lower(#[trigger] trimmed(kind)[i]) == "application/json"@[i],
{
    reveal_strlit("application/json");
    let whole = kind + seq![';'] + parameters;
    let at = kind.len() as int;
    assert(whole[at] == ';');
    assert(whole.contains(';'));
    whole.index_of_first_ensures(';');
    let first = whole.index_of_first(';')->0;
    if first < at {
        assert(kind[first] == ';');
    }
    assert(first == at);
    assert(whole.take(at) =~= kind);
    let lowered = trimmed(kind).map_values(|c: char| ascii_lower(c));
    assert(lowered.len() == trimmed(kind).len());
    if lowered == "application/json"@ {
        assert(lowered.len() == 16);
        assert forall|i: int| 0 <= i < 16 implies ascii_lower(#[trigger] trimmed(kind)[i])
            == "application/json"@[i] by {
            assert(lowered[i] == "application/json"@[i]);
        }
    }
    if trimmed(kind).len() == 16 && forall|i: int|
        0 <= i < 16 ==> ascii_lower(#[trigger] trimmed(kind)[i]) == "application/json"@[i] {
        assert(lowered =~= "application/json"@);
    }
}

// ---------------------------------------------------------------------------
// The routes of an engine
// ---------------------------------------------------------------------------
/// An engine starts exactly with a seed of thirty-two bytes and with routes that are each
/// taken, have secrets of thirty-two bytes and no id twice.
pub proof fn law_which_engines_start(config: LinkConfig)
    ensures
        start_verdict(config) is Ok <==> {
            let list = config.routes@;
            &&& config.transport_seed@.len() == 32
            &&& forall|i: int|
                0 <= i < list.len() ==> route_verdict(#[trigger] list[i]) is Ok
                    && list[i].paired_route_secret@.len() == 32
            &&& forall|i: int, j: int|
                0 <= i < j < list.len() ==> (#[trigger] list[i]).route_id@ != (
                #[trigger] list[j]).route_id@
        },
{
    lemma_set_up_holds(config.routes@);
}

/// An engine that starts holds every route of its set-up under its id, without a session,
/// and no other; each route is paired with its own secret, in order.
pub proof fn law_an_engine_starts_with_its_routes(config: LinkConfig, i: int, id: Seq<char>)
    requires
        start_verdict(config) is Ok,
    ensures
        ({
            let list = config.routes@;
            let started = start_verdict(config)->Ok_0;
            let routes = started.0;
            let pairs = started.1;
            &&& pairs.len() == list.len()
            &&& 0 <= i < list.len() ==> {
                let card = route_verdict(list[i])->Ok_0;
                &&& routes.contains_key(list[i].route_id@)
                &&& routes[list[i].route_id@].node == card.node_id
                &&& routes[list[i].route_id@].serial == list[i].card_serial
                &&& routes[list[i].route_id@].card == card
                &&& routes[list[i].route_id@].session is None
                &&& pairs[i] == (card.node_id, list[i].paired_route_secret@)
            }
            &&& routes.contains_key(id) ==> exists|k: int|
                0 <= k < list.len() && (#[trigger] list[k]).route_id@ == id
        }),
{
    lemma_set_up_holds(config.routes@);
    let list = config.routes@;
    if 0 <= i < list.len() {
        assert(route_verdict(list[i]) is Ok);
    }
}

proof fn lemma_set_up_holds(list: Seq<LinkRoute>)
    ensures
        set_up(list) is Ok <==> {
            &&& forall|i: int|
                0 <= i < list.len() ==> route_verdict(#[trigger] list[i]) is Ok
                    && list[i].paired_route_secret@.len() == 32
            &&& forall|i: int, j: int|
                0 <= i < j < list.len() ==> (#[trigger] list[i]).route_id@ != (
                #[trigger] list[j]).route_id@
        },
        set_up(list) matches Ok((routes, pairs)) ==> {
            &&& pairs.len() == list.len()
            &&& forall|i: int|
                0 <= i < list.len() ==> {
                    let card = route_verdict(#[trigger] list[i])->Ok_0;
                    &&& routes.contains_key(list[i].route_id@)
                    &&& routes[list[i].route_id@].node == card.node_id
                    &&& routes[list[i].route_id@].serial == list[i].card_serial
                    &&& routes[list[i].route_id@].card == card
                    &&& routes[list[i].route_id@].session is None
                    &&& pairs[i] == (card.node_id, list[i].paired_route_secret@)
                }
            &&& forall|id: Seq<char>| #[trigger]
                routes.contains_key(id) ==> exists|k: int|
                    0 <= k < list.len() && (#[trigger] list[k]).route_id@ == id
        },
    decreases list.len(),
{
    if list.len() > 0 {
        let front = list.drop_last();
        let at = list.len() - 1;
        lemma_set_up_holds(front);
        assert(forall|i: int| 0 <= i < front.len() ==> #[trigger] front[i] == list[i]);
        assert(list.last() == list[at]);
        let fine = (forall|i: int|
            0 <= i < list.len() ==> route_verdict(#[trigger] list[i]) is Ok
                && list[i].paired_route_secret@.len() == 32) && (forall|i: int, j: int|
            0 <= i < j < list.len() ==> (#[trigger] list[i]).route_id@ != (
            #[trigger] list[j]).route_id@);
        if fine {
            assert forall|i: int, j: int| 0 <= i < j < front.len() implies (
            #[trigger] front[i]).route_id@ != (#[trigger] front[j]).route_id@ by {
                assert(list[i].route_id@ != list[j].route_id@);
            }
            assert forall|i: int| 0 <= i < front.len() implies route_verdict(#[trigger] front[i]) is Ok
                && front[i].paired_route_secret@.len() == 32 by {
                assert(route_verdict(list[i]) is Ok);
            }
            assert(set_up(front) is Ok);
            let routes = set_up(front)->Ok_0.0;
            if routes.contains_key(list[at].route_id@) {
                let k = choose|k: int|
                    0 <= k < front.len() && (#[trigger] front[k]).route_id@ == list[at].route_id@;
                assert(list[k].route_id@ != list[at].route_id@);
            }
        }
        if let Ok((routes, pairs)) = set_up(list) {
            let (earlier, listed) = set_up(front)->Ok_0;
            assert forall|i: int| 0 <= i < list.len() implies {
                let card = route_verdict(#[trigger] list[i])->Ok_0;
                &&& routes.contains_key(list[i].route_id@)
                &&& routes[list[i].route_id@].node == card.node_id
                &&& routes[list[i].route_id@].serial == list[i].card_serial
                &&& routes[list[i].route_id@].card == card
                &&& routes[list[i].route_id@].session is None
                &&& pairs[i] == (card.node_id, list[i].paired_route_secret@)
            } by {
                if i < at {
                    assert(front[i] == list[i]);
                    assert(earlier.contains_key(front[i].route_id@));
                }
            }
            assert forall|id: Seq<char>| #[trigger] routes.contains_key(id) implies exists|k: int|
                0 <= k < list.len() && (#[trigger] list[k]).route_id@ == id by {
                if id == list[at].route_id@ {
                    assert(list[at].route_id@ == id);
                } else {
                    assert(earlier.contains_key(id));
                    let k = choose|k: int|
                        0 <= k < front.len() && (#[trigger] front[k]).route_id@ == id;
                    assert(list[k].route_id@ == id);
                }
            }
            assert forall|i: int, j: int| 0 <= i < j < list.len() implies (
            #[trigger] list[i]).route_id@ != (#[trigger] list[j]).route_id@ by {
                assert(front[i] == list[i]);
                if j < at {
                    assert(front[j] == list[j]);
                    assert(front[i].route_id@ != front[j].route_id@);
                } else {
                    assert(earlier.contains_key(front[i].route_id@));
                }
            }
            assert forall|i: int| 0 <= i < list.len() implies route_verdict(#[trigger] list[i]) is Ok
                && list[i].paired_route_secret@.len() == 32 by {
                if i < at {
                    assert(front[i] == list[i]);
                }
            }
        }
    }
}

/// The pairings are those of the list, each node with its secret, in order.
pub proof fn law_pairings_are_in_order(list: Seq<PairedSecret>, i: int)
    requires
        0 <= i < list.len(),
    ensures
        pairings(list).len() == list.len(),
        pairings(list)[i].0 == list[i].node,
        pairings(list)[i].1 == list[i].secret@,
{
}

/// A live update is installed exactly if the engine runs, the route would be taken and its
/// secret has thirty-two bytes, and its serial is above the one that is installed.
pub proof fn law_a_live_update_is_newer(routes: RoutesView, route: LinkRoute)
    ensures
        upsert_refusal(routes, route) is None <==> {
            &&& !routes.stopped
            &&& route_verdict(route) is Ok
            &&& route.paired_route_secret@.len() == 32
            &&& routes.routes.contains_key(route.route_id@) ==> routes.routes[route.route_id@].serial
                < route.card_serial
        },
{
}

/// A first contact starts exactly if the engine runs, there is an id that is free or bound
/// to the same node, the bundle is in time, its secret has sixteen bytes and its card is
/// good now.
pub proof fn law_which_first_contacts_start(routes: RoutesView, bundle: LinkPairingBundle, now: u64)
    ensures
        pairing_refusal(routes, bundle, now) is None <==> {
            let card = bundle.server_card@;
            &&& !routes.stopped
            &&& bundle.route_id@.len() > 0
            &&& 0 < bundle.expires_at - now <= 660
            &&& bundle.pairing_secret@.len() == 16
            &&& card.len() >= 37
            &&& good_at(card, now)
            &&& card_parse(card)->Ok_0.node_id == claimed_node(card)
            &&& card_parse(card)->Ok_0.serial > 0
            &&& routes.routes.contains_key(bundle.route_id@) ==> routes.routes[bundle.route_id@].node
                == claimed_node(card)
        },
{
}

/// The card that an enrolment answers with is taken exactly if it is good now, from the
/// server, and no older than the one that was offered.
pub proof fn law_which_enrolments_are_taken(server: NodeId, offered: u64, now: u64, bytes: Seq<u8>)
    ensures
        enrolled_verdict(server, offered, now, bytes) is Ok <==> {
            &&& good_at(bytes, now)
            &&& card_parse(bytes)->Ok_0.node_id == server
            &&& card_parse(bytes)->Ok_0.serial > 0
            &&& card_parse(bytes)->Ok_0.serial >= offered
        },
        enrolled_verdict(server, offered, now, bytes) matches Ok(card) ==> Ok::<
            _,
            crate::card::RuleViolation,
        >(card) == card_parse(bytes),
{
}

/// An enrolled route is installed exactly if the engine runs and the id is free, or bound to
/// the same node with a serial that is no higher.
pub proof fn law_which_enrolled_routes_are_installed(
    routes: RoutesView,
    id: Seq<char>,
    node: NodeId,
    serial: u64,
)
    ensures
        enrol_refusal(routes, id, node, serial) is None <==> {
            &&& !routes.stopped
            &&& routes.routes.contains_key(id) ==> routes.routes[id].node == node
                && routes.routes[id].serial <= serial
        },
        route_refusal(routes, id) is None <==> !routes.stopped && routes.routes.contains_key(id),
        session_of(routes, id) is Some ==> routes.routes.contains_key(id)
            && routes.routes[id].session == session_of(routes, id),
        routes.routes.contains_key(id) ==> session_of(routes, id) == routes.routes[id].session,
{
}

/// A stopped engine keeps its routes and none of their sessions.
pub proof fn law_stopping_drops_the_sessions(routes: Map<Seq<char>, RouteView>, id: Seq<char>)
    ensures
        forgotten(routes).contains_key(id) <==> routes.contains_key(id),
        routes.contains_key(id) ==> {
            &&& forgotten(routes)[id].session is None
            &&& forgotten(routes)[id].node == routes[id].node
            &&& forgotten(routes)[id].serial == routes[id].serial
            &&& forgotten(routes)[id].card == routes[id].card
        },
{
}

/// The sessions that are listed are those of the routes: each session of a route is among
/// them, and each of them is of a route.
pub proof fn law_sessions_are_listed(
    sessions: Seq<u64>,
    routes: Map<Seq<char>, RouteView>,
    id: Seq<char>,
    i: int,
)
    requires
        lists_sessions(sessions, routes),
    ensures
        routes.contains_key(id) && routes[id].session is Some ==> sessions.contains(
            routes[id].session->0,
        ),
        0 <= i < sessions.len() ==> exists|at: Seq<char>|
            routes.contains_key(at) && (#[trigger] routes[at]).session == Some(sessions[i]),
{
    let ids = choose|ids: Seq<Seq<char>>| names_sessions(ids, sessions, routes);
    if routes.contains_key(id) && routes[id].session is Some {
        assert(ids.contains(id));
        let k = choose|k: int| 0 <= k < ids.len() && ids[k] == id;
        assert(routes[ids[k]].session == Some(sessions[k]));
        assert(sessions[k] == routes[id].session->0);
    }
    if 0 <= i < sessions.len() {
        assert(routes.contains_key(ids[i]));
        assert(routes[ids[i]].session == Some(sessions[i]));
    }
}

} // verus!
