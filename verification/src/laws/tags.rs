//! Rendezvous tags and the book they come from.
use crate::bytes::{be_bytes, be_value, lemma_be_round_trip, lemma_pow256_values};
use crate::crypto::hkdf_sha256;
use crate::id::NodeId;
use crate::relay_client::{relay_host, tag_sent, RelayStatusView};
use crate::rendezvous::{
    case_byte, compressed_form, ecdh_value, pair_ikm, pairing_ikm, tag_bytes, tag_info, Tag,
    TagCase, RENDEZVOUS_SALT,
};
use crate::rendezvous_book::{
    bumped, caching, entry_count, epoch_window, facing, holds_ikm, numbered, numbered_taken,
    owns_tag, pair_owns, pairs_of, peer_ikm, pruned, registered, route_ended, route_taken, send_ikm,
    tag_within, BookView, PairingView, RendezvousPeer, SendKey,
};
use crate::wire::Frame;
use vstd::prelude::*;
use vstd::utf8::encode_utf8;

verus! {

/// The keying material of a pair is one byte for its case, the shared secret of the two
/// keys and that of the ephemerals; that of a first contact is the byte three and its
/// secret; and a tag mixes in the relay's host and the epoch.
pub proof fn law_what_a_tag_is_made_of(
    case: TagCase,
    static_x: Seq<u8>,
    eph_x: Seq<u8>,
    secret: Seq<u8>,
    host: Seq<u8>,
    epoch: u64,
)
    requires
        static_x.len() == 32,
        eph_x.len() == 32,
    ensures
        pair_ikm(case, static_x, eph_x).len() == 65,
        pair_ikm(case, static_x, eph_x)[0] == match case {
            TagCase::Neither => 0u8,
            TagCase::One => 1u8,
            TagCase::Both => 2u8,
        },
        case_byte(case) == pair_ikm(case, static_x, eph_x)[0],
        pair_ikm(case, static_x, eph_x).subrange(1, 33) == static_x,
        pair_ikm(case, static_x, eph_x).subrange(33, 65) == eph_x,
        pairing_ikm(secret).len() == 1 + secret.len(),
        pairing_ikm(secret)[0] == 3,
        pairing_ikm(secret).skip(1) == secret,
        tag_info(host, epoch).len() == host.len() + 9,
        tag_info(host, epoch).take(host.len() as int) == host,
        tag_info(host, epoch)[host.len() as int] == 0,
        be_value(tag_info(host, epoch).skip((host.len() + 1) as int)) == epoch,
        tag_bytes(secret, host, epoch) == hkdf_sha256(
            RENDEZVOUS_SALT@,
            secret,
            tag_info(host, epoch),
            16,
        ),
{
    lemma_pow256_values();
    lemma_be_round_trip(epoch as nat, 8);
    let a = pair_ikm(case, static_x, eph_x);
    assert(a.subrange(1, 33) =~= static_x);
    assert(a.subrange(33, 65) =~= eph_x);
    assert(pairing_ikm(secret).skip(1) =~= secret);
    let info = tag_info(host, epoch);
    assert(info.take(host.len() as int) =~= host);
    assert(info.skip((host.len() + 1) as int) =~= crate::bytes::be_bytes(epoch as nat, 8));
}

/// Only the canonical spelling of a point has a shared secret.
pub proof fn law_a_point_has_one_spelling(scalar: Seq<u8>, point: Seq<u8>)
    ensures
        compressed_form(point) <==> point.len() == 33 && (point[0] == 2 || point[0] == 3),
        !(point.len() == 33 && (point[0] == 2 || point[0] == 3)) ==> ecdh_value(scalar, point)
            is None,
        point.len() == 33 && (point[0] == 2 || point[0] == 3) ==> ecdh_value(scalar, point)
            == crate::crypto::secp256k1_ecdh(scalar, point),
{
}

/// Tags are registered and resolved for the hour before, this hour and the next, and for
/// no other, in that order.
pub proof fn law_the_window_is_three_hours(now: u64, epoch: u64)
    ensures
        epoch_window(now).contains(epoch) <==> epoch <= now / 3600 + 1 && now / 3600 <= epoch + 1,
        epoch_window(now).len() == if now < 3600 {
            2nat
        } else {
            3nat
        },
        forall|i: int, j: int|
            0 <= i < j < epoch_window(now).len() ==> epoch_window(now)[i] < epoch_window(now)[j],
{
    let w = epoch_window(now);
    let current = now / 3600;
    if epoch <= current + 1 && current <= epoch + 1 {
        let i: int = if current == 0 {
            epoch as int
        } else {
            epoch - current + 1
        };
        assert(w[i] == epoch);
    }
}

/// A pair's tag belongs to the pair, within an epoch, and so does a first contact's; what
/// nobody holds the material of belongs to nobody.
pub proof fn law_material_owns_its_tags(
    book: BookView,
    node: NodeId,
    tag: Tag,
    host: Seq<u8>,
    epoch: u64,
    now: u64,
)
    requires
        epoch <= now / 3600 + 1,
        now / 3600 <= epoch + 1,
    ensures
        book.peers.contains_key(node) && tag.0@ == tag_bytes(
            pair_ikm(
                book.peers[node].case,
                book.peers[node].static_x@,
                book.peers[node].eph_x@,
            ),
            host,
            epoch,
        ) ==> owns_tag(book, node, tag, host, now) && pair_owns(book, node, tag, host, now),
        book.pairing.contains_key(node) && tag.0@ == tag_bytes(
            pairing_ikm(book.pairing[node].secret),
            host,
            epoch,
        ) ==> owns_tag(book, node, tag, host, now),
        book.live.contains_key(node) && tag.0@ == tag_bytes(
            pairing_ikm(book.live[node].secret),
            host,
            epoch,
        ) ==> owns_tag(book, node, tag, host, now),
        !book.peers.contains_key(node) && !book.pairing.contains_key(node)
            && !book.live.contains_key(node) ==> !owns_tag(book, node, tag, host, now),
        !book.peers.contains_key(node) ==> !pair_owns(book, node, tag, host, now),
{
    law_the_window_is_three_hours(now, epoch);
    let w = epoch_window(now);
    let i = choose|i: int| 0 <= i < w.len() && w[i] == epoch;
    assert(w[i] == epoch);
    assert forall|ikm: Seq<u8>| tag.0@ == tag_bytes(ikm, host, epoch) implies #[trigger] tag_within(
        ikm,
        tag,
        host,
        now,
    ) by {
        assert(tag.0@ == tag_bytes(ikm, host, w[i]));
    }
    if book.peers.contains_key(node) {
        assert(holds_ikm(book, node, peer_ikm(book.peers[node])));
    }
    if book.pairing.contains_key(node) {
        assert(holds_ikm(book, node, pairing_ikm(book.pairing[node].secret)));
    }
    if book.live.contains_key(node) {
        assert(holds_ikm(book, node, pairing_ikm(book.live[node].secret)));
    }
}

/// A tag belongs to a node only through material that the book holds for it, in an epoch
/// of the window.
pub proof fn law_a_tag_comes_of_held_material(
    book: BookView,
    node: NodeId,
    tag: Tag,
    host: Seq<u8>,
    now: u64,
)
    requires
        owns_tag(book, node, tag, host, now),
    ensures
        exists|epoch: u64|
            epoch <= now / 3600 + 1 && now / 3600 <= epoch + 1 && {
                ||| book.peers.contains_key(node) && tag.0@ == #[trigger] tag_bytes(
                    peer_ikm(book.peers[node]),
                    host,
                    epoch,
                )
                ||| book.pairing.contains_key(node) && tag.0@ == tag_bytes(
                    pairing_ikm(book.pairing[node].secret),
                    host,
                    epoch,
                )
                ||| book.live.contains_key(node) && tag.0@ == tag_bytes(
                    pairing_ikm(book.live[node].secret),
                    host,
                    epoch,
                )
            },
{
    let ikm = choose|ikm: Seq<u8>|
        #[trigger] holds_ikm(book, node, ikm) && tag_within(ikm, tag, host, now);
    let w = epoch_window(now);
    let i = choose|i: int| 0 <= i < w.len() && tag.0@ == tag_bytes(ikm, host, #[trigger] w[i]);
    assert(w.contains(w[i]));
    law_the_window_is_three_hours(now, w[i]);
    let epoch = w[i];
    let first = tag_bytes(peer_ikm(book.peers[node]), host, epoch);
    assert(tag.0@ == tag_bytes(ikm, host, epoch));
}

/// What is sent to a node is tagged by its live session if it has one, else by its
/// admission, else by its pair; a node of which nothing is held gets nothing.
pub proof fn law_what_a_datagram_is_tagged_with(book: BookView, node: NodeId)
    ensures
        book.live.contains_key(node) ==> send_ikm(book, node) == Some(
            pairing_ikm(book.live[node].secret),
        ),
        !book.live.contains_key(node) && book.pairing.contains_key(node) ==> send_ikm(book, node)
            == Some(pairing_ikm(book.pairing[node].secret)),
        !book.live.contains_key(node) && !book.pairing.contains_key(node)
            && book.peers.contains_key(node) ==> send_ikm(book, node) == Some(
            pair_ikm(
                book.peers[node].case,
                book.peers[node].static_x@,
                book.peers[node].eph_x@,
            ),
        ),
        !book.live.contains_key(node) && !book.pairing.contains_key(node)
            && !book.peers.contains_key(node) ==> send_ikm(book, node) is None,
        route_taken(book, node) <==> send_ikm(book, node) is Some,
{
}

/// Two ends that hold the same material meet: what one sends to the other under a tag,
/// the other attributes to the one, as long as their clocks are within an epoch.
pub proof fn law_two_ends_meet(
    here: BookView,
    there: BookView,
    a: NodeId,
    b: NodeId,
    material: RendezvousPeer,
    host: Seq<u8>,
    sent: u64,
    now: u64,
    tag: Tag,
)
    requires
        here.peers.contains_key(b) && here.peers[b] == material,
        there.peers.contains_key(a) && there.peers[a] == material,
        !here.live.contains_key(b) && !here.pairing.contains_key(b),
        send_ikm(here, b) is Some ==> tag.0@ == tag_bytes(
            send_ikm(here, b)->0,
            host,
            (sent / 3600) as u64,
        ),
        sent / 3600 <= now / 3600 + 1,
        now / 3600 <= sent / 3600 + 1,
    ensures
        send_ikm(here, b) is Some,
        owns_tag(there, a, tag, host, now),
        pair_owns(there, a, tag, host, now),
{
    law_material_owns_its_tags(there, a, tag, host, (sent / 3600) as u64, now);
}

/// A first-contact route ends at its time: from then on it is not in the book, and until
/// then it is, unchanged.  Pairs and live sessions have no end of their own.
pub proof fn law_a_route_ends_at_its_time(book: BookView, route: NodeId, now: u64)
    ensures
        ({
            let after = pruned(book, now);
            &&& after.pairing.contains_key(route) <==> book.pairing.contains_key(route) && now
                < book.pairing[route].expires_at
            &&& after.pairing.contains_key(route) ==> after.pairing[route] == book.pairing[route]
            &&& after.peers == book.peers
            &&& after.live == book.live
            &&& after.host == book.host
            &&& book.pairing.contains_key(route) && book.pairing[route].expires_at <= now
                ==> after.cached == Map::<SendKey, Tag>::empty() && after.version
                != book.version
            &&& (forall|other: NodeId|
                book.pairing.contains_key(other) ==> now < (
                #[trigger] book.pairing[other]).expires_at) ==> after == book
        }),
{
    if book.pairing.contains_key(route) && book.pairing[route].expires_at <= now {
        assert(route_ended(book, route, now));
    }
}

/// A change of the material moves the version, so that the relay is told, and clears the
/// cached tags.
pub proof fn law_a_change_is_noticed(book: BookView)
    ensures
        bumped(book).version != book.version,
        book.version < u64::MAX ==> bumped(book).version == book.version + 1,
        bumped(book).cached == Map::<SendKey, Tag>::empty(),
        bumped(book).peers == book.peers,
        bumped(book).pairing == book.pairing,
        bumped(book).live == book.live,
        bumped(book).host == book.host,
{
}

/// A registered first contact is in the book with its secret and its end, is what is
/// sent with, and replaces nothing else.
pub proof fn law_a_registration_is_in_the_book(
    book: BookView,
    route: NodeId,
    other: NodeId,
    secret: Seq<u8>,
    expires_at: u64,
    now: u64,
)
    requires
        !route_taken(book, route),
        other != route,
        now < expires_at,
    ensures
        ({
            let after = registered(book, route, secret, expires_at);
            &&& after.pairing.contains_key(route)
            &&& after.pairing[route] == PairingView { secret, expires_at }
            &&& pruned(after, now).pairing.contains_key(route)
            &&& send_ikm(after, route) == Some(pairing_ikm(secret))
            &&& send_ikm(after, other) == send_ikm(book, other)
            &&& after.peers == book.peers
            &&& after.live == book.live
            &&& after.pairing.remove(route) == book.pairing
            &&& after.version != book.version
        }),
{
    let after = registered(book, route, secret, expires_at);
    assert(after.pairing.remove(route) =~= book.pairing);
    law_a_route_ends_at_its_time(after, route, now);
}

/// A list of pairs makes a book in which each peer has the material that was named last.
pub proof fn law_the_last_material_counts(
    pairs: Seq<(NodeId, RendezvousPeer)>,
    peer: NodeId,
    material: RendezvousPeer,
)
    ensures
        pairs_of(pairs.push((peer, material))) == pairs_of(pairs).insert(peer, material),
        pairs_of(Seq::empty()) == Map::<NodeId, RendezvousPeer>::empty(),
        pairs_of(pairs).contains_key(peer) <==> exists|i: int|
            0 <= i < pairs.len() && (#[trigger] pairs[i]).0 == peer,
    decreases pairs.len(),
{
    assert(pairs.push((peer, material)).drop_last() =~= pairs);
    if pairs.len() > 0 {
        law_the_last_material_counts(pairs.drop_last(), peer, material);
        let front = pairs.drop_last();
        if pairs_of(front).contains_key(peer) {
            let i = choose|i: int| 0 <= i < front.len() && (#[trigger] front[i]).0 == peer;
            assert(pairs[i].0 == peer);
        }
        if pairs.last().0 == peer {
            assert(pairs[pairs.len() - 1].0 == peer);
        }
        if exists|i: int| 0 <= i < pairs.len() && (#[trigger] pairs[i]).0 == peer {
            let i = choose|i: int| 0 <= i < pairs.len() && (#[trigger] pairs[i]).0 == peer;
            if i < front.len() {
                assert(front[i].0 == peer);
            }
        }
    }
}

/// A cached tag is found again; another relay starts with an empty cache, and the cache
/// starts again rather than grow beyond 4096 tags.
pub proof fn law_the_cache_remembers(
    book: BookView,
    node: NodeId,
    epoch: u64,
    tag: Tag,
    host: Seq<char>,
)
    requires
        book.cached.dom().finite(),
    ensures
        caching(book, node, epoch, tag).cached.contains_key(SendKey { peer: node, epoch }),
        caching(book, node, epoch, tag).cached[SendKey { peer: node, epoch }] == tag,
        book.cached.dom().len() <= 4096 ==> caching(book, node, epoch, tag).cached.dom().len()
            <= 4096,
        caching(book, node, epoch, tag).peers == book.peers,
        facing(book, host).host == host,
        book.host != host ==> facing(book, host).cached == Map::<SendKey, Tag>::empty(),
        book.host == host ==> facing(book, host) == book,
        facing(book, host).peers == book.peers,
        facing(book, host).pairing == book.pairing,
        facing(book, host).live == book.live,
        entry_count(book) == book.peers.dom().len() + book.pairing.dom().len()
            + book.live.dom().len(),
{
}

/// A datagram in tag mode travels as it is, under the tag that the peer's material has for
/// the relay's host and the hour; without a relay or material nothing is sent.
pub proof fn law_a_datagram_travels_under_its_tag(
    before: BookView,
    after: BookView,
    url: Seq<char>,
    peer: NodeId,
    datagram: Seq<u8>,
    now: u64,
    sent: Option<Frame>,
)
    requires
        tag_sent(before, after, RelayStatusView::Up(url), peer, datagram, now, sent),
        relay_host(url) is Some,
    ensures
        ({
            let host = relay_host(url)->0;
            let ikm = send_ikm(facing(pruned(before, now), host), peer);
            &&& ikm is None ==> sent is None
            &&& ikm is Some ==> (sent matches Some(Frame::SendTag { tag, datagram: bytes })
                && bytes@ == datagram && tag.0@ == tag_bytes(
                ikm->0,
                encode_utf8(host),
                (now / 3600) as u64,
            ))
            &&& after.peers == before.peers
        }),
{
}

/// Without a relay nothing is sent in tag mode, and the book stays.
pub proof fn law_nothing_is_tagged_without_a_relay(
    before: BookView,
    after: BookView,
    status: RelayStatusView,
    peer: NodeId,
    datagram: Seq<u8>,
    now: u64,
    sent: Option<Frame>,
)
    requires
        tag_sent(before, after, status, peer, datagram, now, sent),
        !(status is Up),
    ensures
        sent is None,
        after == before,
{
}

/// A numbered route holds its number in its first half, most significant byte first, and
/// the draw's second half.
pub proof fn law_a_numbered_route_holds_its_number(drawn: Seq<u8>, number: nat)
    requires
        drawn.len() == 32,
        number <= u128::MAX,
    ensures
        numbered(drawn, number).len() == 32,
        be_value(numbered(drawn, number).subrange(0, 8)) * 0x1_0000_0000_0000_0000 + be_value(
            numbered(drawn, number).subrange(8, 16),
        ) == number,
        numbered(drawn, number).skip(16) == drawn.skip(16),
{
    let word: nat = 0x1_0000_0000_0000_0000;
    lemma_pow256_values();
    lemma_be_round_trip(number / word, 8);
    lemma_be_round_trip(number % word, 8);
    let bytes = numbered(drawn, number);
    assert(bytes.subrange(0, 8) =~= be_bytes(number / word, 8));
    assert(bytes.subrange(8, 16) =~= be_bytes(number % word, 8));
    assert(bytes.skip(16) =~= drawn.skip(16));
}

/// A number is taken exactly if the route that it makes of the draw is.
pub proof fn law_a_number_is_taken_with_its_route(
    book: BookView,
    drawn: Seq<u8>,
    number: nat,
    route: NodeId,
)
    requires
        route.0@ == numbered(drawn, number),
    ensures
        numbered_taken(book, drawn, number) <==> book.peers.contains_key(route)
            || book.pairing.contains_key(route) || book.live.contains_key(route),
{
    if numbered_taken(book, drawn, number) {
        let found = choose|found: NodeId| #[trigger]
            route_taken(book, found) && found.0@ == numbered(drawn, number);
        assert(found.0 =~= route.0);
    }
    if route_taken(book, route) {
        assert(numbered_taken(book, drawn, number));
    }
}

} // verus!
