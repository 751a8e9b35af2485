//! The relay's registry and its sessions.
use crate::id::NodeId;
use crate::relay::{
    advanced, after_frame, answers_challenge, certificate_names_of, closed, displaced_all,
    frame_action, fresh_session, holders, join_all, law_tag_delivery_excludes_the_sender, leave_all,
    node_targets, tag_targets, tags_sound, without, Action, Mode, RegistryView, RelaySession,
};
use crate::rendezvous::Tag;
use crate::wire::{relay_auth_accepted, Frame};
use vstd::prelude::*;

verus! {

/// A node that proved itself gets the datagrams meant for it, on its newest session and
/// on no other.
pub proof fn law_the_newest_session_gets_the_datagrams(
    registry: RegistryView,
    node: NodeId,
    other: NodeId,
    id: u64,
)
    requires
        other != node,
    ensures
        ({
            let after = RegistryView { sessions: registry.sessions.insert(node, id), ..registry };
            &&& node_targets(after, node) == seq![id]
            &&& node_targets(after, other) == node_targets(registry, other)
        }),
        !registry.sessions.contains_key(node) ==> node_targets(registry, node).len() == 0,
        registry.sessions.contains_key(node) ==> node_targets(registry, node)
            == seq![registry.sessions[node]],
{
}

/// An identity session that ends leaves the registry: its node has no session any more,
/// a datagram for it has no target, no node is left at its number, and every other node
/// keeps its own.
pub proof fn law_a_closed_identity_is_gone(
    registry: RegistryView,
    session: RelaySession,
    node: NodeId,
    other: NodeId,
)
    requires
        session.mode == Mode::Identity(node),
        registry.sessions.contains_key(node),
        registry.sessions[node] == session.id,
        other != node,
        forall|n: NodeId|
            n != node && registry.sessions.contains_key(n) ==> #[trigger] registry.sessions[n]
                != session.id,
    ensures
        ({
            let after = closed(registry, session);
            &&& !after.sessions.contains_key(node)
            &&& node_targets(after, node).len() == 0
            &&& forall|n: NodeId|
                after.sessions.contains_key(n) ==> #[trigger] after.sessions[n] != session.id
            &&& after.sessions.contains_key(other) == registry.sessions.contains_key(other)
            &&& registry.sessions.contains_key(other) ==> after.sessions[other]
                == registry.sessions[other]
            &&& after.tags == registry.tags
            &&& after.live == registry.live
        }),
{
}

/// A node that comes and goes leaves the registry as if it had never come; one that
/// comes again after it went supersedes nobody.
pub proof fn law_coming_and_going_leaves_no_trace(
    registry: RegistryView,
    node: NodeId,
    session: RelaySession,
)
    requires
        session.mode == Mode::Identity(node),
        !registry.sessions.contains_key(node),
    ensures
        ({
            let up = RegistryView {
                sessions: registry.sessions.insert(node, session.id),
                ..registry
            };
            let down = closed(up, session);
            &&& down == registry
            &&& node_targets(down, node).len() == 0
        }),
{
    let up = RegistryView { sessions: registry.sessions.insert(node, session.id), ..registry };
    assert(closed(up, session).sessions =~= registry.sessions);
}

/// Closing a tag session touches no identity session and no connection count.
pub proof fn law_a_closed_tag_session_touches_no_identity(
    registry: RegistryView,
    session: RelaySession,
)
    requires
        session.mode is Tags,
    ensures
        closed(registry, session).sessions == registry.sessions,
        closed(registry, session).live == registry.live,
{
}

/// A session that registers a tag becomes its newest holder.  A tag has two ends: the
/// third holder takes the place of the oldest, who is told; nobody else loses the tag,
/// and no other tag is touched.
pub proof fn law_a_tag_has_its_two_newest_holders(
    tags: Map<Tag, Seq<u64>>,
    session: u64,
    tag: Tag,
    other: Tag,
)
    requires
        tags_sound(tags),
        other != tag,
    ensures
        ({
            let before = holders(tags, tag);
            let after = join_all(tags, session, seq![tag]);
            let told = displaced_all(tags, session, seq![tag]);
            &&& before.contains(session) ==> after == tags && told.len() == 0
            &&& !before.contains(session) && before.len() == 0 ==> holders(after, tag)
                == seq![session] && told.len() == 0
            &&& !before.contains(session) && before.len() == 1 ==> holders(after, tag)
                == seq![before[0], session] && told.len() == 0
            &&& !before.contains(session) && before.len() == 2 ==> holders(after, tag)
                == seq![before[1], session] && told == seq![before[0]]
            &&& before.len() <= 2
            &&& holders(after, other) == holders(tags, other)
            &&& after.contains_key(other) == tags.contains_key(other)
        }),
{
    let before = holders(tags, tag);
    if tags.contains_key(tag) {
        assert(tags[tag].len() <= 2);
    }
    let one = seq![tag];
    assert(one.drop_last() =~= Seq::<Tag>::empty());
    assert(one.last() == tag);
    assert(join_all(tags, session, one.drop_last()) == tags);
    assert(displaced_all(tags, session, one.drop_last()) == Seq::<u64>::empty());
    let after = join_all(tags, session, one);
    if !before.contains(session) {
        if before.len() == 2 {
            assert(before.drop_first().push(session) =~= seq![before[1], session]);
        } else if before.len() == 1 {
            assert(before.push(session) =~= seq![before[0], session]);
        } else {
            assert(before.push(session) =~= seq![session]);
        }
    }
    assert(displaced_all(tags, session, one) =~= crate::relay::displaced(tags, session, tag));
}

/// Tags are registered one after the other: a list is as good as its parts in turn, and
/// those who are told are told in that order.
pub proof fn law_tags_are_registered_in_turn(
    tags: Map<Tag, Seq<u64>>,
    session: u64,
    first: Seq<Tag>,
    second: Seq<Tag>,
)
    ensures
        join_all(tags, session, first + second) == join_all(
            join_all(tags, session, first),
            session,
            second,
        ),
        displaced_all(tags, session, first + second) == displaced_all(tags, session, first)
            + displaced_all(join_all(tags, session, first), session, second),
        second.len() == 0 ==> join_all(tags, session, second) == tags && displaced_all(
            tags,
            session,
            second,
        ).len() == 0,
    decreases second.len(),
{
    let all = first + second;
    if second.len() == 0 {
        assert(all =~= first);
        assert(displaced_all(tags, session, first) + Seq::<u64>::empty() =~= displaced_all(
            tags,
            session,
            first,
        ));
    } else {
        let front = second.drop_last();
        law_tags_are_registered_in_turn(tags, session, first, front);
        assert(all.drop_last() =~= first + front);
        assert(all.last() == second.last());
        assert(displaced_all(tags, session, all) =~= displaced_all(tags, session, first)
            + displaced_all(join_all(tags, session, first), session, second));
    }
}

/// A session that gives a tag up is no holder of it; the others keep it in their order,
/// a tag without holders is gone, and no other tag is touched.
pub proof fn law_a_tag_given_up_is_gone(
    tags: Map<Tag, Seq<u64>>,
    session: u64,
    tag: Tag,
    other: Tag,
)
    requires
        tags_sound(tags),
        other != tag,
    ensures
        ({
            let before = holders(tags, tag);
            let after = leave_all(tags, session, seq![tag]);
            &&& !before.contains(session) ==> holders(after, tag) == before
            &&& before == seq![session] ==> !after.contains_key(tag)
            &&& before.len() == 2 && before[0] == session ==> holders(after, tag)
                == seq![before[1]]
            &&& before.len() == 2 && before[1] == session ==> holders(after, tag)
                == seq![before[0]]
            &&& !holders(after, tag).contains(session)
            &&& holders(after, other) == holders(tags, other)
            &&& after.contains_key(other) == tags.contains_key(other)
            &&& tags_sound(after)
        }),
{
    reveal(Seq::filter);
    reveal_with_fuel(Seq::filter, 4);
    let before = holders(tags, tag);
    let one = seq![tag];
    assert(one.drop_last() =~= Seq::<Tag>::empty());
    assert(one.last() == tag);
    assert(leave_all(tags, session, one.drop_last()) == tags);
    let after = leave_all(tags, session, one);
    let rest = without(before, session);
    if tags.contains_key(tag) {
        assert(1 <= tags[tag].len() <= 2);
    }
    if before.len() == 0 {
        assert(rest =~= Seq::<u64>::empty());
    } else if before.len() == 1 {
        assert(before.drop_last() =~= Seq::<u64>::empty());
        assert(without(before.drop_last(), session) =~= Seq::<u64>::empty());
        assert(before[0] == before.last());
        if before[0] != session {
            assert(rest =~= before);
        } else {
            assert(before.contains(session));
            assert(rest =~= Seq::<u64>::empty());
        }
    } else {
        let front = before.drop_last();
        assert(front.drop_last() =~= Seq::<u64>::empty());
        assert(without(front.drop_last(), session) =~= Seq::<u64>::empty());
        assert(front.last() == before[0]);
        assert(before.last() == before[1]);
        assert(before[0] != before[1]);
        if before[0] == session {
            assert(before.contains(session));
            assert(rest =~= seq![before[1]]);
        } else if before[1] == session {
            assert(before.contains(session));
            assert(rest =~= seq![before[0]]);
        } else {
            assert(rest =~= before);
        }
    }
    assert(tags_sound(after));
}

/// Tags are given up one after the other, in any number of steps.
pub proof fn law_tags_are_given_up_in_turn(
    tags: Map<Tag, Seq<u64>>,
    session: u64,
    first: Seq<Tag>,
    second: Seq<Tag>,
)
    ensures
        leave_all(tags, session, first + second) == leave_all(
            leave_all(tags, session, first),
            session,
            second,
        ),
        second.len() == 0 ==> leave_all(tags, session, second) == tags,
    decreases second.len(),
{
    let all = first + second;
    if second.len() == 0 {
        assert(all =~= first);
    } else {
        law_tags_are_given_up_in_turn(tags, session, first, second.drop_last());
        assert(all.drop_last() =~= first + second.drop_last());
        assert(all.last() == second.last());
    }
}

/// Two sessions that registered a tag hear each other: a datagram from one goes to the
/// other and to nobody else.
pub proof fn law_the_two_ends_of_a_tag_meet(
    registry: RegistryView,
    tag: Tag,
    a: u64,
    b: u64,
)
    requires
        a != b,
        !registry.tags.contains_key(tag),
        tags_sound(registry.tags),
    ensures
        ({
            let after = RegistryView {
                tags: join_all(join_all(registry.tags, a, seq![tag]), b, seq![tag]),
                ..registry
            };
            &&& tag_targets(after, tag, a) == seq![b]
            &&& tag_targets(after, tag, b) == seq![a]
        }),
{
    reveal_with_fuel(Seq::filter, 4);
    let one = seq![tag];
    assert(one.drop_last() =~= Seq::<Tag>::empty());
    assert(one.last() == tag);
    let first = join_all(registry.tags, a, one);
    assert(join_all(registry.tags, a, one.drop_last()) == registry.tags);
    assert(holders(first, tag) =~= seq![a]);
    assert(join_all(first, b, one.drop_last()) == first);
    let second = join_all(first, b, one);
    assert(!holders(first, tag).contains(b));
    assert(holders(second, tag) =~= seq![a, b]);
    let list = seq![a, b];
    let front = list.drop_last();
    assert(front =~= seq![a]);
    assert(front.drop_last() =~= Seq::<u64>::empty());
    assert(front.last() == a && list.last() == b);
    assert(without(front.drop_last(), a) =~= Seq::<u64>::empty());
    assert(without(front.drop_last(), b) =~= Seq::<u64>::empty());
    assert(without(list, a) =~= seq![b]);
    assert(without(list, b) =~= seq![a]);
}

/// A datagram on a tag goes to each other holder once.
pub proof fn law_a_tag_datagram_has_at_most_one_target(
    registry: RegistryView,
    tag: Tag,
    session: u64,
)
    requires
        tags_sound(registry.tags),
        registry.tags.contains_key(tag) ==> registry.tags[tag].contains(session),
    ensures
        tag_targets(registry, tag, session).len() <= 1,
        registry.tags.contains_key(tag) && registry.tags[tag].len() == 2 ==> tag_targets(
            registry,
            tag,
            session,
        ).len() == 1,
{
    reveal_with_fuel(Seq::filter, 4);
    let list = holders(registry.tags, tag);
    law_tag_delivery_excludes_the_sender(registry, tag, session);
    if registry.tags.contains_key(tag) {
        assert(1 <= list.len() <= 2);
        if list.len() == 2 {
            let front = list.drop_last();
            assert(front.drop_last() =~= Seq::<u64>::empty());
            assert(without(front.drop_last(), session) =~= Seq::<u64>::empty());
            assert(list[0] != list[1]);
            assert(front.last() == list[0] && list.last() == list[1]);
        } else {
            assert(list.drop_last() =~= Seq::<u64>::empty());
            assert(without(list.drop_last(), session) =~= Seq::<u64>::empty());
            assert(list.last() == list[0]);
        }
    }
}

/// What a client may send in each mode, and what it gets: a datagram is handed on under
/// the sender's own name or under its tag with its bytes as they are, a ping is answered
/// with its own bytes, and a frame of the other mode or of a relay is refused.
pub proof fn law_a_frame_gets_its_due(mode: Mode, frame: Frame)
    ensures
        match (mode, frame) {
            (Mode::Identity(source), Frame::Send { destination, datagram }) => frame_action(
                mode,
                frame,
            ) == (Action::ToNode { destination, frame: Frame::Recv { source, datagram } }),
            (Mode::Tags(_), Frame::SendTag { tag, datagram }) => frame_action(mode, frame) == (
            Action::ToTag { tag, frame: Frame::RecvTag { tag, datagram } }),
            (Mode::Tags(_), Frame::Send { .. }) => frame_action(mode, frame) is Refuse,
            (Mode::Identity(_), Frame::SendTag { .. }) => frame_action(mode, frame) is Refuse,
            (Mode::Identity(_), Frame::Register { .. }) => frame_action(mode, frame) is Refuse,
            (Mode::Tags(_), Frame::Register { .. }) => true,
            (_, Frame::Ping(opaque)) => frame_action(mode, frame) == Action::Reply(
                Frame::Pong(opaque),
            ),
            (_, Frame::Pong(_)) => frame_action(mode, frame) is Nothing,
            (_, Frame::Close(_)) => frame_action(mode, frame) is End,
            _ => frame_action(mode, frame) is Refuse,
        },
{
}

/// A frame is counted once, with the bytes of the datagram it sends in its own mode;
/// only a ping or a pong keeps the session alive; nothing else of the session changes.
pub proof fn law_a_frame_is_counted(session: RelaySession, frame: Frame, now: u64)
    requires
        session.frames_in < u64::MAX,
        session.bytes_in < u64::MAX - 0xffff_ffff,
        frame matches Frame::Send { datagram, .. } ==> datagram@.len() <= 0xffff_ffff,
        frame matches Frame::SendTag { datagram, .. } ==> datagram@.len() <= 0xffff_ffff,
    ensures
        ({
            let after = after_frame(session, frame, now);
            &&& after.frames_in == session.frames_in + 1
            &&& session.mode is Identity ==> (frame matches Frame::Send { datagram, .. }
                ==> after.bytes_in == session.bytes_in + datagram@.len())
            &&& session.mode is Tags ==> (frame matches Frame::SendTag { datagram, .. }
                ==> after.bytes_in == session.bytes_in + datagram@.len())
            &&& !(frame is Send) && !(frame is SendTag) ==> after.bytes_in == session.bytes_in
            &&& after.last_ping == if frame is Ping || frame is Pong {
                now
            } else {
                session.last_ping
            }
            &&& after.id == session.id
            &&& after.mode == session.mode
            &&& after.frames_out == session.frames_out
            &&& after.dropped == session.dropped
        }),
{
}

/// A counter goes up by what it is told, and wraps at its end.
pub proof fn law_counters_count(counter: u64, by: nat)
    requires
        by <= u64::MAX,
    ensures
        counter + by <= u64::MAX ==> advanced(counter, by) == counter + by,
        counter + by > u64::MAX ==> advanced(counter, by) == counter + by
            - 0x1_0000_0000_0000_0000,
{
}

/// A session starts with its number, its mode, the time, and nothing counted.
pub proof fn law_a_session_starts_at_zero(id: u64, mode: Mode, now: u64)
    ensures
        ({
            let session = fresh_session(id, mode, now);
            &&& session.id == id
            &&& session.mode == mode
            &&& session.last_ping == now
            &&& session.frames_in == 0
            &&& session.frames_out == 0
            &&& session.bytes_in == 0
            &&& session.dropped == 0
        }),
{
}

/// A signature answers the challenge exactly if it is accepted for one of the relay's
/// own hosts.
pub proof fn law_any_host_of_the_relay_will_do(
    hosts: Seq<Seq<u8>>,
    challenge: Seq<u8>,
    node: NodeId,
    signature: Seq<u8>,
    i: int,
)
    requires
        0 <= i < hosts.len(),
    ensures
        relay_auth_accepted(node, hosts[i], challenge, signature) ==> answers_challenge(
            hosts,
            challenge,
            node,
            signature,
        ),
        answers_challenge(hosts, challenge, node, signature) ==> exists|k: int|
            0 <= k < hosts.len() && relay_auth_accepted(
                node,
                #[trigger] hosts[k],
                challenge,
                signature,
            ),
        !answers_challenge(Seq::empty(), challenge, node, signature),
{
    if answers_challenge(hosts, challenge, node, signature) {
        let k = choose|k: int|
            0 <= k < hosts.len() && crate::crypto::ed25519_accepts(
                node.0@,
                crate::wire::relay_auth_input(#[trigger] hosts[k], challenge),
                signature,
            );
        assert(relay_auth_accepted(node, hosts[k], challenge, signature));
    }
}

/// A certificate names the relay's hosts, and `localhost` only where there are none.
pub proof fn law_a_certificate_names_the_hosts(hosts: Seq<Seq<char>>)
    ensures
        hosts.len() > 0 ==> certificate_names_of(hosts) == hosts,
        hosts.len() == 0 ==> certificate_names_of(hosts) == seq!["localhost"@],
{
}

} // verus!
