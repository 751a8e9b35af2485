//! What holds of control messages, of first contact and of what is reported.
use crate::bytes::{
    be_bytes, be_value, lemma_be_bytes_len, lemma_be_round_trip, lemma_pow256_values,
};
use crate::card::{mapped_octets, udp_value};
use crate::endpoint::{pairing_expiry, pairing_fault, rendezvous_outcome, PairingError};
use crate::net::SocketAddr;
use crate::path::{outcome_word, reason_word, FailReason, PathStatus};
use crate::relay_client::RelayStatusView;
use crate::session::{
    candidates_body, candidates_bytes, candidates_kept, control_bytes, control_reads, Control,
};
use vstd::prelude::*;

verus! {

/// A control message is the length of its body in four bytes, and the body.
pub proof fn law_the_layout_of_a_control_message(body: Seq<u8>)
    requires
        body.len() <= 0xffff_ffff,
    ensures
        control_bytes(body).len() == 4 + body.len(),
        be_value(control_bytes(body).take(4)) == body.len(),
        control_bytes(body).skip(4) == body,
{
    lemma_pow256_values();
    lemma_be_round_trip(body.len(), 4);
    assert(control_bytes(body).take(4) =~= be_bytes(body.len(), 4));
    assert(control_bytes(body).skip(4) =~= body);
}

/// The body of a candidates message is a one, their number, and each candidate in order:
/// sixteen octets of its address and two bytes of its port.
pub proof fn law_the_layout_of_candidates(addrs: Seq<SocketAddr>, i: int)
    requires
        addrs.len() <= 255,
    ensures
        ({
            let body = candidates_body(addrs);
            &&& body.len() == 2 + 18 * addrs.len()
            &&& body[0] == 1
            &&& body[1] == addrs.len()
            &&& 0 <= i < addrs.len() ==> {
                &&& body.subrange(2 + 18 * i, 18 + 18 * i) == mapped_octets(addrs[i].ip)
                &&& be_value(body.subrange(18 + 18 * i, 20 + 18 * i)) == addrs[i].port
            }
        }),
{
    lemma_spelled(addrs);
    let body = candidates_body(addrs);
    if 0 <= i < addrs.len() {
        let value = udp_value(addrs[i]);
        let part = candidates_bytes(addrs).subrange(18 * i, 18 * i + 18);
        assert(part == value);
        lemma_pow256_values();
        lemma_be_round_trip(addrs[i].port as nat, 2);
        assert(body.subrange(2 + 18 * i, 18 + 18 * i) =~= part.take(16));
        assert(value.take(16) =~= mapped_octets(addrs[i].ip));
        assert(body.subrange(18 + 18 * i, 20 + 18 * i) =~= part.skip(16));
        assert(value.skip(16) =~= be_bytes(addrs[i].port as nat, 2));
    }
}

proof fn lemma_spelled(addrs: Seq<SocketAddr>)
    ensures
        candidates_bytes(addrs).len() == 18 * addrs.len(),
        forall|i: int|
            0 <= i < addrs.len() ==> candidates_bytes(addrs).subrange(18 * i, 18 * i + 18)
                == udp_value(#[trigger] addrs[i]),
    decreases addrs.len(),
{
    if addrs.len() > 0 {
        let front = addrs.drop_last();
        let last = addrs.len() - 1;
        lemma_spelled(front);
        lemma_be_bytes_len(addrs.last().port as nat, 2);
        assert(udp_value(addrs.last()).len() == 18);
        let bytes = candidates_bytes(addrs);
        assert forall|i: int| 0 <= i < addrs.len() implies bytes.subrange(18 * i, 18 * i + 18)
            == udp_value(#[trigger] addrs[i]) by {
            if i < last {
                assert(front[i] == addrs[i]);
                assert(bytes.subrange(18 * i, 18 * i + 18) =~= candidates_bytes(front).subrange(
                    18 * i,
                    18 * i + 18,
                ));
            } else {
                assert(bytes.subrange(18 * i, 18 * i + 18) =~= udp_value(addrs.last()));
            }
        }
    }
}

/// Of more candidates than a byte counts the first ones are sent.
pub proof fn law_a_byte_counts_the_candidates(addrs: Seq<SocketAddr>)
    ensures
        addrs.len() <= 255 ==> candidates_kept(addrs) == addrs,
        addrs.len() > 255 ==> candidates_kept(addrs) == addrs.take(255),
        addrs.len() > 255 ==> candidates_body(addrs) == candidates_body(addrs.take(255)),
{
}

/// A body is read by its first byte: one is candidates, as many as the second says and no
/// byte more, two asks for a round, anything else is passed over, and nothing is a fault.
pub proof fn law_how_a_control_message_is_read(body: Seq<u8>, control: Option<Control>)
    requires
        control_reads(body, control),
    ensures
        control is None <==> body.len() == 0 || (body[0] == 1 && (body.len() < 2 || body.len() != 2
            + 18 * body[1])),
        control matches Some(Control::PunchNow) <==> body.len() > 0 && body[0] == 2,
        control matches Some(Control::Unknown) <==> body.len() > 0 && body[0] != 1 && body[0] != 2,
        control matches Some(Control::Candidates(list)) ==> body[0] == 1 && list@.len() == body[1],
{
}

/// A first contact may be registered for a second to ten minutes, in tag mode only; it ends
/// as many whole seconds from now.
pub proof fn law_how_long_a_first_contact_is_registered(tag_mode: bool, lifetime: u64, now: u64)
    ensures
        pairing_fault(tag_mode, lifetime) is None <==> tag_mode && 1_000 <= lifetime <= 600_000,
        lifetime < 1_000 || lifetime > 600_000 ==> pairing_fault(tag_mode, lifetime) == Some(
            PairingError::Lifetime,
        ),
        1_000 <= lifetime <= 600_000 && !tag_mode ==> pairing_fault(tag_mode, lifetime) == Some(
            PairingError::TagModeRequired,
        ),
        now + lifetime <= u64::MAX ==> {
            &&& now <= pairing_expiry(now, lifetime)
            &&& 1_000 * (pairing_expiry(now, lifetime) - now) <= lifetime
            &&& lifetime < 1_000 * (pairing_expiry(now, lifetime) - now) + 1_000
        },
        now + lifetime / 1_000 > u64::MAX ==> pairing_expiry(now, lifetime) == u64::MAX,
{
}

/// A dial goes on with the relay that is up, fails with one that was superseded or has
/// failed, and waits otherwise.
pub proof fn law_what_a_dial_makes_of_a_relay(status: RelayStatusView)
    ensures
        match status {
            RelayStatusView::Up(url) => rendezvous_outcome(status) == Some(
                Ok::<_, FailReason>(url),
            ),
            RelayStatusView::Superseded => rendezvous_outcome(status) == Some(
                Err::<Seq<char>, _>(FailReason::Superseded),
            ),
            RelayStatusView::Failed => rendezvous_outcome(status) == Some(
                Err::<Seq<char>, _>(FailReason::Relay),
            ),
            _ => rendezvous_outcome(status) is None,
        },
{
}

/// No two reasons share a word, and no two outcomes do.
pub proof fn law_words_tell_apart(a: FailReason, b: FailReason, s: PathStatus, t: PathStatus)
    ensures
        reason_word(a) == reason_word(b) ==> a == b,
        outcome_word(s) == outcome_word(t) ==> s == t,
{
    reveal_strlit("relay");
    reveal_strlit("identity");
    reveal_strlit("timeout");
    reveal_strlit("rendezvous");
    reveal_strlit("superseded");
    reveal_strlit("idle");
    reveal_strlit("relayed");
    reveal_strlit("probing");
    reveal_strlit("direct");
    reveal_strlit("reconnecting");
    reveal_strlit("failed(");
    reveal_strlit(")");
    lemma_reasons_differ(a, b);
    if s is Failed {
        assert(outcome_word(s)[0] == 'f');
    }
    if t is Failed {
        assert(outcome_word(t)[0] == 'f');
    }
    assert("idle"@[0] == 'i' && "rendezvous"@[0] == 'r' && "relayed"@[0] == 'r' && "probing"@[0]
        == 'p' && "direct"@[0] == 'd' && "reconnecting"@[0] == 'r');
    assert("rendezvous"@.len() == 10 && "relayed"@.len() == 7 && "reconnecting"@.len() == 12);
    if outcome_word(s) == outcome_word(t) && s is Failed && t is Failed {
        let x = reason_word(s->Failed_0);
        let y = reason_word(t->Failed_0);
        let word = outcome_word(s);
        assert(word.len() == 8 + x.len());
        assert(outcome_word(t).len() == 8 + y.len());
        assert(word.subrange(7, word.len() - 1) =~= x);
        assert(outcome_word(t).subrange(7, word.len() - 1) =~= y);
        lemma_reasons_differ(s->Failed_0, t->Failed_0);
    }
}

proof fn lemma_reasons_differ(a: FailReason, b: FailReason)
    ensures
        reason_word(a) == reason_word(b) ==> a == b,
{
    reveal_strlit("relay");
    reveal_strlit("identity");
    reveal_strlit("timeout");
    reveal_strlit("rendezvous");
    reveal_strlit("superseded");
    assert("rendezvous"@[0] == 'r' && "superseded"@[0] == 's');
    assert("relay"@.len() == 5 && "identity"@.len() == 8 && "timeout"@.len() == 7
        && "rendezvous"@.len() == 10 && "superseded"@.len() == 10);
}

} // verus!
