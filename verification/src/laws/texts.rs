//! What holds of texts, of what the command line reads from them, and of the payload.
use super::blobs::{digit, law_bytes_are_written_in_hexadecimal};
use super::drivers::law_decimal_round_trip;
use crate::bytes::be_bytes;
use crate::card::{udp_value, HintView};
use crate::crypto::{hex_text, is_hex, is_hex_digit};
use crate::id::{base32_digit, base32_symbol, base32_text, window5};
use crate::net::SocketAddr;
use crate::spike::{
    card_text, hints_verdict, next_state, onion_hints, onion_verdict, payload_byte, plain_hints,
    port_of, seed_verdict, state_after, states_used, unsigned, SpikeError,
};
use crate::text::{
    all_digits, ascii_lower, ascii_lowered, decimal_text, decimal_value, trimmed, white_space,
};
use vstd::prelude::*;
use vstd::utf8::*;

verus! {

// ---------------------------------------------------------------------------
// Texts
// ---------------------------------------------------------------------------
/// White space at either end goes, whatever it is, and nothing else does.
pub proof fn law_trimming_takes_the_ends_off(text: Seq<char>, c: char)
    ensures
        white_space(c) ==> trimmed(seq![c] + text) == trimmed(text),
        white_space(c) ==> trimmed(text + seq![c]) == trimmed(text),
        trimmed(text).len() > 0 ==> !white_space(trimmed(text).first()) && !white_space(
            trimmed(text).last(),
        ),
        text.len() > 0 && !white_space(text.first()) && !white_space(text.last()) ==> trimmed(text)
            == text,
        (forall|i: int| 0 <= i < text.len() ==> white_space(#[trigger] text[i])) ==> trimmed(
            text,
        ).len() == 0,
    decreases text.len(),
{
    let front = seq![c] + text;
    let back = text + seq![c];
    assert(front.drop_first() =~= text);
    assert(back.drop_last() =~= text);
    assert(front.first() == c);
    assert(back.last() == c);
    if text.len() == 0 {
        assert(front =~= back);
    } else {
        assert(back.first() == text.first());
        if white_space(text.first()) {
            law_trimming_takes_the_ends_off(text.drop_first(), c);
            assert(back.drop_first() =~= text.drop_first() + seq![c]);
        } else if white_space(text.last()) {
            law_trimming_takes_the_ends_off(text.drop_last(), c);
        }
        if forall|i: int| 0 <= i < text.len() ==> white_space(#[trigger] text[i]) {
            assert(white_space(text[0]));
            assert forall|i: int| 0 <= i < text.drop_first().len() implies white_space(
                #[trigger] text.drop_first()[i],
            ) by {
                assert(white_space(text[i + 1]));
            }
        }
    }
}

/// The blank, the tabulators and the ends of lines are white space; visible ASCII is not.
pub proof fn law_what_is_white_space(c: char)
    ensures
        c == ' ' || 9 <= c as int <= 13 ==> white_space(c),
        0x20 < c as int <= 0x7e ==> !white_space(c),
{
}

/// Capital letters become small; everything else stays, and nothing changes twice.
pub proof fn law_lower_case(c: char, text: Seq<char>, i: int)
    ensures
        0x41 <= c as int <= 0x5a ==> ascii_lower(c) as int == c as int + 32,
        !(0x41 <= c as int <= 0x5a) ==> ascii_lower(c) == c,
        ascii_lower(ascii_lower(c)) == ascii_lower(c),
        ascii_lowered(text).len() == text.len(),
        0 <= i < text.len() ==> ascii_lowered(text)[i] == ascii_lower(text[i]),
{
}

/// A further digit makes ten times as much and the digit; one digit is its own value.
pub proof fn law_decimal_digits_count_tens(text: Seq<char>, value: int)
    requires
        0 <= value < 10,
    ensures
        decimal_value(text.push("0123456789"@[value])) == 10 * decimal_value(text) + value,
        decimal_value(Seq::empty()) == 0,
        all_digits(text) ==> all_digits(text.push("0123456789"@[value])),
{
    reveal_strlit("0123456789");
    let c = "0123456789"@[value];
    assert(text.push(c).drop_last() =~= text);
    assert(text.push(c).last() == c);
}

// ---------------------------------------------------------------------------
// Identities as text
// ---------------------------------------------------------------------------
/// A bit of some bytes, counted from the highest of the first; zero past the end.
pub open spec fn bit_of(bytes: Seq<u8>, at: int) -> u32 {
    if at / 8 < bytes.len() {
        ((bytes[at / 8] as u32) >> ((7 - at % 8) as u32)) & 1
    } else {
        0
    }
}

/// The text of an identity has a symbol for each five bits, in order, from the alphabet
/// `a` to `z` and `2` to `7`.
pub proof fn law_an_identity_is_spelled_bit_by_bit(bytes: Seq<u8>, k: int, b: int)
    requires
        bytes.len() == 32,
        0 <= k < 52,
        0 <= b < 5,
    ensures
        base32_text(bytes).len() == 52,
        base32_digit(bytes, k) < 32,
        base32_text(bytes)[k] == "abcdefghijklmnopqrstuvwxyz234567"@[base32_digit(bytes, k) as int],
        (base32_digit(bytes, k) >> ((4 - b) as u32)) & 1 == bit_of(bytes, 5 * k + b),
{
    reveal_strlit("abcdefghijklmnopqrstuvwxyz234567");
    let at = 5 * k / 8;
    let first = bytes[at] as u32;
    let second = if at + 1 < bytes.len() {
        bytes[at + 1] as u32
    } else {
        0u32
    };
    let offset = (5 * k % 8) as u32;
    let place = b as u32;
    let d = window5(first, second, offset);
    assert(first < 256 && second < 256);
    assert(((first << 8 | second) >> ((11 - offset) as u32)) & 31 < 32) by (bit_vector);
    assert(d < 32);
    assert((((((first << 8 | second) >> ((11 - offset) as u32)) & 31) >> ((4 - place) as u32)) & 1)
        == (if offset + place < 8 {
        (first >> ((7 - (offset + place)) as u32)) & 1
    } else {
        (second >> ((15 - (offset + place)) as u32)) & 1
    })) by (bit_vector)
        requires
            first < 256,
            second < 256,
            offset < 8,
            place < 5,
    ;
    let bit = 5 * k + b;
    if offset + place < 8 {
        assert(bit / 8 == at && bit % 8 == offset + place);
    } else {
        assert(bit / 8 == at + 1 && bit % 8 == offset + place - 8);
        if at + 1 >= bytes.len() {
            assert(0u32 >> ((15 - (offset + place)) as u32) & 1 == 0) by (bit_vector);
        }
    }
    assert(base32_symbol(d) == "abcdefghijklmnopqrstuvwxyz234567"@[d as int]);
}

// ---------------------------------------------------------------------------
// What the command line reads
// ---------------------------------------------------------------------------
/// The hexadecimal text of some bytes is read back, white space around it or not.
pub proof fn law_hexadecimal_arguments_read_back(bytes: Seq<u8>, c: char, d: char)
    requires
        bytes.len() > 0,
        white_space(c),
        white_space(d),
    ensures
        card_text(hex_text(bytes)) == Some(bytes),
        card_text(seq![c] + hex_text(bytes) + seq![d]) == Some(bytes),
        bytes.len() == 32 ==> seed_verdict(seq![c] + hex_text(bytes) + seq![d]) == Ok::<
            _,
            SpikeError,
        >(bytes),
        bytes.len() != 32 ==> seed_verdict(hex_text(bytes)) == Err::<Seq<u8>, _>(
            SpikeError::SeedLength,
        ),
{
    reveal_strlit("0123456789abcdef");
    let text = hex_text(bytes);
    assert forall|i: int| 0 <= i < text.len() implies {
        &&& '\0' <= #[trigger] text[i] <= '\u{7f}'
        &&& !white_space(text[i])
        &&& is_hex_digit(text[i] as u8)
    } by {
        law_bytes_are_written_in_hexadecimal(bytes, i / 2);
        assert(i == 2 * (i / 2) || i == 2 * (i / 2) + 1);
    }
    law_bytes_are_written_in_hexadecimal(bytes, 0);
    assert(is_ascii_chars(text));
    is_ascii_chars_encode_utf8(text);
    let codes = text.map_values(|c: char| c as u8);
    assert(encode_utf8(text) =~= codes);
    assert(is_hex(codes)) by {
        assert(text.len() == 2 * bytes.len());
        assert forall|i: int| 0 <= i < codes.len() implies is_hex_digit(#[trigger] codes[i]) by {
            assert(codes[i] == text[i] as u8);
        }
    }
    assert(!white_space(text.first()) && !white_space(text.last()));
    law_trimming_takes_the_ends_off(text, c);
    law_trimming_takes_the_ends_off(seq![c] + text, d);
    assert(trimmed(seq![c] + text + seq![d]) == text);
}

/// A port is read from its decimal digits, with or without a plus, up to 65535.
pub proof fn law_ports_are_read_in_decimal(port: nat)
    ensures
        port <= 65_535 ==> port_of(decimal_text(port)) == Some(port as u16),
        port <= 65_535 ==> port_of(seq!['+'] + decimal_text(port)) == Some(port as u16),
        port > 65_535 ==> port_of(decimal_text(port)) is None,
        port_of(Seq::empty()) is None,
{
    let text = decimal_text(port);
    law_decimal_round_trip(port);
    assert('0' <= text[0] <= '9');
    assert(unsigned(text) == text);
    let signed = seq!['+'] + text;
    assert(signed[0] == '+');
    assert(signed.skip(1) =~= text);
}

/// An onion hint is a host of fifty-six bytes, a colon and a port; the hint holds the host
/// and the port in two bytes.
pub proof fn law_an_onion_hint_is_host_and_port(host: Seq<char>, port: Seq<char>)
    requires
        !port.contains(':'),
    ensures
        ({
            let entry = host + seq![':'] + port;
            let verdict = onion_verdict(entry);
            &&& encode_utf8(host).len() != 56 ==> verdict == Err::<HintView, _>(
                SpikeError::OnionHost,
            )
            &&& encode_utf8(host).len() == 56 && port_of(port) is None ==> verdict == Err::<
                HintView,
                _,
            >(SpikeError::OnionPort)
            &&& encode_utf8(host).len() == 56 && port_of(port) is Some ==> verdict == Ok::<
                _,
                SpikeError,
            >(
                HintView {
                    kind: 3,
                    value: encode_utf8(host) + be_bytes(port_of(port)->0 as nat, 2),
                },
            )
            &&& onion_verdict(port) == Err::<HintView, _>(SpikeError::OnionForm)
        }),
{
    let entry = host + seq![':'] + port;
    let at = host.len() as int;
    assert(entry[at] == ':');
    assert(entry.contains(':'));
    entry.index_of_last_ensures(':');
    port.index_of_last_ensures(':');
    let last = entry.index_of_last(':')->0;
    if last > at {
        assert(port[last - at - 1] == ':');
    }
    assert(last == at);
    assert(entry.take(at) =~= host);
    assert(entry.skip(at + 1) =~= port);
}

/// The onion hints of the arguments are those of each argument in order, or the fault of
/// the first bad one.
pub proof fn law_onion_hints_in_order(onion: Seq<String>, i: int)
    requires
        0 <= i < onion.len(),
    ensures
        onion_hints(onion) is Ok <==> forall|k: int|
            0 <= k < onion.len() ==> onion_verdict((#[trigger] onion[k])@) is Ok,
        onion_hints(onion) matches Ok(hints) ==> hints.len() == onion.len() && Ok::<_, SpikeError>(
            hints[i],
        ) == onion_verdict(onion[i]@),
        onion_verdict(onion[i]@) is Err && (forall|k: int|
            0 <= k < i ==> onion_verdict((#[trigger] onion[k])@) is Ok) ==> onion_hints(onion)
            == Err::<Seq<HintView>, _>(onion_verdict(onion[i]@)->Err_0),
    decreases onion.len(),
{
    let front = onion.drop_last();
    let last = onion.len() - 1;
    assert(onion.last() == onion[last]);
    assert(forall|k: int| 0 <= k < last ==> #[trigger] front[k] == onion[k]);
    if front.len() > 0 {
        let j = if i < last {
            i
        } else {
            0
        };
        law_onion_hints_in_order(front, j);
    } else {
        assert(onion_hints(front) == Ok::<Seq<HintView>, SpikeError>(Seq::empty()));
    }
    if forall|k: int| 0 <= k < onion.len() ==> onion_verdict((#[trigger] onion[k])@) is Ok {
        assert forall|k: int| 0 <= k < front.len() implies onion_verdict(
            (#[trigger] front[k])@,
        ) is Ok by {
            assert(onion_verdict(onion[k]@) is Ok);
        }
    }
    if onion_hints(onion) is Ok {
        assert forall|k: int| 0 <= k < onion.len() implies onion_verdict(
            (#[trigger] onion[k])@,
        ) is Ok by {
            if k < last {
                assert(front[k] == onion[k]);
            }
        }
    }
    if onion_verdict(onion[i]@) is Err && forall|k: int|
        0 <= k < i ==> onion_verdict((#[trigger] onion[k])@) is Ok {
        if i == last {
            assert forall|k: int| 0 <= k < front.len() implies onion_verdict(
                (#[trigger] front[k])@,
            ) is Ok by {
                assert(onion_verdict(onion[k]@) is Ok);
            }
        } else {
            assert(front[i] == onion[i]);
            assert forall|k: int| 0 <= k < i implies onion_verdict((#[trigger] front[k])@) is Ok by {
                assert(onion_verdict(onion[k]@) is Ok);
            }
        }
    }
}

/// The hints of the arguments are the relays, the addresses and the onion services, each
/// in order, sixteen at most.
pub proof fn law_the_hints_of_the_arguments(
    relays: Seq<String>,
    udp: Seq<SocketAddr>,
    onion: Seq<String>,
    i: int,
)
    ensures
        ({
            let verdict = hints_verdict(relays, udp, onion);
            let count = relays.len() + udp.len();
            &&& onion_hints(onion) matches Err(error) ==> verdict == Err::<Seq<HintView>, _>(error)
            &&& onion_hints(onion) matches Ok(last) ==> {
                &&& verdict is Ok <==> count + last.len() <= 16
                &&& verdict is Err ==> verdict->Err_0 == SpikeError::TooManyHints
                &&& verdict matches Ok(all) ==> {
                    &&& all.len() == count + last.len()
                    &&& 0 <= i < relays.len() ==> all[i].kind == 1 && all[i].value == encode_utf8(
                        relays[i]@,
                    )
                    &&& 0 <= i < udp.len() ==> all[relays.len() + i].kind == 2 && all[relays.len()
                        + i].value == udp_value(udp[i])
                    &&& 0 <= i < last.len() ==> all[count + i] == last[i]
                }
            }
            &&& plain_hints(relays, udp).len() == count
        }),
{
}

// ---------------------------------------------------------------------------
// The payload
// ---------------------------------------------------------------------------
/// The generator is linear: it shifts by thirteen, seven and seventeen, and zero alone
/// stays zero.
pub proof fn law_the_generator_is_linear(x: u64, y: u64)
    ensures
        next_state(x ^ y) == next_state(x) ^ next_state(y),
        next_state(x) == 0 <==> x == 0,
        next_state(x) == x ^ (x << 13) ^ (x >> 7) ^ ((x << 13) >> 7) ^ (x << 17) ^ (x << 30) ^ ((x
            >> 7) << 17) ^ (((x << 13) >> 7) << 17),
{
    assert(forall|s: u64|
        #![auto]
        ((s ^ (s << 13)) ^ ((s ^ (s << 13)) >> 7)) ^ (((s ^ (s << 13)) ^ ((s ^ (s << 13)) >> 7))
            << 17) == s ^ (s << 13) ^ (s >> 7) ^ ((s << 13) >> 7) ^ (s << 17) ^ (s << 30) ^ ((s >> 7)
            << 17) ^ (((s << 13) >> 7) << 17)) by (bit_vector);
    assert((((x ^ y) ^ ((x ^ y) << 13)) ^ (((x ^ y) ^ ((x ^ y) << 13)) >> 7)) ^ ((((x ^ y) ^ ((x ^ y)
        << 13)) ^ (((x ^ y) ^ ((x ^ y) << 13)) >> 7)) << 17) == (((x ^ (x << 13)) ^ ((x ^ (x << 13))
        >> 7)) ^ (((x ^ (x << 13)) ^ ((x ^ (x << 13)) >> 7)) << 17)) ^ (((y ^ (y << 13)) ^ ((y ^ (y
        << 13)) >> 7)) ^ (((y ^ (y << 13)) ^ ((y ^ (y << 13)) >> 7)) << 17))) by (bit_vector);
    assert(((x ^ (x << 13)) ^ ((x ^ (x << 13)) >> 7)) ^ (((x ^ (x << 13)) ^ ((x ^ (x << 13)) >> 7))
        << 17) == 0 <==> x == 0) by (bit_vector);
}

/// Eight bytes of the payload in a row are one state of the generator, the lowest first.
pub proof fn law_a_payload_is_the_states_in_a_row(state: u64, n: nat)
    ensures
        state_after(state, n + 1) == payload_byte(state, 8 * n) + 0x100 * payload_byte(
            state,
            8 * n + 1,
        ) + 0x1_0000 * payload_byte(state, 8 * n + 2) + 0x100_0000 * payload_byte(state, 8 * n + 3)
            + 0x1_0000_0000 * payload_byte(state, 8 * n + 4) + 0x100_0000_0000 * payload_byte(
            state,
            8 * n + 5,
        ) + 0x1_0000_0000_0000 * payload_byte(state, 8 * n + 6) + 0x100_0000_0000_0000
            * payload_byte(state, 8 * n + 7),
        state_after(state, n + 1) == next_state(state_after(state, n)),
        state_after(state, 0) == state,
        states_used(8 * n) == n,
        states_used(8 * n + 1) == n + 1,
        states_used(8 * n + 8) == n + 1,
{
    let w = state_after(state, n + 1);
    assert(w == ((w >> 0) & 0xff) + 0x100 * ((w >> 8) & 0xff) + 0x1_0000 * ((w >> 16) & 0xff)
        + 0x100_0000 * ((w >> 24) & 0xff) + 0x1_0000_0000 * ((w >> 32) & 0xff) + 0x100_0000_0000 * ((
    w >> 40) & 0xff) + 0x1_0000_0000_0000 * ((w >> 48) & 0xff) + 0x100_0000_0000_0000 * ((w >> 56)
        & 0xff)) by (bit_vector);
    assert(forall|s: u64| #![auto] (w >> s) & 0xff <= 0xff) by (bit_vector);
    assert((8 * n) / 8 == n && (8 * n + 1) / 8 == n && (8 * n + 2) / 8 == n && (8 * n + 3) / 8 == n
        && (8 * n + 4) / 8 == n && (8 * n + 5) / 8 == n && (8 * n + 6) / 8 == n && (8 * n + 7) / 8
        == n);
    assert((8 * n) % 8 == 0 && (8 * n + 1) % 8 == 1 && (8 * n + 2) % 8 == 2 && (8 * n + 3) % 8 == 3
        && (8 * n + 4) % 8 == 4 && (8 * n + 5) % 8 == 5 && (8 * n + 6) % 8 == 6 && (8 * n + 7) % 8
        == 7);
}

} // verus!
