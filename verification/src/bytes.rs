//! Byte strings: comparison, copying and big-endian integers.
use vstd::prelude::*;

verus! {

/// `256` to the power of `n`.
pub open spec fn pow256(n: nat) -> nat
    decreases n,
{
    if n == 0 {
        1
    } else {
        256 * pow256((n - 1) as nat)
    }
}

/// The number that `s` spells in base 256, most significant byte first.
pub open spec fn be_value(s: Seq<u8>) -> nat
    decreases s.len(),
{
    if s.len() == 0 {
        0
    } else {
        256 * be_value(s.drop_last()) + s.last() as nat
    }
}

/// The low `n` base-256 digits of `x`, most significant first.
pub open spec fn be_bytes(x: nat, n: nat) -> Seq<u8>
    decreases n,
{
    if n == 0 {
        Seq::empty()
    } else {
        be_bytes(x / 256, (n - 1) as nat).push((x % 256) as u8)
    }
}

/// A spelling has the length that was asked for.
pub proof fn lemma_be_bytes_len(x: nat, n: nat)
    ensures
        be_bytes(x, n).len() == n,
    decreases n,
{
    if n > 0 {
        lemma_be_bytes_len(x / 256, (n - 1) as nat);
    }
}

/// Reading back what was written gives the number, as long as it fits.
pub proof fn lemma_be_round_trip(x: nat, n: nat)
    requires
        x < pow256(n),
    ensures
        be_bytes(x, n).len() == n,
        be_value(be_bytes(x, n)) == x,
    decreases n,
{
    if n > 0 {
        let rest = be_bytes(x / 256, (n - 1) as nat);
        assert(x / 256 < pow256((n - 1) as nat));
        lemma_be_round_trip(x / 256, (n - 1) as nat);
        assert(be_bytes(x, n).drop_last() =~= rest);
    }
}

/// Writing what was read gives the bytes back, and a spelling of `n` bytes is below `256^n`.
pub proof fn lemma_be_value(s: Seq<u8>)
    ensures
        be_value(s) < pow256(s.len()),
        be_bytes(be_value(s), s.len()) == s,
    decreases s.len(),
{
    if s.len() > 0 {
        lemma_be_value(s.drop_last());
        let high = be_value(s.drop_last());
        assert(be_value(s) / 256 == high);
        assert(be_value(s) % 256 == s.last() as nat);
        assert(s.drop_last().push(s.last()) =~= s);
    }
}

/// Two bytes spell `256 * high + low`.
pub proof fn lemma_be_value_two(s: Seq<u8>)
    requires
        s.len() == 2,
    ensures
        be_value(s) == 256 * s[0] as nat + s[1] as nat,
{
    reveal_with_fuel(be_value, 3);
}

/// The two-byte spelling of a number below 65536.
pub proof fn lemma_be_bytes_two(x: nat)
    ensures
        be_bytes(x, 2) == seq![((x / 256) % 256) as u8, (x % 256) as u8],
{
    reveal_with_fuel(be_bytes, 3);
    assert(be_bytes(x, 2) =~= seq![((x / 256) % 256) as u8, (x % 256) as u8]);
}

/// The powers that bound the integers used on the wire.
pub proof fn lemma_pow256_values()
    ensures
        pow256(2) == 0x1_0000,
        pow256(4) == 0x1_0000_0000,
        pow256(8) == 0x1_0000_0000_0000_0000,
{
    reveal_with_fuel(pow256, 9);
}

/// Byte-wise equality of two byte strings.
pub fn bytes_eq(a: &[u8], b: &[u8]) -> (r: bool)
    ensures
        r == (a@ == b@),
{
    if a.len() != b.len() {
        return false;
    }
    let mut i: usize = 0;
    while i < a.len()
        invariant
            i <= a.len(),
            a.len() == b.len(),
            forall|k: int| 0 <= k < i ==> a@[k] == b@[k],
        decreases a.len() - i,
    {
        if a[i] != b[i] {
            assert(a@[i as int] != b@[i as int]);
            return false;
        }
        i += 1;
    }
    assert(a@ =~= b@);
    true
}

/// Whether two arrays are the same.
pub fn same_array<const N: usize>(a: &[u8; N], b: &[u8; N]) -> (r: bool)
    ensures
        r == (*a == *b),
{
    let r = bytes_eq(a, b);
    proof {
        if a@ == b@ {
            assert(*a =~= *b);
        }
    }
    r
}

/// Append `more` to `out`.
pub fn append(out: &mut Vec<u8>, more: &[u8])
    ensures
        final(out)@ == old(out)@ + more@,
{
    let ghost before = out@;
    out.extend_from_slice(more);
    proof {
        assert(out@ =~= before + more@);
    }
}

/// A copy of a byte string.
pub fn to_vec(bytes: &[u8]) -> (r: Vec<u8>)
    ensures
        r@ == bytes@,
{
    let mut out: Vec<u8> = Vec::with_capacity(bytes.len());
    append(&mut out, bytes);
    assert(out@ =~= bytes@);
    out
}

/// The byte string as an array, when it has exactly the array's length.
pub fn fixed<const N: usize>(body: &[u8]) -> (r: Option<[u8; N]>)
    ensures
        r is Some <==> body@.len() == N,
        r matches Some(array) ==> array@ == body@,
{
    if body.len() != N {
        return None;
    }
    let mut out = [0u8; N];
    let mut i: usize = 0;
    while i < N
        invariant
            i <= N,
            body@.len() == N,
            forall|k: int| 0 <= k < i ==> out@[k] == body@[k],
        decreases N - i,
    {
        out[i] = body[i];
        i += 1;
    }
    assert(out@ =~= body@);
    Some(out)
}

/// The `N` bytes of `bytes` that start at `at`.
pub fn array_at<const N: usize>(bytes: &[u8], at: usize) -> (r: [u8; N])
    requires
        at + N <= bytes@.len(),
    ensures
        r@ == bytes@.subrange(at as int, at + N),
{
    let mut out = [0u8; N];
    let mut i: usize = 0;
    while i < N
        invariant
            i <= N,
            at + N <= bytes.len(),
            forall|k: int| 0 <= k < i ==> out@[k] == bytes@[at + k],
        decreases N - i,
    {
        out[i] = bytes[at + i];
        i += 1;
    }
    assert(out@ =~= bytes@.subrange(at as int, at + N));
    out
}

/// Overwrite the bytes of `out` that start at `at` with `src`.
pub fn write_at<const N: usize>(out: &mut [u8; N], at: usize, src: &[u8])
    requires
        at + src@.len() <= N,
    ensures
        final(out)@ == old(out)@.subrange(0, at as int) + src@ + old(out)@.subrange(
            at + src@.len(),
            N as int,
        ),
{
    let ghost before = out@;
    let mut i: usize = 0;
    while i < src.len()
        invariant
            i <= src.len(),
            at + src@.len() <= N,
            before.len() == N,
            forall|k: int|
                0 <= k < N ==> out@[k] == if at <= k < at + i {
                    src@[k - at]
                } else {
                    before[k]
                },
        decreases src.len() - i,
    {
        out[at + i] = src[i];
        i += 1;
    }
    proof {
        assert(out@ =~= before.subrange(0, at as int) + src@ + before.subrange(
            at + src@.len(),
            N as int,
        ));
    }
}

/// The big-endian spelling of a 16-bit number.
pub fn to_be16(x: u16) -> (r: [u8; 2])
    ensures
        r@ == be_bytes(x as nat, 2),
{
    let r = [(x / 256) as u8, (x % 256) as u8];
    proof {
        lemma_be_bytes_two(x as nat);
        assert(r@ =~= be_bytes(x as nat, 2));
    }
    r
}

/// The 16-bit number that two bytes spell.
pub fn be16(high: u8, low: u8) -> (r: u16)
    ensures
        r as nat == be_value(seq![high, low]),
        r == 256 * high + low,
{
    proof {
        lemma_be_value_two(seq![high, low]);
    }
    high as u16 * 256 + low as u16
}

/// The big-endian spelling of a 32-bit number.
pub fn to_be32(x: u32) -> (r: [u8; 4])
    ensures
        r@ == be_bytes(x as nat, 4),
{
    let r = [
        (x / 0x100_0000) as u8,
        ((x / 0x1_0000) % 256) as u8,
        ((x / 256) % 256) as u8,
        (x % 256) as u8,
    ];
    proof {
        reveal_with_fuel(be_bytes, 5);
        assert(r@ =~= be_bytes(x as nat, 4));
    }
    r
}

/// The 32-bit number that four bytes spell.
pub fn be32(bytes: &[u8; 4]) -> (r: u32)
    ensures
        r as nat == be_value(bytes@),
{
    proof {
        reveal_with_fuel(be_value, 5);
    }
    bytes[0] as u32 * 0x100_0000 + bytes[1] as u32 * 0x1_0000 + bytes[2] as u32 * 256
        + bytes[3] as u32
}

/// The big-endian spelling of a 64-bit number.
pub fn to_be64(x: u64) -> (r: [u8; 8])
    ensures
        r@ == be_bytes(x as nat, 8),
{
    let mut out = [0u8; 8];
    let mut rest: u64 = x;
    let mut i: usize = 8;
    proof {
        lemma_be_bytes_len(x as nat, 8);
        assert(be_bytes(x as nat, 8) =~= be_bytes(rest as nat, 8) + out@.subrange(8, 8));
    }
    while i > 0
        invariant
            i <= 8,
            be_bytes(x as nat, 8) == be_bytes(rest as nat, i as nat) + out@.subrange(i as int, 8),
        decreases i,
    {
        let ghost tail = out@.subrange(i as int, 8);
        let digit: u8 = (rest % 256) as u8;
        i -= 1;
        out[i] = digit;
        proof {
            lemma_be_bytes_len((rest / 256) as nat, i as nat);
            assert(be_bytes(rest as nat, (i + 1) as nat) == be_bytes(
                (rest / 256) as nat,
                i as nat,
            ).push(digit));
            assert(out@.subrange(i as int, 8) =~= seq![digit] + tail);
            assert(be_bytes((rest / 256) as nat, i as nat).push(digit) + tail =~= be_bytes(
                (rest / 256) as nat,
                i as nat,
            ) + out@.subrange(i as int, 8));
        }
        rest = rest / 256;
    }
    assert(out@ =~= be_bytes(x as nat, 8));
    out
}

/// The 64-bit number that eight bytes spell.
pub fn be64(bytes: &[u8]) -> (r: u64)
    requires
        bytes@.len() == 8,
    ensures
        r as nat == be_value(bytes@),
{
    let mut value: u64 = 0;
    let mut i: usize = 0;
    assert(bytes@.subrange(0, 0) =~= Seq::<u8>::empty());
    while i < 8
        invariant
            i <= 8,
            bytes@.len() == 8,
            value as nat == be_value(bytes@.subrange(0, i as int)),
        decreases 8 - i,
    {
        proof {
            let next = bytes@.subrange(0, i + 1);
            assert(next.drop_last() =~= bytes@.subrange(0, i as int));
            lemma_be_value(next);
            lemma_pow256_values();
            lemma_pow256_monotonic((i + 1) as nat, 8);
        }
        value = value * 256 + bytes[i] as u64;
        i += 1;
    }
    assert(bytes@.subrange(0, 8) =~= bytes@);
    value
}

proof fn lemma_pow256_monotonic(m: nat, n: nat)
    requires
        m <= n,
    ensures
        pow256(m) <= pow256(n),
        pow256(m) >= 1,
    decreases n,
{
    if m < n {
        lemma_pow256_monotonic(m, (n - 1) as nat);
    } else if m > 0 {
        lemma_pow256_monotonic((m - 1) as nat, (m - 1) as nat);
    }
}

} // verus!
