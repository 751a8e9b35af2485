//! Text: characters, decimal numbers, UTF-8 decoding and formatted output.
use crate::bytes::bytes_eq;
use vstd::prelude::*;
use vstd::slice::slice_subrange;
use vstd::string::*;
use vstd::utf8::*;

verus! {

/// `core::str::from_utf8`: it succeeds exactly on valid UTF-8 and decodes it.
#[verifier::external_body]
pub(crate) fn utf8_text<'a>(bytes: &'a [u8]) -> (text: Option<&'a str>)
    ensures
        text is Some <==> valid_utf8(bytes@),
        text matches Some(s) ==> s@ == decode_utf8(bytes@) && s.spec_bytes() == bytes@,
{
    core::str::from_utf8(bytes).ok()
}

/// `String::push` appends one character.
pub assume_specification[ String::push ](s: &mut String, c: char)
    ensures
        final(s)@ == old(s)@.push(c),
;

/// The decimal digits of a number, most significant first.
pub open spec fn decimal_text(n: nat) -> Seq<char>
    decreases n,
{
    if n < 10 {
        seq![(0x30 + n) as char]
    } else {
        decimal_text(n / 10).push((0x30 + n % 10) as char)
    }
}

/// A number in decimal.
pub fn decimal(n: u64) -> (r: String)
    ensures
        r@ == decimal_text(n as nat),
    decreases n,
{
    let mut out = if n < 10 {
        String::new()
    } else {
        decimal(n / 10)
    };
    let digit: u8 = 0x30 + (n % 10) as u8;
    out.push(digit as char);
    assert(out@ =~= decimal_text(n as nat));
    out
}

/// The characters of a text.
pub fn chars_of(text: &str) -> (r: Vec<char>)
    ensures
        r@ == text@,
{
    let mut out: Vec<char> = Vec::new();
    for c in it: text.chars()
        invariant
            it.seq() == text@,
            out@ == it.seq().take(it.index()),
    {
        out.push(c);
        assert(out@ =~= it.seq().take(it.index() + 1));
    }
    assert(text@.take(text@.len() as int) =~= text@);
    out
}

/// The text that some characters spell.
pub fn text_of(chars: &[char]) -> (r: String)
    ensures
        r@ == chars@,
{
    let mut out = String::new();
    let mut i: usize = 0;
    while i < chars.len()
        invariant
            i <= chars.len(),
            out@ == chars@.take(i as int),
        decreases chars.len() - i,
    {
        out.push(chars[i]);
        i += 1;
        assert(out@ =~= chars@.take(i as int));
    }
    assert(chars@.take(chars@.len() as int) =~= chars@);
    out
}

/// The views of a list of texts.
pub open spec fn texts(list: Seq<String>) -> Seq<Seq<char>> {
    list.map_values(|text: String| text@)
}

/// Whether two texts are the same.
pub fn same_text(a: &str, b: &str) -> (r: bool)
    ensures
        r == (a@ == b@),
{
    let r = bytes_eq(a.as_bytes(), b.as_bytes());
    proof {
        encode_utf8_decode_utf8(a@);
        encode_utf8_decode_utf8(b@);
    }
    r
}

/// Whether a text begins with `prefix`.
pub fn starts_with(text: &[char], prefix: &str) -> (r: bool)
    ensures
        r == prefix@.is_prefix_of(text@),
{
    let wanted = chars_of(prefix);
    if wanted.len() > text.len() {
        return false;
    }
    let mut i: usize = 0;
    while i < wanted.len()
        invariant
            i <= wanted.len() <= text.len(),
            wanted@ == prefix@,
            forall|k: int| 0 <= k < i ==> wanted@[k] == text@[k],
        decreases wanted.len() - i,
    {
        if wanted[i] != text[i] {
            assert(text@.take(prefix@.len() as int)[i as int] == text@[i as int]);
            return false;
        }
        i += 1;
    }
    assert(prefix@ =~= text@.take(prefix@.len() as int));
    true
}

/// What follows a place.
pub fn slice_from<'a>(text: &'a [char], from: usize) -> (r: &'a [char])
    requires
        from <= text.len(),
    ensures
        r@ == text@.skip(from as int),
{
    slice_subrange(text, from, text.len())
}

/// What precedes a place.
pub fn slice_to<'a>(text: &'a [char], to: usize) -> (r: &'a [char])
    requires
        to <= text.len(),
    ensures
        r@ == text@.take(to as int),
{
    slice_subrange(text, 0, to)
}

/// A place in a text as a mathematical integer.
pub open spec fn place_of(at: Option<usize>) -> Option<int> {
    match at {
        Some(at) => Some(at as int),
        None => None,
    }
}

/// The first place of a character.
pub fn first_place(text: &[char], c: char) -> (r: Option<usize>)
    ensures
        place_of(r) == text@.index_of_first(c),
        r matches Some(i) ==> i < text.len() && text@[i as int] == c,
{
    proof {
        text@.index_of_first_ensures(c);
    }
    let mut i: usize = 0;
    while i < text.len()
        invariant
            i <= text.len(),
            forall|k: int| 0 <= k < i ==> text@[k] != c,
            match text@.index_of_first(c) {
                Some(at) => text@.contains(c) && 0 <= at < text.len() && text@[at] == c && forall|
                    k: int,
                |
                    0 <= k < at ==> text@[k] != c,
                None => !text@.contains(c),
            },
        decreases text.len() - i,
    {
        if text[i] == c {
            assert(text@.contains(c));
            return Some(i);
        }
        i += 1;
    }
    None
}

/// The last place of a character.
pub fn last_place(text: &[char], c: char) -> (r: Option<usize>)
    ensures
        place_of(r) == text@.index_of_last(c),
        r matches Some(i) ==> i < text.len() && text@[i as int] == c,
{
    proof {
        text@.index_of_last_ensures(c);
    }
    let mut i: usize = text.len();
    while i > 0
        invariant
            i <= text.len(),
            forall|k: int| i <= k < text.len() ==> text@[k] != c,
            match text@.index_of_last(c) {
                Some(at) => text@.contains(c) && 0 <= at < text.len() && text@[at] == c && forall|
                    k: int,
                |
                    at < k < text.len() ==> text@[k] != c,
                None => !text@.contains(c),
            },
        decreases i,
    {
        i -= 1;
        if text[i] == c {
            assert(text@.contains(c));
            return Some(i);
        }
    }
    None
}

/// Whether every character is a decimal digit.
pub open spec fn all_digits(text: Seq<char>) -> bool {
    forall|k: int| 0 <= k < text.len() ==> '0' <= #[trigger] text[k] <= '9'
}

/// The number that decimal digits stand for.
pub open spec fn decimal_value(text: Seq<char>) -> nat
    decreases text.len(),
{
    if text.len() == 0 {
        0
    } else {
        decimal_value(text.drop_last()) * 10 + (text.last() as int - 0x30) as nat
    }
}

/// Whether every character is a decimal digit.
pub fn is_all_digits(text: &[char]) -> (r: bool)
    ensures
        r == all_digits(text@),
{
    let mut i: usize = 0;
    while i < text.len()
        invariant
            i <= text.len(),
            all_digits(text@.take(i as int)),
        decreases text.len() - i,
    {
        if text[i] < '0' || text[i] > '9' {
            assert(!('0' <= text@[i as int] <= '9'));
            return false;
        }
        i += 1;
        assert(all_digits(text@.take(i as int)));
    }
    assert(text@.take(text@.len() as int) =~= text@);
    true
}

/// A longer run of digits is no smaller number.
proof fn lemma_decimal_grows(text: Seq<char>, upto: int)
    requires
        0 <= upto <= text.len(),
        all_digits(text),
    ensures
        decimal_value(text.take(upto)) <= decimal_value(text),
    decreases text.len(),
{
    if upto == text.len() {
        assert(text.take(upto) =~= text);
    } else {
        assert(all_digits(text.drop_last()));
        lemma_decimal_grows(text.drop_last(), upto);
        assert(text.drop_last().take(upto) =~= text.take(upto));
    }
}

/// Read a decimal number that is at most `max`.
pub fn parse_decimal(text: &[char], max: u64) -> (r: Option<u64>)
    requires
        max <= 0xffff_ffff,
    ensures
        r is Some <==> text@.len() > 0 && all_digits(text@) && decimal_value(text@) <= max,
        r matches Some(n) ==> n == decimal_value(text@),
{
    if text.len() == 0 || !is_all_digits(text) {
        return None;
    }
    let mut n: u64 = 0;
    let mut i: usize = 0;
    assert(text@.take(0) =~= Seq::<char>::empty());
    while i < text.len()
        invariant
            i <= text.len(),
            max <= 0xffff_ffff,
            n <= max,
            all_digits(text@),
            n == decimal_value(text@.take(i as int)),
        decreases text.len() - i,
    {
        assert('0' <= text@[i as int] <= '9');
        let digit: u64 = (text[i] as u32 - 0x30) as u64;
        n = n * 10 + digit;
        proof {
            let next = text@.take(i + 1);
            assert(next.drop_last() =~= text@.take(i as int));
            lemma_decimal_grows(text@, i + 1);
        }
        if n > max {
            return None;
        }
        i += 1;
    }
    assert(text@.take(text@.len() as int) =~= text@);
    Some(n)
}

/// The characters that Unicode calls white space.
pub open spec fn white_space(c: char) -> bool {
    ||| '\u{9}' <= c <= '\u{d}'
    ||| c == ' '
    ||| c == '\u{85}'
    ||| c == '\u{a0}'
    ||| c == '\u{1680}'
    ||| '\u{2000}' <= c <= '\u{200a}'
    ||| c == '\u{2028}'
    ||| c == '\u{2029}'
    ||| c == '\u{202f}'
    ||| c == '\u{205f}'
    ||| c == '\u{3000}'
}

/// A text without the white space at its ends.
pub open spec fn trimmed(text: Seq<char>) -> Seq<char>
    decreases text.len(),
{
    if text.len() == 0 {
        text
    } else if white_space(text.first()) {
        trimmed(text.drop_first())
    } else if white_space(text.last()) {
        trimmed(text.drop_last())
    } else {
        text
    }
}

fn is_white_space(c: char) -> (r: bool)
    ensures
        r == white_space(c),
{
    ('\u{9}' <= c && c <= '\u{d}') || c == ' ' || c == '\u{85}' || c == '\u{a0}' || c == '\u{1680}'
        || ('\u{2000}' <= c && c <= '\u{200a}') || c == '\u{2028}' || c == '\u{2029}' || c
        == '\u{202f}' || c == '\u{205f}' || c == '\u{3000}'
}

/// Take the white space off the ends of a text.
pub fn trim(text: &[char]) -> (r: &[char])
    ensures
        r@ == trimmed(text@),
{
    let mut from: usize = 0;
    let mut to: usize = text.len();
    assert(text@.subrange(0, to as int) =~= text@);
    while from < to && is_white_space(text[from])
        invariant
            from <= to == text@.len(),
            trimmed(text@) == trimmed(text@.subrange(from as int, to as int)),
        decreases to - from,
    {
        proof {
            let rest = text@.subrange(from as int, to as int);
            assert(rest.drop_first() =~= text@.subrange(from as int + 1, to as int));
        }
        from += 1;
    }
    while from < to && is_white_space(text[to - 1])
        invariant
            from <= to <= text@.len(),
            from < to ==> !white_space(text@[from as int]),
            trimmed(text@) == trimmed(text@.subrange(from as int, to as int)),
        decreases to - from,
    {
        proof {
            let rest = text@.subrange(from as int, to as int);
            assert(rest.drop_last() =~= text@.subrange(from as int, to as int - 1));
        }
        to -= 1;
    }
    slice_subrange(text, from, to)
}

/// What `str::to_lowercase` makes of a text.
pub uninterp spec fn unicode_lowercase(text: Seq<char>) -> Seq<char>;

/// A character with `A` to `Z` mapped to `a` to `z`.
pub open spec fn ascii_lower(c: char) -> char {
    if 'A' <= c <= 'Z' {
        (c as int + 0x20) as char
    } else {
        c
    }
}

/// A text with `A` to `Z` mapped to `a` to `z`.
pub open spec fn ascii_lowered(text: Seq<char>) -> Seq<char> {
    text.map_values(|c: char| ascii_lower(c))
}

/// `str::to_lowercase`: the lowercase equivalent of a text, which for ASCII maps
/// `A` to `Z` and keeps the rest.
#[verifier::external_body]
pub(crate) fn lowercase(text: &str) -> (r: String)
    ensures
        r@ == unicode_lowercase(text@),
        is_ascii_chars(text@) ==> r@ == ascii_lowered(text@),
{
    text.to_lowercase()
}

/// What the `Debug` form of a text is.
pub uninterp spec fn debug_text(text: Seq<char>) -> Seq<char>;

/// The `Debug` form of `str`: the text between quotes, with quotes, backslashes and
/// what does not print escaped.  How each character is escaped is left unsaid.
#[verifier::external_body]
pub(crate) fn quoted(text: &str) -> (r: String)
    ensures
        r@ == debug_text(text@),
{
    format!("{:?}", text)
}

/// The formatter that `Debug` and `Display` write to.
#[verifier::external_type_specification]
#[verifier::external_body]
pub struct ExFormatter<'a>(core::fmt::Formatter<'a>);

/// The error a formatter reports.
#[verifier::external_type_specification]
#[verifier::external_body]
pub struct ExFmtError(core::fmt::Error);

/// `core::fmt::Formatter::write_str`: nothing is promised of the formatter, which
/// belongs to the caller.
#[verifier::external_body]
pub(crate) fn write_text(f: &mut core::fmt::Formatter<'_>, text: &str) -> core::fmt::Result {
    f.write_str(text)
}

/// `Debug::fmt` of a byte string: nothing is promised of the formatter, which belongs to
/// the caller.
#[verifier::external_body]
pub(crate) fn write_bytes(f: &mut core::fmt::Formatter<'_>, bytes: &[u8]) -> core::fmt::Result {
    core::fmt::Debug::fmt(bytes, f)
}

} // verus!
