//! What holds of blobs on their way, and of virtual sockets.
use crate::blossom::fetch::{
    after_slash, before, body_verdict, canonical_source, digest_bytes, digest_part, host_is_node,
    is_digest, lower_hex, next_read, selection_fault, size_fault, source_fault, source_names,
    status_number, without_slashes, BodyFault, FetchFault, LanBlobLimits, LanBodyView,
};
use crate::blossom::serve::{
    answer_header, part_fault, sent_after, serves, total, BodyGauge, ServeStep, SourceFault,
};
use crate::blossom::wire::{
    carried, content_bytes, header_verdict, header_wire, request_bytes, request_verdict, HeaderView,
    WireError,
};
use crate::bytes::{be_bytes, be_value, lemma_be_round_trip, lemma_pow256_values};
use crate::crypto::{hex_digit_value, hex_text, is_hex_digit, sha256_digest, unhex};
use crate::id::{base32_text, NodeId};
use crate::link_url::UrlView;
use crate::websocket::{socket_answer, url_fault, SocketEvent, SocketStep};
use vstd::prelude::*;
use vstd::utf8::*;

verus! {

// ---------------------------------------------------------------------------
// Requests
// ---------------------------------------------------------------------------
/// Whether bytes begin with `FSLB`.
pub open spec fn marked(bytes: Seq<u8>) -> bool {
    bytes[0] as int == 'F' as int && bytes[1] as int == 'S' as int && bytes[2] as int == 'L' as int
        && bytes[3] as int == 'B' as int
}

/// A request is `FSLB`, a one and the digest as it is.
pub proof fn law_the_layout_of_a_request(sha256: Seq<u8>)
    requires
        sha256.len() == 32,
    ensures
        request_bytes(sha256).len() == 37,
        marked(request_bytes(sha256)),
        request_bytes(sha256)[4] == 1,
        request_bytes(sha256).skip(5) == sha256,
{
    assert(request_bytes(sha256).skip(5) =~= sha256);
}

/// A request is read exactly if thirty-seven bytes are there, marked and of version one;
/// its digest is the last thirty-two of them.
pub proof fn law_which_requests_are_read(bytes: Seq<u8>)
    requires
        bytes.len() <= usize::MAX,
    ensures
        bytes.len() >= 37 && marked(bytes) && bytes[4] == 1 ==> request_verdict(bytes) == Ok::<
            _,
            WireError,
        >(bytes.subrange(5, 37)),
        bytes.len() < 37 ==> request_verdict(bytes) == Err::<Seq<u8>, _>(
            WireError::Short { needed: 37, had: bytes.len() as usize },
        ),
        bytes.len() >= 37 && !marked(bytes) ==> request_verdict(bytes) == Err::<Seq<u8>, _>(
            WireError::BadMagic,
        ),
        bytes.len() >= 37 && marked(bytes) && bytes[4] != 1 ==> request_verdict(bytes) == Err::<
            Seq<u8>,
            _,
        >(WireError::BadVersion(bytes[4])),
{
    if bytes.len() >= 37 {
        let front = bytes.subrange(0, 4);
        let magic = crate::blossom::wire::REQUEST_MAGIC@;
        if marked(bytes) {
            assert(front =~= magic);
        } else if front == magic {
            assert(front[0] == magic[0] && front[1] == magic[1] && front[2] == magic[2] && front[3]
                == magic[3]);
        }
    }
}

/// A whole request leads to a lookup of the digest it names, one of another version to the
/// single byte three, and anything else to nothing.
pub proof fn law_what_a_request_leads_to(bytes: Seq<u8>, step: ServeStep)
    requires
        bytes.len() <= usize::MAX,
        serves(bytes, step),
    ensures
        bytes.len() < 37 || !marked(bytes) ==> step is Reset,
        bytes.len() >= 37 && marked(bytes) && bytes[4] == 1 ==> (step matches ServeStep::Lookup(text)
            && text@ == hex_text(bytes.subrange(5, 37))),
        bytes.len() >= 37 && marked(bytes) && bytes[4] != 1 ==> (step matches ServeStep::Answer(
            header,
        ) && header@ == seq![3u8]),
{
    law_which_requests_are_read(bytes);
}

/// The digit for a value below sixteen, in lower case.
pub open spec fn digit(value: int) -> char {
    "0123456789abcdef"@[value]
}

/// Each byte is written as two lower-case digits, the high one first, and read back from
/// them.
pub proof fn law_bytes_are_written_in_hexadecimal(bytes: Seq<u8>, i: int)
    requires
        0 <= i < bytes.len(),
    ensures
        hex_text(bytes).len() == 2 * bytes.len(),
        hex_text(bytes)[2 * i] == digit(bytes[i] as int / 16),
        hex_text(bytes)[2 * i + 1] == digit(bytes[i] as int % 16),
        unhex(hex_text(bytes).map_values(|c: char| c as u8)) == bytes,
{
    reveal_strlit("0123456789abcdef");
    let text = hex_text(bytes);
    assert((2 * i) / 2 == i && (2 * i + 1) / 2 == i);
    assert((2 * i) % 2 == 0 && (2 * i + 1) % 2 == 1);
    let codes = text.map_values(|c: char| c as u8);
    assert forall|k: int| 0 <= k < bytes.len() implies #[trigger] unhex(codes)[k] == bytes[k] by {
        assert((2 * k) / 2 == k && (2 * k + 1) / 2 == k);
        assert((2 * k) % 2 == 0 && (2 * k + 1) % 2 == 1);
        assert(codes[2 * k] == text[2 * k] as u8);
        assert(codes[2 * k + 1] == text[2 * k + 1] as u8);
        assert(hex_digit_value(codes[2 * k]) == bytes[k] as int / 16);
        assert(hex_digit_value(codes[2 * k + 1]) == bytes[k] as int % 16);
    }
    assert(unhex(codes) =~= bytes);
}

/// A digit of either case has its value, and nothing else is a digit.
pub proof fn law_digits_have_their_values(value: int, c: u8)
    requires
        0 <= value < 16,
    ensures
        is_hex_digit(c) ==> 0 <= hex_digit_value(c) < 16 && (c as char == digit(hex_digit_value(c))
            || c as char == "0123456789ABCDEF"@[hex_digit_value(c)]),
        is_hex_digit(digit(value) as u8),
        is_hex_digit("0123456789ABCDEF"@[value] as u8),
        hex_digit_value(digit(value) as u8) == value,
        hex_digit_value("0123456789ABCDEF"@[value] as u8) == value,
{
    reveal_strlit("0123456789abcdef");
    reveal_strlit("0123456789ABCDEF");
}

// ---------------------------------------------------------------------------
// Response headers
// ---------------------------------------------------------------------------
/// A header that announces a blob is a zero, the size in eight bytes, the length of the
/// media type in two, and the media type; every other header is its number.
pub proof fn law_the_layout_of_a_header(header: HeaderView)
    ensures
        match header {
            HeaderView::Found { size, content_type } => {
                let wire = header_wire(header);
                &&& wire[0] == 0
                &&& be_value(wire.subrange(1, 9)) == size
                &&& be_value(wire.subrange(9, 11)) == wire.len() - 11
                &&& wire.skip(11) == content_bytes(content_type)
            },
            HeaderView::NotFound => header_wire(header) == seq![1u8],
            HeaderView::Error => header_wire(header) == seq![2u8],
            HeaderView::UnsupportedVersion => header_wire(header) == seq![3u8],
        },
{
    if let HeaderView::Found { size, content_type } = header {
        let wire = header_wire(header);
        let text = content_bytes(content_type);
        lemma_pow256_values();
        lemma_be_round_trip(size as nat, 8);
        lemma_be_round_trip(text.len(), 2);
        assert(wire.subrange(1, 9) =~= be_bytes(size as nat, 8));
        assert(wire.subrange(9, 11) =~= be_bytes(text.len(), 2));
        assert(wire.skip(11) =~= text);
    }
}

/// A media type of one to two hundred and fifty-five bytes travels whole; a longer one, an
/// empty one and none at all leave no trace.  The size always travels.
pub proof fn law_what_travels_of_a_header(size: u64, text: Seq<char>)
    ensures
        ({
            let bytes = encode_utf8(text);
            let with = HeaderView::Found { size, content_type: Some(text) };
            let bare = HeaderView::Found { size, content_type: None };
            &&& content_bytes(None) == Seq::<u8>::empty()
            &&& bytes.len() <= 255 ==> content_bytes(Some(text)) == bytes
            &&& bytes.len() > 255 ==> content_bytes(Some(text)) == Seq::<u8>::empty()
            &&& 1 <= bytes.len() <= 255 ==> carried(with) == with
            &&& bytes.len() == 0 || bytes.len() > 255 ==> carried(with) == bare
            &&& carried(bare) == bare
        }),
{
}

/// The front of a buffer is a header exactly by its first byte, and with zero in front by
/// the length of a media type that is there, short enough and UTF-8.
pub proof fn law_which_headers_are_read(bytes: Seq<u8>)
    requires
        bytes.len() <= usize::MAX,
    ensures
        ({
            let verdict = header_verdict(bytes);
            let content = be_value(bytes.subrange(9, 11)) as int;
            let text = bytes.subrange(11, 11 + content);
            &&& bytes.len() > 0 && bytes[0] == 1 ==> verdict == Ok::<_, WireError>(
                (HeaderView::NotFound, 1nat),
            )
            &&& bytes.len() > 0 && bytes[0] == 2 ==> verdict == Ok::<_, WireError>(
                (HeaderView::Error, 1nat),
            )
            &&& bytes.len() > 0 && bytes[0] == 3 ==> verdict == Ok::<_, WireError>(
                (HeaderView::UnsupportedVersion, 1nat),
            )
            &&& bytes.len() > 0 && bytes[0] > 3 ==> verdict == Err::<(HeaderView, nat), _>(
                WireError::BadStatus(bytes[0]),
            )
            &&& bytes.len() == 0 ==> verdict == Err::<(HeaderView, nat), _>(
                WireError::Short { needed: 1, had: 0 },
            )
            &&& 0 < bytes.len() < 11 && bytes[0] == 0 ==> verdict == Err::<(HeaderView, nat), _>(
                WireError::Short { needed: 11, had: bytes.len() as usize },
            )
            &&& bytes.len() >= 11 && bytes[0] == 0 ==> {
                &&& content > 255 ==> verdict == Err::<(HeaderView, nat), _>(
                    WireError::ContentTypeTooLong(content as u16),
                )
                &&& content <= 255 && bytes.len() < 11 + content ==> verdict == Err::<
                    (HeaderView, nat),
                    _,
                >(WireError::Short { needed: (11 + content) as usize, had: bytes.len() as usize })
                &&& content <= 255 && bytes.len() >= 11 + content && content > 0 && !valid_utf8(text)
                    ==> verdict == Err::<(HeaderView, nat), _>(WireError::BadContentType)
                &&& content <= 255 && bytes.len() >= 11 + content && (content == 0 || valid_utf8(
                    text,
                )) ==> {
                    &&& verdict is Ok
                    &&& verdict->Ok_0.1 == 11 + content
                    &&& verdict->Ok_0.0 is Found
                    &&& verdict->Ok_0.0->size == be_value(bytes.subrange(1, 9)) as u64
                    &&& content == 0 ==> verdict->Ok_0.0->content_type is None
                    &&& content > 0 ==> verdict->Ok_0.0->content_type == Some(decode_utf8(text))
                }
            }
        }),
{
}

/// A blob that is found within the limit is announced as it is; one above the limit is an
/// error, and one that is not found is said to be so.
pub proof fn law_what_a_lookup_is_answered(
    size: u64,
    content_type: Option<Seq<char>>,
    max_size: Option<u64>,
)
    ensures
        answer_header(None, max_size) is NotFound,
        max_size is None || size <= max_size->0 ==> answer_header(
            Some((size, content_type)),
            max_size,
        ) == (HeaderView::Found { size, content_type }),
        max_size is Some && max_size->0 < size ==> answer_header(
            Some((size, content_type)),
            max_size,
        ) is Error,
{
}

// ---------------------------------------------------------------------------
// Bodies
// ---------------------------------------------------------------------------
/// Parts pass exactly if together they are no longer than the body was declared; all of
/// them are counted.
pub proof fn law_parts_pass_up_to_the_size(size: u64, lengths: Seq<usize>)
    ensures
        sent_after(BodyGauge { size, sent: 0 }, lengths) is Some <==> total(lengths) <= size,
        sent_after(BodyGauge { size, sent: 0 }, lengths) is Some ==> sent_after(
            BodyGauge { size, sent: 0 },
            lengths,
        ) == Some(BodyGauge { size, sent: total(lengths) as u64 }),
    decreases lengths.len(),
{
    if lengths.len() > 0 {
        law_parts_pass_up_to_the_size(size, lengths.drop_last());
    }
}

/// The length of two runs of parts is the sum of theirs; one part has its own.
pub proof fn law_lengths_add_up(a: Seq<usize>, b: Seq<usize>, one: usize)
    ensures
        total(a + b) == total(a) + total(b),
        total(seq![one]) == one,
        total(Seq::empty()) == 0,
    decreases b.len(),
{
    assert(seq![one].drop_last() =~= Seq::<usize>::empty());
    reveal_with_fuel(total, 2);
    if b.len() > 0 {
        assert((a + b).drop_last() =~= a + b.drop_last());
        law_lengths_add_up(a, b.drop_last(), one);
    } else {
        assert(a + b =~= a);
    }
}

/// A part is refused exactly if it does not fit what is left.
pub proof fn law_which_parts_are_refused(gauge: BodyGauge, length: usize)
    requires
        gauge.sent <= gauge.size,
    ensures
        part_fault(gauge, length) is None <==> length <= gauge.size - gauge.sent,
        length > u64::MAX - gauge.sent ==> part_fault(gauge, length) == Some(SourceFault::Overflow),
        gauge.size - gauge.sent < length <= u64::MAX - gauge.sent ==> part_fault(gauge, length)
            == Some(SourceFault::TooLong),
{
}

/// A read asks for what is outstanding, sixty-four kibibytes at most, so that it never asks
/// for nothing while something is outstanding.
pub proof fn law_reads_are_bounded(remaining: u64)
    ensures
        next_read(remaining) <= remaining,
        next_read(remaining) <= 65_536,
        remaining <= 65_536 ==> next_read(remaining) == remaining,
        remaining > 65_536 ==> next_read(remaining) == 65_536,
{
}

/// A body is good exactly if its stream ended right after it and its digest is the one that
/// was asked for.
pub proof fn law_which_bodies_are_good(body: LanBodyView, extra: Option<usize>)
    ensures
        body_verdict(body, extra) is None <==> extra == Some(0usize) && sha256_digest(body.read)
            == body.expected,
        extra is None ==> body_verdict(body, extra) == Some(BodyFault::NoFin),
        extra is Some && extra->0 > 0 ==> body_verdict(body, extra) == Some(BodyFault::TooLong),
        extra == Some(0usize) && sha256_digest(body.read) != body.expected ==> body_verdict(
            body,
            extra,
        ) == Some(BodyFault::Digest),
{
}

/// A declared size is accepted exactly if it is within the limit and the one that was
/// expected, if one was.
pub proof fn law_which_sizes_are_accepted(size: u64, expected: Option<u64>, limits: LanBlobLimits)
    ensures
        size_fault(size, expected, limits) is None <==> size <= limits.max_blob_bytes && (
        expected is Some ==> expected->0 == size),
        status_number(HeaderView::NotFound) == 404,
        status_number(HeaderView::Error) == 500,
        status_number(HeaderView::UnsupportedVersion) == 505,
{
}

// ---------------------------------------------------------------------------
// Sources
// ---------------------------------------------------------------------------
/// What is left after the leading slashes begins with none of them.
pub proof fn law_leading_slashes_go(text: Seq<char>)
    ensures
        without_slashes(text).len() > 0 ==> without_slashes(text)[0] != '/',
        without_slashes(seq!['/'] + text) == without_slashes(text),
        text.len() > 0 && text[0] != '/' ==> without_slashes(text) == text,
        exists|n: int|
            0 <= n <= text.len() && #[trigger] text.skip(n) == without_slashes(text) && forall|
                i: int,
            |
                0 <= i < n ==> text[i] == '/',
    decreases text.len(),
{
    let more = seq!['/'] + text;
    assert(more.skip(1) =~= text);
    assert(more[0] == '/');
    if text.len() > 0 && text[0] == '/' {
        let rest = text.skip(1);
        law_leading_slashes_go(rest);
        let n = choose|n: int|
            0 <= n <= rest.len() && #[trigger] rest.skip(n) == without_slashes(rest) && forall|
                i: int,
            |
                0 <= i < n ==> rest[i] == '/';
        assert(text.skip(n + 1) =~= rest.skip(n));
        assert forall|i: int| 0 <= i < n + 1 implies text[i] == '/' by {
            if i > 0 {
                assert(rest[i - 1] == '/');
            }
        }
    } else {
        assert(text.skip(0) =~= text);
    }
}

/// What precedes a character does not hold it, and nothing that precedes it is lost.
pub proof fn law_what_precedes_a_character(text: Seq<char>, c: char, rest: Seq<char>)
    ensures
        !before(text, c).contains(c),
        !text.contains(c) ==> before(text, c) == text && before(text + seq![c] + rest, c) == text,
{
    text.index_of_first_ensures(c);
    if text.contains(c) {
        let at = text.index_of_first(c)->0;
        let front = text.take(at);
        if front.contains(c) {
            let k = choose|k: int| 0 <= k < front.len() && front[k] == c;
            assert(text[k] == c);
        }
    } else {
        let whole = text + seq![c] + rest;
        let at = text.len() as int;
        assert(whole[at] == c);
        assert(whole.contains(c));
        whole.index_of_first_ensures(c);
        let first = whole.index_of_first(c)->0;
        if first < at {
            assert(text[first] == c);
        }
        assert(first == at);
        assert(whole.take(at) =~= text);
    }
}

/// The digest of a path is its first segment, whether an extension follows, further
/// segments or nothing.
pub proof fn law_the_digest_of_a_path(name: Seq<char>, rest: Seq<char>)
    requires
        name.len() > 0,
        !name.contains('/'),
        !name.contains('.'),
    ensures
        digest_part(seq!['/'] + name) == name,
        !rest.contains('/') ==> digest_part(seq!['/'] + (name + seq!['.'] + rest)) == name,
        digest_part(seq!['/'] + (name + seq!['/'] + rest)) == name,
{
    assert(name[0] != '/') by {
        if name[0] == '/' {
            assert(name.contains('/'));
        }
    }
    lemma_path_of(name);
    law_what_precedes_a_character(name, '/', rest);
    law_what_precedes_a_character(name, '.', rest);
    let dotted = name + seq!['.'] + rest;
    if !rest.contains('/') {
        lemma_path_of(dotted);
        lemma_no_slash(name, rest);
        law_what_precedes_a_character(dotted, '/', rest);
    }
    lemma_path_of(name + seq!['/'] + rest);
}

proof fn lemma_path_of(whole: Seq<char>)
    requires
        whole.len() > 0,
        whole[0] != '/',
    ensures
        digest_part(seq!['/'] + whole) == before(before(whole, '/'), '.'),
{
    law_leading_slashes_go(whole);
}

proof fn lemma_no_slash(name: Seq<char>, rest: Seq<char>)
    requires
        !name.contains('/'),
        !rest.contains('/'),
    ensures
        !(name + seq!['.'] + rest).contains('/'),
{
    let dotted = name + seq!['.'] + rest;
    if dotted.contains('/') {
        let k = choose|k: int| 0 <= k < dotted.len() && dotted[k] == '/';
        if k < name.len() {
            assert(name[k] == '/');
        } else if k > name.len() {
            assert(rest[k - name.len() - 1] == '/');
        }
    }
}

/// A source is taken exactly if it is an `fsl` URL whose host is a node and whose path
/// begins with sixty-four lower-case hexadecimal digits.
pub proof fn law_which_sources_are_taken(url: UrlView, is_node: bool)
    ensures
        source_fault(url, is_node) is None <==> {
            let text = digest_part(url.path);
            &&& url.scheme == "fsl"@
            &&& url.host is Some
            &&& is_node
            &&& text.len() == 64
            &&& forall|i: int|
                0 <= i < 64 ==> (0x30 <= (#[trigger] text[i]) as int <= 0x39) || (0x61 <= text[i] as int
                    <= 0x66)
        },
        url.scheme != "fsl"@ ==> source_fault(url, is_node) == Some(FetchFault::UnsupportedSource),
        url.scheme == "fsl"@ ==> source_fault(url, is_node) is None || source_fault(url, is_node)->0
            is Unreachable,
{
    let text = digest_part(url.path);
    if is_digest(text) {
        assert forall|i: int| 0 <= i < 64 implies (0x30 <= (#[trigger] text[i]) as int <= 0x39) || (
        0x61 <= text[i] as int <= 0x66) by {
            assert(lower_hex(text[i]));
        }
    }
    if text.len() == 64 && forall|i: int|
        0 <= i < 64 ==> (0x30 <= (#[trigger] text[i]) as int <= 0x39) || (0x61 <= text[i] as int
            <= 0x66) {
        assert forall|i: int| 0 <= i < 64 implies lower_hex(#[trigger] text[i]) by {}
    }
}

/// The URL that a blob has at a node names that node and that blob: the host is the node's
/// text, the path a slash and the digest in hexadecimal, with or without an extension.
pub proof fn law_a_blob_is_named_by_its_url(
    url: UrlView,
    node: NodeId,
    sha256: Seq<u8>,
    extension: Seq<char>,
)
    requires
        url.scheme == "fsl"@,
        url.host == Some(base32_text(node.0@)),
        sha256.len() == 32,
        url.path == seq!['/'] + hex_text(sha256) || (!extension.contains('/') && url.path
            == seq!['/'] + (hex_text(sha256) + seq!['.'] + extension)),
    ensures
        source_fault(url, true) is None,
        source_names(url, node, sha256),
        host_is_node(url),
{
    let text = hex_text(sha256);
    reveal_strlit("0123456789abcdef");
    assert forall|i: int| 0 <= i < 64 implies lower_hex(#[trigger] text[i]) && text[i] != '/'
        && text[i] != '.' by {
        law_bytes_are_written_in_hexadecimal(sha256, i / 2);
        assert(i == 2 * (i / 2) || i == 2 * (i / 2) + 1);
    }
    law_bytes_are_written_in_hexadecimal(sha256, 0);
    law_the_digest_of_a_path(text, extension);
    assert(digest_bytes(text) == sha256);
}

/// A LAN source is taken exactly if it is an `fsl` URL of at most two kibibytes with a node
/// for its host and nothing but the wanted digest for its path, but for one extension of at
/// most sixteen letters and digits.
pub proof fn law_which_lan_sources_are_taken(url: UrlView, sha256: Seq<char>, is_node: bool)
    ensures
        selection_fault(url, sha256, is_node) is None <==> {
            &&& url.scheme == "fsl"@
            &&& canonical_source(url, sha256)
            &&& source_fault(url, is_node) is None
        },
        url.scheme != "fsl"@ ==> selection_fault(url, sha256, is_node) == Some(
            FetchFault::UnsupportedSource,
        ),
{
}

/// The one form of a LAN source.
pub proof fn law_the_form_of_a_lan_source(url: UrlView, name: Seq<char>, extension: Seq<char>)
    requires
        !name.contains('/'),
        !name.contains('.'),
        !extension.contains('/'),
    ensures
        ({
            let plain = encode_utf8(url.text).len() <= 2_048 && url.username.len() == 0
                && url.password is None && url.port is None && url.query is None
                && url.fragment is None;
            let fits = 1 <= extension.len() <= 16 && forall|i: int|
                0 <= i < extension.len() ==> is_letter_or_digit(#[trigger] extension[i]);
            &&& url.path == seq!['/'] + name ==> (canonical_source(url, name) <==> plain)
            &&& url.path == seq!['/'] + (name + seq!['.'] + extension) ==> (canonical_source(
                url,
                name,
            ) <==> plain && fits)
            &&& canonical_source(url, name) ==> plain
        }),
{
    let bare = seq!['/'] + name;
    assert(bare.skip(1) =~= name);
    name.index_of_first_ensures('.');
    let tail = name + seq!['.'] + extension;
    let full = seq!['/'] + tail;
    assert(full.skip(1) =~= tail);
    law_what_precedes_a_character(name, '.', extension);
    tail.index_of_first_ensures('.');
    let at = name.len() as int;
    assert(tail[at] == '.');
    assert(tail.contains('.'));
    let first = tail.index_of_first('.')->0;
    if first < at {
        assert(name[first] == '.');
    }
    assert(tail.skip(at + 1) =~= extension);
    if tail.contains('/') {
        let k = choose|k: int| 0 <= k < tail.len() && tail[k] == '/';
        if k < at {
            assert(name[k] == '/');
        } else if k > at {
            assert(extension[k - at - 1] == '/');
        }
    }
    if url.path == full {
        assert(after_slash(url.path) == tail);
        if canonical_source(url, name) {
            assert forall|i: int| 0 <= i < extension.len() implies is_letter_or_digit(
                #[trigger] extension[i],
            ) by {
                assert(crate::blossom::fetch::alphanumeric(extension[i]));
            }
        }
        if forall|i: int|
            0 <= i < extension.len() ==> is_letter_or_digit(#[trigger] extension[i]) {
            assert forall|i: int| 0 <= i < extension.len() implies
                crate::blossom::fetch::alphanumeric(#[trigger] extension[i]) by {
                assert(is_letter_or_digit(extension[i]));
            }
        }
    }
    if url.path == bare {
        assert(after_slash(url.path) == name);
    }
}

/// An ASCII letter or digit, by its code.
pub open spec fn is_letter_or_digit(c: char) -> bool {
    let n = c as int;
    0x30 <= n < 0x3a || 0x41 <= n < 0x5b || 0x61 <= n < 0x7b
}

// ---------------------------------------------------------------------------
// Virtual sockets
// ---------------------------------------------------------------------------
/// The one virtual URL of a session is `ws://<peer>/events`, with nothing beside it.
pub proof fn law_the_one_virtual_url(url: UrlView, peer: NodeId)
    ensures
        url_fault(url, peer) is None <==> {
            &&& url.scheme == "ws"@
            &&& url.username.len() == 0
            &&& url.password is None
            &&& url.port is None
            &&& url.query is None
            &&& url.fragment is None
            &&& url.path == "/events"@
            &&& url.host == Some(base32_text(peer.0@))
        },
{
    if url.host == Some(base32_text(peer.0@)) {
        assert(exists|node: NodeId| url.host == Some(#[trigger] base32_text(node.0@)));
    }
}

/// A text of up to a mebibyte passes in either direction as it is; a longer one, or
/// anything that is no text, ends the socket; pings are answered and pongs ignored.
pub proof fn law_texts_pass_as_they_are(event: SocketEvent, step: SocketStep)
    requires
        socket_answer(event, step),
    ensures
        event matches SocketEvent::Queued(text) ==> (step matches SocketStep::Write(out) && out@
            == text@),
        event matches SocketEvent::Text(text) ==> {
            &&& encode_utf8(text@).len() <= 1_048_576 ==> (step matches SocketStep::Deliver(out)
                && out@ == text@)
            &&& encode_utf8(text@).len() > 1_048_576 ==> (step matches SocketStep::End { close, .. }
                && close)
        },
        event is Ping <==> step is AnswerPing,
        event is Pong <==> step is Nothing,
        event is Binary || event is ClosedByPeer || event is Overflow || event is ClosedHere
            || event is InboundFull ==> (step matches SocketStep::End { close, .. } && close),
        event is Fault || event is Ended || event is WriteFailed || event is PongFailed ==> (
        step matches SocketStep::End { close, .. } && !close),
{
}

} // verus!
