//! The fetching side: which source a URL names, what a response means, and when a
//! body is complete.
use super::wire::{
    header_verdict, HeaderView, ResponseHeader, WireError, CHUNK, MAX_CONTENT_TYPE, STATUS_OK,
};
use crate::bytes::{append, be16, be_value, same_array};
use crate::card::{Card, CardView};
use crate::crypto::{
    absorbed, hex_decode, hex_digit_value, is_hex, is_hex_digit, sha256_digest, sha256_finish,
    sha256_start, sha256_update, unhex, Sha256Hasher,
};
use crate::id::{base32_text, NodeId};
use crate::lan::admission::MAX_ADMITTED_PEERS;
use crate::link_url::{url_of, UrlParts, UrlView};
use crate::path::{opt_text, PathStatus};
use crate::table::Table;
use crate::text::{chars_of, first_place, same_text, slice_from, slice_to, text_of, write_text};
use vstd::prelude::*;
use vstd::string::*;
use vstd::utf8::*;

verus! {

/// Why a fetch failed.
#[derive(Debug, PartialEq, Eq)]
pub enum FetchError {
    /// The source is of another scheme; another fetcher may take it.
    UnsupportedSource,
    /// The scheme is this one's, but nothing can be reached.
    Unreachable(String),
    /// The peer answered that it does not serve the blob.
    UnusableStatus(u16),
    /// The body broke off.
    Stream(String),
}

/// Why a fetch failed, as mathematics.
pub enum FetchFault {
    UnsupportedSource,
    Unreachable(Seq<char>),
    UnusableStatus(u16),
    Stream(Seq<char>),
}

impl View for FetchError {
    type V = FetchFault;

    open spec fn view(&self) -> FetchFault {
        match self {
            FetchError::UnsupportedSource => FetchFault::UnsupportedSource,
            FetchError::Unreachable(words) => FetchFault::Unreachable(words@),
            FetchError::UnusableStatus(code) => FetchFault::UnusableStatus(*code),
            FetchError::Stream(words) => FetchFault::Stream(words@),
        }
    }
}

fn unreachable(words: &str) -> (r: FetchError)
    ensures
        r@ == FetchFault::Unreachable(words@),
{
    FetchError::Unreachable(words.to_owned())
}

// ---------------------------------------------------------------------------
// Card resolution
// ---------------------------------------------------------------------------
/// The current cards of some nodes.
#[derive(Clone)]
pub struct MapCardResolver {
    cards: Table<NodeId, Card>,
}

impl View for MapCardResolver {
    type V = Map<NodeId, CardView>;

    closed spec fn view(&self) -> Map<NodeId, CardView> {
        self.cards.map().map_values(|card: Card| card@)
    }
}

impl Default for MapCardResolver {
    fn default() -> (r: Self)
        ensures
            r.well_formed(),
            r@ == Map::<NodeId, CardView>::empty(),
    {
        MapCardResolver::new()
    }
}

impl MapCardResolver {
    /// No node occurs twice.
    pub closed spec fn well_formed(self) -> bool {
        self.cards.well_formed()
    }

    /// No card is known.
    pub fn new() -> (r: Self)
        ensures
            r.well_formed(),
            r@ == Map::<NodeId, CardView>::empty(),
    {
        let r = MapCardResolver { cards: Table::new() };
        assert(r@ =~= Map::<NodeId, CardView>::empty());
        r
    }

    /// Remember a card under its own node.
    pub fn insert(&mut self, card: Card)
        requires
            old(self).well_formed(),
        ensures
            final(self).well_formed(),
            final(self)@ == old(self)@.insert(card@.node_id, card@),
    {
        let ghost view = card@;
        let node = card.owner();
        let _ = self.cards.insert(node, card);
        assert(self@ =~= old(self)@.insert(view.node_id, view));
    }

    /// The resolver with one more card.
    pub fn with_card(self, card: Card) -> (r: Self)
        requires
            self.well_formed(),
        ensures
            r.well_formed(),
            r@ == self@.insert(card@.node_id, card@),
    {
        let mut next = self;
        next.insert(card);
        next
    }

    /// The current card of a node.
    pub fn resolve(&self, node: &NodeId) -> (r: Option<Card>)
        requires
            self.well_formed(),
        ensures
            match r {
                Some(card) => self@.contains_key(*node) && self@[*node] == card@,
                None => !self@.contains_key(*node),
            },
    {
        match self.cards.get(node) {
            Some(card) => Some(card.clone()),
            None => None,
        }
    }
}

// ---------------------------------------------------------------------------
// Sources
// ---------------------------------------------------------------------------
/// A text without its leading slashes.
pub open spec fn without_slashes(text: Seq<char>) -> Seq<char>
    decreases text.len(),
{
    if text.len() > 0 && text[0] == '/' {
        without_slashes(text.skip(1))
    } else {
        text
    }
}

/// What precedes the first `c`, or everything.
pub open spec fn before(text: Seq<char>, c: char) -> Seq<char> {
    match text.index_of_first(c) {
        Some(at) => text.take(at),
        None => text,
    }
}

/// The digest part of a path: its first segment without its extension.
pub open spec fn digest_part(path: Seq<char>) -> Seq<char> {
    before(before(without_slashes(path), '/'), '.')
}

/// Whether a character is a lower-case hexadecimal digit.
pub open spec fn lower_hex(c: char) -> bool {
    ('0' <= c <= '9') || ('a' <= c <= 'f')
}

/// Whether a text is a digest in its one form: 64 lower-case hexadecimal digits.
pub open spec fn is_digest(text: Seq<char>) -> bool {
    text.len() == 64 && forall|i: int| 0 <= i < 64 ==> lower_hex(#[trigger] text[i])
}

/// The bytes that a digest spells.
pub open spec fn digest_bytes(text: Seq<char>) -> Seq<u8> {
    unhex(text.map_values(|c: char| c as u8))
}

/// What a source is refused for, given whether its host is a node.
pub open spec fn source_fault(url: UrlView, is_node: bool) -> Option<FetchFault> {
    if url.scheme != "fsl"@ {
        Some(FetchFault::UnsupportedSource)
    } else if url.host is None {
        Some(FetchFault::Unreachable("fsl source carries no node id"@))
    } else if !is_node {
        Some(
            FetchFault::Unreachable(
                "fsl source node id is not valid base32: "@ + url.host->0,
            ),
        )
    } else if !is_digest(digest_part(url.path)) {
        Some(
            FetchFault::Unreachable(
                "fsl source sha256 is not 64 hex characters: "@ + digest_part(url.path),
            ),
        )
    } else {
        None
    }
}

/// Whether the host of a URL is a node in its one form.
pub open spec fn host_is_node(url: UrlView) -> bool {
    url.host is Some && exists|node: NodeId| url.host->0 == #[trigger] base32_text(node.0@)
}

/// Whether a source names this node and this digest.
pub open spec fn source_names(url: UrlView, node: NodeId, sha256: Seq<u8>) -> bool {
    &&& source_fault(url, true) is None
    &&& url.host == Some(base32_text(node.0@))
    &&& sha256 == digest_bytes(digest_part(url.path))
}

fn strip_slashes(text: &[char]) -> (r: usize)
    ensures
        r <= text@.len(),
        text@.skip(r as int) == without_slashes(text@),
{
    let mut i: usize = 0;
    assert(text@.skip(0) =~= text@);
    while i < text.len() && text[i] == '/'
        invariant
            i <= text.len(),
            without_slashes(text@) == without_slashes(text@.skip(i as int)),
        decreases text.len() - i,
    {
        proof {
            assert(text@.skip(i as int).skip(1) =~= text@.skip(i + 1));
            assert(text@.skip(i as int)[0] == '/');
        }
        i += 1;
    }
    proof {
        if i < text.len() {
            assert(text@.skip(i as int)[0] == text@[i as int]);
        }
    }
    i
}

fn digest_text(path: &str) -> (r: String)
    ensures
        r@ == digest_part(path@),
{
    let chars = chars_of(path);
    let start = strip_slashes(&chars);
    let rest = slice_from(&chars, start);
    let segment = match first_place(rest, '/') {
        Some(at) => slice_to(rest, at),
        None => rest,
    };
    match first_place(segment, '.') {
        Some(at) => text_of(slice_to(segment, at)),
        None => text_of(segment),
    }
}

/// The bytes of a digest text.
fn read_digest(text: &str) -> (r: Option<[u8; 32]>)
    ensures
        r is Some <==> is_digest(text@),
        r matches Some(digest) ==> digest@ == digest_bytes(text@),
{
    let chars = chars_of(text);
    if chars.len() != 64 {
        return None;
    }
    let mut i: usize = 0;
    while i < chars.len()
        invariant
            i <= chars.len() == 64,
            chars@ == text@,
            forall|k: int| 0 <= k < i ==> lower_hex(#[trigger] text@[k]),
        decreases chars.len() - i,
    {
        let c = chars[i];
        if !((c >= '0' && c <= '9') || (c >= 'a' && c <= 'f')) {
            assert(!lower_hex(text@[i as int]));
            return None;
        }
        i += 1;
    }
    proof {
        assert forall|k: int| 0 <= k < text@.len() implies 0 <= #[trigger] text@[k] as int
            && (text@[k] as int) < 128 by {
            assert(lower_hex(text@[k]));
        }
        assert(is_ascii_chars(text@));
        is_ascii_spec_bytes(text);
        let bytes = text.spec_bytes();
        assert(bytes =~= text@.map_values(|c: char| c as u8));
        assert forall|k: int| 0 <= k < bytes.len() implies is_hex_digit(#[trigger] bytes[k]) by {
            assert(lower_hex(text@[k]));
        }
        assert(is_hex(bytes));
    }
    match hex_decode(text) {
        Some(bytes) => crate::bytes::fixed::<32>(bytes.as_slice()),
        None => {
            assert(false);
            None
        },
    }
}

/// The node and the digest that a source names.
pub fn parse_fsl_source(source: &UrlParts) -> (r: Result<(NodeId, [u8; 32]), FetchError>)
    ensures
        match r {
            Ok((node, sha256)) => source_names(source@, node, sha256@),
            Err(error) => source_fault(source@, host_is_node(source@)) == Some(error@),
        },
{
    if !same_text(source.scheme.as_str(), "fsl") {
        return Err(FetchError::UnsupportedSource);
    }
    let host = match &source.host {
        Some(host) => host,
        None => {
            return Err(unreachable("fsl source carries no node id"));
        },
    };
    let node = match NodeId::from_base32(host.as_str()) {
        Some(node) => node,
        None => {
            let words = "fsl source node id is not valid base32: ".to_owned().concat(
                host.as_str(),
            );
            return Err(FetchError::Unreachable(words));
        },
    };
    assert(source@.host->0 == base32_text(node.0@));
    let digest = digest_text(source.path.as_str());
    match read_digest(digest.as_str()) {
        Some(sha256) => Ok((node, sha256)),
        None => Err(
            FetchError::Unreachable(
                "fsl source sha256 is not 64 hex characters: ".to_owned().concat(digest.as_str()),
            ),
        ),
    }
}

/// The node and the digest that a source text names; a text that is no URL names
/// nothing.
pub fn parse_fsl_text(source: &str) -> (r: Option<Result<(NodeId, [u8; 32]), FetchError>>)
    ensures
        match (r, url_of(source@)) {
            (None, None) => true,
            (Some(Ok((node, sha256))), Some(url)) => source_names(url, node, sha256@),
            (Some(Err(error)), Some(url)) => source_fault(url, host_is_node(url)) == Some(error@),
            _ => false,
        },
{
    match UrlParts::parse(source) {
        Some(url) => Some(parse_fsl_source(&url)),
        None => None,
    }
}

/// One blob has one source text on one node: two sources that name the same node
/// and digest agree in their host and in their digest part.
pub proof fn law_a_blob_has_one_digest_text(
    a: UrlView,
    b: UrlView,
    node: NodeId,
    sha256: Seq<u8>,
)
    requires
        source_names(a, node, sha256),
        source_names(b, node, sha256),
    ensures
        a.host == b.host,
        digest_part(a.path) == digest_part(b.path),
{
    let x = digest_part(a.path);
    let y = digest_part(b.path);
    let p = x.map_values(|c: char| c as u8);
    let q = y.map_values(|c: char| c as u8);
    assert forall|i: int| 0 <= i < 64 implies #[trigger] x[i] == y[i] by {
        let k = i / 2;
        assert(lower_hex(x[2 * k]) && lower_hex(x[2 * k + 1]));
        assert(lower_hex(y[2 * k]) && lower_hex(y[2 * k + 1]));
        assert(unhex(p)[k] == unhex(q)[k]);
        assert(unhex(p)[k] == (16 * hex_digit_value(p[2 * k]) + hex_digit_value(p[2 * k + 1])) as u8);
        assert(unhex(q)[k] == (16 * hex_digit_value(q[2 * k]) + hex_digit_value(q[2 * k + 1])) as u8);
        assert(p[2 * k] == x[2 * k] as u8 && p[2 * k + 1] == x[2 * k + 1] as u8);
        assert(q[2 * k] == y[2 * k] as u8 && q[2 * k + 1] == y[2 * k + 1] as u8);
        assert(i == 2 * k || i == 2 * k + 1);
    }
    assert(x =~= y);
}

// ---------------------------------------------------------------------------
// Limits
// ---------------------------------------------------------------------------
/// The largest blob that limits may allow: 8 GiB.
pub const MAX_LIMIT_BYTES: u64 = 8_589_934_592;

/// The longest operation that limits may allow: an hour, in nanoseconds.
pub const MAX_LIMIT_NANOS: u64 = 3_600_000_000_000;

/// The limits of one operation, framing and body included.
#[derive(Clone, Copy, Debug, PartialEq, Eq, Structural)]
pub struct LanBlobLimits {
    pub max_blob_bytes: u64,
    /// In nanoseconds.
    pub operation_timeout: u64,
}

/// The limits are out of bounds.
#[derive(Clone, Copy, Debug, PartialEq, Eq, Structural)]
pub struct InvalidLanBlobLimits;

impl InvalidLanBlobLimits {
    /// The words for this refusal.
    pub fn words(&self) -> (r: &'static str)
        ensures
            r@
                == "LAN blob limits require 1 byte to 8 GiB and a nonzero timeout up to one hour"@,
    {
        "LAN blob limits require 1 byte to 8 GiB and a nonzero timeout up to one hour"
    }
}

impl core::fmt::Display for InvalidLanBlobLimits {
    fn fmt(&self, f: &mut core::fmt::Formatter<'_>) -> core::fmt::Result {
        write_text(f, self.words())
    }
}

impl LanBlobLimits {
    /// Limits of at least a byte and some time, within the bounds.
    pub fn new(max_blob_bytes: u64, operation_timeout: u64) -> (r: Result<
        Self,
        InvalidLanBlobLimits,
    >)
        ensures
            r is Ok <==> 1 <= max_blob_bytes <= MAX_LIMIT_BYTES && 1 <= operation_timeout
                <= MAX_LIMIT_NANOS,
            r matches Ok(limits) ==> limits == (LanBlobLimits { max_blob_bytes, operation_timeout }),
    {
        if max_blob_bytes < 1 || max_blob_bytes > MAX_LIMIT_BYTES || operation_timeout == 0
            || operation_timeout > MAX_LIMIT_NANOS {
            return Err(InvalidLanBlobLimits);
        }
        Ok(LanBlobLimits { max_blob_bytes, operation_timeout })
    }
}

impl Default for LanBlobLimits {
    fn default() -> (r: Self)
        ensures
            r.max_blob_bytes == 1_073_741_824,
            r.operation_timeout == 300_000_000_000,
    {
        LanBlobLimits { max_blob_bytes: 1_073_741_824, operation_timeout: 300_000_000_000 }
    }
}

/// Whether a size is within the limits; an unknown one is.
pub fn check_size(size: Option<u64>, limits: LanBlobLimits) -> (r: Result<(), FetchError>)
    ensures
        match r {
            Ok(()) => size matches Some(size) ==> size <= limits.max_blob_bytes,
            Err(error) => size matches Some(size) && size > limits.max_blob_bytes && error@
                == FetchFault::Unreachable("blob exceeds the configured LAN limit"@),
        },
{
    match size {
        Some(size) => if size > limits.max_blob_bytes {
            Err(unreachable("blob exceeds the configured LAN limit"))
        } else {
            Ok(())
        },
        None => Ok(()),
    }
}

// ---------------------------------------------------------------------------
// LAN sources
// ---------------------------------------------------------------------------
/// The longest LAN source, in bytes.
pub const MAX_SOURCE_BYTES: usize = 2048;

/// The longest extension.
pub const MAX_EXTENSION: usize = 16;

/// A path without its one leading slash; nothing when it has none.
pub open spec fn after_slash(path: Seq<char>) -> Seq<char> {
    if path.len() > 0 && path[0] == '/' {
        path.skip(1)
    } else {
        Seq::empty()
    }
}

/// Whether a character is an ASCII letter or digit.
pub open spec fn alphanumeric(c: char) -> bool {
    ('0' <= c <= '9') || ('a' <= c <= 'z') || ('A' <= c <= 'Z')
}

/// Whether what follows the first dot of a path, if it has one, is an extension.
pub open spec fn extension_fits(path: Seq<char>) -> bool {
    path.index_of_first('.') matches Some(at) ==> {
        let extension = path.skip(at + 1);
        &&& 1 <= extension.len() <= MAX_EXTENSION
        &&& forall|i: int| 0 <= i < extension.len() ==> alphanumeric(#[trigger] extension[i])
    }
}

/// Whether a source is in the one form a LAN fetch takes: a node, the wanted
/// digest, an optional extension and nothing else.
pub open spec fn canonical_source(url: UrlView, sha256: Seq<char>) -> bool {
    let path = after_slash(url.path);
    &&& encode_utf8(url.text).len() <= MAX_SOURCE_BYTES
    &&& url.username.len() == 0
    &&& url.password is None
    &&& url.port is None
    &&& url.query is None
    &&& url.fragment is None
    &&& !path.contains('/')
    &&& extension_fits(path)
    &&& before(path, '.') == sha256
}

/// What a LAN source is refused for.
pub open spec fn selection_fault(url: UrlView, sha256: Seq<char>, is_node: bool) -> Option<
    FetchFault,
> {
    if url.scheme != "fsl"@ {
        Some(FetchFault::UnsupportedSource)
    } else if !canonical_source(url, sha256) {
        Some(
            FetchFault::Unreachable("LAN source is not a canonical hash-addressed peer URL"@),
        )
    } else if source_fault(url, is_node) is Some {
        Some(FetchFault::Unreachable("invalid LAN source identity or digest"@))
    } else {
        None
    }
}

fn is_extension(text: &[char]) -> (r: bool)
    ensures
        r == (1 <= text@.len() <= MAX_EXTENSION && forall|i: int|
            0 <= i < text@.len() ==> alphanumeric(#[trigger] text@[i])),
{
    if text.len() < 1 || text.len() > MAX_EXTENSION {
        return false;
    }
    let mut i: usize = 0;
    while i < text.len()
        invariant
            i <= text.len(),
            forall|k: int| 0 <= k < i ==> alphanumeric(#[trigger] text@[k]),
        decreases text.len() - i,
    {
        let c = text[i];
        if !((c >= '0' && c <= '9') || (c >= 'a' && c <= 'z') || (c >= 'A' && c <= 'Z')) {
            assert(!alphanumeric(text@[i as int]));
            return false;
        }
        i += 1;
    }
    true
}

fn is_canonical(url: &UrlParts, sha256: &str) -> (r: bool)
    ensures
        r == canonical_source(url@, sha256@),
{
    let chars = chars_of(url.path.as_str());
    let none: Vec<char> = Vec::new();
    let path = if chars.len() > 0 && chars[0] == '/' {
        slice_from(&chars, 1)
    } else {
        none.as_slice()
    };
    assert(path@ =~= after_slash(url@.path));
    let (digest, extension_ok) = match first_place(path, '.') {
        Some(at) => (text_of(slice_to(path, at)), is_extension(slice_from(path, at + 1))),
        None => (text_of(path), true),
    };
    let nested = first_place(path, '/').is_some();
    proof {
        path@.index_of_first_ensures('/');
    }
    let no_user = same_text(url.username.as_str(), "");
    proof {
        reveal_strlit("");
        if url@.username.len() == 0 {
            assert(url@.username =~= ""@);
        }
    }
    url.text.as_str().as_bytes().len() <= MAX_SOURCE_BYTES && no_user && url.password.is_none()
        && url.port.is_none() && url.query.is_none() && url.fragment.is_none() && !nested
        && extension_ok && same_text(digest.as_str(), sha256)
}

/// The node and the digest that a LAN source names; the request says which digest
/// it is for.
pub fn selected_source(url: &UrlParts, sha256: &str) -> (r: Result<
    (NodeId, [u8; 32]),
    FetchError,
>)
    ensures
        match r {
            Ok((node, digest)) => selection_fault(url@, sha256@, true) is None && source_names(
                url@,
                node,
                digest@,
            ),
            Err(error) => selection_fault(url@, sha256@, host_is_node(url@)) == Some(error@),
        },
{
    if !same_text(url.scheme.as_str(), "fsl") {
        return Err(FetchError::UnsupportedSource);
    }
    if !is_canonical(url, sha256) {
        return Err(unreachable("LAN source is not a canonical hash-addressed peer URL"));
    }
    match parse_fsl_source(url) {
        Ok(found) => Ok(found),
        Err(_) => Err(unreachable("invalid LAN source identity or digest")),
    }
}

/// Whether a list of nodes can be selected for fetching: not too many, and none of
/// them twice.
pub fn check_peers(peers: &Vec<NodeId>) -> (r: Result<(), FetchError>)
    ensures
        match r {
            Ok(()) => peers@.len() <= MAX_ADMITTED_PEERS && peers@.no_duplicates(),
            Err(error) => if peers@.len() > MAX_ADMITTED_PEERS {
                error@ == FetchFault::Unreachable("too many locally configured LAN peers"@)
            } else {
                !peers@.no_duplicates() && error@ == FetchFault::Unreachable(
                    "duplicate locally configured LAN peer"@,
                )
            },
        },
{
    if peers.len() > MAX_ADMITTED_PEERS {
        return Err(unreachable("too many locally configured LAN peers"));
    }
    let mut i: usize = 0;
    while i < peers.len()
        invariant
            i <= peers.len() <= MAX_ADMITTED_PEERS,
            forall|a: int, b: int| 0 <= a < b < i ==> peers@[a] != peers@[b],
        decreases peers.len() - i,
    {
        let mut j: usize = 0;
        while j < i
            invariant
                j <= i < peers.len(),
                peers.len() <= MAX_ADMITTED_PEERS,
                forall|a: int| 0 <= a < j ==> peers@[a] != peers@[i as int],
            decreases i - j,
        {
            if peers[j].same(&peers[i]) {
                assert(peers@[j as int] == peers@[i as int]);
                return Err(unreachable("duplicate locally configured LAN peer"));
            }
            j += 1;
        }
        i += 1;
    }
    Ok(())
}

// ---------------------------------------------------------------------------
// Responses
// ---------------------------------------------------------------------------
/// How many bytes follow a status byte before the content type.
pub fn fixed_rest(status: u8) -> (r: usize)
    ensures
        r == if status == STATUS_OK {
            10usize
        } else {
            0usize
        },
{
    if status == STATUS_OK {
        10
    } else {
        0
    }
}

/// How long the content type is that the fixed part of an `ok` header declares,
/// when it is within the bound.
pub fn content_rest(fixed: &[u8; 10]) -> (r: Option<usize>)
    ensures
        r is Some <==> be_value(fixed@.subrange(8, 10)) <= MAX_CONTENT_TYPE,
        r matches Some(length) ==> length == be_value(fixed@.subrange(8, 10)),
{
    let length: u16 = be16(fixed[8], fixed[9]);
    proof {
        assert(fixed@.subrange(8, 10) =~= seq![fixed@[8], fixed@[9]]);
    }
    if length as usize > MAX_CONTENT_TYPE {
        None
    } else {
        Some(length as usize)
    }
}

/// Put the parts of an `ok` header together and decode it: one parser for both
/// directions.
pub fn finish_header(fixed: &[u8; 10], content: &[u8]) -> (r: Result<ResponseHeader, WireError>)
    ensures
        match (r, header_verdict(seq![STATUS_OK] + fixed@ + content@)) {
            (Ok(header), Ok((view, _))) => header@ == view,
            (Err(a), Err(b)) => a == b,
            _ => false,
        },
{
    let mut bytes: Vec<u8> = Vec::new();
    bytes.push(STATUS_OK);
    append(&mut bytes, fixed);
    append(&mut bytes, content);
    assert(bytes@ =~= seq![STATUS_OK] + fixed@ + content@);
    match ResponseHeader::decode(bytes.as_slice()) {
        Ok((header, _)) => Ok(header),
        Err(error) => Err(error),
    }
}

/// The number that stands for an answer without a body.
pub open spec fn status_number(header: HeaderView) -> u16 {
    match header {
        HeaderView::NotFound => 404,
        HeaderView::UnsupportedVersion => 505,
        _ => 500,
    }
}

/// What a response means for a fetch over a relay-first session: the size and the
/// type of the body that follows.
pub fn link_response(header: ResponseHeader) -> (r: Result<(u64, Option<String>), FetchError>)
    ensures
        match (r, header@) {
            (Ok((size, content_type)), HeaderView::Found { size: s, content_type: t }) => size == s
                && opt_text(content_type) == t,
            (Err(error), HeaderView::Found { .. }) => false,
            (Err(error), _) => error@ == FetchFault::UnusableStatus(status_number(header@)),
            _ => false,
        },
{
    match header {
        ResponseHeader::Found { size, content_type } => Ok((size, content_type)),
        ResponseHeader::NotFound => Err(FetchError::UnusableStatus(404)),
        ResponseHeader::UnsupportedVersion => Err(FetchError::UnusableStatus(505)),
        ResponseHeader::Error => Err(FetchError::UnusableStatus(500)),
    }
}

/// What an `ok` response of a declared size means for a LAN fetch.
pub open spec fn size_fault(size: u64, expected: Option<u64>, limits: LanBlobLimits) -> Option<
    FetchFault,
> {
    if size > limits.max_blob_bytes {
        Some(FetchFault::Unreachable("blob exceeds the configured LAN limit"@))
    } else if expected is Some && expected != Some(size) {
        Some(FetchFault::Unreachable("LAN response declared an unexpected size"@))
    } else {
        None
    }
}

/// What a response means for a LAN fetch.  `extra` is how many bytes followed an
/// answer without a body, or that the stream broke.
pub fn lan_response(
    header: ResponseHeader,
    expected: Option<u64>,
    limits: LanBlobLimits,
    extra: Option<usize>,
) -> (r: Result<(u64, Option<String>), FetchError>)
    ensures
        match header@ {
            HeaderView::Found { size, content_type } => match r {
                Ok((found, text)) => size_fault(size, expected, limits) is None && found == size
                    && opt_text(text) == content_type,
                Err(error) => size_fault(size, expected, limits) == Some(error@),
            },
            _ => r matches Err(error) && error@ == (match extra {
                None => FetchFault::Unreachable("LAN status interrupted"@),
                Some(0) => FetchFault::UnusableStatus(status_number(header@)),
                Some(_) => FetchFault::Unreachable("LAN status contains an unexpected body"@),
            }),
        },
{
    match header {
        ResponseHeader::Found { size, content_type } => {
            match check_size(Some(size), limits) {
                Err(error) => {
                    return Err(error);
                },
                Ok(()) => {},
            }
            if let Some(expected) = expected {
                if expected != size {
                    return Err(unreachable("LAN response declared an unexpected size"));
                }
            }
            Ok((size, content_type))
        },
        other => {
            let count: usize = match extra {
                None => {
                    return Err(unreachable("LAN status interrupted"));
                },
                Some(count) => count,
            };
            if count != 0 {
                return Err(unreachable("LAN status contains an unexpected body"));
            }
            match other {
                ResponseHeader::NotFound => Err(FetchError::UnusableStatus(404)),
                ResponseHeader::UnsupportedVersion => Err(FetchError::UnusableStatus(505)),
                _ => Err(FetchError::UnusableStatus(500)),
            }
        },
    }
}

/// The path that a fetch reports.
#[derive(Clone, Copy, Debug, PartialEq, Eq, Structural)]
pub enum FetchPath {
    Direct,
    Relayed,
}

/// The path that a session has proved: only a proven direct path is direct, and a
/// started transfer proves nothing.
pub fn fetch_path(status: PathStatus) -> (r: FetchPath)
    ensures
        r == if status == PathStatus::Direct {
            FetchPath::Direct
        } else {
            FetchPath::Relayed
        },
{
    match status {
        PathStatus::Direct => FetchPath::Direct,
        _ => FetchPath::Relayed,
    }
}

// ---------------------------------------------------------------------------
// Bodies
// ---------------------------------------------------------------------------
/// What a body reader does next.
#[derive(Clone, Copy, Debug, PartialEq, Eq, Structural)]
pub enum BodyStep {
    /// Read exactly this many bytes.
    Read(usize),
    /// Everything was read.
    Complete,
    /// The body has failed and yields nothing more.
    Over,
}

/// How much of a body is outstanding.
pub open spec fn next_read(remaining: u64) -> usize {
    if remaining <= CHUNK {
        remaining as usize
    } else {
        CHUNK
    }
}

/// A body that is being read over a relay-first session: exactly the declared
/// bytes, and a short read is an error.
#[derive(Clone, Copy, Debug, PartialEq, Eq, Structural)]
pub struct LinkBody {
    pub remaining: u64,
    pub failed: bool,
}

impl LinkBody {
    /// A body of `size` bytes.
    pub fn new(size: u64) -> (r: Self)
        ensures
            r == (LinkBody { remaining: size, failed: false }),
    {
        LinkBody { remaining: size, failed: false }
    }

    /// What to do next.
    pub fn step(&self) -> (r: BodyStep)
        ensures
            r == if self.failed {
                BodyStep::Over
            } else if self.remaining == 0 {
                BodyStep::Complete
            } else {
                BodyStep::Read(next_read(self.remaining))
            },
    {
        if self.failed {
            BodyStep::Over
        } else if self.remaining == 0 {
            BodyStep::Complete
        } else if self.remaining <= CHUNK as u64 {
            BodyStep::Read(self.remaining as usize)
        } else {
            BodyStep::Read(CHUNK)
        }
    }

    /// The bytes that were asked for were read, or could not be.
    pub fn note(&mut self, read: bool)
        requires
            !old(self).failed,
            old(self).remaining > 0,
        ensures
            *final(self) == if read {
                LinkBody {
                    remaining: (old(self).remaining - next_read(old(self).remaining)) as u64,
                    failed: false,
                }
            } else {
                LinkBody { failed: true, ..*old(self) }
            },
    {
        if read {
            if self.remaining <= CHUNK as u64 {
                self.remaining = 0;
            } else {
                self.remaining = self.remaining - CHUNK as u64;
            }
        } else {
            self.failed = true;
        }
    }
}

/// Why a LAN body failed.
#[derive(Clone, Copy, Debug, PartialEq, Eq, Structural)]
pub enum BodyFault {
    Truncated,
    NoFin,
    TooLong,
    Digest,
    Deadline,
}

/// The words for a failed body.
pub open spec fn body_words(fault: BodyFault) -> Seq<char> {
    match fault {
        BodyFault::Truncated => "LAN body was truncated or admission ended"@,
        BodyFault::NoFin => "LAN body ended without a clean FIN"@,
        BodyFault::TooLong => "LAN body exceeded its declared size"@,
        BodyFault::Digest => "LAN body digest did not match its request"@,
        BodyFault::Deadline => "LAN body operation deadline"@,
    }
}

impl BodyFault {
    /// The words for this failure.
    pub fn words(&self) -> (r: &'static str)
        ensures
            r@ == body_words(*self),
    {
        match self {
            BodyFault::Truncated => "LAN body was truncated or admission ended",
            BodyFault::NoFin => "LAN body ended without a clean FIN",
            BodyFault::TooLong => "LAN body exceeded its declared size",
            BodyFault::Digest => "LAN body digest did not match its request",
            BodyFault::Deadline => "LAN body operation deadline",
        }
    }

    /// The error that a fetch reports for it.
    pub fn error(&self) -> (r: FetchError)
        ensures
            r@ == FetchFault::Stream(body_words(*self)),
    {
        FetchError::Stream(self.words().to_owned())
    }
}

/// A body that is being read over a LAN session: the declared length, a clean end
/// and the digest that was asked for are all checked before it counts as complete.
pub struct LanBody {
    size: u64,
    remaining: u64,
    expected: [u8; 32],
    hasher: Sha256Hasher,
    failed: bool,
}

/// A LAN body as mathematics.
#[verifier::ext_equal]
pub struct LanBodyView {
    pub size: u64,
    pub remaining: u64,
    pub expected: Seq<u8>,
    /// What was read so far.
    pub read: Seq<u8>,
    pub failed: bool,
}

impl View for LanBody {
    type V = LanBodyView;

    closed spec fn view(&self) -> LanBodyView {
        LanBodyView {
            size: self.size,
            remaining: self.remaining,
            expected: self.expected@,
            read: absorbed(self.hasher),
            failed: self.failed,
        }
    }
}

/// What is outstanding is what was declared less what was read.
pub open spec fn body_sound(body: LanBodyView) -> bool {
    body.read.len() + body.remaining == body.size
}

/// The verdict on a body of which nothing is outstanding, given what a read past
/// its end gave.
pub open spec fn body_verdict(body: LanBodyView, extra: Option<usize>) -> Option<BodyFault> {
    match extra {
        None => Some(BodyFault::NoFin),
        Some(count) => if count != 0 {
            Some(BodyFault::TooLong)
        } else if sha256_digest(body.read) != body.expected {
            Some(BodyFault::Digest)
        } else {
            None
        },
    }
}

impl LanBody {
    /// A body of `size` bytes with the digest that was asked for.
    pub fn new(size: u64, expected: [u8; 32]) -> (r: Self)
        ensures
            body_sound(r@),
            r@ == (LanBodyView {
                size,
                remaining: size,
                expected: expected@,
                read: Seq::empty(),
                failed: false,
            }),
    {
        LanBody { size, remaining: size, expected, hasher: sha256_start(), failed: false }
    }

    /// What to do next.
    pub fn step(&self) -> (r: BodyStep)
        ensures
            r == if self@.failed {
                BodyStep::Over
            } else if self@.remaining == 0 {
                BodyStep::Complete
            } else {
                BodyStep::Read(next_read(self@.remaining))
            },
    {
        if self.failed {
            BodyStep::Over
        } else if self.remaining == 0 {
            BodyStep::Complete
        } else if self.remaining <= CHUNK as u64 {
            BodyStep::Read(self.remaining as usize)
        } else {
            BodyStep::Read(CHUNK)
        }
    }

    /// The bytes that were asked for were read.
    pub fn take(&mut self, bytes: &[u8])
        requires
            body_sound(old(self)@),
            bytes@.len() <= old(self)@.remaining,
        ensures
            body_sound(final(self)@),
            final(self)@ == (LanBodyView {
                remaining: (old(self)@.remaining - bytes@.len()) as u64,
                read: old(self)@.read + bytes@,
                ..old(self)@
            }),
    {
        sha256_update(&mut self.hasher, bytes);
        self.remaining = self.remaining - bytes.len() as u64;
    }

    /// The body failed; it yields nothing more.
    pub fn fail(&mut self)
        ensures
            final(self)@ == (LanBodyView { failed: true, ..old(self)@ }),
    {
        self.failed = true;
    }

    /// The verdict on a body of which nothing is outstanding.  `extra` is how many
    /// bytes a read past the end gave, or that the stream broke.
    pub fn finish(&self, extra: Option<usize>) -> (r: Result<(), BodyFault>)
        ensures
            match r {
                Ok(()) => body_verdict(self@, extra) is None,
                Err(fault) => body_verdict(self@, extra) == Some(fault),
            },
    {
        let count: usize = match extra {
            None => {
                return Err(BodyFault::NoFin);
            },
            Some(count) => count,
        };
        if count != 0 {
            return Err(BodyFault::TooLong);
        }
        let digest = sha256_finish(&self.hasher);
        if same_array(&digest, &self.expected) {
            Ok(())
        } else {
            proof {
                if digest@ == self.expected@ {
                    assert(digest =~= self.expected);
                }
            }
            Err(BodyFault::Digest)
        }
    }
}

/// A complete body has the declared length and the digest that was asked for.
pub proof fn law_a_complete_body_is_the_one_asked_for(body: LanBodyView, extra: Option<usize>)
    requires
        body_sound(body),
        body.remaining == 0,
        body_verdict(body, extra) is None,
    ensures
        body.read.len() == body.size,
        sha256_digest(body.read) == body.expected,
{
}

} // verus!
