//! The serving side: what a request is answered, and a blob store in memory.
use super::wire::{
    header_wire, request_verdict, HeaderView, Request, ResponseHeader, WireError, CHUNK,
    REQUEST_LEN,
};
use crate::crypto::{hex_encode, hex_text};
use crate::path::{copy_opt_text, opt_text, FailReason};
use crate::table::NameTable;
use crate::text::write_text;
use vstd::prelude::*;
use vstd::slice::slice_subrange;
use vstd::string::*;

verus! {

/// How many operations a LAN endpoint serves at once.
pub const MAX_SERVING_OPERATIONS: usize = 8;

/// What a request leads to.
#[derive(Debug)]
pub enum ServeStep {
    /// Look this digest up, in lower-case hexadecimal.
    Lookup(String),
    /// Answer with this header; nothing follows.
    Answer(Vec<u8>),
    /// Drop the stream: the bytes are no request.
    Reset(WireError),
}

/// Whether `step` is what a request leads to: a newer version gets a defined answer
/// so that a newer peer can tell too new from broken; anything else that does not
/// parse is dropped.
pub open spec fn serves(bytes: Seq<u8>, step: ServeStep) -> bool {
    match request_verdict(bytes) {
        Ok(digest) => step matches ServeStep::Lookup(text) && text@ == hex_text(digest),
        Err(WireError::BadVersion(_)) => step matches ServeStep::Answer(header) && header@
            == header_wire(HeaderView::UnsupportedVersion),
        Err(error) => step == ServeStep::Reset(error),
    }
}

/// What a request leads to.
pub fn serve_request(bytes: &[u8]) -> (r: ServeStep)
    ensures
        serves(bytes@, r),
{
    match Request::decode(bytes) {
        Ok(request) => ServeStep::Lookup(hex_encode(&request.sha256)),
        Err(error) => match error {
            WireError::BadVersion(_) => ServeStep::Answer(
                ResponseHeader::UnsupportedVersion.encode(),
            ),
            _ => ServeStep::Reset(error),
        },
    }
}

/// How many bytes of a request are outstanding after some were read ahead; `None`
/// when more were read than a request has.
pub fn request_rest(preread: usize) -> (r: Option<usize>)
    ensures
        r is Some <==> preread <= REQUEST_LEN,
        r matches Some(rest) ==> rest == REQUEST_LEN - preread,
{
    if preread > REQUEST_LEN {
        None
    } else {
        Some(REQUEST_LEN - preread)
    }
}

/// Whether a request stands alone: where its end is required, a read past it found
/// nothing.
pub fn request_stands_alone(end_required: bool, extra: usize) -> (r: bool)
    ensures
        r == (!end_required || extra == 0),
{
    !end_required || extra == 0
}

/// The header of the answer to a lookup: the blob if it was found and is within
/// the limit, an error if it is too large, not found otherwise.
pub open spec fn answer_header(
    found: Option<(u64, Option<Seq<char>>)>,
    max_size: Option<u64>,
) -> HeaderView {
    match found {
        None => HeaderView::NotFound,
        Some((size, content_type)) => if max_size matches Some(most) && size > most {
            HeaderView::Error
        } else {
            HeaderView::Found { size, content_type }
        },
    }
}

/// The answer to a lookup: its header, and whether the body follows.
pub fn lookup_answer(found: Option<(u64, Option<String>)>, max_size: Option<u64>) -> (r: (
    Vec<u8>,
    bool,
))
    ensures
        ({
            let seen = match found {
                Some((size, content_type)) => Some((size, opt_text(content_type))),
                None => None,
            };
            &&& r.0@ == header_wire(answer_header(seen, max_size))
            &&& r.1 == (answer_header(seen, max_size) is Found)
        }),
{
    match found {
        None => (ResponseHeader::NotFound.encode(), false),
        Some((size, content_type)) => {
            let too_large = match max_size {
                Some(most) => size > most,
                None => false,
            };
            if too_large {
                (ResponseHeader::Error.encode(), false)
            } else {
                (ResponseHeader::Found { size, content_type }.encode(), true)
            }
        },
    }
}

/// Why a body cannot be sent as it was declared.
#[derive(Clone, Copy, Debug, PartialEq, Eq, Structural)]
pub enum SourceFault {
    Overflow,
    TooLong,
    TooShort,
}

impl SourceFault {
    /// The words for this fault.
    pub fn words(&self) -> (r: &'static str)
        ensures
            r@ == match *self {
                SourceFault::Overflow => "blob source length overflow"@,
                SourceFault::TooLong => "blob source exceeded its declared length"@,
                SourceFault::TooShort => "blob source was shorter than its declared length"@,
            },
    {
        match self {
            SourceFault::Overflow => "blob source length overflow",
            SourceFault::TooLong => "blob source exceeded its declared length",
            SourceFault::TooShort => "blob source was shorter than its declared length",
        }
    }
}

impl core::fmt::Display for SourceFault {
    fn fmt(&self, f: &mut core::fmt::Formatter<'_>) -> core::fmt::Result {
        write_text(f, self.words())
    }
}

/// How much of a body was sent: exactly the declared length finishes cleanly.
#[derive(Clone, Copy, Debug, PartialEq, Eq, Structural)]
pub struct BodyGauge {
    pub size: u64,
    pub sent: u64,
}

/// What the next part of a body is refused for.
pub open spec fn part_fault(gauge: BodyGauge, length: usize) -> Option<SourceFault> {
    if gauge.sent + length > u64::MAX {
        Some(SourceFault::Overflow)
    } else if gauge.sent + length > gauge.size {
        Some(SourceFault::TooLong)
    } else {
        None
    }
}

impl BodyGauge {
    /// A body of `size` bytes, of which none was sent.
    pub fn new(size: u64) -> (r: Self)
        ensures
            r == (BodyGauge { size, sent: 0 }),
    {
        BodyGauge { size, sent: 0 }
    }

    /// Whether the next part may be sent.
    pub fn part(&mut self, length: usize) -> (r: Result<(), SourceFault>)
        ensures
            match r {
                Ok(()) => part_fault(*old(self), length) is None && *final(self) == (BodyGauge {
                    sent: (old(self).sent + length) as u64,
                    ..*old(self)
                }),
                Err(fault) => part_fault(*old(self), length) == Some(fault) && *final(self)
                    == *old(self),
            },
    {
        if length as u64 > u64::MAX - self.sent {
            return Err(SourceFault::Overflow);
        }
        let sent: u64 = self.sent + length as u64;
        if sent > self.size {
            return Err(SourceFault::TooLong);
        }
        self.sent = sent;
        Ok(())
    }

    /// Whether the body ended where it was declared to.
    pub fn finish(&self) -> (r: Result<(), SourceFault>)
        ensures
            r == if self.sent == self.size {
                Ok::<(), SourceFault>(())
            } else {
                Err(SourceFault::TooShort)
            },
    {
        if self.sent == self.size {
            Ok(())
        } else {
            Err(SourceFault::TooShort)
        }
    }
}

/// Whether the accept loop goes on after a failed accept: a peer that fails the
/// identity check does not stop it.
pub fn serving_goes_on(reason: FailReason) -> (r: bool)
    ensures
        r == (reason == FailReason::Identity),
{
    matches!(reason, FailReason::Identity)
}

// ---------------------------------------------------------------------------
// A store in memory
// ---------------------------------------------------------------------------
#[derive(Clone)]
struct Blob {
    content_type: Option<String>,
    data: Vec<u8>,
}

/// A blob: its media type and its bytes.
pub struct BlobView {
    pub content_type: Option<Seq<char>>,
    pub data: Seq<u8>,
}

spec fn blob_view(blob: Blob) -> BlobView {
    BlobView { content_type: opt_text(blob.content_type), data: blob.data@ }
}

/// A store that holds each blob whole, by its digest in hexadecimal.
#[derive(Clone)]
pub struct MapBlobSource {
    blobs: NameTable<Blob>,
}

impl View for MapBlobSource {
    type V = Map<Seq<char>, BlobView>;

    closed spec fn view(&self) -> Map<Seq<char>, BlobView> {
        self.blobs.map().map_values(|blob: Blob| blob_view(blob))
    }
}

impl Default for MapBlobSource {
    fn default() -> (r: Self)
        ensures
            r.well_formed(),
            r@ == Map::<Seq<char>, BlobView>::empty(),
    {
        MapBlobSource::new()
    }
}

impl MapBlobSource {
    /// No name occurs twice.
    pub closed spec fn well_formed(self) -> bool {
        self.blobs.well_formed()
    }

    /// A store that holds nothing.
    pub fn new() -> (r: Self)
        ensures
            r.well_formed(),
            r@ == Map::<Seq<char>, BlobView>::empty(),
    {
        let r = MapBlobSource { blobs: NameTable::new() };
        assert(r@ =~= Map::<Seq<char>, BlobView>::empty());
        r
    }

    /// Store a blob under its digest in lower-case hexadecimal.  The digest is taken
    /// on trust.
    pub fn insert(&mut self, sha256: String, content_type: Option<String>, data: Vec<u8>)
        requires
            old(self).well_formed(),
        ensures
            final(self).well_formed(),
            final(self)@ == old(self)@.insert(
                sha256@,
                BlobView { content_type: opt_text(content_type), data: data@ },
            ),
    {
        let ghost name = sha256@;
        let blob = Blob { content_type, data };
        let ghost added = blob_view(blob);
        let _ = self.blobs.insert(sha256, blob);
        assert(self@ =~= old(self)@.insert(name, added));
    }

    /// The store with one more blob.
    pub fn with_blob(self, sha256: String, content_type: Option<String>, data: Vec<u8>) -> (r: Self)
        requires
            self.well_formed(),
        ensures
            r.well_formed(),
            r@ == self@.insert(
                sha256@,
                BlobView { content_type: opt_text(content_type), data: data@ },
            ),
    {
        let mut next = self;
        next.insert(sha256, content_type, data);
        next
    }

    /// The media type and the bytes of a blob.
    pub fn get(&self, sha256: &str) -> (r: Option<(Option<String>, &[u8])>)
        requires
            self.well_formed(),
        ensures
            match r {
                Some((content_type, data)) => self@.contains_key(sha256@) && self@[sha256@]
                    == (BlobView { content_type: opt_text(content_type), data: data@ }),
                None => !self@.contains_key(sha256@),
            },
    {
        match self.blobs.get(sha256) {
            Some(blob) => Some((copy_opt_text(&blob.content_type), blob.data.as_slice())),
            None => None,
        }
    }
}

/// The next bounded piece of a body and what is left of it; `None` at its end.
pub fn next_chunk<'a>(remaining: &'a [u8]) -> (r: Option<(&'a [u8], &'a [u8])>)
    ensures
        r is None <==> remaining@.len() == 0,
        r matches Some((chunk, rest)) ==> remaining@ == chunk@ + rest@ && chunk@.len()
            == if remaining@.len() <= CHUNK {
            remaining@.len() as int
        } else {
            CHUNK as int
        },
{
    if remaining.len() == 0 {
        return None;
    }
    let take: usize = if remaining.len() <= CHUNK {
        remaining.len()
    } else {
        CHUNK
    };
    let chunk = slice_subrange(remaining, 0, take);
    let rest = slice_subrange(remaining, take, remaining.len());
    assert(remaining@ =~= chunk@ + rest@);
    Some((chunk, rest))
}

/// Whether a stored file is the blob that its record describes.
pub fn stored_file_is_whole(is_file: bool, length: u64, recorded: u64) -> (r: bool)
    ensures
        r == (is_file && length == recorded),
{
    is_file && length == recorded
}

/// What one read of a stored file leads to.
#[derive(Clone, Copy, Debug, PartialEq, Eq, Structural)]
pub enum FileStep {
    /// This many bytes are the next piece.
    Piece(usize),
    /// The file is at its end.
    End,
    /// The read failed: the body ends with an error.
    Broken,
}

/// What one read of a stored file leads to; `None` is a failed read.
pub fn file_step(read: Option<usize>) -> (r: FileStep)
    ensures
        r == match read {
            None => FileStep::Broken,
            Some(count) => if count == 0 {
                FileStep::End
            } else {
                FileStep::Piece(count)
            },
        },
{
    match read {
        None => FileStep::Broken,
        Some(count) => {
            if count == 0 {
                FileStep::End
            } else {
                FileStep::Piece(count)
            }
        },
    }
}

/// The gauge after some parts, if it let each of them pass.
pub open spec fn sent_after(gauge: BodyGauge, lengths: Seq<usize>) -> Option<BodyGauge>
    decreases lengths.len(),
{
    if lengths.len() == 0 {
        Some(gauge)
    } else {
        match sent_after(gauge, lengths.drop_last()) {
            None => None,
            Some(before) => if part_fault(before, lengths.last()) is Some {
                None
            } else {
                Some(BodyGauge { sent: (before.sent + lengths.last()) as u64, ..before })
            },
        }
    }
}

/// The length of all parts together.
pub open spec fn total(lengths: Seq<usize>) -> nat
    decreases lengths.len(),
{
    if lengths.len() == 0 {
        0
    } else {
        total(lengths.drop_last()) + lengths.last() as nat
    }
}

/// A body whose parts all passed is no longer than it was declared, and one that
/// then finished has exactly that length.
pub proof fn law_a_finished_body_is_whole(size: u64, lengths: Seq<usize>)
    requires
        sent_after(BodyGauge { size, sent: 0 }, lengths) is Some,
    ensures
        ({
            let gauge = sent_after(BodyGauge { size, sent: 0 }, lengths)->0;
            &&& gauge.size == size
            &&& gauge.sent == total(lengths)
            &&& total(lengths) <= size
            &&& gauge.sent == gauge.size ==> total(lengths) == size
        }),
    decreases lengths.len(),
{
    if lengths.len() > 0 {
        law_a_finished_body_is_whole(size, lengths.drop_last());
    }
}

} // verus!
