//! The request and response wire format.
//!
//! One request and one response travel over a single bidirectional Link stream.
//! Every multi-byte integer is big-endian.
//!
//! Request, fixed 37 bytes:
//!
//! ```text
//!   offset  size  field
//!   0       4     magic, ASCII "FSLB"
//!   4       1     version, 0x01
//!   5       32    sha256, raw bytes (not hex)
//! ```
//!
//! Response header:
//!
//! ```text
//!   offset  size  field
//!   0       1     status: 0x00 ok, 0x01 not found, 0x02 error, 0x03 unsupported version
//! ```
//!
//! For everything but `ok` the header is the single status byte and no body
//! follows.  For `ok` the status byte is followed by:
//!
//! ```text
//!   1       8     size, u64, the exact body length in bytes
//!   9       2     content_type length, u16, at most 255
//!   11      N     content_type, UTF-8, N as above (absent when N is 0)
//! ```
//!
//! and then exactly `size` bytes of body follow on the stream.
use crate::bytes::{
    append, array_at, be16, be64, be_bytes, be_value, bytes_eq, lemma_be_round_trip,
    lemma_pow256_values, to_be16, to_be64, write_at,
};
use crate::crypto::{hex_encode, hex_text};
use crate::path::{copy_opt_text, opt_text};
use crate::text::{decimal, decimal_text, utf8_text, write_text};
use vstd::prelude::*;
use vstd::slice::slice_subrange;
use vstd::string::*;
use vstd::utf8::*;

verus! {

/// Request magic, ASCII `FSLB`.
pub const REQUEST_MAGIC: [u8; 4] = [0x46, 0x53, 0x4c, 0x42];

/// The one protocol version this codec speaks.
pub const PROTOCOL_VERSION: u8 = 0x01;

/// A request is always this many bytes: 4 magic, 1 version, 32 digest.
pub const REQUEST_LEN: usize = 37;

/// A content type is bounded so a header can never grow without limit.
pub const MAX_CONTENT_TYPE: usize = 255;

/// The blob was found and its bytes follow the header.
pub const STATUS_OK: u8 = 0x00;

/// The server holds no blob under the requested digest.
pub const STATUS_NOT_FOUND: u8 = 0x01;

/// The server could not serve the blob for some other reason.
pub const STATUS_ERROR: u8 = 0x02;

/// The server does not speak the version of the request.
pub const STATUS_UNSUPPORTED_VERSION: u8 = 0x03;

/// Bodies move in pieces no larger than this, so neither side buffers a whole
/// blob in memory.
pub const CHUNK: usize = 65536;

/// The part of an `ok` header before its content type.
pub const FIXED_HEADER: usize = 11;

/// Why a frame could not be decoded.
#[derive(Clone, Copy, Debug, PartialEq, Eq, Structural)]
pub enum WireError {
    /// The buffer ended before a full frame was present.
    Short {
        /// The number of bytes the frame required.
        needed: usize,
        /// The number of bytes actually present.
        had: usize,
    },
    /// The request magic was not `FSLB`.
    BadMagic,
    /// The version byte named a protocol this codec does not speak.
    BadVersion(u8),
    /// The response status byte was not one of the defined values.
    BadStatus(u8),
    /// The declared content type ran past the 255 byte bound.
    ContentTypeTooLong(u16),
    /// The content type bytes were not valid UTF-8.
    BadContentType,
}

/// The words for a frame that could not be decoded.
pub open spec fn wire_words(error: WireError) -> Seq<char> {
    match error {
        WireError::Short { needed, had } => "buffer too short: needed "@ + decimal_text(
            needed as nat,
        ) + " bytes, had "@ + decimal_text(had as nat),
        WireError::BadMagic => "request magic is not FSLB"@,
        WireError::BadVersion(byte) => "unsupported protocol version 0x"@ + hex_text(seq![byte]),
        WireError::BadStatus(byte) => "unknown response status byte 0x"@ + hex_text(seq![byte]),
        WireError::ContentTypeTooLong(length) => "content-type length "@ + decimal_text(
            length as nat,
        ) + " exceeds 255 bytes"@,
        WireError::BadContentType => "content-type is not valid utf-8"@,
    }
}

fn byte_text(byte: u8) -> (r: String)
    ensures
        r@ == hex_text(seq![byte]),
{
    let bytes = [byte];
    assert(bytes@ =~= seq![byte]);
    hex_encode(&bytes)
}

impl WireError {
    /// The words for this error.
    pub fn words(&self) -> (r: String)
        ensures
            r@ == wire_words(*self),
    {
        match self {
            WireError::Short { needed, had } => "buffer too short: needed ".to_owned().concat(
                decimal(*needed as u64).as_str(),
            ).concat(" bytes, had ").concat(decimal(*had as u64).as_str()),
            WireError::BadMagic => "request magic is not FSLB".to_owned(),
            WireError::BadVersion(byte) => "unsupported protocol version 0x".to_owned().concat(
                byte_text(*byte).as_str(),
            ),
            WireError::BadStatus(byte) => "unknown response status byte 0x".to_owned().concat(
                byte_text(*byte).as_str(),
            ),
            WireError::ContentTypeTooLong(length) => "content-type length ".to_owned().concat(
                decimal(*length as u64).as_str(),
            ).concat(" exceeds 255 bytes"),
            WireError::BadContentType => "content-type is not valid utf-8".to_owned(),
        }
    }
}

impl core::fmt::Display for WireError {
    fn fmt(&self, f: &mut core::fmt::Formatter<'_>) -> core::fmt::Result {
        write_text(f, self.words().as_str())
    }
}

/// A hash-addressed request for one blob.
#[derive(Clone, Copy, Debug, PartialEq, Eq)]
pub struct Request {
    /// The raw 32 byte SHA-256 of the wanted blob.
    pub sha256: [u8; 32],
}

/// A request on the wire.
pub open spec fn request_bytes(sha256: Seq<u8>) -> Seq<u8> {
    REQUEST_MAGIC@ + seq![PROTOCOL_VERSION] + sha256
}

/// What the front of a buffer says as a request.
pub open spec fn request_verdict(bytes: Seq<u8>) -> Result<Seq<u8>, WireError> {
    if bytes.len() < REQUEST_LEN {
        Err(WireError::Short { needed: REQUEST_LEN, had: bytes.len() as usize })
    } else if bytes.subrange(0, 4) != REQUEST_MAGIC@ {
        Err(WireError::BadMagic)
    } else if bytes[4] != PROTOCOL_VERSION {
        Err(WireError::BadVersion(bytes[4]))
    } else {
        Ok(bytes.subrange(5, 37))
    }
}

impl Request {
    /// A request for the blob with this raw digest.
    pub fn new(sha256: [u8; 32]) -> (r: Self)
        ensures
            r.sha256 == sha256,
    {
        Request { sha256 }
    }

    /// Encode the request to its exact wire bytes.
    pub fn encode(&self) -> (r: [u8; 37])
        ensures
            r@ == request_bytes(self.sha256@),
    {
        let mut out = [0u8; 37];
        write_at(&mut out, 0, &REQUEST_MAGIC);
        out[4] = PROTOCOL_VERSION;
        write_at(&mut out, 5, &self.sha256);
        assert(out@ =~= request_bytes(self.sha256@));
        out
    }

    /// Decode a request from the front of `bytes`, rejecting a short buffer, the
    /// wrong magic or an unknown version.
    pub fn decode(bytes: &[u8]) -> (r: Result<Self, WireError>)
        ensures
            match r {
                Ok(request) => request_verdict(bytes@) == Ok::<_, WireError>(request.sha256@),
                Err(error) => request_verdict(bytes@) == Err::<Seq<u8>, _>(error),
            },
    {
        if bytes.len() < REQUEST_LEN {
            return Err(WireError::Short { needed: REQUEST_LEN, had: bytes.len() });
        }
        if !bytes_eq(slice_subrange(bytes, 0, 4), &REQUEST_MAGIC) {
            return Err(WireError::BadMagic);
        }
        if bytes[4] != PROTOCOL_VERSION {
            return Err(WireError::BadVersion(bytes[4]));
        }
        Ok(Request { sha256: array_at::<32>(bytes, 5) })
    }
}

/// A request that was encoded is decoded, whatever follows it in the buffer.
pub proof fn law_request_round_trip(sha256: Seq<u8>, rest: Seq<u8>)
    requires
        sha256.len() == 32,
    ensures
        request_verdict(request_bytes(sha256) + rest) == Ok::<_, WireError>(sha256),
{
    let bytes = request_bytes(sha256) + rest;
    assert(bytes.subrange(0, 4) =~= REQUEST_MAGIC@);
    assert(bytes.subrange(5, 37) =~= sha256);
}

/// The header that opens a response.  The body, when there is one, follows it.
#[derive(Debug, PartialEq, Eq)]
pub enum ResponseHeader {
    /// The blob was found; `size` bytes of body follow the header.
    Found {
        /// The exact length of the body in bytes.
        size: u64,
        /// The media type the server declared, if any.
        content_type: Option<String>,
    },
    /// No blob is held under the requested digest.
    NotFound,
    /// The blob could not be served for some other reason.
    Error,
    /// The request was of a version the server does not speak.
    UnsupportedVersion,
}

/// A response header as mathematics.
pub enum HeaderView {
    Found { size: u64, content_type: Option<Seq<char>> },
    NotFound,
    Error,
    UnsupportedVersion,
}

impl View for ResponseHeader {
    type V = HeaderView;

    open spec fn view(&self) -> HeaderView {
        match self {
            ResponseHeader::Found { size, content_type } => HeaderView::Found {
                size: *size,
                content_type: opt_text(*content_type),
            },
            ResponseHeader::NotFound => HeaderView::NotFound,
            ResponseHeader::Error => HeaderView::Error,
            ResponseHeader::UnsupportedVersion => HeaderView::UnsupportedVersion,
        }
    }
}

impl Clone for ResponseHeader {
    fn clone(&self) -> (r: Self)
        ensures
            r@ == self@,
    {
        match self {
            ResponseHeader::Found { size, content_type } => ResponseHeader::Found {
                size: *size,
                content_type: copy_opt_text(content_type),
            },
            ResponseHeader::NotFound => ResponseHeader::NotFound,
            ResponseHeader::Error => ResponseHeader::Error,
            ResponseHeader::UnsupportedVersion => ResponseHeader::UnsupportedVersion,
        }
    }
}

/// The media type as it travels.  One longer than the bound is dropped whole
/// rather than truncated: a cut can split a UTF-8 character, and the peer would
/// then reject the entire header.
pub open spec fn content_bytes(content_type: Option<Seq<char>>) -> Seq<u8> {
    match content_type {
        Some(text) if encode_utf8(text).len() <= MAX_CONTENT_TYPE => encode_utf8(text),
        _ => Seq::empty(),
    }
}

/// A response header on the wire.
pub open spec fn header_wire(header: HeaderView) -> Seq<u8> {
    match header {
        HeaderView::Found { size, content_type } => seq![STATUS_OK] + be_bytes(size as nat, 8)
            + be_bytes(content_bytes(content_type).len(), 2) + content_bytes(content_type),
        HeaderView::NotFound => seq![STATUS_NOT_FOUND],
        HeaderView::Error => seq![STATUS_ERROR],
        HeaderView::UnsupportedVersion => seq![STATUS_UNSUPPORTED_VERSION],
    }
}

/// The length that an `ok` header declares for its content type.
pub open spec fn declared_content(bytes: Seq<u8>) -> nat {
    be_value(bytes.subrange(9, 11))
}

/// What the front of a buffer says as a response header, and how long the header
/// is.
pub open spec fn header_verdict(bytes: Seq<u8>) -> Result<(HeaderView, nat), WireError> {
    if bytes.len() == 0 {
        Err(WireError::Short { needed: 1, had: 0 })
    } else if bytes[0] == STATUS_OK {
        if bytes.len() < FIXED_HEADER {
            Err(WireError::Short { needed: FIXED_HEADER, had: bytes.len() as usize })
        } else if declared_content(bytes) > MAX_CONTENT_TYPE {
            Err(WireError::ContentTypeTooLong(declared_content(bytes) as u16))
        } else {
            let end = 11 + declared_content(bytes);
            let text = bytes.subrange(11, end as int);
            if bytes.len() < end {
                Err(WireError::Short { needed: end as usize, had: bytes.len() as usize })
            } else if declared_content(bytes) > 0 && !valid_utf8(text) {
                Err(WireError::BadContentType)
            } else {
                Ok(
                    (
                        HeaderView::Found {
                            size: be_value(bytes.subrange(1, 9)) as u64,
                            content_type: if declared_content(bytes) == 0 {
                                None
                            } else {
                                Some(decode_utf8(text))
                            },
                        },
                        end,
                    ),
                )
            }
        }
    } else if bytes[0] == STATUS_NOT_FOUND {
        Ok((HeaderView::NotFound, 1))
    } else if bytes[0] == STATUS_ERROR {
        Ok((HeaderView::Error, 1))
    } else if bytes[0] == STATUS_UNSUPPORTED_VERSION {
        Ok((HeaderView::UnsupportedVersion, 1))
    } else {
        Err(WireError::BadStatus(bytes[0]))
    }
}

/// The view of a decoding result.
pub open spec fn header_result(result: Result<(ResponseHeader, usize), WireError>) -> Result<
    (HeaderView, nat),
    WireError,
> {
    match result {
        Ok((header, consumed)) => Ok((header@, consumed as nat)),
        Err(error) => Err(error),
    }
}

fn status_only(status: u8) -> (r: Vec<u8>)
    ensures
        r@ == seq![status],
{
    let mut out: Vec<u8> = Vec::new();
    out.push(status);
    assert(out@ =~= seq![status]);
    out
}

impl ResponseHeader {
    /// Encode the header to its exact wire bytes.
    pub fn encode(&self) -> (r: Vec<u8>)
        ensures
            r@ == header_wire(self@),
    {
        match self {
            ResponseHeader::Found { size, content_type } => {
                let mut out: Vec<u8> = Vec::new();
                out.push(STATUS_OK);
                append(&mut out, &to_be64(*size));
                let ghost text = content_bytes(opt_text(*content_type));
                match content_type {
                    Some(text) if text.as_str().as_bytes().len() <= MAX_CONTENT_TYPE => {
                        let bytes = text.as_str().as_bytes();
                        append(&mut out, &to_be16(bytes.len() as u16));
                        append(&mut out, bytes);
                    },
                    _ => {
                        append(&mut out, &to_be16(0));
                    },
                }
                assert(out@ =~= header_wire(self@));
                out
            },
            ResponseHeader::NotFound => status_only(STATUS_NOT_FOUND),
            ResponseHeader::Error => status_only(STATUS_ERROR),
            ResponseHeader::UnsupportedVersion => status_only(STATUS_UNSUPPORTED_VERSION),
        }
    }

    /// Decode a header from the front of `bytes`, returning the header and the
    /// number of bytes it occupied.  The body, when the status is ok, begins at
    /// that offset.  A buffer that stops mid-header is rejected rather than
    /// guessed.
    pub fn decode(bytes: &[u8]) -> (r: Result<(Self, usize), WireError>)
        ensures
            header_result(r) == header_verdict(bytes@),
    {
        if bytes.len() == 0 {
            return Err(WireError::Short { needed: 1, had: 0 });
        }
        let status: u8 = bytes[0];
        if status == STATUS_OK {
            if bytes.len() < FIXED_HEADER {
                return Err(WireError::Short { needed: FIXED_HEADER, had: bytes.len() });
            }
            let size: u64 = be64(slice_subrange(bytes, 1, 9));
            let content_len: u16 = be16(bytes[9], bytes[10]);
            proof {
                assert(bytes@.subrange(9, 11) =~= seq![bytes@[9], bytes@[10]]);
            }
            if content_len as usize > MAX_CONTENT_TYPE {
                return Err(WireError::ContentTypeTooLong(content_len));
            }
            let end: usize = FIXED_HEADER + content_len as usize;
            if bytes.len() < end {
                return Err(WireError::Short { needed: end, had: bytes.len() });
            }
            if content_len == 0 {
                return Ok((ResponseHeader::Found { size, content_type: None }, end));
            }
            match utf8_text(slice_subrange(bytes, FIXED_HEADER, end)) {
                Some(text) => Ok(
                    (ResponseHeader::Found { size, content_type: Some(text.to_owned()) }, end),
                ),
                None => Err(WireError::BadContentType),
            }
        } else if status == STATUS_NOT_FOUND {
            Ok((ResponseHeader::NotFound, 1))
        } else if status == STATUS_ERROR {
            Ok((ResponseHeader::Error, 1))
        } else if status == STATUS_UNSUPPORTED_VERSION {
            Ok((ResponseHeader::UnsupportedVersion, 1))
        } else {
            Err(WireError::BadStatus(status))
        }
    }
}

/// A header with the media type that survives the wire: none for an empty one and
/// for one past the bound.
pub open spec fn carried(header: HeaderView) -> HeaderView {
    match header {
        HeaderView::Found { size, content_type } => HeaderView::Found {
            size,
            content_type: if content_bytes(content_type).len() == 0 {
                None
            } else {
                content_type
            },
        },
        _ => header,
    }
}

/// A header that was encoded is decoded, whatever follows it in the buffer, and
/// its length is found.
pub proof fn law_header_round_trip(header: HeaderView, rest: Seq<u8>)
    ensures
        header_verdict(header_wire(header) + rest) == Ok::<_, WireError>(
            (carried(header), header_wire(header).len()),
        ),
{
    let wire = header_wire(header);
    let bytes = wire + rest;
    match header {
        HeaderView::Found { size, content_type } => {
            let text = content_bytes(content_type);
            lemma_pow256_values();
            lemma_be_round_trip(size as nat, 8);
            lemma_be_round_trip(text.len(), 2);
            assert(bytes[0] == STATUS_OK);
            assert(bytes.subrange(1, 9) =~= be_bytes(size as nat, 8));
            assert(bytes.subrange(9, 11) =~= be_bytes(text.len(), 2));
            assert(bytes.subrange(11, 11 + text.len() as int) =~= text);
            if text.len() > 0 {
                encode_utf8_valid_utf8(content_type->0);
                encode_utf8_decode_utf8(content_type->0);
            }
        },
        _ => {
            assert(bytes[0] == wire[0]);
        },
    }
}

} // verus!
