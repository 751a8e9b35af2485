//! Text messages over a WebSocket on an open session stream.
//!
//! The virtual URL names a peer; it is validated before a stream is opened and is
//! not resolved by name.
use crate::id::{base32_text, NodeId};
use crate::link_url::{UrlParts, UrlView};
use crate::relay_client::Pushed;
use crate::text::{decimal, decimal_text, same_text, write_text};
use vstd::prelude::*;
use vstd::string::*;
use vstd::utf8::*;

verus! {

/// The longest text payload in either direction, in bytes.
pub const MAX_TEXT_BYTES: usize = 1_048_576;

/// How many commands a socket queues.
pub const OUTBOUND_QUEUE: usize = 64;

/// How many received messages a socket queues.
pub const INBOUND_QUEUE: usize = 64;

/// Why a socket refused.
#[derive(Debug, PartialEq, Eq)]
pub enum SocketError {
    Scheme,
    Authority,
    Path,
    Host,
    PeerMismatch,
    TextTooLarge,
    QueueFull,
    Closed,
    Stream(String),
    Upgrade(String),
}

/// The words for a refusal.
pub open spec fn socket_words(error: SocketError) -> Seq<char> {
    match error {
        SocketError::Scheme => "Link WebSocket URLs must use ws"@,
        SocketError::Authority =>
            "Link WebSocket URL must not contain credentials, a port, query, or fragment"@,
        SocketError::Path => "Link WebSocket URL path must be /events"@,
        SocketError::Host => "Link WebSocket URL host must be a canonical Link node id"@,
        SocketError::PeerMismatch =>
            "Link WebSocket URL host does not match the connected peer"@,
        SocketError::TextTooLarge => "outbound WebSocket text exceeds "@ + decimal_text(
            MAX_TEXT_BYTES as nat,
        ) + " bytes"@,
        SocketError::QueueFull => "outbound WebSocket queue is full"@,
        SocketError::Closed => "WebSocket is closed"@,
        SocketError::Stream(detail) => "could not open Link stream: "@ + detail@,
        SocketError::Upgrade(detail) => "could not complete WebSocket upgrade: "@ + detail@,
    }
}

impl SocketError {
    /// The words for this refusal.
    pub fn words(&self) -> (r: String)
        ensures
            r@ == socket_words(*self),
    {
        match self {
            SocketError::Scheme => "Link WebSocket URLs must use ws".to_owned(),
            SocketError::Authority =>
                "Link WebSocket URL must not contain credentials, a port, query, or fragment".to_owned(),
            SocketError::Path => "Link WebSocket URL path must be /events".to_owned(),
            SocketError::Host =>
                "Link WebSocket URL host must be a canonical Link node id".to_owned(),
            SocketError::PeerMismatch =>
                "Link WebSocket URL host does not match the connected peer".to_owned(),
            SocketError::TextTooLarge => "outbound WebSocket text exceeds ".to_owned().concat(
                decimal(MAX_TEXT_BYTES as u64).as_str(),
            ).concat(" bytes"),
            SocketError::QueueFull => "outbound WebSocket queue is full".to_owned(),
            SocketError::Closed => "WebSocket is closed".to_owned(),
            SocketError::Stream(detail) => "could not open Link stream: ".to_owned().concat(
                detail.as_str(),
            ),
            SocketError::Upgrade(detail) =>
                "could not complete WebSocket upgrade: ".to_owned().concat(detail.as_str()),
        }
    }
}

impl core::fmt::Display for SocketError {
    fn fmt(&self, f: &mut core::fmt::Formatter<'_>) -> core::fmt::Result {
        write_text(f, self.words().as_str())
    }
}

/// What a socket hands to its owner.
#[derive(Debug, PartialEq, Eq)]
pub enum IncomingMessage {
    Text(String),
    Closed(String),
}

/// Whether a virtual URL carries anything beside its host and path.
pub open spec fn has_authority(url: UrlView) -> bool {
    url.username.len() > 0 || url.password is Some || url.port is Some || url.query is Some
        || url.fragment is Some
}

/// What a virtual URL is refused for on a session with `peer`.
pub open spec fn url_fault(url: UrlView, peer: NodeId) -> Option<SocketError> {
    if url.scheme != "ws"@ {
        Some(SocketError::Scheme)
    } else if has_authority(url) {
        Some(SocketError::Authority)
    } else if url.path != "/events"@ {
        Some(SocketError::Path)
    } else if url.host is None || !exists|node: NodeId|
        url.host == Some(#[trigger] base32_text(node.0@)) {
        Some(SocketError::Host)
    } else if url.host != Some(base32_text(peer.0@)) {
        Some(SocketError::PeerMismatch)
    } else {
        None
    }
}

/// Validate the only virtual URL that a session carries.
pub fn validate_virtual_url(url: &UrlParts, peer: NodeId) -> (r: Result<(), SocketError>)
    ensures
        match r {
            Ok(()) => url_fault(url@, peer) is None,
            Err(error) => url_fault(url@, peer) == Some(error),
        },
{
    if !same_text(url.scheme.as_str(), "ws") {
        return Err(SocketError::Scheme);
    }
    if !same_text(url.username.as_str(), "") || url.password.is_some() || url.port.is_some()
        || url.query.is_some() || url.fragment.is_some() {
        proof {
            reveal_strlit("");
            if url@.username.len() == 0 {
                assert(url@.username =~= ""@);
            }
        }
        return Err(SocketError::Authority);
    }
    proof {
        reveal_strlit("");
    }
    if !same_text(url.path.as_str(), "/events") {
        return Err(SocketError::Path);
    }
    let host = match &url.host {
        Some(host) => host,
        None => {
            return Err(SocketError::Host);
        },
    };
    let node = match NodeId::from_base32(host.as_str()) {
        Some(node) => node,
        None => {
            return Err(SocketError::Host);
        },
    };
    assert(url@.host == Some(base32_text(node.0@)));
    if !node.same(&peer) {
        proof {
            if base32_text(node.0@) == base32_text(peer.0@) {
                crate::id::law_base32_is_injective(node, peer);
            }
        }
        return Err(SocketError::PeerMismatch);
    }
    Ok(())
}

/// Whether a text may be queued, given what the queue said; a full queue ends the
/// socket.
pub fn send_verdict(length: usize, pushed: Pushed) -> (r: Result<(), SocketError>)
    ensures
        match r {
            Ok(()) => length <= MAX_TEXT_BYTES && pushed == Pushed::Accepted,
            Err(SocketError::TextTooLarge) => length > MAX_TEXT_BYTES,
            Err(SocketError::QueueFull) => length <= MAX_TEXT_BYTES && pushed == Pushed::Full,
            Err(SocketError::Closed) => length <= MAX_TEXT_BYTES && pushed == Pushed::Closed,
            Err(_) => false,
        },
{
    if length > MAX_TEXT_BYTES {
        return Err(SocketError::TextTooLarge);
    }
    match pushed {
        Pushed::Accepted => Ok(()),
        Pushed::Full => Err(SocketError::QueueFull),
        Pushed::Closed => Err(SocketError::Closed),
    }
}

/// Whether a text is short enough to be queued at all.
pub fn text_fits(text: &str) -> (r: bool)
    ensures
        r == (text.spec_bytes().len() <= MAX_TEXT_BYTES),
{
    text.as_bytes().len() <= MAX_TEXT_BYTES
}

/// What happened to a socket.
#[derive(Debug)]
pub enum SocketEvent {
    /// The outbound queue overflowed.
    Overflow,
    /// Its owner closed it, or is gone.
    ClosedHere,
    /// Its owner queued a text.
    Queued(String),
    /// A text could not be written.
    WriteFailed,
    /// A text arrived.
    Text(String),
    /// The owner did not take a text in time.
    InboundFull,
    /// A ping arrived.
    Ping,
    /// The answer to a ping could not be written.
    PongFailed,
    /// A pong arrived.
    Pong,
    /// The peer closed.
    ClosedByPeer,
    /// Something other than text arrived.
    Binary,
    /// The peer broke the protocol.
    Fault,
    /// The stream ended.
    Ended,
}

/// What a socket does about it.
#[derive(Debug)]
pub enum SocketStep {
    Write(String),
    Deliver(String),
    AnswerPing,
    Nothing,
    /// The socket ends with one terminal message; a close frame is sent first if
    /// asked.
    End { close: bool, reason: &'static str },
}

/// Whether `step` ends a socket with these words.
pub open spec fn ends_with(step: SocketStep, close: bool, reason: Seq<char>) -> bool {
    step matches SocketStep::End { close: sent, reason: words } && sent == close && words@ == reason
}

/// Whether `step` is the answer to an event.
pub open spec fn socket_answer(event: SocketEvent, step: SocketStep) -> bool {
    match event {
        SocketEvent::Overflow => ends_with(step, true, "outbound queue overflow"@),
        SocketEvent::ClosedHere => ends_with(step, true, "closed locally"@),
        SocketEvent::Queued(text) => step matches SocketStep::Write(out) && out@ == text@,
        SocketEvent::WriteFailed => ends_with(step, false, "write failed"@),
        SocketEvent::Text(text) => if encode_utf8(text@).len() > MAX_TEXT_BYTES {
            ends_with(step, true, "text frame exceeds limit"@)
        } else {
            step matches SocketStep::Deliver(out) && out@ == text@
        },
        SocketEvent::InboundFull => ends_with(step, true, "inbound queue overflow"@),
        SocketEvent::Ping => step == SocketStep::AnswerPing,
        SocketEvent::PongFailed => ends_with(step, false, "pong failed"@),
        SocketEvent::Pong => step == SocketStep::Nothing,
        SocketEvent::ClosedByPeer => ends_with(step, true, "closed by peer"@),
        SocketEvent::Binary => ends_with(step, true, "binary frames are not supported"@),
        SocketEvent::Fault => ends_with(step, false, "WebSocket protocol error"@),
        SocketEvent::Ended => ends_with(step, false, "connection ended"@),
    }
}

/// Take an event in.
pub fn socket_step(event: SocketEvent) -> (r: SocketStep)
    ensures
        socket_answer(event, r),
{
    match event {
        SocketEvent::Overflow => SocketStep::End { close: true, reason: "outbound queue overflow" },
        SocketEvent::ClosedHere => SocketStep::End { close: true, reason: "closed locally" },
        SocketEvent::Queued(text) => SocketStep::Write(text),
        SocketEvent::WriteFailed => SocketStep::End { close: false, reason: "write failed" },
        SocketEvent::Text(text) => {
            if text_fits(text.as_str()) {
                SocketStep::Deliver(text)
            } else {
                SocketStep::End { close: true, reason: "text frame exceeds limit" }
            }
        },
        SocketEvent::InboundFull => SocketStep::End {
            close: true,
            reason: "inbound queue overflow",
        },
        SocketEvent::Ping => SocketStep::AnswerPing,
        SocketEvent::PongFailed => SocketStep::End { close: false, reason: "pong failed" },
        SocketEvent::Pong => SocketStep::Nothing,
        SocketEvent::ClosedByPeer => SocketStep::End { close: true, reason: "closed by peer" },
        SocketEvent::Binary => SocketStep::End {
            close: true,
            reason: "binary frames are not supported",
        },
        SocketEvent::Fault => SocketStep::End { close: false, reason: "WebSocket protocol error" },
        SocketEvent::Ended => SocketStep::End { close: false, reason: "connection ended" },
    }
}

} // verus!
