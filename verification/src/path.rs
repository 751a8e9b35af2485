//! The path status types.
use crate::net::SocketAddr;
use crate::text::write_text;
use vstd::prelude::*;
use vstd::string::*;

verus! {

/// Why a path failed.
#[derive(Clone, Copy, Debug, PartialEq, Eq, Structural)]
pub enum FailReason {
    Relay,
    Identity,
    Timeout,
    Rendezvous,
    Superseded,
}

/// The word for a reason.
pub open spec fn reason_word(reason: FailReason) -> Seq<char> {
    match reason {
        FailReason::Relay => "relay"@,
        FailReason::Identity => "identity"@,
        FailReason::Timeout => "timeout"@,
        FailReason::Rendezvous => "rendezvous"@,
        FailReason::Superseded => "superseded"@,
    }
}

impl FailReason {
    /// The word for this reason.
    pub fn word(&self) -> (r: &'static str)
        ensures
            r@ == reason_word(*self),
    {
        match self {
            FailReason::Relay => "relay",
            FailReason::Identity => "identity",
            FailReason::Timeout => "timeout",
            FailReason::Rendezvous => "rendezvous",
            FailReason::Superseded => "superseded",
        }
    }
}

impl core::fmt::Display for FailReason {
    fn fmt(&self, f: &mut core::fmt::Formatter<'_>) -> core::fmt::Result {
        write_text(f, self.word())
    }
}

/// Where a session's packets go.
#[derive(Clone, Copy, Debug, PartialEq, Eq, Structural)]
pub enum PathStatus {
    Idle,
    Rendezvous,
    Relayed,
    Probing,
    Direct,
    Reconnecting,
    Failed(FailReason),
}

/// The single word an acceptance record carries.
pub open spec fn outcome_word(status: PathStatus) -> Seq<char> {
    match status {
        PathStatus::Idle => "idle"@,
        PathStatus::Rendezvous => "rendezvous"@,
        PathStatus::Relayed => "relayed"@,
        PathStatus::Probing => "probing"@,
        PathStatus::Direct => "direct"@,
        PathStatus::Reconnecting => "reconnecting"@,
        PathStatus::Failed(reason) => "failed("@ + reason_word(reason) + ")"@,
    }
}

impl PathStatus {
    /// The single word an acceptance record carries.
    pub fn outcome(&self) -> (r: String)
        ensures
            r@ == outcome_word(*self),
    {
        match self {
            PathStatus::Idle => "idle".to_owned(),
            PathStatus::Rendezvous => "rendezvous".to_owned(),
            PathStatus::Relayed => "relayed".to_owned(),
            PathStatus::Probing => "probing".to_owned(),
            PathStatus::Direct => "direct".to_owned(),
            PathStatus::Reconnecting => "reconnecting".to_owned(),
            PathStatus::Failed(reason) => "failed(".to_owned().concat(reason.word()).concat(")"),
        }
    }

    /// Whether the session has ended.
    pub fn is_failed(&self) -> (r: bool)
        ensures
            r == (*self is Failed),
    {
        matches!(self, PathStatus::Failed(_))
    }
}

impl core::fmt::Display for PathStatus {
    fn fmt(&self, f: &mut core::fmt::Formatter<'_>) -> core::fmt::Result {
        write_text(f, self.outcome().as_str())
    }
}

/// The exact current path.  Never inferred from a successful transfer.
#[derive(Debug)]
pub struct PathReport {
    pub status: PathStatus,
    pub relay: Option<String>,
    pub direct: Option<SocketAddr>,
    /// When the path became this one, in milliseconds of the caller's clock.
    pub since: u64,
    /// Why the last transition happened.  Every transition is logged with this.
    pub cause: String,
}

/// A report as mathematics.
#[verifier::ext_equal]
pub struct PathReportView {
    pub status: PathStatus,
    pub relay: Option<Seq<char>>,
    pub direct: Option<SocketAddr>,
    pub since: u64,
    pub cause: Seq<char>,
}

/// The view of an optional string.
pub open spec fn opt_text(text: Option<String>) -> Option<Seq<char>> {
    match text {
        Some(text) => Some(text@),
        None => None,
    }
}

/// A copy of an optional string.
pub fn copy_opt_text(text: &Option<String>) -> (r: Option<String>)
    ensures
        opt_text(r) == opt_text(*text),
{
    match text {
        Some(text) => Some(text.clone()),
        None => None,
    }
}

impl View for PathReport {
    type V = PathReportView;

    open spec fn view(&self) -> PathReportView {
        PathReportView {
            status: self.status,
            relay: opt_text(self.relay),
            direct: self.direct,
            since: self.since,
            cause: self.cause@,
        }
    }
}

impl Clone for PathReport {
    fn clone(&self) -> (r: Self)
        ensures
            r@ == self@,
    {
        PathReport {
            status: self.status,
            relay: copy_opt_text(&self.relay),
            direct: self.direct,
            since: self.since,
            cause: self.cause.clone(),
        }
    }
}

} // verus!
