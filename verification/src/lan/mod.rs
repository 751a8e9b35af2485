//! The opt-in native LAN mode: an explicit interface, explicitly admitted peers,
//! and no relay.
pub mod address;
pub mod admission;
pub mod session;

use crate::text::write_text;
use vstd::prelude::*;

verus! {

/// How many connections a LAN endpoint serves at once.
pub const MAX_CONNECTIONS: usize = 8;

/// How many handshakes run at once.
pub const MAX_HANDSHAKES: usize = 4;

/// The longest handshake, in milliseconds.
pub const HANDSHAKE_TIMEOUT: u64 = 5_000;

/// The longest first-contact window, in milliseconds.
pub const MAX_PAIRING_WINDOW: u64 = 600_000;

/// What a listener sends once it has admitted a session: `FSL-LAN-READY` and a one.
pub const READY: [u8; 14] = [
    0x46, 0x53, 0x4c, 0x2d, 0x4c, 0x41, 0x4e, 0x2d, 0x52, 0x45, 0x41, 0x44, 0x59, 0x01,
];

/// The protocol of LAN sessions: `fsl-lan-candidate/0`.
pub const LAN_ALPN: [u8; 19] = [
    0x66, 0x73, 0x6c, 0x2d, 0x6c, 0x61, 0x6e, 0x2d, 0x63, 0x61, 0x6e, 0x64, 0x69, 0x64, 0x61, 0x74,
    0x65, 0x2f, 0x30,
];

/// The protocol of LAN first contact: `fsl-lan-pair-candidate/0`.
pub const LAN_PAIRING_ALPN: [u8; 24] = [
    0x66, 0x73, 0x6c, 0x2d, 0x6c, 0x61, 0x6e, 0x2d, 0x70, 0x61, 0x69, 0x72, 0x2d, 0x63, 0x61, 0x6e,
    0x64, 0x69, 0x64, 0x61, 0x74, 0x65, 0x2f, 0x30,
];

/// Why a LAN operation is refused.
#[derive(Clone, Copy, Debug, PartialEq, Eq, Structural)]
pub enum LanError {
    Address,
    Card,
    Identity,
    Admission,
    Capacity,
    Timeout,
    Closed,
    Connection,
    StreamLimit,
    Lifetime,
}

/// The words for a refusal.
pub open spec fn lan_words(error: LanError) -> Seq<char> {
    match error {
        LanError::Address =>
            "address is outside the explicitly selected local interface or development loopback"@,
        LanError::Card => "invalid, expired, changed or replayed peer card"@,
        LanError::Identity => "peer identity did not authenticate"@,
        LanError::Admission => "peer or network admission is absent, expired or superseded"@,
        LanError::Capacity => "local connection or admission capacity is exhausted"@,
        LanError::Timeout => "LAN connection did not complete within its deadline"@,
        LanError::Closed => "LAN endpoint or connection closed"@,
        LanError::Connection => "LAN connection failed"@,
        LanError::StreamLimit => "pairing permits exactly one dialler-initiated stream"@,
        LanError::Lifetime => "invalid local card or pairing lifetime"@,
    }
}

impl LanError {
    /// The words for this refusal.
    pub fn words(&self) -> (r: &'static str)
        ensures
            r@ == lan_words(*self),
    {
        match self {
            LanError::Address =>
                "address is outside the explicitly selected local interface or development loopback",
            LanError::Card => "invalid, expired, changed or replayed peer card",
            LanError::Identity => "peer identity did not authenticate",
            LanError::Admission => "peer or network admission is absent, expired or superseded",
            LanError::Capacity => "local connection or admission capacity is exhausted",
            LanError::Timeout => "LAN connection did not complete within its deadline",
            LanError::Closed => "LAN endpoint or connection closed",
            LanError::Connection => "LAN connection failed",
            LanError::StreamLimit => "pairing permits exactly one dialler-initiated stream",
            LanError::Lifetime => "invalid local card or pairing lifetime",
        }
    }
}

impl core::fmt::Display for LanError {
    fn fmt(&self, f: &mut core::fmt::Formatter<'_>) -> core::fmt::Result {
        write_text(f, self.words())
    }
}

} // verus!
