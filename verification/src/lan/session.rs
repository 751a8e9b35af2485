//! LAN sessions: what a dial and an accept decide, what a session checks before
//! each step, and what a first-contact stream may carry.
use super::address::{permitted, AddressPolicy};
use super::{LanError, MAX_PAIRING_WINDOW, READY};
use crate::bytes::bytes_eq;
use crate::card::{udp_list, unmap_ipv6, unmapped, Card, MAX_LIFETIME_SECONDS};
use crate::endpoint::HandshakeFault;
use crate::id::NodeId;
use crate::net::SocketAddr;
use vstd::prelude::*;

verus! {

/// What a first-contact stream may carry in each direction.
pub const MAX_PAIRING_STREAM_BYTES: u64 = 0x10_0000;

/// The longest first-contact session, in milliseconds.
pub const MAX_PAIRING_SESSION: u64 = 60_000;

// ---------------------------------------------------------------------------
// Consent
// ---------------------------------------------------------------------------
/// Whether the consent behind a session has ended.
pub open spec fn consent_ended(
    endpoint_active: bool,
    lease_valid: bool,
    deadline: Option<u64>,
    now: u64,
) -> bool {
    !endpoint_active || !lease_valid || (deadline matches Some(deadline) && now >= deadline)
}

/// Whether bytes may pass, buffered ones too: a clean close by the peer may follow
/// bytes that are already here, but revoked consent withholds even those.
pub fn io_check(endpoint_active: bool, lease_valid: bool, deadline: Option<u64>, now: u64) -> (r:
    Result<(), LanError>)
    ensures
        r == if consent_ended(endpoint_active, lease_valid, deadline, now) {
            Err::<(), _>(LanError::Admission)
        } else {
            Ok(())
        },
{
    let late = match deadline {
        Some(deadline) => now >= deadline,
        None => false,
    };
    if !endpoint_active || !lease_valid || late {
        Err(LanError::Admission)
    } else {
        Ok(())
    }
}

/// Whether a session is live.
pub fn session_check(
    endpoint_active: bool,
    lease_valid: bool,
    deadline: Option<u64>,
    now: u64,
    closed: bool,
) -> (r: Result<(), LanError>)
    ensures
        r == if consent_ended(endpoint_active, lease_valid, deadline, now) {
            Err::<(), _>(LanError::Admission)
        } else if closed {
            Err(LanError::Closed)
        } else {
            Ok(())
        },
{
    match io_check(endpoint_active, lease_valid, deadline, now) {
        Err(error) => Err(error),
        Ok(()) => if closed {
            Err(LanError::Closed)
        } else {
            Ok(())
        },
    }
}

/// Whether an endpoint is open: its interface is present and its first-contact
/// window, if it has one, is in force.
pub fn endpoint_check(active: bool, present: bool, window: Option<bool>) -> (r: Result<
    (),
    LanError,
>)
    ensures
        r == if !active || !present || window == Some(false) {
            Err::<(), _>(LanError::Admission)
        } else {
            Ok(())
        },
{
    let shut = match window {
        Some(valid) => !valid,
        None => false,
    };
    if !active || !present || shut {
        Err(LanError::Admission)
    } else {
        Ok(())
    }
}

/// The time a session ends at the latest: with its lease, and a first-contact
/// session a minute after it began.
pub fn session_deadline(pairing: bool, lease_deadline: u64, now: u64) -> (r: (Option<u64>, u64))
    ensures
        r.0 == if pairing {
            Some(crate::session::later(now, MAX_PAIRING_SESSION))
        } else {
            None
        },
        r.1 == match r.0 {
            Some(own) => if own <= lease_deadline {
                own
            } else {
                lease_deadline
            },
            None => lease_deadline,
        },
{
    if pairing {
        let own: u64 = if now <= u64::MAX - MAX_PAIRING_SESSION {
            now + MAX_PAIRING_SESSION
        } else {
            u64::MAX
        };
        (
            Some(own),
            if own <= lease_deadline {
                own
            } else {
                lease_deadline
            },
        )
    } else {
        (None, lease_deadline)
    }
}

/// Whether a first-contact window may be opened for `lifetime` milliseconds.
pub fn window_check(lifetime: u64) -> (r: Result<(), LanError>)
    ensures
        r == if lifetime < 1_000 || lifetime > MAX_PAIRING_WINDOW {
            Err::<(), _>(LanError::Lifetime)
        } else {
            Ok(())
        },
{
    if lifetime < 1_000 || lifetime > MAX_PAIRING_WINDOW {
        Err(LanError::Lifetime)
    } else {
        Ok(())
    }
}

// ---------------------------------------------------------------------------
// The byte budget of a stream
// ---------------------------------------------------------------------------
/// What a stream may still read and write.
#[derive(Clone, Copy, Debug, PartialEq, Eq, Structural)]
pub struct StreamBudget {
    pub read_left: u64,
    pub write_left: u64,
}

/// How many of `wanted` bytes may pass; `None` when the budget is spent.
pub open spec fn allowance(left: u64, wanted: usize) -> Option<usize> {
    if wanted == 0 {
        Some(0)
    } else if left == 0 {
        None
    } else if wanted as u64 <= left {
        Some(wanted)
    } else {
        Some(left as usize)
    }
}

fn allowed(left: u64, wanted: usize) -> (r: Option<usize>)
    ensures
        r == allowance(left, wanted),
{
    if wanted == 0 {
        Some(0)
    } else if left == 0 {
        None
    } else if wanted as u64 <= left {
        Some(wanted)
    } else {
        Some(left as usize)
    }
}

impl StreamBudget {
    /// The budget of a stream: bounded for first contact.
    pub fn new(pairing: bool) -> (r: Self)
        ensures
            r.read_left == r.write_left,
            r.read_left == if pairing {
                MAX_PAIRING_STREAM_BYTES
            } else {
                u64::MAX
            },
    {
        let budget: u64 = if pairing {
            MAX_PAIRING_STREAM_BYTES
        } else {
            u64::MAX
        };
        StreamBudget { read_left: budget, write_left: budget }
    }

    /// How many bytes may be read into a buffer with `room`.
    pub fn read_limit(&self, room: usize) -> (r: Option<usize>)
        ensures
            r == allowance(self.read_left, room),
    {
        allowed(self.read_left, room)
    }

    /// How many of `offered` bytes may be written.
    pub fn write_limit(&self, offered: usize) -> (r: Option<usize>)
        ensures
            r == allowance(self.write_left, offered),
    {
        allowed(self.write_left, offered)
    }

    /// Some bytes were read.
    pub fn note_read(&mut self, count: usize)
        requires
            count <= old(self).read_left,
        ensures
            final(self).read_left == old(self).read_left - count,
            final(self).write_left == old(self).write_left,
    {
        self.read_left = self.read_left - count as u64;
    }

    /// Some bytes were written.
    pub fn note_written(&mut self, count: usize)
        requires
            count <= old(self).write_left,
        ensures
            final(self).write_left == old(self).write_left - count,
            final(self).read_left == old(self).read_left,
    {
        self.write_left = self.write_left - count as u64;
    }
}

/// Whatever part of an allowance is used, it is within the budget.
pub proof fn law_the_budget_is_kept(left: u64, wanted: usize, used: usize)
    requires
        allowance(left, wanted) matches Some(limit) && used <= limit,
    ensures
        used <= left,
        used <= wanted,
{
}

// ---------------------------------------------------------------------------
// Cards and targets
// ---------------------------------------------------------------------------
/// When a card that is issued at `issued` expires, if one may be: it does not
/// outlive a first-contact window.
pub open spec fn card_expiry(
    lifetime: u64,
    serial: u64,
    issued: u64,
    window: Option<u64>,
) -> Result<u64, LanError> {
    let seconds = lifetime / 1_000;
    if lifetime < 1_000 || seconds > MAX_LIFETIME_SECONDS || serial == 0 {
        Err(LanError::Lifetime)
    } else {
        let expiry = match window {
            Some(end) if end < issued + seconds => end,
            _ => (issued + seconds) as u64,
        };
        if expiry <= issued {
            Err(LanError::Admission)
        } else {
            Ok(expiry)
        }
    }
}

/// When a card expires that is issued now with a lifetime in milliseconds.
pub fn local_card_expiry(lifetime: u64, serial: u64, issued: u64, window: Option<u64>) -> (r:
    Result<u64, LanError>)
    requires
        serial != 0 && lifetime / 1_000 <= MAX_LIFETIME_SECONDS ==> issued + lifetime / 1_000
            <= u64::MAX,
    ensures
        r == card_expiry(lifetime, serial, issued, window),
        r matches Ok(expiry) ==> issued < expiry <= issued + MAX_LIFETIME_SECONDS,
{
    let seconds: u64 = lifetime / 1_000;
    if lifetime < 1_000 || seconds > MAX_LIFETIME_SECONDS || serial == 0 {
        return Err(LanError::Lifetime);
    }
    let expiry: u64 = match window {
        Some(end) => if end < issued + seconds {
            end
        } else {
            issued + seconds
        },
        None => issued + seconds,
    };
    if expiry <= issued {
        Err(LanError::Admission)
    } else {
        Ok(expiry)
    }
}

/// Whether some address of a list is `target`, whatever its scope.
pub open spec fn names_target(addrs: Seq<SocketAddr>, target: SocketAddr) -> bool {
    exists|i: int|
        0 <= i < addrs.len() && unmapped(#[trigger] addrs[i]).ip == target.ip && unmapped(
            addrs[i],
        ).port == target.port
}

/// Whether `card` and the policy let this node dial `target`: not itself, inside
/// the consent, and an address that the card names.
pub fn target_check(own: NodeId, card: &Card, policy: &AddressPolicy, target: SocketAddr) -> (r:
    Result<(), LanError>)
    ensures
        match r {
            Ok(()) => card@.node_id != own && permitted(*policy, target) && exists|
                addrs: Seq<SocketAddr>,
            |
                udp_list(card@.hints, addrs) && #[trigger] names_target(addrs, target),
            Err(error) => error == LanError::Address && (card@.node_id == own || !permitted(
                *policy,
                target,
            ) || exists|addrs: Seq<SocketAddr>|
                udp_list(card@.hints, addrs) && !#[trigger] names_target(addrs, target)),
        },
{
    if card.owner().same(&own) || !policy.permits(target) {
        return Err(LanError::Address);
    }
    let addrs = card.udp_candidates();
    let mut i: usize = 0;
    while i < addrs.len()
        invariant
            i <= addrs.len(),
            card@.node_id != own,
            permitted(*policy, target),
            udp_list(card@.hints, addrs@),
            forall|k: int|
                0 <= k < i ==> !(unmapped(#[trigger] addrs@[k]).ip == target.ip && unmapped(
                    addrs@[k],
                ).port == target.port),
        decreases addrs.len() - i,
    {
        let hint = unmap_ipv6(addrs[i]);
        if hint.ip.same(&target.ip) && hint.port == target.port {
            assert(names_target(addrs@, target));
            return Ok(());
        }
        i += 1;
    }
    assert(!names_target(addrs@, target));
    Err(LanError::Address)
}

// ---------------------------------------------------------------------------
// Dialling and accepting
// ---------------------------------------------------------------------------
/// Why a LAN handshake failed.
pub fn classify(fault: HandshakeFault, closed_here: bool) -> (r: LanError)
    ensures
        r == match fault {
            HandshakeFault::TimedOut => LanError::Timeout,
            HandshakeFault::Transport(code) => if 0x100 <= code <= 0x1ff {
                LanError::Identity
            } else {
                LanError::Connection
            },
            HandshakeFault::Other => if closed_here {
                LanError::Closed
            } else {
                LanError::Connection
            },
        },
{
    match fault {
        HandshakeFault::TimedOut => LanError::Timeout,
        HandshakeFault::Transport(code) => if code >= 0x100 && code <= 0x1ff {
            LanError::Identity
        } else {
            LanError::Connection
        },
        HandshakeFault::Other => if closed_here {
            LanError::Closed
        } else {
            LanError::Connection
        },
    }
}

/// What a dial makes of a finished handshake: the admission still stands and the
/// listener is the expected peer.
pub fn dial_check(admitted: bool, presented: Option<NodeId>, peer: NodeId) -> (r: Result<
    (),
    LanError,
>)
    ensures
        r == if !admitted {
            Err::<(), _>(LanError::Admission)
        } else if presented != Some(peer) {
            Err(LanError::Identity)
        } else {
            Ok(())
        },
{
    if !admitted {
        return Err(LanError::Admission);
    }
    match presented {
        Some(node) => if node.same(&peer) {
            Ok(())
        } else {
            Err(LanError::Identity)
        },
        None => Err(LanError::Identity),
    }
}

/// Whether the listener said that it admitted the session.
pub fn is_ready(message: &[u8]) -> (r: bool)
    ensures
        r == (message@ == READY@),
{
    bytes_eq(message, &READY)
}

/// What becomes of an inbound packet that opens a connection.
#[derive(Clone, Copy, Debug, PartialEq, Eq, Structural)]
pub enum Gate {
    /// It is not answered.
    Ignore,
    /// Its address is validated first.
    Retry,
    /// There is no room.
    Refuse,
    Serve,
}

/// What becomes of an inbound packet that opens a connection.
pub fn accept_gate(
    active: bool,
    permitted: bool,
    window: Option<bool>,
    validated: bool,
    room: bool,
) -> (r: Gate)
    ensures
        r == if !active || !permitted || window == Some(false) {
            Gate::Ignore
        } else if !validated {
            Gate::Retry
        } else if !room {
            Gate::Refuse
        } else {
            Gate::Serve
        },
{
    let shut = match window {
        Some(valid) => !valid,
        None => false,
    };
    if !active || !permitted || shut {
        Gate::Ignore
    } else if !validated {
        Gate::Retry
    } else if !room {
        Gate::Refuse
    } else {
        Gate::Serve
    }
}

/// What an accepted handshake must show before the session is admitted: another
/// node's identity, a lease in force, and no change of admissions meanwhile.
pub fn accept_check(
    own: NodeId,
    presented: Option<NodeId>,
    lease_valid: Option<bool>,
    active: bool,
    generation_before: u64,
    generation: u64,
) -> (r: Result<NodeId, LanError>)
    ensures
        r == match presented {
            None => Err::<NodeId, _>(LanError::Identity),
            Some(peer) => if peer == own {
                Err(LanError::Identity)
            } else if lease_valid is None || !active || lease_valid == Some(false)
                || generation_before != generation {
                Err(LanError::Admission)
            } else {
                Ok(peer)
            },
        },
{
    match presented {
        None => Err(LanError::Identity),
        Some(peer) => {
            if peer.same(&own) {
                return Err(LanError::Identity);
            }
            let valid = match lease_valid {
                Some(valid) => valid,
                None => false,
            };
            if !active || !valid || generation_before != generation {
                Err(LanError::Admission)
            } else {
                Ok(peer)
            }
        },
    }
}

/// The one stream of a first-contact session.
pub fn take_stream(used: &mut bool) -> (r: Result<(), LanError>)
    ensures
        *final(used),
        r == if *old(used) {
            Err::<(), _>(LanError::StreamLimit)
        } else {
            Ok(())
        },
{
    if *used {
        return Err(LanError::StreamLimit);
    }
    *used = true;
    Ok(())
}

/// How many datagrams a LAN socket sent, and how many it refused to send.
#[derive(Clone, Copy, Debug, PartialEq, Eq, Structural)]
pub struct LanTraffic {
    pub sent_datagrams: u64,
    pub refused_datagrams: u64,
}

impl LanTraffic {
    /// Nothing was sent.
    pub fn new() -> (r: Self)
        ensures
            r.sent_datagrams == 0,
            r.refused_datagrams == 0,
    {
        LanTraffic { sent_datagrams: 0, refused_datagrams: 0 }
    }

    /// Whether a datagram may be sent; a refusal is counted.
    pub fn may_send(&mut self, active: bool, policy: &AddressPolicy, destination: SocketAddr) -> (r:
        bool)
        ensures
            r == (active && permitted(*policy, destination)),
            *final(self) == if r || old(self).refused_datagrams == u64::MAX {
                *old(self)
            } else {
                LanTraffic {
                    refused_datagrams: (old(self).refused_datagrams + 1) as u64,
                    ..*old(self)
                }
            },
    {
        let allowed = active && policy.permits(destination);
        if !allowed && self.refused_datagrams < u64::MAX {
            self.refused_datagrams = self.refused_datagrams + 1;
        }
        allowed
    }

    /// A datagram was sent.
    pub fn note_sent(&mut self)
        ensures
            *final(self) == if old(self).sent_datagrams == u64::MAX {
                *old(self)
            } else {
                LanTraffic {
                    sent_datagrams: (old(self).sent_datagrams + 1) as u64,
                    ..*old(self)
                }
            },
    {
        if self.sent_datagrams < u64::MAX {
            self.sent_datagrams = self.sent_datagrams + 1;
        }
    }
}

} // verus!
