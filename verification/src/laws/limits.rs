//! The words that keep signatures and protocols apart, and the times and sizes that the
//! parts of the library agree on.
use crate::blossom;
use crate::card;
use crate::endpoint;
use crate::ffi;
use crate::id;
use crate::lan;
use crate::path_socket;
use crate::relay;
use crate::relay_client;
use crate::rendezvous;
use crate::rendezvous_book;
use crate::session;
use crate::spike;
use crate::websocket;
use crate::wire;
use vstd::prelude::*;

verus! {

/// Whether bytes are these ASCII characters.
pub open spec fn is_word(bytes: Seq<u8>, word: Seq<char>) -> bool {
    bytes.len() == word.len() && forall|i: int|
        0 <= i < word.len() ==> #[trigger] bytes[i] as int == word[i] as int
}

/// What is signed or derived for one purpose begins with words of its own.
pub proof fn law_every_purpose_has_its_words()
    ensures
        is_word(card::CARD_DOMAIN@, "forgesworn-link/card/v1\0"@),
        is_word(id::ADDR_DOMAIN@, "forgesworn-link/addr/v1\0"@),
        is_word(wire::RELAY_AUTH_DOMAIN@, "forgesworn-link/relay-auth/v1\0"@),
        is_word(wire::PROBE_DOMAIN@, "forgesworn-link/probe/v1\0"@),
        is_word(rendezvous::RENDEZVOUS_SALT@, "forgesworn-link/rendezvous/v1"@),
        is_word(card::CARD_MAGIC@, "FSL1"@),
        is_word(wire::REFLECT_MAGIC@, "FSLR"@),
        is_word(wire::PROBE_MAGIC@, "FSLP"@),
        is_word(blossom::wire::REQUEST_MAGIC@, "FSLB"@),
        is_word(ffi::ROUTE_MAGIC@, "EVR1"@),
        is_word(endpoint::ALPN@, "fsl/0"@),
        is_word(endpoint::PAIRING_ALPN@, "fsl-pair/0"@),
{
    reveal_strlit("forgesworn-link/card/v1\0");
    reveal_strlit("forgesworn-link/addr/v1\0");
    reveal_strlit("forgesworn-link/relay-auth/v1\0");
    reveal_strlit("forgesworn-link/probe/v1\0");
    reveal_strlit("forgesworn-link/rendezvous/v1");
    reveal_strlit("FSL1");
    reveal_strlit("FSLR");
    reveal_strlit("FSLP");
    reveal_strlit("FSLB");
    reveal_strlit("EVR1");
    reveal_strlit("fsl/0");
    reveal_strlit("fsl-pair/0");
}

/// The times of a path, in milliseconds: a proof is made again three times before it goes
/// stale, a round sends its probes ten times, and a failed round waits six rounds.
pub proof fn law_the_times_of_a_path()
    ensures
        path_socket::DIRECT_FRESH == 15_000,
        session::REPROVE_INTERVAL * 3 == path_socket::DIRECT_FRESH,
        session::PROBE_ROUND == 5_000,
        session::PROBE_RESEND * 10 == session::PROBE_ROUND,
        session::PROBE_COOLDOWN == 6 * session::PROBE_ROUND,
        path_socket::PROBE_TIMEOUT == session::PROBE_ROUND,
        path_socket::COUNTER_PROBE_INTERVAL == 1_000,
        path_socket::PONG_INTERVAL == 1_000,
        path_socket::LEARNED_TTL == 2 * session::PROBE_ROUND,
        session::TICK * 3 == session::REFLECTOR_GRACE,
        session::REFLECTOR_GRACE == 300,
        session::HISTORY_CAP == 256,
        path_socket::MAX_LOCAL_CANDIDATES == 8,
        path_socket::PROBE_ID_BYTES == 8,
        path_socket::PROBE_KEY_BYTES == 32,
        session::CONTROL_MAX_BYTES == 4_096,
        2 + 18 * session::CONTROL_MAX_CANDIDATES <= session::CONTROL_MAX_BYTES,
        2 + 18 * (session::CONTROL_MAX_CANDIDATES + 1) > session::CONTROL_MAX_BYTES,
{
}

/// The times of a relay session: waits double from a second to thirty, a relay is given up
/// after a minute, and pings come more than four times before an idle session is closed.
pub proof fn law_the_times_of_a_relay_session()
    ensures
        relay_client::BACKOFF_MIN == 1_000,
        relay_client::BACKOFF_MAX == 30 * relay_client::BACKOFF_MIN,
        relay_client::RECONNECT_DEADLINE == 2 * relay_client::BACKOFF_MAX,
        relay_client::CONNECT_TIMEOUT == 10_000,
        relay_client::PING_INTERVAL == 20_000,
        wire::IDLE_CLOSE_SECONDS == 90,
        4 * relay_client::PING_INTERVAL < 1_000 * wire::IDLE_CLOSE_SECONDS,
        relay_client::REFRESH_INTERVAL == 60_000,
        relay_client::REFRESH_INTERVAL * 60 == 1_000 * rendezvous::EPOCH_SECONDS,
        relay_client::MAX_EXTRA_DRIVERS == 16,
        relay::MAX_TAG_HOLDERS == 2,
        wire::MAX_QUEUED_FRAMES == 64,
        wire::MAX_TAGS_PER_REGISTER == 256,
        wire::CLOSE_REASON_MALFORMED == 1,
        wire::CLOSE_REASON_SUPERSEDED == 2,
        rendezvous_book::SEND_CACHE_CAP == 4_096,
        rendezvous::TAG_BYTES == 16,
        rendezvous::PAIRING_SECRET_BYTES == 16,
        rendezvous::PAIRING_CASE == 3,
{
}

/// The sizes of what travels: a datagram fits the session's packets, a probe is its body
/// and a signature, a sealed probe its body and a tag.
pub proof fn law_the_sizes_of_what_travels()
    ensures
        wire::MAX_DATAGRAM == 1_350,
        endpoint::MAX_MTU == wire::MAX_DATAGRAM,
        endpoint::STREAM_RECEIVE_WINDOW == 0x10_0000,
        endpoint::CONNECTION_RECEIVE_WINDOW == 4 * endpoint::STREAM_RECEIVE_WINDOW,
        wire::PROBE_BODY_BYTES == 85,
        wire::PROBE_WIRE_BYTES == wire::PROBE_BODY_BYTES + 64,
        wire::SEALED_BODY_BYTES == 29,
        wire::SEALED_WIRE_BYTES == wire::SEALED_BODY_BYTES + 16,
        wire::REFLECT_REQUEST_BYTES == 21,
        wire::REFLECT_REPLY_BYTES == wire::REFLECT_REQUEST_BYTES + 18,
        card::MIN_CARD_BYTES == 62 + 64,
        card::MAX_CARD_BYTES == 4_096,
        ffi::MAX_ROUTE_FRAME_BYTES == card::MAX_CARD_BYTES + ffi::ROUTE_PREFIX_BYTES,
        ffi::ROUTE_PREFIX_BYTES == 6,
        id::SYNTHETIC_PORT == 7,
        websocket::MAX_TEXT_BYTES == 1_048_576,
        websocket::OUTBOUND_QUEUE == 64,
        websocket::INBOUND_QUEUE == 64,
        spike::CHUNK == 65_536,
        spike::PAYLOAD_SEED == 0x5eed_0000_0000_0001,
        blossom::wire::CHUNK == 65_536,
        blossom::wire::REQUEST_LEN == 4 + 1 + 32,
        blossom::wire::FIXED_HEADER == 1 + 8 + 2,
        blossom::serve::MAX_SERVING_OPERATIONS == 8,
        blossom::fetch::MAX_LIMIT_BYTES == 8 * 1_024 * 1_024 * 1_024,
        blossom::fetch::MAX_LIMIT_NANOS == 3_600 * 1_000_000_000,
{
}

/// The bounds of first contact and of LAN sessions: both kinds of first contact are open
/// for ten minutes at most and last a minute, and neither carries more than a mebibyte.
pub proof fn law_the_bounds_of_first_contact()
    ensures
        endpoint::MAX_PAIRING_LIFETIME == 600_000,
        lan::MAX_PAIRING_WINDOW == endpoint::MAX_PAIRING_LIFETIME,
        endpoint::MAX_PAIRING_SESSION_LIFETIME == 60_000,
        lan::session::MAX_PAIRING_SESSION == endpoint::MAX_PAIRING_SESSION_LIFETIME,
        lan::session::MAX_PAIRING_STREAM_BYTES == 0x10_0000,
        ffi::PAIRING_CLOCK_SKEW == 60,
        ffi::HTTP_REQUEST_TIMEOUT == 30_000,
        lan::MAX_CONNECTIONS == 8,
        lan::MAX_HANDSHAKES == 4,
        lan::HANDSHAKE_TIMEOUT == 5_000,
        lan::admission::MAX_ADMITTED_PEERS == 256,
{
}

} // verus!
