//! ForgeSworn Link: two nodes that know each other's keys find a path between them, first
//! over a relay that learns as little as it can, then direct where both owners allow it.
//!
//! A node is its Ed25519 key (`id`).  It advertises signed cards (`card`), proves itself by
//! one rule on certificates (`tls`), and meets a peer under tags that only the two of them
//! can derive (`rendezvous`, `rendezvous_book`).  Frames, reflector messages and probes have
//! one wire form (`wire`).  The relay is a registry and a machine per session (`relay`); its
//! client walks a list of relays (`relay_client`, `relay_tls`).  The path socket keeps
//! candidates and proofs (`path_socket`, `netmon`), and a session follows its path through
//! them (`session`, `path`, `endpoint`).  Without a relay, peers on one network meet by
//! explicit consent (`lan`).
//!
//! On top stand blobs by their digest (`blossom`), text sockets (`websocket`, `link_url`),
//! the boundary for an application shell (`ffi`) and a command line (`spike`).
//!
//! Sockets, clocks and tasks belong to the caller: time is a number, a session is a number,
//! and what happened comes in as a value.  Below everything are byte strings (`bytes`),
//! texts (`text`), addresses (`net`), tables (`table`) and the primitives of outside crates
//! (`crypto`).  What the operations are for is stated once more, as relations between what
//! goes in and what comes out (`laws`).
pub mod bytes;
pub mod text;
pub mod crypto;
pub mod net;
pub mod id;
pub mod rendezvous;
pub mod table;
pub mod wire;
pub mod card;
pub mod tls;
pub mod path;
pub mod relay;
pub mod rendezvous_book;
pub mod path_socket;
pub mod relay_client;
pub mod relay_tls;
pub mod netmon;
pub mod session;
pub mod endpoint;
pub mod laws;
pub mod link_url;
pub mod websocket;
pub mod lan;
pub mod blossom;
pub mod ffi;
pub mod spike;
