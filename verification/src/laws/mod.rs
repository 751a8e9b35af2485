//! What the operations are for: relations between what goes in and what comes out,
//! over single steps and over several.
pub mod blobs;
pub mod cards;
pub mod controls;
pub mod drivers;
pub mod lans;
pub mod limits;
pub mod paths;
pub mod relays;
pub mod routes;
pub mod sessions;
pub mod tags;
pub mod texts;
pub mod wires;
