//! Verified core of CorsaConnect: the wire formats spoken with the phone and
//! the games, the TrackIR/FreeTrack data framing, the launcher preferences,
//! and the decisions the server makes about virtual controller devices.

pub mod bytes;
pub mod fmt;
pub mod freetrack;
pub mod headtracker;
pub mod icon;
pub mod launcher;
pub mod motionsim;
pub mod npclient;
pub mod outgauge;
pub mod picopanel;
pub mod prefs;
pub mod protocol;
pub mod scstelemetry;
pub mod server;
pub mod text;
pub mod vjoy;
