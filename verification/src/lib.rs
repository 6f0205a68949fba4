//! Normalizes RFC 3164 syslog (wrapping CEF) and NDJSON (Windows Event Log)
//! event lines into one common, flat JSON schema.
//!
//! - [`format`]: which of the two formats a line has;
//! - [`transform`]: from a line to a normalized event;
//! - [`record`]: from an event to its JSON record;
//! - [`pipeline`]: a connection, from its lines to batches of records;
//! - [`sink`]: the one consumer of all batches, from records to NDJSON;
//! - [`text`], [`number`], [`json`], [`clock`]: what these stand on, including
//!   the boundary to `std`, `serde_json` and `chrono`.

pub mod clock;
pub mod format;
pub mod json;
pub mod number;
pub mod pipeline;
pub mod record;
pub mod sink;
pub mod text;
pub mod transform;
