//! Download planning: URL resolution, manifest parsing, rate limits,
//! throttle windows, progress figures and batch tallies. The network and
//! file work is left to the caller, which hands these functions plain values.
pub mod batch;
pub mod header;
pub mod limit;
pub mod manifest;
pub mod progress;
pub mod text;
pub mod throttle;
pub mod url;
