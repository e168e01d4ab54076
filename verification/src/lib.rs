//! A personal-finance client library for a banking API.
//!
//! The library holds the verified core of two command-line flows:
//! a fetcher that follows a paginated transaction listing and persists
//! the accumulated result as a JSON snapshot, and a terminal viewer that
//! loads a snapshot and navigates a small set of tabs. All network and
//! terminal I/O, and the decoding of live response bodies, live outside
//! the library; what stands here is the data model, the pagination
//! accumulation, the snapshot JSON codec with its round-trip proof, and
//! the viewer's state machine.

pub mod codec;
pub mod config;
pub mod fetch;
pub mod model;
pub mod ui;
