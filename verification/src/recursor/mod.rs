//! The resolver proper.

pub mod anchor;
pub mod anchor_file;
pub mod cache;
pub mod chain;
pub mod cookies;
pub mod crypto;
pub mod ddr;
pub mod denial;
pub mod dnssec;
pub mod dns64;
pub mod dot_pool;
pub mod forwarder;
pub mod framing;
pub mod ipv4only;
pub mod iterative;
pub mod local_zones;
pub mod pipeline;
pub mod refresh;
pub mod reply;
pub mod root_hints;
pub mod rrl;
pub mod settings;
pub mod socks;
pub mod start;
pub mod timed;
pub mod trust;
pub mod walk;
pub mod zeroxtwenty;
