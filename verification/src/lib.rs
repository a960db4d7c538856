//! Verified core of a recursive DNS resolver and forwarder.

pub mod acl;
pub mod bytes;
pub mod calendar;
pub mod codec;
pub mod config;
pub mod control;
pub mod doh;
pub mod handler;
pub mod listeners;
pub mod lists;
pub mod metrics;
pub mod name;
pub mod names;
pub mod net;
pub mod net_text;
pub mod order;
pub mod plain_names;
pub mod rdata;
pub mod recursor;
pub mod text;
pub mod tls;
pub mod wire;
pub mod worker;
