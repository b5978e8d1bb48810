//! Helpers that keep a downstream interface in step with the IPv6 prefix
//! that an upstream router delegates through Router Advertisements.

pub mod config;
pub mod handler;
pub mod host;
pub mod ipv6;
pub mod ra;
