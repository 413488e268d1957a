//! Raw-TCP port-scanning core.
//!
//! The library crafts minimal 20-byte TCP segments with a valid
//! pseudo-header checksum, rewrites their destination port once per
//! candidate port, and classifies inbound replies per scan technique to
//! decide which ports are open. Sending and receiving raw segments is
//! left to the surrounding program; everything here is pure logic over
//! bytes and port numbers.

pub mod checksum;
pub mod config;
pub mod probe;
pub mod receiver;
pub mod sender;
