//! Verified core of the Atlas networking SDK: IPv4 subnet arithmetic and
//! host enumeration, ARP-table parsing and vendor lookup, the peer registry
//! that discovery maintains, and the decision logic of the scanner,
//! discovery and transport layers.

pub mod ip;
pub mod subnet;
pub mod text;
pub mod arp;
pub mod clock;
pub mod registry;
pub mod discovery;
pub mod identity;
pub mod scanner;
pub mod transport;
