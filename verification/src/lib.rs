//! The core of an exporter of firewall metrics.
//!
//! [`iptables`] turns the dump of a ruleset into tables, chains and rules
//! with their packet and byte counters, and [`ipset`] turns a listing of
//! network sets into sets and their members. [`metrics`] names what is
//! exported and holds the translator, which turns the counter snapshots of
//! each scrape into increments of counters that never fall. [`text`] holds
//! the text primitives of the two parsers and [`error`] what they report.
//!
//! Nothing here runs a command or writes to a registry: the parsers take
//! text, and a scrape yields samples for the caller to write.

pub mod error;
pub mod ipset;
pub mod iptables;
pub mod metrics;
pub mod text;
