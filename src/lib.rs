//! Lease coordination for a distributed proof-of-work search.
//!
//! The coordinator splits a numeric search space into contiguous work units
//! and leases them to workers; workers scan a leased range for a candidate
//! whose SHA-256 digest starts with enough zero hex digits and report back.
pub mod protocol;
pub mod registry;
pub mod search;
pub mod session;
pub mod text;
pub mod work_unit;
