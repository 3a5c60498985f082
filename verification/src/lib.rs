//! Batch reverse-DNS resolution over a list of network addresses.
//!
//! The core of the crate is a resolution engine: a pluggable resolution
//! capability (`res::Resolver`), an address model (`addr::IpAddr`, `ip::Ip`,
//! `iplist::IpList`), and a dispatcher (`res::resolve`) that routes a batch to
//! a sequential or a parallel engine while capping concurrency at the host's
//! logical core count.  Every input record produces exactly one output record,
//! whatever engine runs; results are returned in a canonical sorted order.

use vstd::prelude::*;

pub mod addr;
pub mod cli;
pub mod dmarc;
pub mod engine;
pub mod entry;
pub mod filetype;
pub mod ip;
pub mod iplist;
pub mod laws;
pub mod res;
pub mod task;
pub mod text;

verus! {

/// Errors returned by address construction and by the resolve dispatcher.
///
/// A failed reverse lookup is deliberately *not* an error: inside the live
/// capability it becomes a placeholder name, so batch length is preserved.
#[derive(Clone, Copy, Debug, PartialEq, Eq, Structural)]
pub enum ResolveError {
    /// A textual address failed to parse as IPv4 or IPv6.
    InvalidAddress,
    /// The requested job count exceeds the allowed thread limit.
    TooManyJobs,
    /// The input list was empty.
    EmptyInput,
}

impl ResolveError {
    /// A short description of the error (in place of `Display`).
    pub fn message(&self) -> (s: &'static str)
        ensures
            *self == ResolveError::InvalidAddress ==> s@ == "invalid address"@,
            *self == ResolveError::TooManyJobs ==> s@ == "too many jobs"@,
            *self == ResolveError::EmptyInput ==> s@ == "empty input"@,
    {
        match self {
            ResolveError::InvalidAddress => "invalid address",
            ResolveError::TooManyJobs => "too many jobs",
            ResolveError::EmptyInput => "empty input",
        }
    }
}

} // verus!
