//! The typed validation errors a run can report.

use vstd::prelude::*;

verus! {

/// Configuration-validation errors, all detected before any event is
/// processed; no partial simulation state is ever observable behind one.
#[derive(Clone, Copy, PartialEq, Eq, Structural, Debug)]
pub enum SimError {
    /// The server list was empty.
    EmptyServers,
    /// The request count was zero.
    RequestsZero,
    /// Two servers share the named id.
    DuplicateServerId(u64),
}

pub type SimResult<T> = Result<T, SimError>;

} // verus!
