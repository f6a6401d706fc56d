use vstd::prelude::*;

verus! {

/// A configuration that the simulation refuses at construction time.
#[derive(Debug, Clone, Copy, PartialEq, Eq, Structural)]
pub enum ConfigError {
    /// A worker pool was asked for with no compute profiles.
    EmptyPoolConfiguration,
    /// The step duration of the clock was zero.
    NonPositiveTimeStep,
    /// A body was given a mass that is not strictly positive.
    NonPositiveMass,
}

/// A set of force results that breaks the one-result-per-body protocol.
///
/// Each variant carries the index of the body it concerns.
#[derive(Debug, Clone, Copy, PartialEq, Eq, Structural)]
pub enum ProtocolError {
    /// No result arrived for this body.
    IncompleteResultSet(usize),
    /// A second result arrived for this body.
    DuplicateResult(usize),
    /// A result names a body that is not in the store.
    UnknownBody(usize),
}


/// A job offered to a pool that is no longer running.
#[derive(Debug, Clone, Copy, PartialEq, Eq, Structural)]
pub enum PoolError {
    /// The pool has been shut down and accepts no more jobs.
    ShutDown,
}

} // verus!
