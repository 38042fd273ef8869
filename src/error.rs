use vstd::prelude::*;

verus! {

/// Why a snapshot or a request was not accepted.
#[derive(Clone, Copy, Debug, PartialEq, Eq, Structural)]
pub enum BankerError {
    /// Vector or matrix lengths disagree with the declared dimensions, or a
    /// process id is out of range.
    MalformedInput,
    /// The process count is not in 1..=1024 or the resource count not in 1..=26.
    DimensionLimitExceeded,
    /// A request asks for more of some resource than the process still needs.
    ExceedsDeclaredNeed,
    /// A request asks for more of some resource than is currently available.
    InsufficientAvailable,
    /// Some process holds more of a resource than its declared maximum.
    ConstraintViolation,
}

} // verus!
