use vstd::prelude::*;

verus! {

/// Everything that can go wrong while configuring the generator, reading the
/// clock or allocating an identifier.
#[derive(Clone, Copy, Debug, PartialEq, Eq, Structural)]
pub enum RuidError {
    /// The bit widths or the identity pair do not describe a usable generator.
    ConfigError,
    /// The wall clock reads earlier than the epoch.
    ClockBeforeEpoch,
    /// The time since the epoch no longer fits the timestamp field.
    TimestampOverflow,
    /// The clock jumped backwards by `delta` milliseconds, more than the
    /// tolerance allows.
    ClockRegression { delta: u64 },
    /// The sequence field cannot number another identifier in this millisecond.
    SequenceExhausted,
}

} // verus!
