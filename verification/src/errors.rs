use vstd::prelude::*;

verus! {

/// Why a raw frame, or one of its fields, could not be turned into a typed message.
#[derive(Clone, Copy, Debug, PartialEq, Eq, Structural)]
pub enum DecodeError {
    /// The frame ends before it is complete.
    Truncated,
    /// The frame holds a byte where the grammar allows another.
    Malformed,
    /// A text of the frame is not valid UTF-8.
    InvalidEncoding,
    /// A field the message kind cannot do without is absent.
    MissingField,
    /// A numeric field is not of the form `digits` or `digits.digits`.
    InvalidNumber,
    /// A numeric field carries non-zero digits beyond the supported precision.
    TooPrecise,
    /// A numeric field does not fit the fixed-point range.
    OutOfRange,
    /// The side is neither a buy nor a sell.
    UnknownSide,
}

/// The faults the engine distinguishes, by how they are recovered from.
#[derive(Clone, Copy, Debug, PartialEq, Eq, Structural)]
pub enum PolyfillError {
    /// Malformed frame: dropped, the stream goes on.
    Decode(DecodeError),
    /// A delta that is stale, or that leaves a hole in the sequence.
    SequenceGap,
    /// The book waits for a baseline and cannot take deltas.
    OutOfSync,
    /// Connection-level fault: answered by a reconnect with backoff.
    Transport,
    /// Backpressure: the caller has to wait before it tries again.
    RateLimited,
    /// A construction parameter is invalid.
    Configuration,
}

impl PolyfillError {
    /// Faults that a later attempt can overcome.
    pub open spec fn spec_is_retryable(self) -> bool {
        self is Transport || self is RateLimited || self is OutOfSync
    }

    #[verifier::when_used_as_spec(spec_is_retryable)]
    pub fn is_retryable(self) -> (r: bool)
        ensures
            r == self.spec_is_retryable(),
    {
        match self {
            PolyfillError::Transport => true,
            PolyfillError::RateLimited => true,
            PolyfillError::OutOfSync => true,
            _ => false,
        }
    }
}

} // verus!
