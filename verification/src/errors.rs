use vstd::prelude::*;

verus! {

/// Everything that can go wrong while a network is assembled or driven.
#[derive(Debug, Clone, Copy, PartialEq, Eq, Structural)]
pub enum SNNError {
    /// No input source is configured, or a source has nothing to emit.
    EmptyInputSet,
    /// A stage is asked to run before its endpoints and barriers are attached.
    Unwired,
    /// A layer, neuron or source position lies beyond what exists.
    IndexOutOfRange,
    /// The upstream endpoint was closed: the regular end of a stream.
    ChannelClosed,
    /// A send or receive failed for another reason than closure.
    ChannelFault,
    /// An input sequence holds a value other than 0 and 1.
    MalformedInput,
    /// The topology is inconsistent: matrix dimensions and neuron counts disagree.
    ConfigError,
}

} // verus!
