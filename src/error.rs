use vstd::prelude::*;

verus! {

/// Every way a decode call can fail; each one aborts the whole call.
#[derive(Debug, Clone, Copy, PartialEq, Eq, Structural)]
pub enum DecodeError {
    /// Frame magic mismatch, or a header whose width does not fit the bytes left.
    MalformedHeader,
    /// A block or literals type that this decoder does not handle.
    UnsupportedBlockType,
    /// Entropy-coded literals that do not decode to the declared size.
    HuffmanDecodeFailure,
    /// A normalized distribution that does not sum to the table size.
    FseTableOverflow,
    /// A back-reference that reaches before the start of the output.
    CorruptedOffset,
    /// A declared size larger than the bytes that remain.
    TruncatedInput,
}

} // verus!
