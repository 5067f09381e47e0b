use vstd::prelude::*;

verus! {

/// The ways in which reading, writing, validating or composing metadata can fail.
#[derive(Debug, Clone, Copy, PartialEq, Eq, Structural)]
pub enum RpuError {
    /// A read went past the end of the bit buffer.
    TruncatedStream,
    /// A `dm_alignment_zero_bit` or an `ext_dm_alignment_zero_bit` was read as 1.
    AlignmentNonZero,
    /// A declared `length_bytes` is not one of the legal sizes of the block's level.
    InvalidBlockLength,
    /// A block level is not permitted in this envelope version.
    BlockLevelNotAllowed,
    /// A field holds a value outside its legal range.
    FieldOutOfRange,
    /// A variable-length block has an outer optional group without the inner ones.
    InconsistentOptionals,
    /// The active area offsets were asked for without a canvas size.
    MissingCanvasDimensions,
    /// Adding the block would give the envelope a forbidden duplicate.
    DuplicateBlock,
}

} // verus!
