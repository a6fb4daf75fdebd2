//! What can go wrong while a file is inspected.

use vstd::prelude::*;

verus! {

/// A failure of the inspection, with what is needed to find its cause in
/// the file.
#[derive(Clone, Copy, Debug, PartialEq, Eq, Structural)]
pub enum InspectError {
    /// The stream ended before the bytes that were due at `offset`.
    IoError { offset: u64 },
    /// The box of type `box_type` whose header starts at `offset` contradicts
    /// itself or its container.
    MalformedBox { box_type: u32, offset: u64 },
    /// The chunk-run, chunk-offset and sample-size tables of a track do not
    /// fit together. `chunk_index` is the first chunk that cannot be
    /// resolved and `sample_index` the index that its first sample would
    /// have; where every chunk resolves, they are the two totals.
    InconsistentSampleTable { sample_index: u32, chunk_index: u32 },
    /// The sample is shorter than its length prefix, or than the prefix and
    /// the NAL unit that the prefix announces.
    TruncatedNal { sample_index: u32, byte_offset: u64, size: u32 },
    /// The leading NAL unit of the sample is not a well-formed, complete
    /// unit.
    IncompleteNal { sample_index: u32, byte_offset: u64, size: u32 },
}

impl InspectError {
    /// The failure concerns one sample only. A scan may note it and go on
    /// with the next sample; every other failure ends the inspection.
    pub open spec fn sample_only(self) -> bool {
        self is TruncatedNal || self is IncompleteNal
    }

    /// Whether the failure ends the inspection: all do but those that concern
    /// the NAL unit of one sample.
    pub fn is_fatal(&self) -> (r: bool)
        ensures
            r == !self.sample_only(),
    {
        match self {
            InspectError::TruncatedNal { .. } => false,
            InspectError::IncompleteNal { .. } => false,
            _ => true,
        }
    }
}

} // verus!
