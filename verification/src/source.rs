//! The closed set of log sources the pipeline ingests.

use vstd::prelude::*;

verus! {

/// One provider or sub-format of conversation logs. The set is closed and
/// known at compile time; every per-source counter structure is a fixed-width
/// array indexed by [`SourceKind::idx`].
#[derive(Clone, Copy, Debug, PartialEq, Eq, Structural)]
pub enum SourceKind {
    ProviderA,
    ProviderBSession,
    ProviderBHistory,
}

/// Number of source kinds; sizes every per-source counter array.
pub const SOURCE_COUNT: usize = 3;

impl SourceKind {
    /// The stable dense ordinal of this kind.
    pub open spec fn spec_idx(self) -> usize {
        match self {
            SourceKind::ProviderA => 0,
            SourceKind::ProviderBSession => 1,
            SourceKind::ProviderBHistory => 2,
        }
    }

    /// The stable dense ordinal of this kind, always below [`SOURCE_COUNT`].
    #[verifier::when_used_as_spec(spec_idx)]
    pub fn idx(self) -> (r: usize)
        ensures
            r == self.spec_idx(),
            r < SOURCE_COUNT,
    {
        match self {
            SourceKind::ProviderA => 0,
            SourceKind::ProviderBSession => 1,
            SourceKind::ProviderBHistory => 2,
        }
    }
}

} // verus!
