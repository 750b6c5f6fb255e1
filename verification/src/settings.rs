//! Quality requirements for admitting reads and resolving the pileup.

use vstd::prelude::*;
use crate::errors::AccordError;
use crate::rational::Factor;

verus! {

/// Thresholds and flag masks governing read admission and consensus
/// resolution. Read-only after construction.
#[derive(Clone, Copy, Debug, PartialEq, Eq, Structural)]
pub struct AlnQualityReqs {
    /// Minimum accepted mapping quality.
    pub min_mapq: u8,
    /// Flag bits that must all be set on an admitted read.
    pub mandatory_flags: u16,
    /// Flag bits that must all be clear on an admitted read.
    pub prohibited_flags: u16,
    /// An indel is spliced into the consensus only if its local support
    /// ratio meets or exceeds this fraction.
    pub indel_cutoff: Factor,
    /// Number of positions at each reference end copied verbatim into the
    /// consensus, bypassing the vote.
    pub save_ends: usize,
    /// Minimum per-position coverage required before the vote is trusted;
    /// below it the reference base is kept.
    pub min_observations: u64,
}

impl AlnQualityReqs {
    /// The configuration is valid: the indel cutoff is a fraction in
    /// `[0, 1]`.
    pub open spec fn wf(self) -> bool {
        self.indel_cutoff.wf()
    }

    /// Build a configuration, rejecting an indel cutoff outside `[0, 1]`.
    pub fn new(
        min_mapq: u8,
        mandatory_flags: u16,
        prohibited_flags: u16,
        indel_cutoff: Factor,
        save_ends: usize,
        min_observations: u64,
    ) -> (r: Result<AlnQualityReqs, AccordError>)
        ensures
            r is Ok <==> indel_cutoff.wf(),
            r is Ok ==> r->Ok_0 == (AlnQualityReqs {
                min_mapq,
                mandatory_flags,
                prohibited_flags,
                indel_cutoff,
                save_ends,
                min_observations,
            }),
            r is Err ==> r->Err_0 == AccordError::InvalidConfiguration,
    {
        if indel_cutoff.den > 0 && indel_cutoff.num <= indel_cutoff.den {
            Ok(AlnQualityReqs {
                min_mapq,
                mandatory_flags,
                prohibited_flags,
                indel_cutoff,
                save_ends,
                min_observations,
            })
        } else {
            Err(AccordError::InvalidConfiguration)
        }
    }

    /// The quality gate: a read is admitted iff its mapping quality
    /// reaches `min_mapq`, all mandatory flag bits are set, and no
    /// prohibited flag bit is set.
    pub open spec fn spec_admits(self, mapq: u8, flags: u16) -> bool {
        &&& mapq >= self.min_mapq
        &&& flags & self.mandatory_flags == self.mandatory_flags
        &&& flags & self.prohibited_flags == 0
    }

    /// Decide admission of a read from its mapping quality and flags.
    /// Pure; the caller accounts for admitted and rejected reads.
    pub fn admits(&self, mapq: u8, flags: u16) -> (r: bool)
        ensures
            r == self.spec_admits(mapq, flags),
    {
        mapq >= self.min_mapq
            && flags & self.mandatory_flags == self.mandatory_flags
            && flags & self.prohibited_flags == 0
    }
}

} // verus!
