//! The orchestrator of one consensus run.
//!
//! A `Calculator` is created over a reference, an alignment-source
//! identifier and the quality requirements. The surrounding program
//! streams every record of the alignment source once, in reference
//! order, handing each to `observe` as plain values; `finalize` closes
//! the scan. From the finalized state, `compute_consensus` and
//! `compute_aln_stats` each derive their result as pure functions of
//! that state, so both can be produced from one scan and repeated
//! calls return identical results.

use vstd::prelude::*;
use crate::consensus::{
    Consensus, applied_indels, build_consensus, build_input, consensus_bases, row_of,
};
use crate::errors::AccordError;
use crate::indel::{InDel, same_shape};
use crate::pileup::{Base, BaseCall, Pileup, apply_calls, apply_ops};
use crate::rational::Factor;
use crate::sequence::Sequence;
use crate::settings::AlnQualityReqs;
use crate::stats::{AlnData, AlnStats};

verus! {

/// The plain observations of one aligned read, as handed in by the
/// alignment-source collaborator.
pub struct ReadObs {
    /// Aligned length of the read.
    pub length: usize,
    /// Mapping quality.
    pub mapq: u8,
    /// Flag bit-field.
    pub flags: u16,
    /// The alignment-score auxiliary field, when present with an
    /// unsigned type.
    pub score: Option<u32>,
    /// The edit-distance auxiliary field, when present with an
    /// unsigned type.
    pub distance: Option<u32>,
    /// The (reference position, observed base) pairs of the alignment.
    pub calls: Vec<BaseCall>,
    /// The indel operations of the alignment.
    pub indels: Vec<InDel>,
}

/// A read contributes to pileup and statistics: it passes the quality
/// gate and its metric fields extract cleanly.
pub open spec fn contributes(reqs: AlnQualityReqs, read: ReadObs) -> bool {
    &&& reqs.spec_admits(read.mapq, read.flags)
    &&& read.length <= u32::MAX
    &&& read.score is Some
    &&& read.distance is Some
}

/// The metrics extracted from a contributing read.
pub open spec fn metrics_of(read: ReadObs) -> AlnData {
    AlnData {
        length: read.length as u32,
        mapq: read.mapq,
        flags: read.flags,
        score: read.score->0,
        distance: read.distance->0,
    }
}

/// Drives one run: owns the reference sequence, the alignment-source
/// identifier and the requirements, and accumulates pileup and metrics
/// as reads stream in.
pub struct Calculator {
    /// The reference sequence.
    pub ref_seq: Sequence,
    /// Identifier of the alignment source, carried into the result.
    pub aln_path: String,
    /// The quality requirements of this run.
    pub reqs: AlnQualityReqs,
    /// The quantile factors of the derived statistics.
    pub quantile_factors: Vec<Factor>,
    /// The pileup under accumulation.
    pub pileup: Pileup,
    /// Metrics of the admitted reads, in stream order.
    pub metrics: Vec<AlnData>,
    /// All reads seen, admitted or not.
    pub total_reads: u64,
    /// The scan is closed; results may be derived.
    pub finalized: bool,
}

impl Calculator {
    /// Well-formedness: valid configuration, a pileup sized to the
    /// reference, and no more admitted reads than reads seen.
    pub open spec fn wf(self) -> bool {
        &&& self.reqs.wf()
        &&& forall|i: int| 0 <= i < self.quantile_factors@.len()
            ==> (#[trigger] self.quantile_factors@[i]).wf()
        &&& self.pileup.wf()
        &&& self.pileup.counts@.len() == self.ref_seq.bases@.len()
        &&& self.metrics@.len() <= self.total_reads
    }

    /// Create a run over a reference, an alignment-source identifier,
    /// the quality requirements and the quantile factors of the
    /// statistics.
    pub fn new(
        ref_seq: Sequence,
        aln_path: String,
        reqs: AlnQualityReqs,
        quantile_factors: Vec<Factor>,
    ) -> (r: Calculator)
        requires
            reqs.wf(),
            forall|i: int| 0 <= i < quantile_factors@.len()
                ==> (#[trigger] quantile_factors@[i]).wf(),
        ensures
            r.wf(),
            r.ref_seq.label@ == ref_seq.label@,
            r.ref_seq.bases@ == ref_seq.bases@,
            r.aln_path@ == aln_path@,
            r.reqs == reqs,
            r.quantile_factors@ == quantile_factors@,
            r.metrics@.len() == 0,
            r.total_reads == 0,
            !r.finalized,
            r.pileup.obs_total == 0,
            forall|p: int| 0 <= p < r.pileup.counts@.len()
                ==> (#[trigger] r.pileup.coverage@[p]) == 0u64,
            r.pileup.candidates@.len() == 0,
    {
        let ref_len = ref_seq.bases.len();
        let pileup = Pileup::new(ref_len);
        Calculator {
            ref_seq,
            aln_path,
            reqs,
            quantile_factors,
            pileup,
            metrics: Vec::new(),
            total_reads: 0,
            finalized: false,
        }
    }

    /// Take one read from the stream. Every read counts toward the
    /// total; a read contributes to pileup and statistics only when it
    /// passes the quality gate and its metric fields extract cleanly.
    pub fn observe(&mut self, read: ReadObs)
        requires
            old(self).wf(),
            !old(self).finalized,
            old(self).total_reads < u64::MAX,
            old(self).pileup.obs_total + read.calls@.len() + read.indels@.len() <= u64::MAX,
        ensures
            final(self).wf(),
            !final(self).finalized,
            final(self).ref_seq == old(self).ref_seq,
            final(self).aln_path == old(self).aln_path,
            final(self).reqs == old(self).reqs,
            final(self).quantile_factors == old(self).quantile_factors,
            final(self).total_reads == old(self).total_reads + 1,
            contributes(old(self).reqs, read) ==> {
                &&& final(self).metrics@ == old(self).metrics@.push(metrics_of(read))
                &&& final(self).pileup.counts@ == apply_calls(
                    old(self).pileup.counts@,
                    old(self).pileup.coverage@,
                    read.calls@,
                ).0
                &&& final(self).pileup.coverage@ == apply_calls(
                    old(self).pileup.counts@,
                    old(self).pileup.coverage@,
                    read.calls@,
                ).1
                &&& final(self).pileup.candidates@ == apply_ops(
                    old(self).pileup.candidates@,
                    read.indels@,
                    old(self).pileup.counts@.len() as int,
                )
                &&& final(self).pileup.obs_total == old(self).pileup.obs_total
                    + read.calls@.len() + read.indels@.len()
            },
            !contributes(old(self).reqs, read) ==> {
                &&& final(self).metrics@ == old(self).metrics@
                &&& final(self).pileup == old(self).pileup
            },
    {
        self.total_reads = self.total_reads + 1;
        if self.reqs.admits(read.mapq, read.flags) {
            match AlnData::new(read.length, read.mapq, read.flags, read.score, read.distance) {
                Ok(data) => {
                    self.pileup.accumulate(&read.calls, read.indels);
                    self.metrics.push(data);
                },
                Err(_) => {},
            }
        }
    }

    /// Close the scan; results may be derived from here on.
    pub fn finalize(&mut self)
        requires
            old(self).wf(),
        ensures
            final(self).wf(),
            final(self).finalized,
            *final(self) == (Calculator { finalized: true, ..*old(self) }),
    {
        self.finalized = true;
    }

    /// Derive the consensus of the finalized run.
    ///
    /// Fails with `InsufficientData` when no read was admitted or fewer
    /// were admitted than there are quantile factors, and with
    /// `CapacityExceeded` when more reads were admitted than the exact
    /// statistics can carry.
    pub fn compute_consensus(&self) -> (r: Result<Consensus, AccordError>)
        requires
            self.wf(),
            self.finalized,
        ensures
            r is Ok <==> (1 <= self.metrics@.len() <= u32::MAX
                && self.quantile_factors@.len() <= self.metrics@.len()),
            self.metrics@.len() > u32::MAX ==> (r is Err && r->Err_0
                == AccordError::CapacityExceeded),
            (self.metrics@.len() <= u32::MAX && (self.metrics@.len() == 0
                || self.quantile_factors@.len() > self.metrics@.len())) ==> (r is Err && r->Err_0
                == AccordError::InsufficientData),
            r is Ok ==> ({
                let c = r->Ok_0;
                let m = build_input(self.ref_seq.bases@, self.pileup, self.reqs);
                &&& c.ref_seq.label@ == self.ref_seq.label@
                &&& c.ref_seq.bases@ == self.ref_seq.bases@
                &&& c.aln_path@ == self.aln_path@
                &&& c.consensus_seq.label@ == self.ref_seq.label@
                &&& c.consensus_seq.bases@ == consensus_bases(m)
                &&& c.aln_stats.describes(self.metrics@, self.quantile_factors@)
                &&& c.aln_stats.wf()
                &&& c.coverage@ == self.pileup.coverage@
                &&& c.base_counts@.len() == 5
                &&& c.base_counts@[0].counts@ == row_of(self.pileup.counts@, Base::A)
                &&& c.base_counts@[1].counts@ == row_of(self.pileup.counts@, Base::C)
                &&& c.base_counts@[2].counts@ == row_of(self.pileup.counts@, Base::G)
                &&& c.base_counts@[3].counts@ == row_of(self.pileup.counts@, Base::T)
                &&& c.base_counts@[4].counts@ == row_of(self.pileup.counts@, Base::Other)
                &&& c.indels@.len() == applied_indels(m).len()
                &&& forall|k: int| 0 <= k < c.indels@.len() ==> same_shape(
                    c.indels@[k],
                    applied_indels(m)[k],
                )
                &&& c.total_reads == self.total_reads
                &&& c.valid_reads == self.metrics@.len()
                &&& c.wf()
            }),
    {
        if self.metrics.len() > u32::MAX as usize {
            return Err(AccordError::CapacityExceeded);
        }
        let aln_stats = match AlnStats::from_data(&self.metrics, &self.quantile_factors) {
            Ok(s) => s,
            Err(e) => return Err(e),
        };
        let (bases, applied) = build_consensus(&self.ref_seq.bases, &self.pileup, &self.reqs);
        let consensus_seq = Sequence::new(self.ref_seq.label.clone(), bases);
        let ref_copy = self.ref_seq.duplicate();
        let valid: u64 = self.metrics.len() as u64;
        Ok(Consensus::new(
            ref_copy,
            self.aln_path.clone(),
            consensus_seq,
            aln_stats,
            &self.pileup,
            applied,
            self.total_reads,
            valid,
        ))
    }

    /// Derive the per-read statistics of the finalized run, under the
    /// run's quantile factors. Fails as `compute_consensus` does.
    pub fn compute_aln_stats(&self) -> (r: Result<AlnStats, AccordError>)
        requires
            self.wf(),
            self.finalized,
        ensures
            r is Ok <==> (1 <= self.metrics@.len() <= u32::MAX
                && self.quantile_factors@.len() <= self.metrics@.len()),
            self.metrics@.len() > u32::MAX ==> (r is Err && r->Err_0
                == AccordError::CapacityExceeded),
            (self.metrics@.len() <= u32::MAX && (self.metrics@.len() == 0
                || self.quantile_factors@.len() > self.metrics@.len())) ==> (r is Err && r->Err_0
                == AccordError::InsufficientData),
            r is Ok ==> r->Ok_0.describes(self.metrics@, self.quantile_factors@),
            r is Ok ==> r->Ok_0.wf(),
    {
        if self.metrics.len() > u32::MAX as usize {
            return Err(AccordError::CapacityExceeded);
        }
        AlnStats::from_data(&self.metrics, &self.quantile_factors)
    }
}

/// Rebuilding from the same finalized state yields an identical
/// result: `compute_consensus` pins the consensus bases and the
/// applied-indel shapes to functions of the state alone, so two builds
/// over one `Calculator` agree.
pub proof fn lemma_consensus_rebuild(
    m: crate::consensus::BuildInput,
    bases1: Seq<u8>,
    bases2: Seq<u8>,
    applied1: Seq<InDel>,
    applied2: Seq<InDel>,
)
    requires
        bases1 == consensus_bases(m),
        bases2 == consensus_bases(m),
        applied1 == applied_indels(m),
        applied2 == applied_indels(m),
    ensures
        bases1 == bases2,
        applied1 == applied2,
{
}

} // verus!
