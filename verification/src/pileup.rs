//! Per-position accumulation of base evidence from admitted reads.

use vstd::prelude::*;
use crate::indel::{InDel, same_shape, spec_pos, indel_eq};

verus! {

/// The voting alphabet: the four nucleotides plus one bucket for gap or
/// ambiguous symbols.
#[derive(Clone, Copy, Debug, PartialEq, Eq, Structural)]
pub enum Base {
    A,
    C,
    G,
    T,
    Other,
}

/// Classify a base symbol; both letter cases count together, and any
/// symbol outside the alphabet lands in the ambiguous bucket rather
/// than aborting the run.
pub open spec fn classify(b: u8) -> Base {
    if b == 65 || b == 97 {
        Base::A
    } else if b == 67 || b == 99 {
        Base::C
    } else if b == 71 || b == 103 {
        Base::G
    } else if b == 84 || b == 116 {
        Base::T
    } else {
        Base::Other
    }
}

/// Classify a base symbol.
pub fn classify_base(b: u8) -> (r: Base)
    ensures
        r == classify(b),
{
    if b == 65 || b == 97 {
        Base::A
    } else if b == 67 || b == 99 {
        Base::C
    } else if b == 71 || b == 103 {
        Base::G
    } else if b == 84 || b == 116 {
        Base::T
    } else {
        Base::Other
    }
}

/// Observation counters of one reference position, one per alphabet
/// symbol.
#[derive(Clone, Copy, Debug, PartialEq, Eq, Structural)]
pub struct BaseCounts {
    pub a: u64,
    pub c: u64,
    pub g: u64,
    pub t: u64,
    pub other: u64,
}

impl BaseCounts {
    /// The all-zero counter.
    pub open spec fn spec_zero() -> BaseCounts {
        BaseCounts { a: 0, c: 0, g: 0, t: 0, other: 0 }
    }

    /// The count recorded for one alphabet symbol.
    pub open spec fn count_of(self, base: Base) -> u64 {
        match base {
            Base::A => self.a,
            Base::C => self.c,
            Base::G => self.g,
            Base::T => self.t,
            Base::Other => self.other,
        }
    }

    /// The sum of all counters at this position.
    pub open spec fn total(self) -> int {
        self.a + self.c + self.g + self.t + self.other
    }

    /// The counter with one more observation of `base`.
    pub open spec fn bumped(self, base: Base) -> BaseCounts {
        match base {
            Base::A => BaseCounts { a: (self.a + 1) as u64, ..self },
            Base::C => BaseCounts { c: (self.c + 1) as u64, ..self },
            Base::G => BaseCounts { g: (self.g + 1) as u64, ..self },
            Base::T => BaseCounts { t: (self.t + 1) as u64, ..self },
            Base::Other => BaseCounts { other: (self.other + 1) as u64, ..self },
        }
    }
}

/// One observed base at one reference position of an aligned read.
#[derive(Clone, Copy, Debug, PartialEq, Eq, Structural)]
pub struct BaseCall {
    pub pos: usize,
    pub base: u8,
}

/// An indel shape under observation, with how often it was seen.
#[derive(Clone, Debug)]
pub struct IndelCandidate {
    pub shape: InDel,
    pub count: u64,
}

/// One base call applied to the per-position tables: in range, the
/// matching counter and the coverage are both incremented; out of
/// range, the tables are left unchanged.
pub open spec fn apply_call(
    counts: Seq<BaseCounts>,
    cov: Seq<u64>,
    call: BaseCall,
) -> (Seq<BaseCounts>, Seq<u64>) {
    if call.pos < counts.len() {
        (
            counts.update(call.pos as int, counts[call.pos as int].bumped(classify(call.base))),
            cov.update(call.pos as int, (cov[call.pos as int] + 1) as u64),
        )
    } else {
        (counts, cov)
    }
}

/// A sequence of base calls applied in order.
pub open spec fn apply_calls(
    counts: Seq<BaseCounts>,
    cov: Seq<u64>,
    calls: Seq<BaseCall>,
) -> (Seq<BaseCounts>, Seq<u64>)
    decreases calls.len(),
{
    if calls.len() == 0 {
        (counts, cov)
    } else {
        let prev = apply_calls(counts, cov, calls.drop_last());
        apply_call(prev.0, prev.1, calls.last())
    }
}

/// There is a candidate of this shape.
pub open spec fn has_shape(cands: Seq<IndelCandidate>, op: InDel) -> bool {
    exists|i: int| 0 <= i < cands.len() && same_shape((#[trigger] cands[i]).shape, op)
}

/// The index of a candidate of this shape.
pub open spec fn shape_index(cands: Seq<IndelCandidate>, op: InDel) -> int {
    choose|i: int| 0 <= i < cands.len() && same_shape((#[trigger] cands[i]).shape, op)
}

/// One observed indel applied to the candidate table: out of range it is
/// discarded; a known shape has its count incremented; a new shape is
/// appended with count one.
pub open spec fn apply_indel(cands: Seq<IndelCandidate>, op: InDel, ref_len: int) -> Seq<
    IndelCandidate,
> {
    if spec_pos(op) < ref_len {
        if has_shape(cands, op) {
            let i = shape_index(cands, op);
            cands.update(i, IndelCandidate { shape: cands[i].shape, count: (cands[i].count + 1) as u64 })
        } else {
            cands.push(IndelCandidate { shape: op, count: 1u64 })
        }
    } else {
        cands
    }
}

/// A sequence of observed indels applied in order.
pub open spec fn apply_ops(cands: Seq<IndelCandidate>, ops: Seq<InDel>, ref_len: int) -> Seq<
    IndelCandidate,
>
    decreases ops.len(),
{
    if ops.len() == 0 {
        cands
    } else {
        apply_indel(apply_ops(cands, ops.drop_last(), ref_len), ops.last(), ref_len)
    }
}

/// How many base calls fall outside the reference.
pub open spec fn discarded_calls(calls: Seq<BaseCall>, ref_len: int) -> int
    decreases calls.len(),
{
    if calls.len() == 0 {
        0
    } else {
        discarded_calls(calls.drop_last(), ref_len) + if calls.last().pos < ref_len {
            0int
        } else {
            1int
        }
    }
}

/// How many indel observations fall outside the reference.
pub open spec fn discarded_ops(ops: Seq<InDel>, ref_len: int) -> int
    decreases ops.len(),
{
    if ops.len() == 0 {
        0
    } else {
        discarded_ops(ops.drop_last(), ref_len) + if spec_pos(ops.last()) < ref_len {
            0int
        } else {
            1int
        }
    }
}

/// The pileup: per-position base counters and coverage sized to the
/// reference, the indel candidate table, and accounting of observation
/// operations. Mutated only by the accumulation step.
#[derive(Clone, Debug)]
pub struct Pileup {
    /// Per-position symbol counters; the length is the reference length.
    pub counts: Vec<BaseCounts>,
    /// Per-position coverage: the number of reads observing the position.
    pub coverage: Vec<u64>,
    /// Indel candidates keyed by shape, in order of first observation.
    pub candidates: Vec<IndelCandidate>,
    /// All observation operations handed in so far, in or out of range.
    pub obs_total: u64,
    /// Observation operations discarded as out of the reference range.
    pub discarded: u64,
}

impl Pileup {
    /// Well-formedness: the tables are sized alike, coverage is exactly
    /// the per-position counter sum, every quantity is bounded by the
    /// operation count, and candidate shapes are unique.
    pub open spec fn wf(self) -> bool {
        &&& self.coverage@.len() == self.counts@.len()
        &&& forall|p: int| 0 <= p < self.counts@.len()
            ==> (#[trigger] self.coverage@[p]) as int == self.counts@[p].total()
        &&& forall|p: int| 0 <= p < self.counts@.len()
            ==> (#[trigger] self.coverage@[p]) <= self.obs_total
        &&& forall|i: int| 0 <= i < self.candidates@.len()
            ==> 1 <= (#[trigger] self.candidates@[i]).count <= self.obs_total
        &&& forall|i: int| 0 <= i < self.candidates@.len()
            ==> spec_pos((#[trigger] self.candidates@[i]).shape) < self.counts@.len()
        &&& forall|i: int, j: int| 0 <= i < j < self.candidates@.len()
            ==> !same_shape(
                (#[trigger] self.candidates@[i]).shape,
                (#[trigger] self.candidates@[j]).shape,
            )
        &&& self.discarded <= self.obs_total
    }

    /// An empty pileup sized to the reference length.
    pub fn new(ref_len: usize) -> (r: Pileup)
        ensures
            r.wf(),
            r.counts@.len() == ref_len,
            r.coverage@.len() == ref_len,
            forall|p: int| 0 <= p < ref_len ==> (#[trigger] r.counts@[p]) == BaseCounts::spec_zero(),
            forall|p: int| 0 <= p < ref_len ==> (#[trigger] r.coverage@[p]) == 0u64,
            r.candidates@.len() == 0,
            r.obs_total == 0,
            r.discarded == 0,
    {
        let mut counts: Vec<BaseCounts> = Vec::new();
        let mut coverage: Vec<u64> = Vec::new();
        let mut i: usize = 0;
        while i < ref_len
            invariant
                i <= ref_len,
                counts@.len() == i,
                coverage@.len() == i,
                forall|p: int| 0 <= p < i ==> (#[trigger] counts@[p]) == BaseCounts::spec_zero(),
                forall|p: int| 0 <= p < i ==> (#[trigger] coverage@[p]) == 0u64,
            decreases ref_len - i,
        {
            counts.push(BaseCounts { a: 0, c: 0, g: 0, t: 0, other: 0 });
            coverage.push(0);
            i += 1;
        }
        Pileup { counts, coverage, candidates: Vec::new(), obs_total: 0, discarded: 0 }
    }

    /// Record one base call of an admitted read.
    fn record_call(&mut self, call: BaseCall)
        requires
            old(self).wf(),
            old(self).obs_total < u64::MAX,
        ensures
            final(self).wf(),
            final(self).counts@ == apply_call(old(self).counts@, old(self).coverage@, call).0,
            final(self).coverage@ == apply_call(old(self).counts@, old(self).coverage@, call).1,
            final(self).candidates@ == old(self).candidates@,
            final(self).obs_total == old(self).obs_total + 1,
            final(self).discarded == old(self).discarded + if call.pos < old(self).counts@.len() {
                0int
            } else {
                1int
            },
            final(self).counts@.len() == old(self).counts@.len(),
    {
        if call.pos < self.counts.len() {
            let pos = call.pos;
            let base = classify_base(call.base);
            let cur = self.counts[pos];
            let cov = self.coverage[pos];
            let bumped = match base {
                Base::A => BaseCounts { a: cur.a + 1, ..cur },
                Base::C => BaseCounts { c: cur.c + 1, ..cur },
                Base::G => BaseCounts { g: cur.g + 1, ..cur },
                Base::T => BaseCounts { t: cur.t + 1, ..cur },
                Base::Other => BaseCounts { other: cur.other + 1, ..cur },
            };
            self.counts[pos] = bumped;
            self.coverage[pos] = cov + 1;
            self.obs_total = self.obs_total + 1;
        } else {
            self.obs_total = self.obs_total + 1;
            self.discarded = self.discarded + 1;
        }
    }

    /// Record one observed indel of an admitted read.
    fn record_op(&mut self, op: InDel)
        requires
            old(self).wf(),
            old(self).obs_total < u64::MAX,
        ensures
            final(self).wf(),
            final(self).counts@ == old(self).counts@,
            final(self).coverage@ == old(self).coverage@,
            final(self).candidates@ == apply_indel(
                old(self).candidates@,
                op,
                old(self).counts@.len() as int,
            ),
            final(self).obs_total == old(self).obs_total + 1,
            final(self).discarded == old(self).discarded + if spec_pos(op) < old(
                self,
            ).counts@.len() {
                0int
            } else {
                1int
            },
    {
        let pos = op.position();
        if pos >= self.counts.len() {
            self.obs_total = self.obs_total + 1;
            self.discarded = self.discarded + 1;
            return;
        }
        match Self::find_candidate(&self.candidates, &op) {
            Some(k) => {
                let ghost pre = self.candidates@;
                let cur = self.candidates.remove(k);
                let count = cur.count;
                self.candidates.insert(k, IndelCandidate { shape: cur.shape, count: count + 1 });
                proof {
                    pre.remove(k as int).insert_ensures(
                        k as int,
                        IndelCandidate { shape: pre[k as int].shape, count: (count + 1) as u64 },
                    );
                    assert(self.candidates@ =~= pre.update(
                        k as int,
                        IndelCandidate { shape: pre[k as int].shape, count: (count + 1) as u64 },
                    ));
                    assert(has_shape(pre, op));
                    let i = shape_index(pre, op);
                    assert(0 <= i < pre.len() && same_shape(pre[i].shape, op));
                    assert(i == k);
                }
                self.obs_total = self.obs_total + 1;
            },
            None => {
                self.candidates.push(IndelCandidate { shape: op, count: 1 });
                self.obs_total = self.obs_total + 1;
                proof {
                    assert(!has_shape(old(self).candidates@, op));
                }
            },
        }
    }

    /// Find the first candidate of the given shape.
    fn find_candidate(cands: &Vec<IndelCandidate>, op: &InDel) -> (r: Option<usize>)
        ensures
            match r {
                Some(k) => 0 <= k < cands@.len() && same_shape(cands@[k as int].shape, *op),
                None => !has_shape(cands@, *op),
            },
    {
        let mut k: usize = 0;
        while k < cands.len()
            invariant
                k <= cands@.len(),
                forall|i: int| 0 <= i < k ==> !same_shape((#[trigger] cands@[i]).shape, *op),
            decreases cands@.len() - k,
        {
            let c = &cands[k];
            if indel_eq(&c.shape, op) {
                return Some(k);
            }
            k += 1;
        }
        None
    }

    /// Feed one admitted read's observations into the pileup: every base
    /// call and every indel observation, in the order given. Out-of-range
    /// operations are discarded and counted, never applied.
    pub fn accumulate(&mut self, calls: &Vec<BaseCall>, ops: Vec<InDel>)
        requires
            old(self).wf(),
            old(self).obs_total + calls@.len() + ops@.len() <= u64::MAX,
        ensures
            final(self).wf(),
            final(self).counts@ == apply_calls(old(self).counts@, old(self).coverage@, calls@).0,
            final(self).coverage@ == apply_calls(old(self).counts@, old(self).coverage@, calls@).1,
            final(self).candidates@ == apply_ops(
                old(self).candidates@,
                ops@,
                old(self).counts@.len() as int,
            ),
            final(self).obs_total == old(self).obs_total + calls@.len() + ops@.len(),
            final(self).discarded == old(self).discarded + discarded_calls(
                calls@,
                old(self).counts@.len() as int,
            ) + discarded_ops(ops@, old(self).counts@.len() as int),
            final(self).counts@.len() == old(self).counts@.len(),
    {
        let ghost orig = *self;
        let ghost ref_len = old(self).counts@.len() as int;
        let mut i: usize = 0;
        while i < calls.len()
            invariant
                self.wf(),
                i <= calls@.len(),
                orig.wf(),
                orig.obs_total + calls@.len() + ops@.len() <= u64::MAX,
                self.counts@ == apply_calls(orig.counts@, orig.coverage@, calls@.take(i as int)).0,
                self.coverage@ == apply_calls(orig.counts@, orig.coverage@, calls@.take(i as int)).1,
                self.candidates@ == orig.candidates@,
                self.obs_total == orig.obs_total + i,
                self.discarded == orig.discarded + discarded_calls(calls@.take(i as int), ref_len),
                self.counts@.len() == orig.counts@.len(),
                ref_len == orig.counts@.len() as int,
            decreases calls@.len() - i,
        {
            let call = calls[i];
            self.record_call(call);
            proof {
                assert(calls@.take(i + 1).drop_last() =~= calls@.take(i as int));
                assert(calls@.take(i + 1).last() == calls@[i as int]);
            }
            i += 1;
        }
        proof {
            assert(calls@.take(calls@.len() as int) =~= calls@);
        }
        let ghost after_calls_obs = self.obs_total;
        let ghost after_calls_disc = self.discarded;
        let ghost init_ops = ops@;
        let mut ops = ops;
        let n_ops = ops.len();
        let mut t: usize = 0;
        while ops.len() > 0
            invariant
                self.wf(),
                t <= init_ops.len(),
                init_ops.len() == n_ops,
                ops@ == init_ops.skip(t as int),
                orig.obs_total + calls@.len() + init_ops.len() <= u64::MAX,
                self.counts@ == apply_calls(orig.counts@, orig.coverage@, calls@).0,
                self.coverage@ == apply_calls(orig.counts@, orig.coverage@, calls@).1,
                self.candidates@ == apply_ops(orig.candidates@, init_ops.take(t as int), ref_len),
                self.obs_total == after_calls_obs + t,
                after_calls_obs == orig.obs_total + calls@.len(),
                self.discarded == after_calls_disc + discarded_ops(init_ops.take(t as int), ref_len),
                after_calls_disc == orig.discarded + discarded_calls(calls@, ref_len),
                self.counts@.len() == orig.counts@.len(),
                ref_len == orig.counts@.len() as int,
            decreases ops@.len(),
        {
            let op = ops.remove(0);
            proof {
                assert(t < init_ops.len());
                assert(init_ops.skip(t as int)[0] == init_ops[t as int]);
                assert(init_ops.skip(t as int).remove(0) =~= init_ops.skip(t + 1));
                assert(init_ops.take(t + 1).drop_last() =~= init_ops.take(t as int));
                assert(init_ops.take(t + 1).last() == init_ops[t as int]);
            }
            self.record_op(op);
            t += 1;
        }
        proof {
            assert(init_ops.skip(t as int).len() == 0);
            assert(t == init_ops.len());
            assert(init_ops.take(t as int) =~= init_ops);
        }
    }
}

} // verus!
