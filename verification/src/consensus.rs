//! Resolution of the accumulated pileup into a consensus sequence, and
//! the bundled result of a run.
//!
//! Resolution walks the reference left to right. Positions in a
//! preserved edge region, and positions whose coverage is below the
//! configured minimum, keep the reference base. Everywhere else the
//! symbol with the highest count wins; ties prefer the reference's own
//! symbol, then the fixed symbol order `A`, `C`, `G`, `T`, ambiguous.
//! At a voting position every accepted insertion is spliced in after
//! the voted base, in order of first observation, and the first
//! accepted, applicable deletion omits the following positions; a
//! deletion is applicable only if it stops short of the preserved tail
//! region, so edge positions are never omitted.

use vstd::prelude::*;
use crate::indel::{InDel, same_shape};
use crate::pileup::{Base, BaseCounts, IndelCandidate, Pileup, classify, classify_base};
use crate::rational::Factor;
use crate::sequence::Sequence;
use crate::settings::AlnQualityReqs;
use crate::stats::AlnStats;

verus! {

/// The inputs of consensus resolution, as one spec-level bundle.
pub ghost struct BuildInput {
    /// The reference bases.
    pub refs: Seq<u8>,
    /// Per-position symbol counters.
    pub counts: Seq<BaseCounts>,
    /// Per-position coverage.
    pub cov: Seq<u64>,
    /// The indel candidate table, in order of first observation.
    pub cands: Seq<IndelCandidate>,
    /// The quality requirements.
    pub reqs: AlnQualityReqs,
}

impl BuildInput {
    /// The tables are sized to the reference and the configuration is
    /// valid.
    pub open spec fn wf(self) -> bool {
        &&& self.counts.len() == self.refs.len()
        &&& self.cov.len() == self.refs.len()
        &&& self.reqs.wf()
    }
}

/// The spec-level bundle of a pileup and its reference.
pub open spec fn build_input(refs: Seq<u8>, pl: Pileup, reqs: AlnQualityReqs) -> BuildInput {
    BuildInput { refs, counts: pl.counts@, cov: pl.coverage@, cands: pl.candidates@, reqs }
}

/// The position lies in a preserved edge region.
pub open spec fn is_edge(m: BuildInput, p: int) -> bool {
    p < m.reqs.save_ends || p + m.reqs.save_ends >= m.refs.len()
}

/// First position of the preserved tail region.
pub open spec fn tail_start(m: BuildInput) -> int {
    m.refs.len() - m.reqs.save_ends
}

/// The vote is trusted at this position: outside the edges, with
/// coverage at least the configured minimum.
pub open spec fn is_voting(m: BuildInput, p: int) -> bool {
    &&& !is_edge(m, p)
    &&& m.cov[p] >= m.reqs.min_observations
}

/// The highest count among the five symbol counters.
pub open spec fn max_count(c: BaseCounts) -> u64 {
    let m1 = if c.a >= c.c { c.a } else { c.c };
    let m2 = if m1 >= c.g { m1 } else { c.g };
    let m3 = if m2 >= c.t { m2 } else { c.t };
    if m3 >= c.other { m3 } else { c.other }
}

/// The winning symbol of a position: the symbol with the highest count;
/// on a tie the reference's own symbol wins if it is among the tied,
/// else the first in the fixed order `A`, `C`, `G`, `T`, ambiguous.
pub open spec fn winner_of(c: BaseCounts, refb: u8) -> Base {
    if c.count_of(classify(refb)) == max_count(c) {
        classify(refb)
    } else if c.a == max_count(c) {
        Base::A
    } else if c.c == max_count(c) {
        Base::C
    } else if c.g == max_count(c) {
        Base::G
    } else if c.t == max_count(c) {
        Base::T
    } else {
        Base::Other
    }
}

/// The byte emitted for a winning symbol; the ambiguous bucket emits
/// `N`.
pub open spec fn symbol_of(b: Base) -> u8 {
    match b {
        Base::A => 65,
        Base::C => 67,
        Base::G => 71,
        Base::T => 84,
        Base::Other => 78,
    }
}

/// The winner is a true majority choice: its count is the highest at
/// the position, and no symbol counts higher.
pub proof fn lemma_winner_has_max_count(c: BaseCounts, refb: u8)
    ensures
        c.count_of(winner_of(c, refb)) == max_count(c),
        forall|b: Base| #[trigger] c.count_of(b) <= max_count(c),
{
    assert(c.count_of(Base::A) <= max_count(c));
    assert(c.count_of(Base::C) <= max_count(c));
    assert(c.count_of(Base::G) <= max_count(c));
    assert(c.count_of(Base::T) <= max_count(c));
    assert(c.count_of(Base::Other) <= max_count(c));
    assert forall|b: Base| #[trigger] c.count_of(b) <= max_count(c) by {
        match b {
            Base::A => {},
            Base::C => {},
            Base::G => {},
            Base::T => {},
            Base::Other => {},
        }
    }
}

/// An indel candidate meets the acceptance threshold at a position with
/// this coverage.
pub open spec fn accepted_at(cutoff: Factor, c: IndelCandidate, cov_p: u64) -> bool {
    cutoff.spec_accepts(c.count as int, cov_p as int)
}

/// The bases of all accepted insertions anchored at `p`, concatenated
/// in order of first observation.
pub open spec fn ins_bases_at(cands: Seq<IndelCandidate>, cutoff: Factor, cov_p: u64, p: int) -> Seq<u8>
    decreases cands.len(),
{
    if cands.len() == 0 {
        Seq::empty()
    } else {
        let rest = ins_bases_at(cands.drop_last(), cutoff, cov_p, p);
        match cands.last().shape {
            InDel::Ins(ins) => if ins.position == p && accepted_at(cutoff, cands.last(), cov_p) {
                rest + ins.bases@
            } else {
                rest
            },
            InDel::Del(_) => rest,
        }
    }
}

/// The shapes of all accepted insertions anchored at `p`, in order of
/// first observation.
pub open spec fn applied_ins_at(cands: Seq<IndelCandidate>, cutoff: Factor, cov_p: u64, p: int) -> Seq<InDel>
    decreases cands.len(),
{
    if cands.len() == 0 {
        Seq::empty()
    } else {
        let rest = applied_ins_at(cands.drop_last(), cutoff, cov_p, p);
        match cands.last().shape {
            InDel::Ins(ins) => if ins.position == p && accepted_at(cutoff, cands.last(), cov_p) {
                rest.push(cands.last().shape)
            } else {
                rest
            },
            InDel::Del(_) => rest,
        }
    }
}

/// Whether a deletion candidate is applied at `p`: accepted, of
/// positive length, and stopping short of the preserved tail region.
pub open spec fn del_applies(c: IndelCandidate, cutoff: Factor, cov_p: u64, p: int, tail: int) -> bool {
    match c.shape {
        InDel::Del(d) => d.position == p && d.length >= 1 && accepted_at(cutoff, c, cov_p)
            && p + d.length < tail,
        InDel::Ins(_) => false,
    }
}

/// The length of the applied deletion at `p`: that of the first
/// applicable candidate in order of first observation, or zero.
pub open spec fn del_len_at(cands: Seq<IndelCandidate>, cutoff: Factor, cov_p: u64, p: int, tail: int) -> int
    decreases cands.len(),
{
    if cands.len() == 0 {
        0
    } else if del_applies(cands.first(), cutoff, cov_p, p, tail) {
        match cands.first().shape {
            InDel::Del(d) => d.length as int,
            InDel::Ins(_) => 0,
        }
    } else {
        del_len_at(cands.drop_first(), cutoff, cov_p, p, tail)
    }
}

/// The shape of the applied deletion at `p`, or empty when none
/// applies.
pub open spec fn applied_del_at(cands: Seq<IndelCandidate>, cutoff: Factor, cov_p: u64, p: int, tail: int) -> Seq<InDel>
    decreases cands.len(),
{
    if cands.len() == 0 {
        Seq::empty()
    } else if del_applies(cands.first(), cutoff, cov_p, p, tail) {
        seq![cands.first().shape]
    } else {
        applied_del_at(cands.drop_first(), cutoff, cov_p, p, tail)
    }
}

/// The bases the consensus emits for position `p` when it is not
/// omitted by a deletion: the reference base verbatim at edge or
/// low-coverage positions, else the voted symbol followed by the bases
/// of the accepted insertions.
pub open spec fn emit_at(m: BuildInput, p: int) -> Seq<u8> {
    if !is_voting(m, p) {
        seq![m.refs[p]]
    } else {
        seq![symbol_of(winner_of(m.counts[p], m.refs[p]))] + ins_bases_at(
            m.cands,
            m.reqs.indel_cutoff,
            m.cov[p],
            p,
        )
    }
}

/// How many following positions the consensus omits after emitting
/// position `p`.
pub open spec fn skip_at(m: BuildInput, p: int) -> int {
    if !is_voting(m, p) {
        0
    } else {
        del_len_at(m.cands, m.reqs.indel_cutoff, m.cov[p], p, tail_start(m))
    }
}

/// The indels applied at position `p`: the accepted insertions in order
/// of first observation, then the applied deletion, if any.
pub open spec fn applied_at(m: BuildInput, p: int) -> Seq<InDel> {
    if !is_voting(m, p) {
        Seq::empty()
    } else {
        applied_ins_at(m.cands, m.reqs.indel_cutoff, m.cov[p], p) + applied_del_at(
            m.cands,
            m.reqs.indel_cutoff,
            m.cov[p],
            p,
            tail_start(m),
        )
    }
}

/// The consensus bases from position `p` on, with `skip` positions
/// still omitted by an accepted deletion.
pub open spec fn build_from(m: BuildInput, p: int, skip: int) -> Seq<u8>
    decreases m.refs.len() - p,
{
    if p < 0 || p >= m.refs.len() {
        Seq::empty()
    } else if skip > 0 {
        build_from(m, p + 1, skip - 1)
    } else {
        emit_at(m, p) + build_from(m, p + 1, skip_at(m, p))
    }
}

/// The indels applied from position `p` on, with `skip` positions still
/// omitted.
pub open spec fn applied_from(m: BuildInput, p: int, skip: int) -> Seq<InDel>
    decreases m.refs.len() - p,
{
    if p < 0 || p >= m.refs.len() {
        Seq::empty()
    } else if skip > 0 {
        applied_from(m, p + 1, skip - 1)
    } else {
        applied_at(m, p) + applied_from(m, p + 1, skip_at(m, p))
    }
}

/// The whole consensus sequence of a resolved pileup.
pub open spec fn consensus_bases(m: BuildInput) -> Seq<u8> {
    build_from(m, 0, 0)
}

/// All indels applied over the whole reference, left to right.
pub open spec fn applied_indels(m: BuildInput) -> Seq<InDel> {
    applied_from(m, 0, 0)
}

/// The applied deletion at a position never reaches the preserved tail
/// region: its skip stops short of `tail_start`.
proof fn lemma_del_len_bounded(cands: Seq<IndelCandidate>, cutoff: Factor, cov_p: u64, p: int, tail: int)
    ensures
        0 <= del_len_at(cands, cutoff, cov_p, p, tail),
        del_len_at(cands, cutoff, cov_p, p, tail) > 0 ==> p + del_len_at(cands, cutoff, cov_p, p, tail) < tail,
    decreases cands.len(),
{
    if cands.len() == 0 {
    } else if del_applies(cands.first(), cutoff, cov_p, p, tail) {
    } else {
        lemma_del_len_bounded(cands.drop_first(), cutoff, cov_p, p, tail);
    }
}

/// The skip set at any position stops short of the preserved tail
/// region.
proof fn lemma_skip_at_bounded(m: BuildInput, p: int)
    ensures
        0 <= skip_at(m, p),
        skip_at(m, p) > 0 ==> p + skip_at(m, p) < tail_start(m),
{
    if is_voting(m, p) {
        lemma_del_len_bounded(m.cands, m.reqs.indel_cutoff, m.cov[p], p, tail_start(m));
    }
}

/// Over a run of edge positions the consensus copies the reference
/// verbatim.
proof fn lemma_edge_run(m: BuildInput, p: int, h: int)
    requires
        m.wf(),
        0 <= p <= h <= m.refs.len(),
        forall|q: int| p <= q < h ==> is_edge(m, q),
    ensures
        build_from(m, p, 0) == m.refs.subrange(p, h) + build_from(m, h, 0),
    decreases h - p,
{
    if p == h {
        assert(m.refs.subrange(p, h) =~= Seq::<u8>::empty());
        assert(m.refs.subrange(p, h) + build_from(m, h, 0) =~= build_from(m, h, 0));
    } else {
        assert(is_edge(m, p));
        assert(emit_at(m, p) == seq![m.refs[p]]);
        assert(skip_at(m, p) == 0);
        lemma_edge_run(m, p + 1, h);
        assert(m.refs.subrange(p, h) =~= seq![m.refs[p]] + m.refs.subrange(p + 1, h));
        assert(build_from(m, p, 0) =~= m.refs.subrange(p, h) + build_from(m, h, 0));
    }
}

/// From any state that has not yet reached the preserved tail region,
/// the walk passes through its start with no skip pending.
proof fn lemma_reaches_tail(m: BuildInput, p: int, skip: int)
    requires
        m.wf(),
        0 <= p,
        0 <= skip,
        p + skip <= tail_start(m),
        p <= m.refs.len(),
        tail_start(m) <= m.refs.len(),
    ensures
        exists|mid: Seq<u8>|
            build_from(m, p, skip) == mid + build_from(m, tail_start(m), 0),
    decreases tail_start(m) - p,
{
    if p >= tail_start(m) {
        assert(p == tail_start(m) && skip == 0);
        let mid = Seq::<u8>::empty();
        assert(build_from(m, p, skip) =~= mid + build_from(m, tail_start(m), 0));
    } else if skip > 0 {
        lemma_reaches_tail(m, p + 1, skip - 1);
        let mid = choose|mid: Seq<u8>|
            build_from(m, p + 1, skip - 1) == mid + build_from(m, tail_start(m), 0);
        assert(build_from(m, p, skip) == mid + build_from(m, tail_start(m), 0));
    } else {
        lemma_skip_at_bounded(m, p);
        assert(p + 1 + skip_at(m, p) <= tail_start(m));
        lemma_reaches_tail(m, p + 1, skip_at(m, p));
        let mid = choose|mid: Seq<u8>|
            build_from(m, p + 1, skip_at(m, p)) == mid + build_from(m, tail_start(m), 0);
        assert(build_from(m, p, 0) == emit_at(m, p) + (mid + build_from(m, tail_start(m), 0)));
        assert(build_from(m, p, 0) =~= (emit_at(m, p) + mid) + build_from(m, tail_start(m), 0));
    }
}

/// Edge preservation: the consensus copies the reference verbatim
/// through both preserved edge regions, whatever was observed. When the
/// two regions cover the whole reference the consensus is the
/// reference itself; otherwise the consensus starts with the head
/// region's reference bases and ends with the tail region's.
pub proof fn lemma_edges_preserved(m: BuildInput)
    requires
        m.wf(),
    ensures
        2 * m.reqs.save_ends >= m.refs.len() ==> consensus_bases(m) == m.refs,
        2 * m.reqs.save_ends < m.refs.len() ==> exists|mid: Seq<u8>|
            consensus_bases(m) == m.refs.take(m.reqs.save_ends as int) + mid + m.refs.skip(
                m.refs.len() - m.reqs.save_ends,
            ),
{
    let len = m.refs.len() as int;
    let se = m.reqs.save_ends as int;
    if 2 * se >= len {
        assert forall|q: int| 0 <= q < len implies is_edge(m, q) by {
            if q >= se {
                assert(q + se >= 2 * se >= len);
            }
        }
        lemma_edge_run(m, 0, len);
        assert(build_from(m, len, 0) =~= Seq::<u8>::empty());
        assert(consensus_bases(m) =~= m.refs.subrange(0, len));
        assert(m.refs.subrange(0, len) =~= m.refs);
    } else {
        let ts = tail_start(m);
        assert(ts == len - se);
        assert forall|q: int| 0 <= q < se implies is_edge(m, q) by {}
        lemma_edge_run(m, 0, se);
        lemma_reaches_tail(m, se, 0);
        let mid = choose|mid: Seq<u8>|
            build_from(m, se, 0) == mid + build_from(m, ts, 0);
        assert forall|q: int| ts <= q < len implies is_edge(m, q) by {
            assert(q + se >= ts + se == len);
        }
        lemma_edge_run(m, ts, len);
        assert(build_from(m, len, 0) =~= Seq::<u8>::empty());
        assert(build_from(m, ts, 0) =~= m.refs.subrange(ts, len));
        assert(m.refs.subrange(ts, len) =~= m.refs.skip(ts));
        assert(m.refs.subrange(0, se) =~= m.refs.take(se));
        assert(consensus_bases(m) == m.refs.subrange(0, se) + (mid + build_from(m, ts, 0)));
        assert(consensus_bases(m) =~= m.refs.take(se) + mid + m.refs.skip(ts));
    }
}

/// Pick the winning symbol of a position.
fn pick_winner(c: BaseCounts, refb: u8) -> (r: Base)
    ensures
        r == winner_of(c, refb),
{
    let m1 = if c.a >= c.c { c.a } else { c.c };
    let m2 = if m1 >= c.g { m1 } else { c.g };
    let m3 = if m2 >= c.t { m2 } else { c.t };
    let mx = if m3 >= c.other { m3 } else { c.other };
    let refclass = classify_base(refb);
    let refcount = match refclass {
        Base::A => c.a,
        Base::C => c.c,
        Base::G => c.g,
        Base::T => c.t,
        Base::Other => c.other,
    };
    if refcount == mx {
        refclass
    } else if c.a == mx {
        Base::A
    } else if c.c == mx {
        Base::C
    } else if c.g == mx {
        Base::G
    } else if c.t == mx {
        Base::T
    } else {
        Base::Other
    }
}

/// The byte emitted for a winning symbol.
fn symbol_byte(b: Base) -> (r: u8)
    ensures
        r == symbol_of(b),
{
    match b {
        Base::A => 65,
        Base::C => 67,
        Base::G => 71,
        Base::T => 84,
        Base::Other => 78,
    }
}

/// Find the first applicable deletion candidate at `p`, returning its
/// index and length.
fn find_applied_deletion(
    cands: &Vec<IndelCandidate>,
    cutoff: &Factor,
    cov_p: u64,
    p: usize,
    tail: usize,
) -> (r: Option<(usize, usize)>)
    requires
        cutoff.wf(),
    ensures
        match r {
            Some(pair) => {
                &&& (pair.0 as int) < cands@.len()
                &&& del_applies(cands@[pair.0 as int], *cutoff, cov_p, p as int, tail as int)
                &&& del_len_at(cands@, *cutoff, cov_p, p as int, tail as int) == pair.1
                &&& applied_del_at(cands@, *cutoff, cov_p, p as int, tail as int) == seq![
                    cands@[pair.0 as int].shape,
                ]
                &&& pair.1 >= 1
            },
            None => {
                &&& del_len_at(cands@, *cutoff, cov_p, p as int, tail as int) == 0
                &&& applied_del_at(cands@, *cutoff, cov_p, p as int, tail as int)
                    == Seq::<InDel>::empty()
            },
        },
{
    let ghost whole = cands@;
    proof {
        assert(cands@.skip(0) =~= cands@);
    }
    let mut k: usize = 0;
    while k < cands.len()
        invariant
            k <= cands@.len(),
            cutoff.wf(),
            whole == cands@,
            del_len_at(whole, *cutoff, cov_p, p as int, tail as int) == del_len_at(
                cands@.skip(k as int),
                *cutoff,
                cov_p,
                p as int,
                tail as int,
            ),
            applied_del_at(whole, *cutoff, cov_p, p as int, tail as int) == applied_del_at(
                cands@.skip(k as int),
                *cutoff,
                cov_p,
                p as int,
                tail as int,
            ),
        decreases cands@.len() - k,
    {
        proof {
            assert(cands@.skip(k as int).first() == cands@[k as int]);
        }
        let c = &cands[k];
        let applies: bool = match &c.shape {
            InDel::Del(d) => {
                d.position == p && d.length >= 1 && cutoff.accepts(c.count, cov_p)
                    && d.length < tail && p < tail - d.length
            },
            InDel::Ins(_) => false,
        };
        proof {
            assert(applies == del_applies(cands@[k as int], *cutoff, cov_p, p as int, tail as int));
        }
        if applies {
            let length = match &c.shape {
                InDel::Del(d) => d.length,
                InDel::Ins(_) => 0,
            };
            return Some((k, length));
        }
        proof {
            assert(cands@.skip(k as int).drop_first() =~= cands@.skip(k + 1));
        }
        k += 1;
    }
    proof {
        assert(cands@.skip(k as int).len() == 0);
    }
    None
}

/// Resolve the accumulated pileup against its reference: the consensus
/// bases, and the indels applied, in order.
#[verifier::rlimit(40)]
pub fn build_consensus(refs: &Vec<u8>, pileup: &Pileup, reqs: &AlnQualityReqs) -> (r: (
    Vec<u8>,
    Vec<InDel>,
))
    requires
        pileup.wf(),
        reqs.wf(),
        pileup.counts@.len() == refs@.len(),
    ensures
        r.0@ == consensus_bases(build_input(refs@, *pileup, *reqs)),
        r.1@.len() == applied_indels(build_input(refs@, *pileup, *reqs)).len(),
        forall|k: int| 0 <= k < r.1@.len() ==> same_shape(
            r.1@[k],
            applied_indels(build_input(refs@, *pileup, *reqs))[k],
        ),
{
    let ghost m = build_input(refs@, *pileup, *reqs);
    let mut out: Vec<u8> = Vec::new();
    let mut applied: Vec<InDel> = Vec::new();
    let mut p: usize = 0;
    let mut skip: usize = 0;
    let len = refs.len();
    let tail: usize = if reqs.save_ends <= len {
        len - reqs.save_ends
    } else {
        0
    };
    proof {
        assert(consensus_bases(m) =~= out@ + build_from(m, 0, 0));
        assert(applied_indels(m).skip(0) =~= applied_from(m, 0, 0));
    }
    while p < len
        invariant
            m == build_input(refs@, *pileup, *reqs),
            m.wf(),
            pileup.wf(),
            reqs.wf(),
            len == refs@.len(),
            m.reqs.save_ends <= len ==> tail as int == tail_start(m),
            m.reqs.save_ends > len ==> tail == 0,
            p <= len,
            consensus_bases(m) == out@ + build_from(m, p as int, skip as int),
            applied_indels(m).skip(applied@.len() as int) == applied_from(m, p as int, skip as int),
            applied@.len() <= applied_indels(m).len(),
            forall|j: int| 0 <= j < applied@.len() ==> same_shape(
                applied@[j],
                applied_indels(m)[j],
            ),
        decreases len - p,
    {
        if skip > 0 {
            proof {
                assert(build_from(m, p as int, skip as int) == build_from(
                    m,
                    p as int + 1,
                    skip as int - 1,
                ));
                assert(applied_from(m, p as int, skip as int) == applied_from(
                    m,
                    p as int + 1,
                    skip as int - 1,
                ));
            }
            skip -= 1;
            p += 1;
        } else {
            let ghost p0 = p as int;
            let edge = p < reqs.save_ends || p >= tail;
            proof {
                assert(edge == is_edge(m, p0));
            }
            let mut voting = false;
            let mut cov_p: u64 = 0;
            if !edge {
                cov_p = pileup.coverage[p];
                if cov_p >= reqs.min_observations {
                    voting = true;
                }
            }
            if !voting {
                let ghost pre_out = out@;
                out.push(refs[p]);
                proof {
                    assert(!is_voting(m, p0));
                    assert(emit_at(m, p0) =~= seq![m.refs[p0]]);
                    assert(skip_at(m, p0) == 0);
                    assert(out@ =~= pre_out + emit_at(m, p0));
                    assert(build_from(m, p0, 0) == emit_at(m, p0) + build_from(m, p0 + 1, 0));
                    assert((pre_out + (emit_at(m, p0) + build_from(m, p0 + 1, 0))) =~= (out@
                        + build_from(m, p0 + 1, 0)));
                    assert(applied_at(m, p0) =~= Seq::<InDel>::empty());
                    assert(applied_from(m, p0, 0) == applied_at(m, p0) + applied_from(
                        m,
                        p0 + 1,
                        0,
                    ));
                    assert(applied_at(m, p0) + applied_from(m, p0 + 1, 0) =~= applied_from(
                        m,
                        p0 + 1,
                        0,
                    ));
                }
                p += 1;
            } else {
                let ghost pre_out = out@;
                let ghost applied_pre = applied@;
                let ghost a0 = applied@.len() as int;
                let c = pileup.counts[p];
                let w = pick_winner(c, refs[p]);
                out.push(symbol_byte(w));
                let cutoff = reqs.indel_cutoff;
                let ghost base_out = out@;
                let ncand = pileup.candidates.len();
                proof {
                    assert(is_voting(m, p0));
                    assert(pileup.candidates@.take(0) =~= Seq::<IndelCandidate>::empty());
                    assert(base_out =~= pre_out + seq![
                        symbol_of(winner_of(m.counts[p0], m.refs[p0])),
                    ]);
                }
                let mut k: usize = 0;
                while k < ncand
                    invariant
                        m == build_input(refs@, *pileup, *reqs),
                        m.wf(),
                        pileup.wf(),
                        ncand == pileup.candidates@.len(),
                        k <= ncand,
                        p0 == p as int,
                        0 <= p0 < m.refs.len(),
                        cov_p == m.cov[p0],
                        cutoff == m.reqs.indel_cutoff,
                        cutoff.wf(),
                        out@ == base_out + ins_bases_at(
                            pileup.candidates@.take(k as int),
                            cutoff,
                            cov_p,
                            p0,
                        ),
                        applied_pre.len() == a0,
                        applied@.len() as int == a0 + applied_ins_at(
                            pileup.candidates@.take(k as int),
                            cutoff,
                            cov_p,
                            p0,
                        ).len(),
                        forall|j: int| 0 <= j < a0 ==> applied@[j] == applied_pre[j],
                        forall|j: int| a0 <= j < applied@.len() ==> same_shape(
                            applied@[j],
                            applied_ins_at(
                                pileup.candidates@.take(k as int),
                                cutoff,
                                cov_p,
                                p0,
                            )[j - a0],
                        ),
                    decreases ncand - k,
                {
                    let cand = &pileup.candidates[k];
                    let ghost ck = pileup.candidates@[k as int];
                    let ghost taken = pileup.candidates@.take(k as int);
                    let ghost taken1 = pileup.candidates@.take(k as int + 1);
                    proof {
                        assert(taken1.drop_last() =~= taken);
                        assert(taken1.last() == ck);
                    }
                    match &cand.shape {
                        InDel::Ins(ins) => {
                            if ins.position == p && cutoff.accepts(cand.count, cov_p) {
                                let ghost out_pre2 = out@;
                                let mut bi: usize = 0;
                                while bi < ins.bases.len()
                                    invariant
                                        bi <= ins.bases@.len(),
                                        out@ == out_pre2 + ins.bases@.take(bi as int),
                                    decreases ins.bases@.len() - bi,
                                {
                                    let b = ins.bases[bi];
                                    out.push(b);
                                    proof {
                                        assert(ins.bases@.take(bi + 1) =~= ins.bases@.take(
                                            bi as int,
                                        ).push(ins.bases@[bi as int]));
                                        assert(out@ =~= out_pre2 + ins.bases@.take(bi + 1));
                                    }
                                    bi += 1;
                                }
                                let dup = cand.shape.duplicate();
                                applied.push(dup);
                                proof {
                                    assert(ins.bases@.take(ins.bases@.len() as int) =~= ins.bases@);
                                    assert(accepted_at(cutoff, ck, cov_p));
                                    assert(ins_bases_at(taken1, cutoff, cov_p, p0) == ins_bases_at(
                                        taken,
                                        cutoff,
                                        cov_p,
                                        p0,
                                    ) + ins.bases@);
                                    assert(out@ =~= base_out + ins_bases_at(
                                        taken1,
                                        cutoff,
                                        cov_p,
                                        p0,
                                    ));
                                    assert(applied_ins_at(taken1, cutoff, cov_p, p0)
                                        == applied_ins_at(taken, cutoff, cov_p, p0).push(ck.shape));
                                    assert(same_shape(dup, ck.shape));
                                }
                            } else {
                                proof {
                                    assert(ins_bases_at(taken1, cutoff, cov_p, p0) == ins_bases_at(
                                        taken,
                                        cutoff,
                                        cov_p,
                                        p0,
                                    ));
                                    assert(applied_ins_at(taken1, cutoff, cov_p, p0)
                                        == applied_ins_at(taken, cutoff, cov_p, p0));
                                }
                            }
                        },
                        InDel::Del(_) => {
                            proof {
                                assert(ins_bases_at(taken1, cutoff, cov_p, p0) == ins_bases_at(
                                    taken,
                                    cutoff,
                                    cov_p,
                                    p0,
                                ));
                                assert(applied_ins_at(taken1, cutoff, cov_p, p0) == applied_ins_at(
                                    taken,
                                    cutoff,
                                    cov_p,
                                    p0,
                                ));
                            }
                        },
                    }
                    k += 1;
                }
                proof {
                    assert(pileup.candidates@.take(ncand as int) =~= pileup.candidates@);
                    assert(m.cands == pileup.candidates@);
                    assert(m.reqs.save_ends <= p);
                    assert(tail as int == tail_start(m));
                }
                let del = find_applied_deletion(&pileup.candidates, &cutoff, cov_p, p, tail);
                let mut new_skip: usize = 0;
                let ghost ins_shapes = applied_ins_at(m.cands, cutoff, cov_p, p0);
                match del {
                    Some((kd, dlen)) => {
                        let dc = &pileup.candidates[kd];
                        let dup = dc.shape.duplicate();
                        applied.push(dup);
                        new_skip = dlen;
                        proof {
                            assert(same_shape(dup, pileup.candidates@[kd as int].shape));
                            assert(applied_del_at(m.cands, cutoff, cov_p, p0, tail_start(m))
                                == seq![pileup.candidates@[kd as int].shape]);
                        }
                    },
                    None => {},
                }
                skip = new_skip;
                proof {
                    let ghost del_shapes = applied_del_at(
                        m.cands,
                        cutoff,
                        cov_p,
                        p0,
                        tail_start(m),
                    );
                    let ghost at = applied_at(m, p0);
                    let ghost na = at.len() as int;
                    let ghost ns = skip_at(m, p0);
                    assert(emit_at(m, p0) == seq![symbol_of(winner_of(m.counts[p0], m.refs[p0]))]
                        + ins_bases_at(m.cands, cutoff, cov_p, p0));
                    assert(out@ =~= pre_out + emit_at(m, p0));
                    assert(ns == new_skip as int);
                    assert(build_from(m, p0, 0) == emit_at(m, p0) + build_from(m, p0 + 1, ns));
                    assert((pre_out + (emit_at(m, p0) + build_from(m, p0 + 1, ns))) =~= (out@
                        + build_from(m, p0 + 1, ns)));
                    assert(at == ins_shapes + del_shapes);
                    assert(applied@.len() as int == a0 + na);
                    assert(forall|j: int| 0 <= j < na ==> same_shape(
                        applied@[a0 + j],
                        at[j],
                    ));
                    assert(applied_from(m, p0, 0) == at + applied_from(m, p0 + 1, ns));
                    assert(applied_indels(m).skip(a0) == at + applied_from(m, p0 + 1, ns));
                    assert(applied_indels(m).skip(a0 + na) =~= applied_indels(m).skip(a0).skip(na));
                    assert((at + applied_from(m, p0 + 1, ns)).skip(na) =~= applied_from(
                        m,
                        p0 + 1,
                        ns,
                    ));
                    assert forall|j: int| 0 <= j < applied@.len() implies same_shape(
                        applied@[j],
                        applied_indels(m)[j],
                    ) by {
                        if j >= a0 {
                            assert(applied_indels(m).skip(a0)[j - a0] == applied_indels(m)[j]);
                            assert(applied_indels(m).skip(a0)[j - a0] == at[j - a0]);
                            assert(same_shape(applied@[j], at[j - a0]));
                        }
                    }
                    assert(applied@.len() <= applied_indels(m).len());
                }
                p += 1;
            }
        }
    }
    proof {
        assert(build_from(m, p as int, skip as int) =~= Seq::<u8>::empty());
        assert(out@ =~= consensus_bases(m));
        assert(applied_from(m, p as int, skip as int) =~= Seq::<InDel>::empty());
        assert(applied_indels(m).skip(applied@.len() as int).len() == 0);
        assert(applied@.len() == applied_indels(m).len());
    }
    (out, applied)
}

/// Low coverage keeps the reference: at a non-edge position whose
/// coverage is below the configured minimum, the consensus emits
/// exactly the reference base and omits nothing after it. (A position
/// inside the span of an accepted deletion is omitted altogether and
/// has no consensus base.)
pub proof fn lemma_low_coverage_keeps_reference(m: BuildInput, p: int)
    requires
        m.wf(),
        0 <= p < m.refs.len(),
        !is_edge(m, p),
        m.cov[p] < m.reqs.min_observations,
    ensures
        emit_at(m, p) == seq![m.refs[p]],
        skip_at(m, p) == 0,
        build_from(m, p, 0) == seq![m.refs[p]] + build_from(m, p + 1, 0),
{
}

/// One row of the expanded base-count table: a symbol and its count at
/// every reference position.
#[derive(Clone, Debug)]
pub struct BaseCountRow {
    pub symbol: u8,
    pub counts: Vec<u64>,
}

/// The per-position counts of one symbol, as a column over the
/// reference.
pub open spec fn row_of(counts: Seq<BaseCounts>, b: Base) -> Seq<u64> {
    counts.map_values(|c: BaseCounts| c.count_of(b))
}

/// Summarizes the result of calculating a consensus. Constructed once,
/// at the end of a run; immutable afterwards.
#[derive(Clone, Debug)]
pub struct Consensus {
    /// The reference sequence.
    pub ref_seq: Sequence,
    /// Path to the aligned reads.
    pub aln_path: String,
    /// The generated consensus sequence.
    pub consensus_seq: Sequence,
    /// Statistics of the reads that were considered in the consensus
    /// generation.
    pub aln_stats: AlnStats,
    /// Base coverage, relative to the reference sequence.
    pub coverage: Vec<u64>,
    /// Count of each base symbol at each reference position.
    pub base_counts: Vec<BaseCountRow>,
    /// The indels applied to the consensus, in order of application.
    pub indels: Vec<InDel>,
    /// Total number of seen reads, including those not considered for
    /// consensus generation.
    pub total_reads: u64,
    /// Number of reads considered in the consensus generation.
    pub valid_reads: u64,
}

impl Consensus {
    /// Every admitted read was seen: the admitted count never exceeds
    /// the total.
    pub open spec fn wf(self) -> bool {
        self.valid_reads <= self.total_reads
    }

    /// Bundle a finished run's parts into the result.
    pub fn new(
        ref_seq: Sequence,
        aln_path: String,
        consensus_seq: Sequence,
        aln_stats: AlnStats,
        pileup: &Pileup,
        indels: Vec<InDel>,
        total_reads: u64,
        valid_reads: u64,
    ) -> (r: Consensus)
        requires
            valid_reads <= total_reads,
        ensures
            r.ref_seq.label@ == ref_seq.label@,
            r.ref_seq.bases@ == ref_seq.bases@,
            r.aln_path@ == aln_path@,
            r.consensus_seq.label@ == consensus_seq.label@,
            r.consensus_seq.bases@ == consensus_seq.bases@,
            r.aln_stats == aln_stats,
            r.coverage@ == pileup.coverage@,
            r.base_counts@.len() == 5,
            r.base_counts@[0].symbol == 65 && r.base_counts@[0].counts@ == row_of(
                pileup.counts@,
                Base::A,
            ),
            r.base_counts@[1].symbol == 67 && r.base_counts@[1].counts@ == row_of(
                pileup.counts@,
                Base::C,
            ),
            r.base_counts@[2].symbol == 71 && r.base_counts@[2].counts@ == row_of(
                pileup.counts@,
                Base::G,
            ),
            r.base_counts@[3].symbol == 84 && r.base_counts@[3].counts@ == row_of(
                pileup.counts@,
                Base::T,
            ),
            r.base_counts@[4].symbol == 78 && r.base_counts@[4].counts@ == row_of(
                pileup.counts@,
                Base::Other,
            ),
            r.indels == indels,
            r.total_reads == total_reads,
            r.valid_reads == valid_reads,
            r.wf(),
    {
        let coverage = copy_counts(&pileup.coverage);
        let base_counts = Self::expand_base_counts(&pileup.counts);
        Consensus {
            ref_seq,
            aln_path,
            consensus_seq,
            aln_stats,
            coverage,
            base_counts,
            indels,
            total_reads,
            valid_reads,
        }
    }

    /// Project the per-position counters into one row per symbol.
    fn expand_base_counts(counts: &Vec<BaseCounts>) -> (r: Vec<BaseCountRow>)
        ensures
            r@.len() == 5,
            r@[0].symbol == 65 && r@[0].counts@ == row_of(counts@, Base::A),
            r@[1].symbol == 67 && r@[1].counts@ == row_of(counts@, Base::C),
            r@[2].symbol == 71 && r@[2].counts@ == row_of(counts@, Base::G),
            r@[3].symbol == 84 && r@[3].counts@ == row_of(counts@, Base::T),
            r@[4].symbol == 78 && r@[4].counts@ == row_of(counts@, Base::Other),
    {
        let mut rows: Vec<BaseCountRow> = Vec::new();
        rows.push(BaseCountRow { symbol: 65, counts: column(counts, Base::A) });
        rows.push(BaseCountRow { symbol: 67, counts: column(counts, Base::C) });
        rows.push(BaseCountRow { symbol: 71, counts: column(counts, Base::G) });
        rows.push(BaseCountRow { symbol: 84, counts: column(counts, Base::T) });
        rows.push(BaseCountRow { symbol: 78, counts: column(counts, Base::Other) });
        rows
    }

    /// Number of reads considered in the consensus generation.
    pub fn valid_reads(&self) -> (r: u64)
        ensures
            r == self.valid_reads,
    {
        self.valid_reads
    }

    /// Number of reads seen that were not considered in the consensus
    /// generation.
    pub fn invalid_reads(&self) -> (r: u64)
        requires
            self.wf(),
        ensures
            r == self.total_reads - self.valid_reads,
    {
        self.total_reads - self.valid_reads
    }

    /// The reference sequence.
    pub fn get_ref_seq(&self) -> (r: &Sequence)
        ensures
            r == &self.ref_seq,
    {
        &self.ref_seq
    }

    /// Path to the aligned reads.
    pub fn get_aln_path(&self) -> (r: &String)
        ensures
            r@ == self.aln_path@,
    {
        &self.aln_path
    }

    /// The generated consensus sequence.
    pub fn get_consensus_seq(&self) -> (r: &Sequence)
        ensures
            r == &self.consensus_seq,
    {
        &self.consensus_seq
    }

    /// The statistics of the admitted reads.
    pub fn get_aln_stats(&self) -> (r: &AlnStats)
        ensures
            r == &self.aln_stats,
    {
        &self.aln_stats
    }

    /// Base coverage, relative to the reference sequence.
    pub fn get_coverage(&self) -> (r: &Vec<u64>)
        ensures
            r@ == self.coverage@,
    {
        &self.coverage
    }

    /// The expanded base-count table.
    pub fn get_base_counts(&self) -> (r: &Vec<BaseCountRow>)
        ensures
            r == &self.base_counts,
    {
        &self.base_counts
    }

    /// The indels applied to the consensus.
    pub fn get_indels(&self) -> (r: &Vec<InDel>)
        ensures
            r == &self.indels,
    {
        &self.indels
    }

    /// Total number of seen reads.
    pub fn get_total_reads(&self) -> (r: u64)
        ensures
            r == self.total_reads,
    {
        self.total_reads
    }

    /// The consensus in single-record FASTA form: a header line from
    /// the consensus label, then the bases, each line newline-ended.
    pub fn to_fasta(&self) -> (r: Vec<u8>)
        ensures
            r@ == seq![62u8] + vstd::utf8::encode_utf8(self.consensus_seq.label@) + seq![10u8]
                + self.consensus_seq.bases@ + seq![10u8],
    {
        let mut out: Vec<u8> = Vec::new();
        out.push(62);
        let label_bytes = self.consensus_seq.label.as_str().as_bytes();
        let ghost lb = vstd::utf8::encode_utf8(self.consensus_seq.label@);
        let mut i: usize = 0;
        proof {
            assert(label_bytes@ == lb);
            assert(out@ =~= seq![62u8] + lb.take(0));
        }
        while i < label_bytes.len()
            invariant
                i <= lb.len(),
                label_bytes@ == lb,
                out@ == seq![62u8] + lb.take(i as int),
            decreases lb.len() - i,
        {
            let b = label_bytes[i];
            out.push(b);
            proof {
                assert(lb.take(i + 1) =~= lb.take(i as int).push(lb[i as int]));
                assert(out@ =~= seq![62u8] + lb.take(i + 1));
            }
            i += 1;
        }
        out.push(10);
        proof {
            assert(lb.take(lb.len() as int) =~= lb);
            assert(out@ =~= seq![62u8] + lb + seq![10u8]);
        }
        let ghost mid = out@;
        let bases = &self.consensus_seq.bases;
        let mut j: usize = 0;
        while j < bases.len()
            invariant
                j <= bases@.len(),
                bases@ == self.consensus_seq.bases@,
                out@ == mid + bases@.take(j as int),
            decreases bases@.len() - j,
        {
            let b = bases[j];
            out.push(b);
            proof {
                assert(bases@.take(j + 1) =~= bases@.take(j as int).push(bases@[j as int]));
                assert(out@ =~= mid + bases@.take(j + 1));
            }
            j += 1;
        }
        out.push(10);
        proof {
            assert(bases@.take(bases@.len() as int) =~= bases@);
            assert(out@ =~= seq![62u8] + lb + seq![10u8] + self.consensus_seq.bases@ + seq![10u8]);
        }
        out
    }
}

/// Read accounting: every read seen is either admitted or rejected, so
/// the total is exactly the admitted count plus the rejected count
/// that `invalid_reads` reports.
pub proof fn lemma_read_accounting(c: Consensus)
    requires
        c.wf(),
    ensures
        c.total_reads == c.valid_reads + (c.total_reads - c.valid_reads),
{
}

/// Copy a coverage table.
fn copy_counts(v: &Vec<u64>) -> (r: Vec<u64>)
    ensures
        r@ == v@,
{
    let mut out: Vec<u64> = Vec::new();
    let mut i: usize = 0;
    while i < v.len()
        invariant
            i <= v@.len(),
            out@ == v@.take(i as int),
        decreases v@.len() - i,
    {
        out.push(v[i]);
        proof {
            assert(v@.take(i + 1) =~= v@.take(i as int).push(v@[i as int]));
        }
        i += 1;
    }
    proof {
        assert(v@.take(v@.len() as int) =~= v@);
    }
    out
}

/// One symbol's count at every reference position.
fn column(counts: &Vec<BaseCounts>, b: Base) -> (r: Vec<u64>)
    ensures
        r@ == row_of(counts@, b),
{
    let mut out: Vec<u64> = Vec::new();
    let mut i: usize = 0;
    while i < counts.len()
        invariant
            i <= counts@.len(),
            out@.len() == i,
            forall|k: int| 0 <= k < i ==> out@[k] == (#[trigger] counts@[k]).count_of(b),
        decreases counts@.len() - i,
    {
        let c = counts[i];
        let value = match b {
            Base::A => c.a,
            Base::C => c.c,
            Base::G => c.g,
            Base::T => c.t,
            Base::Other => c.other,
        };
        out.push(value);
        i += 1;
    }
    proof {
        assert(out@ =~= row_of(counts@, b));
    }
    out
}

} // verus!
