//! Insertions and deletions relative to the reference.

use vstd::prelude::*;

verus! {

/// An insertion of a base run at a reference position.
#[derive(Clone, Debug)]
pub struct Insertion {
    /// Reference position the run is anchored at; the bases are spliced
    /// in immediately after it.
    pub position: usize,
    /// The inserted base run.
    pub bases: Vec<u8>,
}

/// A deletion of a run of reference positions.
#[derive(Clone, Debug)]
pub struct Deletion {
    /// Reference position the deletion is anchored at; the `length`
    /// positions after it are omitted.
    pub position: usize,
    /// Number of omitted reference positions.
    pub length: usize,
}

/// An insertion or deletion observed in an aligned read, or applied to
/// the consensus.
#[derive(Clone, Debug)]
pub enum InDel {
    Ins(Insertion),
    Del(Deletion),
}

/// The reference position an indel is anchored at.
pub open spec fn spec_pos(op: InDel) -> int {
    match op {
        InDel::Ins(i) => i.position as int,
        InDel::Del(d) => d.position as int,
    }
}

/// Two indels have the same shape: same kind, same anchor position, and
/// the same inserted bases or deleted length. Candidates are keyed by
/// shape.
pub open spec fn same_shape(a: InDel, b: InDel) -> bool {
    match (a, b) {
        (InDel::Ins(x), InDel::Ins(y)) => x.position == y.position && x.bases@ == y.bases@,
        (InDel::Del(x), InDel::Del(y)) => x.position == y.position && x.length == y.length,
        _ => false,
    }
}

impl InDel {
    /// The reference position this indel is anchored at.
    pub fn position(&self) -> (r: usize)
        ensures
            r == spec_pos(*self),
    {
        match self {
            InDel::Ins(i) => i.position,
            InDel::Del(d) => d.position,
        }
    }

    /// An owned value of the same shape.
    pub fn duplicate(&self) -> (r: InDel)
        ensures
            same_shape(*self, r),
    {
        match self {
            InDel::Ins(i) => InDel::Ins(Insertion { position: i.position, bases: copy_bytes(&i.bases) }),
            InDel::Del(d) => InDel::Del(Deletion { position: d.position, length: d.length }),
        }
    }
}

/// Decide whether two indels have the same shape.
pub fn indel_eq(a: &InDel, b: &InDel) -> (r: bool)
    ensures
        r == same_shape(*a, *b),
{
    match (a, b) {
        (InDel::Ins(x), InDel::Ins(y)) => x.position == y.position && bytes_eq(&x.bases, &y.bases),
        (InDel::Del(x), InDel::Del(y)) => x.position == y.position && x.length == y.length,
        _ => false,
    }
}

/// Compare two byte vectors for equal contents.
fn bytes_eq(a: &Vec<u8>, b: &Vec<u8>) -> (r: bool)
    ensures
        r == (a@ == b@),
{
    if a.len() != b.len() {
        return false;
    }
    let mut i: usize = 0;
    while i < a.len()
        invariant
            i <= a@.len(),
            a@.len() == b@.len(),
            forall|k: int| 0 <= k < i ==> a@[k] == b@[k],
        decreases a@.len() - i,
    {
        if a[i] != b[i] {
            return false;
        }
        i += 1;
    }
    proof {
        assert(a@ =~= b@);
    }
    true
}

/// Copy a byte vector.
fn copy_bytes(v: &Vec<u8>) -> (r: Vec<u8>)
    ensures
        r@ == v@,
{
    let mut out: Vec<u8> = Vec::new();
    let mut i: usize = 0;
    while i < v.len()
        invariant
            i <= v@.len(),
            out@ == v@.take(i as int),
        decreases v@.len() - i,
    {
        out.push(v[i]);
        proof {
            assert(v@.take(i + 1) =~= v@.take(i as int).push(v@[i as int]));
        }
        i += 1;
    }
    proof {
        assert(v@.take(v@.len() as int) =~= v@);
    }
    out
}

} // verus!
