//! A labeled nucleotide sequence.

use vstd::prelude::*;

verus! {

/// A nucleotide sequence with an identifying label.
///
/// Used for both the reference and the computed consensus. Bases are
/// single-byte nucleotide codes. Immutable once constructed.
#[derive(Clone, Debug)]
pub struct Sequence {
    /// Identifying label, e.g. the FASTA header name.
    pub label: String,
    /// The base symbols, one byte each.
    pub bases: Vec<u8>,
}

impl Sequence {
    /// Build a sequence from a label and its bases.
    pub fn new(label: String, bases: Vec<u8>) -> (r: Sequence)
        ensures
            r.label@ == label@,
            r.bases@ == bases@,
    {
        Sequence { label, bases }
    }

    /// The identifying label.
    pub fn get_label(&self) -> (r: &String)
        ensures
            r@ == self.label@,
    {
        &self.label
    }

    /// The base symbols.
    pub fn get_bases(&self) -> (r: &Vec<u8>)
        ensures
            r@ == self.bases@,
    {
        &self.bases
    }

    /// An owned copy with the same label and bases.
    pub fn duplicate(&self) -> (r: Sequence)
        ensures
            r.label@ == self.label@,
            r.bases@ == self.bases@,
    {
        let label = self.label.clone();
        let mut bases: Vec<u8> = Vec::new();
        let mut i: usize = 0;
        while i < self.bases.len()
            invariant
                i <= self.bases@.len(),
                bases@ == self.bases@.take(i as int),
            decreases self.bases@.len() - i,
        {
            bases.push(self.bases[i]);
            proof {
                assert(self.bases@.take(i + 1) =~= self.bases@.take(i as int).push(
                    self.bases@[i as int],
                ));
            }
            i += 1;
        }
        proof {
            assert(self.bases@.take(self.bases@.len() as int) =~= self.bases@);
        }
        Sequence { label, bases }
    }

    /// Number of bases in the sequence.
    pub fn len(&self) -> (r: usize)
        ensures
            r == self.bases@.len(),
    {
        self.bases.len()
    }
}

} // verus!
