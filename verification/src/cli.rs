//! Command-line argument values, with their default rules.
//!
//! The surrounding binary reads the raw arguments from the process; this
//! module only applies the documented defaulting, so that the rules live
//! with the library.

use vstd::prelude::*;

verus! {

/// The resolved command-line arguments of the consensus binary.
#[derive(Clone, Debug)]
pub struct Args {
    /// Path to a reference sequence.
    pub ref_path: String,
    /// Path to a sorted alignment file with reads aligned against the
    /// reference.
    pub aln_path: String,
    /// Out path; `-` means standard output.
    pub out_path: String,
    /// Alignment quality settings for consensus generation, as given.
    pub aln_reqs: String,
}

impl Args {
    /// Resolve raw argument values into `Args`: a missing out path
    /// defaults to `-` (standard output), missing quality settings
    /// default to the empty string.
    pub fn parse_args(
        ref_path: String,
        aln_path: String,
        out_path: Option<String>,
        aln_reqs: Option<String>,
    ) -> (r: Args)
        ensures
            r.ref_path@ == ref_path@,
            r.aln_path@ == aln_path@,
            out_path is Some ==> r.out_path@ == out_path->0@,
            out_path is None ==> r.out_path@ == "-"@,
            aln_reqs is Some ==> r.aln_reqs@ == aln_reqs->0@,
            aln_reqs is None ==> r.aln_reqs@ == ""@,
    {
        let out_path = match out_path {
            Some(p) => p,
            None => String::from_str("-"),
        };
        let aln_reqs = match aln_reqs {
            Some(q) => q,
            None => String::from_str(""),
        };
        Args { ref_path, aln_path, out_path, aln_reqs }
    }
}

} // verus!
