use accord::calculator::{Calculator, ReadObs};
use accord::cli::Args;
use accord::indel::{indel_eq, Deletion, InDel, Insertion};
use accord::pileup::BaseCall;
use accord::rational::Factor;
use accord::sequence::Sequence;
use accord::settings::AlnQualityReqs;

fn reqs(min_mapq: u8, save_ends: usize, min_obs: u64, cutoff: (u64, u64)) -> AlnQualityReqs {
    AlnQualityReqs::new(
        min_mapq,
        0,
        0,
        Factor::new(cutoff.0, cutoff.1).unwrap(),
        save_ends,
        min_obs,
    )
    .unwrap()
}

fn read(mapq: u8, calls: &[(usize, u8)], indels: Vec<InDel>) -> ReadObs {
    ReadObs {
        length: 8,
        mapq,
        flags: 0,
        score: Some(10),
        distance: Some(1),
        calls: calls.iter().map(|&(pos, base)| BaseCall { pos, base }).collect(),
        indels,
    }
}

fn calculator(label: &str, ref_bases: &str, requirements: AlnQualityReqs) -> Calculator {
    let factors = vec![Factor::new(1, 2).unwrap()];
    Calculator::new(
        Sequence::new(label.to_string(), ref_bases.as_bytes().to_vec()),
        "reads.bam".to_string(),
        requirements,
        factors,
    )
}

#[test]
fn quality_gate_thresholds() {
    let r = AlnQualityReqs::new(10, 0x2, 0x4, Factor::new(1, 5).unwrap(), 0, 1).unwrap();
    assert!(r.admits(10, 0x2));
    assert!(!r.admits(9, 0x2), "mapping quality below the minimum");
    assert!(!r.admits(10, 0x0), "mandatory flag bit missing");
    assert!(!r.admits(10, 0x6), "prohibited flag bit set");
}

#[test]
fn majority_base_wins() {
    let mut cal = calculator("r", "AAA", reqs(0, 0, 1, (1, 1)));
    for _ in 0..3 {
        cal.observe(read(60, &[(1, b'A')], vec![]));
    }
    for _ in 0..5 {
        cal.observe(read(60, &[(1, b'C')], vec![]));
    }
    cal.finalize();
    let c = cal.compute_consensus().unwrap();
    // counts {A: 3, C: 5} at the middle position: C wins
    assert_eq!(c.consensus_seq.bases, b"ACA".to_vec());
}

#[test]
fn edges_keep_reference_despite_contradiction() {
    let mut cal = calculator("r", "ACGA", reqs(0, 1, 1, (1, 1)));
    for _ in 0..5 {
        cal.observe(read(60, &[(0, b'T'), (1, b'T'), (2, b'T'), (3, b'T')], vec![]));
    }
    cal.finalize();
    let c = cal.compute_consensus().unwrap();
    let bases = &c.consensus_seq.bases;
    assert_eq!(bases[0], b'A', "head edge position keeps the reference base");
    assert_eq!(bases[3], b'A', "tail edge position keeps the reference base");
    assert_eq!(bases, &b"ATTA".to_vec());
}

#[test]
fn low_coverage_keeps_reference() {
    let mut cal = calculator("r", "ACGT", reqs(0, 0, 50, (1, 1)));
    for _ in 0..5 {
        cal.observe(read(60, &[(1, b'T')], vec![]));
    }
    cal.finalize();
    let c = cal.compute_consensus().unwrap();
    assert_eq!(c.consensus_seq.bases, b"ACGT".to_vec());
    assert_eq!(c.coverage[1], 5);
}

#[test]
fn insertion_at_exact_cutoff_is_accepted() {
    let mut cal = calculator("r", "AAAAAA", reqs(0, 0, 1, (1, 2)));
    for i in 0..400 {
        let indels = if i < 200 {
            vec![InDel::Ins(Insertion { position: 1, bases: b"G".to_vec() })]
        } else {
            vec![]
        };
        cal.observe(read(60, &[(1, b'A')], indels));
    }
    cal.finalize();
    let c = cal.compute_consensus().unwrap();
    // support 200 of 400 is exactly the cutoff 1/2: accepted
    assert_eq!(c.consensus_seq.bases, b"AAGAAAA".to_vec());
    assert_eq!(c.indels.len(), 1);
}

#[test]
fn insertion_just_below_cutoff_is_rejected() {
    let mut cal = calculator("r", "AAAAAA", reqs(0, 0, 1, (1, 2)));
    for i in 0..400 {
        let indels = if i < 199 {
            vec![InDel::Ins(Insertion { position: 1, bases: b"G".to_vec() })]
        } else {
            vec![]
        };
        cal.observe(read(60, &[(1, b'A')], indels));
    }
    cal.finalize();
    let c = cal.compute_consensus().unwrap();
    // support 199 of 400 lies below the cutoff 1/2: rejected
    assert_eq!(c.consensus_seq.bases, b"AAAAAA".to_vec());
    assert_eq!(c.indels.len(), 0);
}

#[test]
fn accepted_deletion_omits_positions() {
    let mut cal = calculator("r", "ACGTA", reqs(0, 0, 1, (1, 2)));
    for _ in 0..4 {
        cal.observe(read(
            60,
            &[(1, b'C')],
            vec![InDel::Del(Deletion { position: 1, length: 2 })],
        ));
    }
    cal.finalize();
    let c = cal.compute_consensus().unwrap();
    // the deletion at position 1 omits positions 2 and 3
    assert_eq!(c.consensus_seq.bases, b"ACA".to_vec());
    assert_eq!(c.indels.len(), 1);
    assert!(indel_eq(
        &c.indels[0],
        &InDel::Del(Deletion { position: 1, length: 2 })
    ));
}

#[test]
fn read_accounting_total_is_valid_plus_invalid() {
    let mut cal = calculator("r", "ACGT", reqs(10, 0, 1, (1, 1)));
    for _ in 0..3 {
        cal.observe(read(60, &[(1, b'C')], vec![]));
    }
    for _ in 0..2 {
        cal.observe(read(5, &[(1, b'C')], vec![]));
    }
    let mut failing = read(60, &[(1, b'C')], vec![]);
    failing.score = None;
    cal.observe(failing);
    cal.finalize();
    let c = cal.compute_consensus().unwrap();
    assert_eq!(c.get_total_reads(), 6);
    assert_eq!(c.valid_reads(), 3);
    assert_eq!(c.invalid_reads(), 3);
    assert_eq!(c.get_total_reads(), c.valid_reads() + c.invalid_reads());
}

#[test]
fn rebuilding_from_finalized_state_is_identical() {
    let mut cal = calculator("ref1", "ACGTACGT", reqs(0, 0, 1, (1, 2)));
    for _ in 0..5 {
        cal.observe(read(
            60,
            &[
                (0, b'A'),
                (1, b'C'),
                (2, b'G'),
                (3, b'T'),
                (4, b'A'),
                (5, b'C'),
                (6, b'G'),
                (7, b'T'),
            ],
            vec![],
        ));
    }
    cal.finalize();
    let c1 = cal.compute_consensus().unwrap();
    let c2 = cal.compute_consensus().unwrap();
    assert_eq!(c1.consensus_seq.bases, c2.consensus_seq.bases);
    assert_eq!(c1.consensus_seq.label, c2.consensus_seq.label);
    assert_eq!(c1.coverage, c2.coverage);
    assert_eq!(c1.get_total_reads(), c2.get_total_reads());
    assert_eq!(c1.valid_reads(), c2.valid_reads());
    assert_eq!(c1.indels.len(), c2.indels.len());
    for (a, b) in c1.indels.iter().zip(c2.indels.iter()) {
        assert!(indel_eq(a, b));
    }
    for (ra, rb) in c1.base_counts.iter().zip(c2.base_counts.iter()) {
        assert_eq!(ra.symbol, rb.symbol);
        assert_eq!(ra.counts, rb.counts);
    }
    let s1 = c1.get_aln_stats();
    let s2 = c2.get_aln_stats();
    assert_eq!(s1.get_sample_size(), s2.get_sample_size());
    assert_eq!(
        s1.length_distribution.quantiles,
        s2.length_distribution.quantiles
    );
}

#[test]
fn end_to_end_agreeing_reads() {
    let mut cal = calculator("ref1", "ACGTACGT", reqs(0, 0, 1, (1, 2)));
    for _ in 0..5 {
        cal.observe(read(
            60,
            &[
                (0, b'A'),
                (1, b'C'),
                (2, b'G'),
                (3, b'T'),
                (4, b'A'),
                (5, b'C'),
                (6, b'G'),
                (7, b'T'),
            ],
            vec![],
        ));
    }
    cal.finalize();
    let c = cal.compute_consensus().unwrap();
    assert_eq!(c.consensus_seq.bases, b"ACGTACGT".to_vec());
    assert_eq!(c.coverage, vec![5, 5, 5, 5, 5, 5, 5, 5]);
    assert_eq!(c.get_total_reads(), 5);
    assert_eq!(c.invalid_reads(), 0);
    assert_eq!(c.get_ref_seq().get_label(), "ref1");
}

#[test]
fn out_of_range_observations_are_discarded() {
    let mut cal = calculator("r", "AC", reqs(0, 0, 1, (1, 1)));
    cal.observe(read(
        60,
        &[(5, b'A')],
        vec![InDel::Ins(Insertion { position: 9, bases: b"G".to_vec() })],
    ));
    cal.finalize();
    let c = cal.compute_consensus().unwrap();
    assert_eq!(c.consensus_seq.bases, b"AC".to_vec());
    assert_eq!(c.coverage, vec![0, 0]);
    assert_eq!(c.indels.len(), 0);
}

#[test]
fn expanded_base_counts_table() {
    let mut cal = calculator("r", "AAA", reqs(0, 0, 1, (1, 1)));
    for _ in 0..3 {
        cal.observe(read(60, &[(1, b'A')], vec![]));
    }
    for _ in 0..5 {
        cal.observe(read(60, &[(1, b'C')], vec![]));
    }
    cal.finalize();
    let c = cal.compute_consensus().unwrap();
    let rows = c.get_base_counts();
    assert_eq!(rows.len(), 5);
    assert_eq!(rows[0].symbol, b'A');
    assert_eq!(rows[0].counts, vec![0, 3, 0]);
    assert_eq!(rows[1].symbol, b'C');
    assert_eq!(rows[1].counts, vec![0, 5, 0]);
}

#[test]
fn fasta_serialization() {
    let mut cal = calculator("ref1", "ACGT", reqs(0, 0, 1, (1, 2)));
    cal.observe(read(60, &[(0, b'A')], vec![]));
    cal.finalize();
    let c = cal.compute_consensus().unwrap();
    assert_eq!(c.to_fasta(), b">ref1\nACGT\n".to_vec());
}

#[test]
fn no_admitted_reads_is_an_error() {
    let mut cal = calculator("r", "ACGT", reqs(10, 0, 1, (1, 1)));
    cal.observe(read(5, &[(1, b'C')], vec![]));
    cal.finalize();
    assert!(cal.compute_consensus().is_err());
    assert!(cal.compute_aln_stats().is_err());
}

#[test]
fn parse_args_applies_defaults() {
    let args = Args::parse_args("ref.fa".to_string(), "aln.bam".to_string(), None, None);
    assert_eq!(args.ref_path, "ref.fa");
    assert_eq!(args.aln_path, "aln.bam");
    assert_eq!(args.out_path, "-");
    assert_eq!(args.aln_reqs, "");
}

#[test]
fn parse_args_keeps_given_values() {
    let args = Args::parse_args(
        "ref.fa".to_string(),
        "aln.bam".to_string(),
        Some("out.fa".to_string()),
        Some("strict".to_string()),
    );
    assert_eq!(args.out_path, "out.fa");
    assert_eq!(args.aln_reqs, "strict");
}
