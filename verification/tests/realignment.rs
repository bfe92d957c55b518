use varlociraptor::genome::Interval;
use varlociraptor::observation::Strand;
use varlociraptor::realignment::{
    best_dist, hits_by_dist, merge_regions, normalization, overlaps_any, prob_allele_evidence,
    retained_strand, AlignedRead,
    AlleleEvidence, CandidateRegion, EditDistanceHit, LocusLookup, Normalization, ReadPositions,
    Realigner, SupportRegions, EDIT_BAND, MAX_PATTERN_LEN,
};

fn read(pos: i64, end_pos: i64, seq_len: usize) -> AlignedRead {
    AlignedRead { contig: "chr1".to_owned(), pos, end_pos, seq_len }
}

fn locus(start: u64, end: u64) -> Interval {
    Interval::new("chr1".to_owned(), start, end)
}

fn positions(start: Option<u32>, end: Option<u32>) -> ReadPositions {
    ReadPositions { start, end }
}

fn region(overlap: bool, read: (usize, usize), reference: (usize, usize)) -> CandidateRegion {
    CandidateRegion { overlap, read_interval: read.0..read.1, ref_interval: reference.0..reference.1 }
}

fn shape(r: &CandidateRegion) -> (bool, (usize, usize), (usize, usize)) {
    (
        r.overlap,
        (r.read_interval.start, r.read_interval.end),
        (r.ref_interval.start, r.ref_interval.end),
    )
}

#[test]
fn ref_window_is_one_and_a_half_windows_rounded() {
    assert_eq!(Realigner::new(64).ref_window(), 96);
    assert_eq!(Realigner::new(5).ref_window(), 8);
    assert_eq!(Realigner::new(1).ref_window(), 2);
    assert_eq!(Realigner::new(0).ref_window(), 0);
    assert_eq!(Realigner::new(u64::MAX).ref_window(), usize::MAX);
    assert_eq!(Realigner::new(64).max_window(), 64);
}

#[test]
fn read_that_encloses_the_variant() {
    let realigner = Realigner::new(64);
    // deletion of 10 bases that the read spans at read positions 40..41
    let r = realigner.candidate_region(
        &read(960, 1070, 100),
        &locus(1000, 1010),
        positions(Some(40), Some(41)),
        100_000,
    );
    assert_eq!(shape(&r), (true, (0, 100), (904, 1096)));
}

#[test]
fn window_is_contracted_to_the_maximum_pattern_length() {
    let realigner = Realigner::new(100);
    // 250 bases read, variant at 120..125: padded by 100 that is 20..225, 205 bases,
    // 77 too many: 38 go on the left, 39 on the right
    let r = realigner.candidate_region(
        &read(0, 250, 250),
        &locus(500, 505),
        positions(Some(120), Some(125)),
        100_000,
    );
    assert_eq!(shape(&r), (true, (58, 186), (350, 650)));
    assert_eq!(r.read_interval.end - r.read_interval.start, MAX_PATTERN_LEN);
}

#[test]
fn variant_is_padded_by_the_window_on_each_side() {
    let realigner = Realigner::new(10);
    let r = realigner.candidate_region(
        &read(0, 150, 150),
        &locus(50, 60),
        positions(Some(50), Some(60)),
        1000,
    );
    assert_eq!(shape(&r), (true, (40, 70), (35, 65)));
    // a long variant keeps its padding
    let r = realigner.candidate_region(
        &read(0, 100, 100),
        &locus(50, 80),
        positions(Some(50), Some(80)),
        1000,
    );
    assert_eq!(shape(&r), (true, (40, 90), (35, 65)));
    // the padding is cut at the ends of the read
    let r = realigner.candidate_region(
        &read(0, 100, 100),
        &locus(5, 95),
        positions(Some(5), Some(95)),
        1000,
    );
    assert_eq!(shape(&r), (true, (0, 100), (0, 20)));
}

#[test]
fn odd_excess_is_taken_from_the_right() {
    let realigner = Realigner::new(70);
    // 100..101 padded by 70 is 30..171, 141 bases, 13 too many: 6 left, 7 right
    let r = realigner.candidate_region(
        &read(0, 300, 300),
        &locus(500, 501),
        positions(Some(100), Some(101)),
        100_000,
    );
    assert_eq!(shape(&r), (true, (36, 164), (395, 605)));
}

#[test]
fn read_that_overlaps_from_the_right() {
    let realigner = Realigner::new(20);
    let r = realigner.candidate_region(
        &read(1000, 1100, 100),
        &locus(1005, 2000),
        positions(Some(5), None),
        100_000,
    );
    assert_eq!(shape(&r), (true, (0, 25), (975, 1035)));
}

#[test]
fn read_that_overlaps_from_the_left() {
    let realigner = Realigner::new(20);
    let r = realigner.candidate_region(
        &read(1900, 2000, 100),
        &locus(1000, 1990),
        positions(None, Some(90)),
        100_000,
    );
    assert_eq!(shape(&r), (true, (70, 100), (1960, 2020)));
}

#[test]
fn reference_window_is_cut_at_the_ends_of_the_contig() {
    let realigner = Realigner::new(20);
    let r = realigner.candidate_region(
        &read(0, 100, 100),
        &locus(10, 2000),
        positions(Some(10), None),
        25,
    );
    assert_eq!(shape(&r), (true, (0, 30), (0, 25)));
}

#[test]
fn read_enclosed_by_a_deletion_overlaps() {
    let realigner = Realigner::new(64);
    // the read lies within the deletion and reaches none of its ends
    let r = realigner.candidate_region(
        &read(1200, 1300, 100),
        &locus(1000, 2000),
        positions(None, None),
        100_000,
    );
    assert_eq!(shape(&r), (true, (0, 100), (1154, 1346)));
}

#[test]
fn read_beside_the_locus_does_not_overlap() {
    let realigner = Realigner::new(10);
    let r = realigner.candidate_region(
        &read(5000, 5100, 100),
        &locus(1000, 2000),
        positions(None, None),
        100_000,
    );
    assert_eq!(shape(&r), (false, (40, 59), (5035, 5065)));
    // the alignment ends behind the locus
    let r = realigner.candidate_region(
        &read(1950, 2050, 100),
        &locus(1000, 2000),
        positions(None, None),
        100_000,
    );
    assert!(!r.overlap);
}

#[test]
fn read_that_does_not_overlap_is_uninformative() {
    let realigner = Realigner::new(64);
    let lookups = vec![LocusLookup { locus: locus(1000, 1001), positions: positions(None, None) }];
    let support = realigner.allele_support_regions(&read(5000, 5100, 100), &lookups, 100_000);
    assert!(matches!(support, SupportRegions::Uninformative));
    // no locus at all
    let support = realigner.allele_support_regions(&read(5000, 5100, 100), &Vec::new(), 100_000);
    assert!(matches!(support, SupportRegions::Uninformative));
}

#[test]
fn loci_on_other_contigs_are_left_out() {
    let realigner = Realigner::new(20);
    let lookups = vec![
        LocusLookup {
            locus: Interval::new("chr2".to_owned(), 1005, 1006),
            positions: positions(Some(5), Some(6)),
        },
        LocusLookup { locus: locus(1050, 1051), positions: positions(Some(50), Some(51)) },
    ];
    let regions = realigner.candidate_regions(&read(1000, 1100, 100), &lookups, 100_000);
    assert_eq!(regions.len(), 1);
    assert_eq!(shape(&regions[0]), (true, (30, 71), (1020, 1080)));
    let only_other = vec![LocusLookup {
        locus: Interval::new("chr2".to_owned(), 1005, 1006),
        positions: positions(Some(5), Some(6)),
    }];
    let support = realigner.allele_support_regions(&read(1000, 1100, 100), &only_other, 100_000);
    assert!(matches!(support, SupportRegions::Uninformative));
}

#[test]
fn two_adjacent_deletions_are_merged() {
    let realigner = Realigner::new(20);
    let r = read(1000, 1100, 100);
    let lookups = vec![
        LocusLookup { locus: locus(1030, 1035), positions: positions(Some(30), Some(31)) },
        LocusLookup { locus: locus(1060, 1065), positions: positions(Some(55), Some(56)) },
    ];
    let support = realigner.allele_support_regions(&r, &lookups, 100_000);
    let merged = match support {
        SupportRegions::Regions(regions) => regions,
        SupportRegions::Uninformative => panic!("the read overlaps"),
    };
    // reference windows 1000..1060 and 1030..1090 touch; read windows 10..51 and 35..76
    assert_eq!(merged.len(), 1);
    assert_eq!(shape(&merged[0]), (true, (10, 76), (1000, 1090)));
    // the same as merging the region joined by hand
    let by_hand = merge_regions(&vec![region(true, (10, 76), (1000, 1090))]);
    assert_eq!(shape(&by_hand[0]), shape(&merged[0]));
}

#[test]
fn regions_apart_stay_apart() {
    let regions = vec![
        region(true, (0, 10), (100, 200)),
        region(true, (20, 30), (201, 300)),
        region(false, (0, 50), (150, 250)),
        region(true, (25, 45), (300, 400)),
        region(true, (60, 70), (500, 600)),
    ];
    let merged = merge_regions(&regions);
    let shapes: Vec<_> = merged.iter().map(shape).collect();
    assert_eq!(
        shapes,
        vec![
            (true, (0, 10), (100, 200)),
            (true, (20, 45), (201, 400)),
            (true, (60, 70), (500, 600)),
        ]
    );
    assert!(overlaps_any(&regions));
    assert!(!overlaps_any(&vec![region(false, (0, 1), (0, 1))]));
    assert!(merge_regions(&vec![region(false, (0, 1), (0, 1))]).is_empty());
}

#[test]
fn joined_region_spans_both_windows() {
    let merged = merge_regions(&vec![
        region(true, (40, 60), (100, 300)),
        region(true, (10, 50), (150, 250)),
    ]);
    assert_eq!(merged.len(), 1);
    assert_eq!(shape(&merged[0]), (true, (10, 60), (100, 300)));
}

fn hit(dist: usize) -> EditDistanceHit {
    EditDistanceHit { dist, dist_upper_bound: dist + 2 }
}

#[test]
fn templates_at_the_least_distance_are_realigned() {
    let hits = vec![hit(3), hit(1), hit(4), hit(1), hit(2)];
    assert_eq!(best_dist(&hits), 1);
    match prob_allele_evidence(&hits) {
        AlleleEvidence::Realign(bucket) => assert_eq!(bucket, vec![1, 3]),
        AlleleEvidence::Certainty => panic!("no template matches exactly"),
    }
}

#[test]
fn templates_that_tie_are_all_realigned() {
    let hits = vec![hit(2), hit(2), hit(2)];
    match prob_allele_evidence(&hits) {
        AlleleEvidence::Realign(bucket) => assert_eq!(bucket, vec![0, 1, 2]),
        AlleleEvidence::Certainty => panic!("no template matches exactly"),
    }
}

#[test]
fn exact_match_needs_no_realignment() {
    assert!(matches!(prob_allele_evidence(&vec![hit(2), hit(0)]), AlleleEvidence::Certainty));
    assert!(matches!(prob_allele_evidence(&vec![hit(0)]), AlleleEvidence::Certainty));
}

#[test]
fn normalization_by_the_zero_probabilities() {
    assert_eq!(normalization(false, false), Normalization::BySum);
    assert_eq!(normalization(true, false), Normalization::Keep);
    assert_eq!(normalization(false, true), Normalization::Keep);
    assert_eq!(normalization(true, true), Normalization::Halves);
}

#[test]
fn band_exceeds_the_least_distance_by_the_slack() {
    let hit = EditDistanceHit::new(3);
    assert_eq!((hit.dist, hit.dist_upper_bound), (3, 3 + EDIT_BAND));
    assert_eq!(EditDistanceHit::new(0).dist_upper_bound, EDIT_BAND);
    assert_eq!(EditDistanceHit::new(usize::MAX).dist_upper_bound, usize::MAX);
}

#[test]
fn strand_is_retained_for_an_informative_read_only() {
    for strand in [Strand::Forward, Strand::Reverse, Strand::Both, Strand::Unknown] {
        assert_eq!(retained_strand(true, strand), strand);
        assert_eq!(retained_strand(false, strand), Strand::Unknown);
    }
}

#[test]
fn templates_are_bucketed_by_distance() {
    let buckets = hits_by_dist(&vec![hit(3), hit(1), hit(4), hit(1), hit(3), hit(3)]);
    let listed: Vec<(usize, Vec<usize>)> = buckets.into_iter().collect();
    assert_eq!(listed, vec![(1, vec![1, 3]), (3, vec![0, 4, 5]), (4, vec![2])]);
    assert!(hits_by_dist(&Vec::new()).is_empty());
}
