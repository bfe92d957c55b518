use varlociraptor::breakends::{Breakend, BreakendGroupBuilder, BreakendIndex};
use varlociraptor::bytes::{compare_bytes, Order};
use varlociraptor::genome::Locus;
use varlociraptor::likelihood::SampleLikelihoodModel;
use varlociraptor::codec::read_observations;
use varlociraptor::observation::{
    MiniLogProb, Observation, ReadOrientation, ReadPosition, Strand,
};
use varlociraptor::preprocessing::{
    call_identifier, output_records, report_due, typed_extraction, Extraction,
    ObservationProcessor, ProcessError, WorkItem,
};
use varlociraptor::table::Table;
use varlociraptor::variant::Variant;

fn item(start: u64, variants: Vec<Variant>, id: &[u8], index: usize) -> WorkItem {
    let supported = vec![true; variants.len()];
    WorkItem {
        start,
        chrom: "chr1".to_owned(),
        variants,
        supported,
        record_id: id.to_vec(),
        record_mateid: None,
        record_index: index,
    }
}

fn breakend_item(start: u64, id: &[u8], mate: &[u8], event: &[u8], index: usize) -> WorkItem {
    let mut it = item(
        start,
        vec![Variant::Breakend {
            ref_allele: b"A".to_vec(),
            spec: b"A[chr1:999[".to_vec(),
            event: event.to_vec(),
        }],
        id,
        index,
    );
    it.record_mateid = Some(mate.to_vec());
    it
}

fn reference() -> Vec<u8> {
    b"ACGTACGTACGTACGTACGT".to_vec()
}

fn index_of(events: &[(&[u8], usize)]) -> BreakendIndex {
    let mut index = BreakendIndex::new();
    for (event, i) in events {
        index.register(event, *i);
    }
    index
}

#[test]
fn record_without_variants_gives_nothing() {
    let mut processor = ObservationProcessor::new(BreakendIndex::new());
    let calls = processor.process_record(&item(3, vec![], b"rs1", 7), &reference()).unwrap();
    assert_eq!(calls.index, 7);
    assert!(calls.inner.is_empty());
    assert!(calls.extractions.is_empty());
}

#[test]
fn every_variant_of_a_plain_record_gives_one_call() {
    let mut processor = ObservationProcessor::new(BreakendIndex::new());
    let work_item =
        item(4, vec![Variant::SNV(b'T'), Variant::Deletion(3), Variant::MNV(b"GG".to_vec())], b".", 2);
    let calls = processor.process_record(&work_item, &reference()).unwrap();
    assert_eq!(calls.index, 2);
    assert_eq!(calls.inner.len(), 3);
    assert_eq!(calls.extractions.len(), 3);
    for (k, call) in calls.inner.iter().enumerate() {
        assert_eq!(call.chrom, b"chr1".to_vec());
        assert_eq!(call.pos, 4);
        assert_eq!(call.id, None);
        assert_eq!(call.mateid, None);
        assert_eq!(call.extraction, k);
    }
    assert!(matches!(calls.inner[0].variant, Variant::SNV(b'T')));
    assert!(matches!(calls.inner[1].variant, Variant::Deletion(3)));
    match &calls.extractions[0] {
        Extraction::SNV { locus, ref_base, alt_base } => {
            assert_eq!((locus.contig.as_str(), locus.pos), ("chr1", 4));
            assert_eq!((*ref_base, *alt_base), (b'A', b'T'));
        }
        other => panic!("{:?}", other),
    }
    match &calls.extractions[1] {
        Extraction::Deletion { interval } => {
            assert_eq!((interval.contig.as_str(), interval.start, interval.end), ("chr1", 4, 7));
        }
        other => panic!("{:?}", other),
    }
    match &calls.extractions[2] {
        Extraction::MNV { locus, ref_bases, alt_bases } => {
            assert_eq!(locus.pos, 4);
            assert_eq!(ref_bases, &b"AC".to_vec());
            assert_eq!(alt_bases, &b"GG".to_vec());
            assert_eq!(ref_bases.len(), alt_bases.len());
        }
        other => panic!("{:?}", other),
    }
}

#[test]
fn record_identifier_is_kept_unless_it_is_the_placeholder() {
    assert_eq!(call_identifier(&b".".to_vec()), None);
    assert_eq!(call_identifier(&b"rs12".to_vec()), Some(b"rs12".to_vec()));
    assert_eq!(call_identifier(&b"..".to_vec()), Some(b"..".to_vec()));
    assert_eq!(call_identifier(&Vec::new()), Some(Vec::new()));
    let mut processor = ObservationProcessor::new(BreakendIndex::new());
    let calls =
        processor.process_record(&item(0, vec![Variant::NoVariation], b"rs12", 0), &reference());
    assert_eq!(calls.unwrap().inner[0].id, Some(b"rs12".to_vec()));
}

#[test]
fn each_kind_of_variant_is_placed_on_its_contig() {
    let work_item = item(2, vec![], b".", 0);
    let seq = reference();
    match typed_extraction(&Variant::NoVariation, &work_item, &seq).unwrap() {
        Extraction::NoVariation { locus, ref_base } => {
            assert_eq!((locus.pos, ref_base), (2, b'G'))
        }
        other => panic!("{:?}", other),
    }
    match typed_extraction(&Variant::Insertion(b"TT".to_vec()), &work_item, &seq).unwrap() {
        Extraction::Insertion { locus, seq } => assert_eq!((locus.pos, seq), (2, b"TT".to_vec())),
        other => panic!("{:?}", other),
    }
    match typed_extraction(&Variant::Inversion(5), &work_item, &seq).unwrap() {
        Extraction::Inversion { interval } => assert_eq!((interval.start, interval.end), (2, 7)),
        other => panic!("{:?}", other),
    }
    match typed_extraction(&Variant::Duplication(8), &work_item, &seq).unwrap() {
        Extraction::Duplication { interval } => assert_eq!((interval.start, interval.end), (2, 10)),
        other => panic!("{:?}", other),
    }
    let replacement =
        Variant::Replacement { ref_allele: b"GTA".to_vec(), alt_allele: b"C".to_vec() };
    match typed_extraction(&replacement, &work_item, &seq).unwrap() {
        Extraction::Replacement { interval, replacement } => {
            assert_eq!((interval.start, interval.end), (2, 5));
            assert_eq!(replacement, b"C".to_vec());
        }
        other => panic!("{:?}", other),
    }
}

#[test]
fn variant_outside_its_contig_is_refused() {
    let seq = reference();
    let at_end = item(20, vec![], b".", 0);
    assert!(matches!(
        typed_extraction(&Variant::SNV(b'A'), &at_end, &seq),
        Err(ProcessError::OutOfContig)
    ));
    assert!(matches!(
        typed_extraction(&Variant::NoVariation, &at_end, &seq),
        Err(ProcessError::OutOfContig)
    ));
    let near_end = item(19, vec![], b".", 0);
    assert!(typed_extraction(&Variant::SNV(b'A'), &near_end, &seq).is_ok());
    assert!(matches!(
        typed_extraction(&Variant::MNV(b"AA".to_vec()), &near_end, &seq),
        Err(ProcessError::OutOfContig)
    ));
    let far = item(u64::MAX, vec![], b".", 0);
    assert!(matches!(
        typed_extraction(&Variant::Deletion(1), &far, &seq),
        Err(ProcessError::OutOfContig)
    ));
}

#[test]
fn variant_that_breaks_the_constraints_of_its_kind_is_refused() {
    let seq = reference();
    let work_item = item(1, vec![], b".", 0);
    for variant in [
        Variant::Deletion(0),
        Variant::Inversion(0),
        Variant::Duplication(0),
        Variant::MNV(Vec::new()),
        Variant::Insertion(Vec::new()),
    ] {
        assert!(!variant.is_valid());
        assert!(matches!(
            typed_extraction(&variant, &work_item, &seq),
            Err(ProcessError::InvalidVariant)
        ));
    }
    assert!(Variant::Deletion(1).is_valid());
    assert!(Variant::SNV(b'A').is_valid());
}

#[test]
fn first_failing_variant_stops_the_record() {
    let mut processor = ObservationProcessor::new(BreakendIndex::new());
    let work_item = item(19, vec![Variant::SNV(b'T'), Variant::MNV(b"GG".to_vec())], b".", 0);
    assert!(matches!(
        processor.process_record(&work_item, &reference()),
        Err(ProcessError::OutOfContig)
    ));
}

#[test]
fn breakend_event_with_three_records() {
    let mut processor = ObservationProcessor::new(index_of(&[(b"ev1", 5)]));
    let seq = reference();
    // the records arrive out of the order of their loci
    let first = processor.process_record(&breakend_item(12, b"bnd_c", b"bnd_a", b"ev1", 1), &seq);
    let first = first.unwrap();
    assert!(first.inner.is_empty() && first.extractions.is_empty());
    let second = processor.process_record(&breakend_item(3, b"bnd_a", b"bnd_b", b"ev1", 3), &seq);
    let second = second.unwrap();
    assert!(second.inner.is_empty() && second.extractions.is_empty());
    let third = processor
        .process_record(&breakend_item(7, b"bnd_b", b"bnd_c", b"ev1", 5), &seq)
        .unwrap();
    assert_eq!(third.index, 5);
    assert_eq!(third.extractions.len(), 1);
    assert_eq!(third.inner.len(), 3);
    // one record per breakend, at its own locus, with its own mate, in the order of the group
    let emitted: Vec<_> = third
        .inner
        .iter()
        .map(|c| (c.pos, c.id.clone().unwrap(), c.mateid.clone().unwrap(), c.extraction))
        .collect();
    assert_eq!(
        emitted,
        vec![
            (3, b"bnd_a".to_vec(), b"bnd_b".to_vec(), 0),
            (7, b"bnd_b".to_vec(), b"bnd_c".to_vec(), 0),
            (12, b"bnd_c".to_vec(), b"bnd_a".to_vec(), 0),
        ]
    );
    for call in &third.inner {
        assert_eq!(call.chrom, b"chr1".to_vec());
        match &call.variant {
            Variant::Breakend { ref_allele, spec, event } => {
                assert_eq!(ref_allele, &b"A".to_vec());
                assert_eq!(spec, &b"A[chr1:999[".to_vec());
                assert_eq!(event, &b"ev1".to_vec());
            }
            other => panic!("{:?}", other),
        }
    }
    match &third.extractions[0] {
        Extraction::BreakendGroup { group } => {
            let positions: Vec<u64> = group.breakends().iter().map(|b| b.locus().pos).collect();
            assert_eq!(positions, vec![3, 7, 12]);
        }
        other => panic!("{:?}", other),
    }
    // the event is gone: nothing comes of a further record of it
    let again = processor
        .process_record(&breakend_item(9, b"bnd_d", b"bnd_a", b"ev1", 5), &seq)
        .unwrap();
    assert!(again.inner.is_empty() && again.extractions.is_empty());
}

#[test]
fn unsupported_breakend_gives_up_its_event() {
    let mut processor = ObservationProcessor::new(index_of(&[(b"ev1", 2), (b"ev2", 3)]));
    let seq = reference();
    let first = processor.process_record(&breakend_item(3, b"a", b"b", b"ev1", 0), &seq).unwrap();
    assert!(first.inner.is_empty());
    let mut unsupported = breakend_item(5, b"b", b"a", b"ev1", 1);
    unsupported.supported = vec![false];
    assert!(processor.process_record(&unsupported, &seq).unwrap().inner.is_empty());
    // the last record of the event finds it given up
    let last = processor.process_record(&breakend_item(8, b"c", b"a", b"ev1", 2), &seq).unwrap();
    assert!(last.inner.is_empty() && last.extractions.is_empty());
    // another event is not touched by that
    let other = processor.process_record(&breakend_item(8, b"x", b"y", b"ev2", 3), &seq).unwrap();
    assert_eq!(other.inner.len(), 1);
}

#[test]
fn unsupported_last_breakend_gives_nothing() {
    let mut processor = ObservationProcessor::new(index_of(&[(b"ev1", 1)]));
    let seq = reference();
    processor.process_record(&breakend_item(3, b"a", b"b", b"ev1", 0), &seq).unwrap();
    let mut last = breakend_item(5, b"b", b"a", b"ev1", 1);
    last.supported = vec![false];
    let calls = processor.process_record(&last, &seq).unwrap();
    assert!(calls.inner.is_empty() && calls.extractions.is_empty());
}

#[test]
fn event_that_the_index_does_not_know_is_an_error() {
    let mut processor = ObservationProcessor::new(index_of(&[(b"ev1", 1)]));
    let r = processor.process_record(&breakend_item(3, b"a", b"b", b"ev9", 0), &reference());
    assert!(matches!(r, Err(ProcessError::UnknownEvent)));
}

#[test]
fn other_variants_of_a_record_with_a_breakend_are_passed_over() {
    let mut processor = ObservationProcessor::new(index_of(&[(b"ev1", 0)]));
    let mut work_item = breakend_item(3, b"a", b"b", b"ev1", 0);
    work_item.variants.insert(0, Variant::SNV(b'T'));
    work_item.supported.insert(0, true);
    let calls = processor.process_record(&work_item, &reference()).unwrap();
    assert_eq!(calls.inner.len(), 1);
    assert!(matches!(calls.inner[0].variant, Variant::Breakend { .. }));
}

#[test]
fn process_variant_decides_one_variant() {
    let mut processor = ObservationProcessor::new(index_of(&[(b"ev1", 4)]));
    let seq = reference();
    let plain = item(1, vec![Variant::SNV(b'G')], b".", 0);
    assert!(matches!(
        processor.process_variant(&plain, 0, &seq),
        Ok(Some(Extraction::SNV { .. }))
    ));
    let early = breakend_item(3, b"a", b"b", b"ev1", 0);
    assert!(matches!(processor.process_variant(&early, 0, &seq), Ok(None)));
    let last = breakend_item(2, b"b", b"a", b"ev1", 4);
    match processor.process_variant(&last, 0, &seq) {
        Ok(Some(Extraction::BreakendGroup { group })) => assert_eq!(group.breakends().len(), 2),
        other => panic!("{:?}", other),
    }
}

fn breakend(contig: &str, pos: u64, id: &[u8]) -> Breakend {
    Breakend::new(
        Locus::new(contig.to_owned(), pos),
        &b"N".to_vec(),
        &b"N[chr9:1[".to_vec(),
        &id.to_vec(),
        None,
    )
}

#[test]
fn group_is_ordered_by_locus_then_identifier() {
    let mut builder = BreakendGroupBuilder::new();
    for (contig, pos, id) in [
        ("chr2", 5, "b"),
        ("chr10", 900, "z"),
        ("chr2", 5, "a"),
        ("chr2", 1, "q"),
        ("chr1", 7, "m"),
        ("chr2", 5, "ab"),
    ] {
        builder.push_breakend(breakend(contig, pos, id.as_bytes()));
    }
    assert_eq!(builder.len(), 6);
    let group = builder.build();
    let order: Vec<_> = group
        .breakends()
        .iter()
        .map(|b| (b.locus().contig.clone(), b.locus().pos, b.id().clone()))
        .collect();
    assert_eq!(
        order,
        vec![
            ("chr1".to_owned(), 7, b"m".to_vec()),
            ("chr10".to_owned(), 900, b"z".to_vec()),
            ("chr2".to_owned(), 1, b"q".to_vec()),
            ("chr2".to_owned(), 5, b"a".to_vec()),
            ("chr2".to_owned(), 5, b"ab".to_vec()),
            ("chr2".to_owned(), 5, b"b".to_vec()),
        ]
    );
}

#[test]
fn byte_strings_compare_in_dictionary_order() {
    assert_eq!(compare_bytes(b"abc", b"abd"), Order::Before);
    assert_eq!(compare_bytes(b"ab", b"abc"), Order::Before);
    assert_eq!(compare_bytes(b"", b"a"), Order::Before);
    assert_eq!(compare_bytes(b"abc", b"abc"), Order::Same);
    assert_eq!(compare_bytes(b"", b""), Order::Same);
    assert_eq!(compare_bytes(b"b", b"abc"), Order::After);
    assert_eq!(compare_bytes(b"abc", b"ab"), Order::After);
    assert!(breakend("chr1", 5, b"a").comes_before(&breakend("chr1", 6, b"a")));
    assert!(!breakend("chr1", 5, b"a").comes_before(&breakend("chr1", 5, b"a")));
}

#[test]
fn index_keeps_the_last_record_of_each_event() {
    let mut index = BreakendIndex::new();
    assert_eq!(index.last_record_index(b"ev1"), None);
    index.register(b"ev1", 3);
    index.register(b"ev2", 4);
    index.register(b"ev1", 9);
    index.register(b"ev1", 6);
    assert_eq!(index.last_record_index(b"ev1"), Some(9));
    assert_eq!(index.last_record_index(b"ev2"), Some(4));
    assert_eq!(index.last_record_index(b"ev"), None);
}

#[test]
fn breakend_cannot_be_placed_on_its_own() {
    let work_item = breakend_item(3, b"a", b"b", b"ev1", 0);
    assert!(matches!(
        typed_extraction(&work_item.variants[0], &work_item, &reference()),
        Err(ProcessError::InvalidVariant)
    ));
}

#[test]
fn table_holds_one_entry_per_key() {
    let mut table: Table<usize> = Table::new();
    assert!(!table.contains_key(b"k"));
    table.put(b"k", 1);
    table.put(b"l", 2);
    table.put(b"k", 3);
    assert_eq!(table.get(b"k"), Some(&3));
    assert_eq!(table.take(b"k"), Some(3));
    assert_eq!(table.take(b"k"), None);
    assert_eq!(table.get(b"l"), Some(&2));
}

#[test]
fn breakend_as_a_variant_of_its_event() {
    let b = breakend("chr3", 11, b"id1");
    match b.to_variant(&b"ev".to_vec()) {
        Variant::Breakend { ref_allele, spec, event } => {
            assert_eq!(ref_allele, b"N".to_vec());
            assert_eq!(spec, b"N[chr9:1[".to_vec());
            assert_eq!(event, b"ev".to_vec());
        }
        other => panic!("{:?}", other),
    }
    assert!(b.to_variant(&b"ev".to_vec()).is_breakend());
    assert!(!Variant::SNV(1).is_breakend());
    let c = b.copy();
    assert_eq!((c.locus().pos, c.id().clone(), c.mateid().clone()), (11, b"id1".to_vec(), None));
}

#[test]
fn single_sample_model_is_created() {
    let model = SampleLikelihoodModel::new();
    let copy = model;
    assert_eq!(format!("{:?}", copy), format!("{:?}", model));
}

fn observation(seed: u16) -> Observation {
    Observation {
        prob_mapping: MiniLogProb(seed),
        prob_alt: MiniLogProb(seed + 1),
        prob_ref: MiniLogProb(seed + 2),
        prob_missed_allele: MiniLogProb(seed + 3),
        prob_sample_alt: MiniLogProb(seed + 4),
        prob_double_overlap: MiniLogProb(seed + 5),
        prob_hit_base: MiniLogProb(seed + 6),
        strand: Strand::Both,
        read_orientation: ReadOrientation::F1R2,
        read_position: ReadPosition::Major,
        softclipped: seed % 2 == 0,
        paired: true,
    }
}

#[test]
fn records_of_a_group_carry_the_same_observations() {
    let mut processor = ObservationProcessor::new(index_of(&[(b"ev1", 1)]));
    let seq = reference();
    processor.process_record(&breakend_item(12, b"a", b"b", b"ev1", 0), &seq).unwrap();
    let calls = processor.process_record(&breakend_item(3, b"b", b"a", b"ev1", 1), &seq).unwrap();
    let pileup: Vec<Observation> = (0..9).map(|i| observation(i * 100)).collect();
    let records = output_records(&calls, &vec![pileup.clone()]).unwrap();
    assert_eq!(records.len(), 2);
    assert_eq!(records[0].call.pos, 3);
    assert_eq!(records[1].call.pos, 12);
    for record in &records {
        assert_eq!(read_observations(&record.observations).unwrap(), pileup);
    }
}

#[test]
fn each_record_carries_the_observations_of_its_variant() {
    let mut processor = ObservationProcessor::new(BreakendIndex::new());
    let work_item = item(4, vec![Variant::SNV(b'T'), Variant::Deletion(3)], b"rs7", 2);
    let calls = processor.process_record(&work_item, &reference()).unwrap();
    let pileups = vec![vec![observation(1)], vec![observation(2), observation(3)]];
    let records = output_records(&calls, &pileups).unwrap();
    assert_eq!(records.len(), 2);
    assert!(matches!(records[0].call.variant, Variant::SNV(b'T')));
    assert_eq!(records[0].call.id, Some(b"rs7".to_vec()));
    assert_eq!(read_observations(&records[0].observations).unwrap(), pileups[0]);
    assert_eq!(read_observations(&records[1].observations).unwrap(), pileups[1]);
}

#[test]
fn every_hundredth_count_is_reported() {
    assert!(!report_due(0));
    assert!(!report_due(99));
    assert!(report_due(100));
    assert!(!report_due(101));
    assert!(report_due(2500));
}

#[test]
fn record_without_output_records_has_nothing_to_encode() {
    let mut processor = ObservationProcessor::new(BreakendIndex::new());
    let calls = processor.process_record(&item(3, vec![], b".", 0), &reference()).unwrap();
    assert!(output_records(&calls, &Vec::new()).unwrap().is_empty());
}
