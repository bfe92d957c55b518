use varlociraptor::codec::{write_observations, CodecError, ObservationTag};
use varlociraptor::header::{
    check_format_version, header_records, header_tag_at, header_value, push_decimal,
    read_preprocess_options, read_stream_observations, remove_observation_header_entries,
    HeaderError, HeaderRecord, Sequence, StreamError, OBSERVATION_FORMAT_VERSION,
};
use varlociraptor::observation::{
    MiniLogProb, Observation, ReadOrientation, ReadPosition, Strand,
};

fn generic(key: &str, value: &str) -> HeaderRecord {
    HeaderRecord::Generic { key: key.to_owned(), value: value.to_owned() }
}

#[test]
fn header_lines_in_order() {
    let sequences = vec![
        Sequence { name: "chr1".to_owned(), len: 248956422 },
        Sequence { name: "chrM".to_owned(), len: 0 },
    ];
    let lines: Vec<String> = header_records(&sequences, "{\"max_depth\":200}")
        .into_iter()
        .map(|l| String::from_utf8(l).unwrap())
        .collect();
    assert_eq!(lines.len(), 5 + 2 + 12 + 2);
    assert_eq!(
        lines[0],
        "##INFO=<ID=SVLEN,Number=A,Type=Integer,Description=\"Difference in length between REF and ALT alleles\">"
    );
    assert_eq!(
        lines[1],
        "##INFO=<ID=END,Number=A,Type=Integer,Description=\"End position of structural variant (inclusive, 1-based).\">"
    );
    assert_eq!(
        lines[2],
        "##INFO=<ID=SVTYPE,Number=A,Type=String,Description=\"Structural variant type\">"
    );
    assert_eq!(
        lines[3],
        "##INFO=<ID=EVENT,Number=A,Type=String,Description=\"ID of event associated to breakend\">"
    );
    assert_eq!(
        lines[4],
        "##INFO=<ID=MATEID,Number=1,Type=String,Description=\"ID of mate breakend\">"
    );
    assert_eq!(lines[5], "##contig=<ID=chr1,length=248956422>");
    assert_eq!(lines[6], "##contig=<ID=chrM,length=0>");
    let names = [
        "PROB_MAPPING",
        "PROB_ALT",
        "PROB_REF",
        "PROB_MISSED_ALLELE",
        "PROB_SAMPLE_ALT",
        "PROB_DOUBLE_OVERLAP",
        "PROB_HIT_BASE",
        "STRAND",
        "READ_ORIENTATION",
        "READ_POSITION",
        "SOFTCLIPPED",
        "PAIRED",
    ];
    for (i, name) in names.iter().enumerate() {
        assert_eq!(
            lines[7 + i],
            format!(
                "##INFO=<ID={},Number=.,Type=Integer,Description=\"Varlociraptor observations (binary encoded, meant for internal use only).\"",
                name
            )
        );
        assert_eq!(header_tag_at(i).name(), *name);
    }
    assert_eq!(lines[19], "##varlociraptor_preprocess_args={\"max_depth\":200}");
    assert_eq!(lines[20], "##varlociraptor_observation_format_version=7");
}

#[test]
fn decimal_digits() {
    for (n, digits) in [
        (0u64, "0"),
        (9, "9"),
        (10, "10"),
        (1234567890, "1234567890"),
        (u64::MAX, "18446744073709551615"),
    ] {
        let mut line = b"x".to_vec();
        push_decimal(&mut line, n);
        assert_eq!(line, format!("x{}", digits).into_bytes());
    }
}

#[test]
fn entries_are_removed_in_order() {
    assert_eq!(
        remove_observation_header_entries(),
        vec![
            ObservationTag::ProbMapping,
            ObservationTag::ProbRef,
            ObservationTag::ProbAlt,
            ObservationTag::ProbMissedAllele,
            ObservationTag::ProbSampleAlt,
            ObservationTag::ProbDoubleOverlap,
            ObservationTag::Strand,
            ObservationTag::ReadOrientation,
            ObservationTag::Softclipped,
            ObservationTag::Paired,
            ObservationTag::ProbHitBase,
            ObservationTag::ReadPosition,
        ]
    );
}

#[test]
fn preprocess_options_are_the_first_line_with_their_key() {
    let records = vec![
        HeaderRecord::Other,
        generic("source", "x"),
        generic("varlociraptor_preprocess_args", "{\"a\":1}"),
        generic("varlociraptor_preprocess_args", "{\"a\":2}"),
    ];
    assert_eq!(read_preprocess_options(&records), Ok(&"{\"a\":1}".to_owned()));
    assert_eq!(header_value(&records, "source"), Some(&"x".to_owned()));
    assert_eq!(header_value(&records, "sourc"), None);
}

#[test]
fn header_without_preprocess_options_holds_no_observations() {
    let records = vec![HeaderRecord::Other, generic("varlociraptor_preprocess_arg", "{}")];
    assert_eq!(read_preprocess_options(&records), Err(HeaderError::InvalidObservations));
    assert_eq!(read_preprocess_options(&Vec::new()), Err(HeaderError::InvalidObservations));
}

#[test]
fn version_is_seven_and_another_version_is_refused() {
    assert_eq!(OBSERVATION_FORMAT_VERSION, "7");
    let records = vec![
        generic("varlociraptor_preprocess_args", "{}"),
        generic("varlociraptor_observation_format_version", OBSERVATION_FORMAT_VERSION),
    ];
    assert_eq!(check_format_version(&records, OBSERVATION_FORMAT_VERSION), Ok(()));
    assert_eq!(check_format_version(&records, "6"), Err(HeaderError::VersionMismatch));
    assert_eq!(check_format_version(&records, "77"), Err(HeaderError::VersionMismatch));
    let old = vec![generic("varlociraptor_observation_format_version", "6")];
    assert_eq!(
        check_format_version(&old, OBSERVATION_FORMAT_VERSION),
        Err(HeaderError::VersionMismatch)
    );
    let none = vec![generic("varlociraptor_preprocess_args", "{}")];
    assert_eq!(
        check_format_version(&none, OBSERVATION_FORMAT_VERSION),
        Err(HeaderError::InvalidObservations)
    );
}

fn observation(seed: u16) -> Observation {
    Observation {
        prob_mapping: MiniLogProb(seed),
        prob_alt: MiniLogProb(seed + 1),
        prob_ref: MiniLogProb(seed + 2),
        prob_missed_allele: MiniLogProb(seed + 3),
        prob_sample_alt: MiniLogProb(seed + 4),
        prob_double_overlap: MiniLogProb(seed + 5),
        prob_hit_base: MiniLogProb(seed + 6),
        strand: Strand::Reverse,
        read_orientation: ReadOrientation::R2F1,
        read_position: ReadPosition::Other,
        softclipped: seed % 3 == 0,
        paired: seed % 2 == 0,
    }
}

#[test]
fn records_of_a_stream_of_the_pinned_version_are_read() {
    let pileup: Vec<Observation> = (0..1000).map(|i| observation(i * 7)).collect();
    let fields = write_observations(&pileup).unwrap();
    let header = vec![
        HeaderRecord::Other,
        generic("varlociraptor_observation_format_version", "7"),
    ];
    assert_eq!(read_stream_observations(&header, &fields), Ok(pileup));
}

#[test]
fn records_of_a_stream_of_another_version_are_refused() {
    let pileup: Vec<Observation> = (0..5).map(observation).collect();
    let fields = write_observations(&pileup).unwrap();
    for version in ["6", "8", "07", "7 ", ""] {
        let header = vec![generic("varlociraptor_observation_format_version", version)];
        assert_eq!(
            read_stream_observations(&header, &fields),
            Err(StreamError::Header(HeaderError::VersionMismatch))
        );
    }
    assert_eq!(
        read_stream_observations(&vec![HeaderRecord::Other], &fields),
        Err(StreamError::Header(HeaderError::InvalidObservations))
    );
    // the first line that gives the version counts
    let header = vec![
        generic("varlociraptor_observation_format_version", "6"),
        generic("varlociraptor_observation_format_version", "7"),
    ];
    assert_eq!(
        read_stream_observations(&header, &fields),
        Err(StreamError::Header(HeaderError::VersionMismatch))
    );
}

#[test]
fn record_without_a_pileup_is_reported_behind_the_version() {
    let header = vec![generic("varlociraptor_observation_format_version", "7")];
    assert_eq!(
        read_stream_observations(&header, &Vec::new()),
        Err(StreamError::Record(CodecError::MissingField(ObservationTag::ProbMapping)))
    );
    let old = vec![generic("varlociraptor_observation_format_version", "6")];
    assert_eq!(
        read_stream_observations(&old, &Vec::new()),
        Err(StreamError::Header(HeaderError::VersionMismatch))
    );
}
