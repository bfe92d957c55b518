//! The header of the observation stream: the lines a writer registers, and
//! what a reader looks up in them.

use crate::bytes::{compare_bytes, Order};
use crate::codec::{decoded, read_observations, CodecError, InfoField, ObservationTag};
use crate::observation::Observation;
use vstd::prelude::*;
use vstd::utf8::encode_utf8;

verus! {

/// The version of the observation format. It grows with every change of the
/// format, and a reader refuses a stream of any other version.
pub const OBSERVATION_FORMAT_VERSION: &'static str = "7";

/// A contig of the reference.
#[derive(Debug)]
pub struct Sequence {
    pub name: String,
    pub len: u64,
}

/// One record of a header, as far as a reader of observations looks at it.
#[derive(Debug)]
pub enum HeaderRecord {
    /// A line of the form `##key=value`.
    Generic { key: String, value: String },
    /// Any other record.
    Other,
}

/// Why a stream of observations is refused.
#[derive(Clone, Copy, Debug, PartialEq, Eq, Structural)]
pub enum HeaderError {
    /// The header does not say how the stream was preprocessed, or not in
    /// which version of the format: the stream holds no observations.
    InvalidObservations,
    /// The stream was written in another version of the format.
    VersionMismatch,
}

/// The bytes of a piece of text.
pub open spec fn text(s: &str) -> Seq<u8> {
    encode_utf8(s@)
}

/// The decimal digits of a number.
pub open spec fn decimal(n: nat) -> Seq<u8>
    decreases n,
{
    if n < 10 {
        seq![(48 + n) as u8]
    } else {
        decimal(n / 10).push((48 + n % 10) as u8)
    }
}

/// Position of a tag in the order of the header.
pub open spec fn header_tag(i: int) -> ObservationTag {
    if i <= 0 {
        ObservationTag::ProbMapping
    } else if i == 1 {
        ObservationTag::ProbAlt
    } else if i == 2 {
        ObservationTag::ProbRef
    } else if i == 3 {
        ObservationTag::ProbMissedAllele
    } else if i == 4 {
        ObservationTag::ProbSampleAlt
    } else if i == 5 {
        ObservationTag::ProbDoubleOverlap
    } else if i == 6 {
        ObservationTag::ProbHitBase
    } else if i == 7 {
        ObservationTag::Strand
    } else if i == 8 {
        ObservationTag::ReadOrientation
    } else if i == 9 {
        ObservationTag::ReadPosition
    } else if i == 10 {
        ObservationTag::Softclipped
    } else {
        ObservationTag::Paired
    }
}

/// Position of a tag in the order in which the entries are removed from a
/// header.
pub open spec fn removal_tag(i: int) -> ObservationTag {
    if i <= 0 {
        ObservationTag::ProbMapping
    } else if i == 1 {
        ObservationTag::ProbRef
    } else if i == 2 {
        ObservationTag::ProbAlt
    } else if i == 3 {
        ObservationTag::ProbMissedAllele
    } else if i == 4 {
        ObservationTag::ProbSampleAlt
    } else if i == 5 {
        ObservationTag::ProbDoubleOverlap
    } else if i == 6 {
        ObservationTag::Strand
    } else if i == 7 {
        ObservationTag::ReadOrientation
    } else if i == 8 {
        ObservationTag::Softclipped
    } else if i == 9 {
        ObservationTag::Paired
    } else if i == 10 {
        ObservationTag::ProbHitBase
    } else {
        ObservationTag::ReadPosition
    }
}

/// The line that registers a contig.
pub open spec fn contig_line(name: Seq<char>, len: u64) -> Seq<u8> {
    text("##contig=<ID=") + encode_utf8(name) + text(",length=") + decimal(len as nat) + text(">")
}

/// The line that registers the array of observations under a tag.
pub open spec fn tag_line(tag: ObservationTag) -> Seq<u8> {
    text("##INFO=<ID=") + encode_utf8(tag.spec_name()) + text(
        ",Number=.,Type=Integer,Description=\"Varlociraptor observations (binary encoded, meant for internal use only).\"",
    )
}

/// The line that records the options of the preprocessing.
pub open spec fn options_line(options: Seq<char>) -> Seq<u8> {
    text("##varlociraptor_preprocess_args=") + encode_utf8(options)
}

/// The line that records the version of the observation format.
pub open spec fn version_line() -> Seq<u8> {
    text("##varlociraptor_observation_format_version=") + text(OBSERVATION_FORMAT_VERSION)
}

/// The lines that register the tags of structural variants.
pub open spec fn variant_lines() -> Seq<Seq<u8>> {
    seq![
        text(
            "##INFO=<ID=SVLEN,Number=A,Type=Integer,Description=\"Difference in length between REF and ALT alleles\">",
        ),
        text(
            "##INFO=<ID=END,Number=A,Type=Integer,Description=\"End position of structural variant (inclusive, 1-based).\">",
        ),
        text("##INFO=<ID=SVTYPE,Number=A,Type=String,Description=\"Structural variant type\">"),
        text(
            "##INFO=<ID=EVENT,Number=A,Type=String,Description=\"ID of event associated to breakend\">",
        ),
        text("##INFO=<ID=MATEID,Number=1,Type=String,Description=\"ID of mate breakend\">"),
    ]
}

/// The lines of the header of an observation stream: the tags of structural
/// variants, the contigs of the reference, the twelve arrays of observations,
/// the options of the preprocessing, and the version of the format.
pub open spec fn header_lines(sequences: Seq<Sequence>, options: Seq<char>) -> Seq<Seq<u8>> {
    variant_lines() + Seq::new(
        sequences.len(),
        |i: int| contig_line(sequences[i].name@, sequences[i].len),
    ) + Seq::new(12, |i: int| tag_line(header_tag(i))) + seq![
        options_line(options),
        version_line(),
    ]
}

/// The contents of a sequence of lines.
pub open spec fn line_views(lines: Seq<Vec<u8>>) -> Seq<Seq<u8>> {
    Seq::new(lines.len(), |i: int| lines[i]@)
}

/// Appends a piece of text to a line.
fn push_text(line: &mut Vec<u8>, s: &str)
    ensures
        final(line)@ == old(line)@ + text(s),
{
    let bytes = s.as_bytes();
    let ghost before = line@;
    let mut i: usize = 0;
    while i < bytes.len()
        invariant
            i <= bytes@.len(),
            line@ == before + bytes@.take(i as int),
        decreases bytes@.len() - i,
    {
        line.push(bytes[i]);
        i += 1;
        assert(line@ =~= before + bytes@.take(i as int));
    }
    assert(bytes@.take(i as int) =~= bytes@);
}

/// Appends the decimal digits of a number to a line.
pub fn push_decimal(line: &mut Vec<u8>, n: u64)
    ensures
        final(line)@ == old(line)@ + decimal(n as nat),
    decreases n,
{
    if n < 10 {
        line.push(48 + n as u8);
        assert(line@ =~= old(line)@ + decimal(n as nat));
    } else {
        push_decimal(line, n / 10);
        line.push(48 + (n % 10) as u8);
        assert(line@ =~= old(line)@ + decimal(n as nat));
    }
}

/// The tag at position `i` of the header.
pub fn header_tag_at(i: usize) -> (tag: ObservationTag)
    requires
        i < 12,
    ensures
        tag == header_tag(i as int),
{
    if i == 0 {
        ObservationTag::ProbMapping
    } else if i == 1 {
        ObservationTag::ProbAlt
    } else if i == 2 {
        ObservationTag::ProbRef
    } else if i == 3 {
        ObservationTag::ProbMissedAllele
    } else if i == 4 {
        ObservationTag::ProbSampleAlt
    } else if i == 5 {
        ObservationTag::ProbDoubleOverlap
    } else if i == 6 {
        ObservationTag::ProbHitBase
    } else if i == 7 {
        ObservationTag::Strand
    } else if i == 8 {
        ObservationTag::ReadOrientation
    } else if i == 9 {
        ObservationTag::ReadPosition
    } else if i == 10 {
        ObservationTag::Softclipped
    } else {
        ObservationTag::Paired
    }
}

/// The lines of the header that a writer of observations registers, in
/// order. `options` is the record of the preprocessing options.
pub fn header_records(sequences: &Vec<Sequence>, options: &str) -> (lines: Vec<Vec<u8>>)
    ensures
        line_views(lines@) == header_lines(sequences@, options@),
{
    let mut lines: Vec<Vec<u8>> = Vec::new();
    // register tags
    let mut line: Vec<u8> = Vec::new();
    push_text(
        &mut line,
        "##INFO=<ID=SVLEN,Number=A,Type=Integer,Description=\"Difference in length between REF and ALT alleles\">",
    );
    lines.push(line);
    let mut line: Vec<u8> = Vec::new();
    push_text(
        &mut line,
        "##INFO=<ID=END,Number=A,Type=Integer,Description=\"End position of structural variant (inclusive, 1-based).\">",
    );
    lines.push(line);
    let mut line: Vec<u8> = Vec::new();
    push_text(
        &mut line,
        "##INFO=<ID=SVTYPE,Number=A,Type=String,Description=\"Structural variant type\">",
    );
    lines.push(line);
    let mut line: Vec<u8> = Vec::new();
    push_text(
        &mut line,
        "##INFO=<ID=EVENT,Number=A,Type=String,Description=\"ID of event associated to breakend\">",
    );
    lines.push(line);
    let mut line: Vec<u8> = Vec::new();
    push_text(
        &mut line,
        "##INFO=<ID=MATEID,Number=1,Type=String,Description=\"ID of mate breakend\">",
    );
    lines.push(line);
    assert(line_views(lines@) =~= variant_lines());

    // register sequences
    let ghost contigs = Seq::new(
        sequences@.len(),
        |i: int| contig_line(sequences@[i].name@, sequences@[i].len),
    );
    let mut i: usize = 0;
    while i < sequences.len()
        invariant
            i <= sequences@.len(),
            contigs == Seq::new(
                sequences@.len(),
                |i: int| contig_line(sequences@[i].name@, sequences@[i].len),
            ),
            line_views(lines@) == variant_lines() + contigs.take(i as int),
        decreases sequences@.len() - i,
    {
        let sequence = &sequences[i];
        let mut line: Vec<u8> = Vec::new();
        push_text(&mut line, "##contig=<ID=");
        push_text(&mut line, sequence.name.as_str());
        push_text(&mut line, ",length=");
        push_decimal(&mut line, sequence.len);
        push_text(&mut line, ">");
        assert(line@ =~= contig_line(sequence.name@, sequence.len));
        let ghost before = lines@;
        lines.push(line);
        i += 1;
        assert(line_views(lines@) =~= line_views(before).push(lines@[before.len() as int]@));
        assert(contigs.take(i as int) =~= contigs.take(i - 1).push(contigs[i - 1]));
        assert(line_views(lines@) =~= variant_lines() + contigs.take(i as int));
    }
    assert(contigs.take(i as int) =~= contigs);

    // store observations
    let ghost tags = Seq::new(12, |i: int| tag_line(header_tag(i)));
    let mut i: usize = 0;
    while i < 12
        invariant
            i <= 12,
            tags == Seq::new(12, |i: int| tag_line(header_tag(i))),
            line_views(lines@) == variant_lines() + contigs + tags.take(i as int),
        decreases 12 - i,
    {
        let tag = header_tag_at(i);
        let mut line: Vec<u8> = Vec::new();
        push_text(&mut line, "##INFO=<ID=");
        push_text(&mut line, tag.name());
        push_text(
            &mut line,
            ",Number=.,Type=Integer,Description=\"Varlociraptor observations (binary encoded, meant for internal use only).\"",
        );
        assert(line@ =~= tag_line(tag));
        let ghost before = lines@;
        lines.push(line);
        i += 1;
        assert(line_views(lines@) =~= line_views(before).push(lines@[before.len() as int]@));
        assert(tags.take(i as int) =~= tags.take(i - 1).push(tags[i - 1]));
        assert(line_views(lines@) =~= variant_lines() + contigs + tags.take(i as int));
    }
    assert(tags.take(12) =~= tags);

    // store options
    let mut line: Vec<u8> = Vec::new();
    push_text(&mut line, "##varlociraptor_preprocess_args=");
    push_text(&mut line, options);
    let ghost before = lines@;
    lines.push(line);
    assert(line_views(lines@) =~= line_views(before).push(options_line(options@)));

    // store observation format version
    let mut line: Vec<u8> = Vec::new();
    push_text(&mut line, "##varlociraptor_observation_format_version=");
    push_text(&mut line, OBSERVATION_FORMAT_VERSION);
    let ghost before = lines@;
    lines.push(line);
    assert(line_views(lines@) =~= line_views(before).push(version_line()));
    assert(line_views(lines@) =~= header_lines(sequences@, options@));
    lines
}

/// The tags whose entries are taken out of a header when the observations
/// are taken out of a stream, in the order of removal: each of the twelve
/// once.
pub fn remove_observation_header_entries() -> (tags: Vec<ObservationTag>)
    ensures
        tags@ == Seq::new(12, |i: int| removal_tag(i)),
        forall|tag: ObservationTag| tags@.contains(tag),
{
    let mut tags: Vec<ObservationTag> = Vec::with_capacity(12);
    tags.push(ObservationTag::ProbMapping);
    tags.push(ObservationTag::ProbRef);
    tags.push(ObservationTag::ProbAlt);
    tags.push(ObservationTag::ProbMissedAllele);
    tags.push(ObservationTag::ProbSampleAlt);
    tags.push(ObservationTag::ProbDoubleOverlap);
    tags.push(ObservationTag::Strand);
    tags.push(ObservationTag::ReadOrientation);
    tags.push(ObservationTag::Softclipped);
    tags.push(ObservationTag::Paired);
    tags.push(ObservationTag::ProbHitBase);
    tags.push(ObservationTag::ReadPosition);
    assert(tags@ =~= Seq::new(12, |i: int| removal_tag(i)));
    assert forall|tag: ObservationTag| tags@.contains(tag) by {
        let i: int = match tag {
            ObservationTag::ProbMapping => 0,
            ObservationTag::ProbRef => 1,
            ObservationTag::ProbAlt => 2,
            ObservationTag::ProbMissedAllele => 3,
            ObservationTag::ProbSampleAlt => 4,
            ObservationTag::ProbDoubleOverlap => 5,
            ObservationTag::Strand => 6,
            ObservationTag::ReadOrientation => 7,
            ObservationTag::Softclipped => 8,
            ObservationTag::Paired => 9,
            ObservationTag::ProbHitBase => 10,
            ObservationTag::ReadPosition => 11,
        };
        assert(tags@[i] == tag);
    }
    tags
}

/// The record is a line `##key=...` with the given key.
pub open spec fn has_key(record: HeaderRecord, key: &str) -> bool {
    record matches HeaderRecord::Generic { key: k, .. } && encode_utf8(k@) == text(key)
}

/// The value of the first line of a header with the given key.
pub open spec fn first_value(records: Seq<HeaderRecord>, key: &str, from: int) -> Option<String>
    decreases records.len() - from,
{
    if from < 0 || from >= records.len() {
        None
    } else if has_key(records[from], key) {
        Some(records[from]->Generic_value)
    } else {
        first_value(records, key, from + 1)
    }
}

/// Looks up the value of the first line of a header with the given key.
pub fn header_value<'a>(records: &'a Vec<HeaderRecord>, key: &str) -> (value: Option<&'a String>)
    ensures
        match first_value(records@, key, 0) {
            Some(v) => value matches Some(found) && *found == v,
            None => value is None,
        },
{
    let mut i: usize = 0;
    while i < records.len()
        invariant
            i <= records@.len(),
            first_value(records@, key, 0) == first_value(records@, key, i as int),
        decreases records@.len() - i,
    {
        match &records[i] {
            HeaderRecord::Generic { key: k, value } => {
                match compare_bytes(k.as_str().as_bytes(), key.as_bytes()) {
                    Order::Same => {
                        return Some(value);
                    },
                    _ => {},
                }
            },
            HeaderRecord::Other => {},
        }
        i += 1;
    }
    None
}

/// The record of the preprocessing options in the header of an observation
/// stream: the value of the first line that holds it. A header without such
/// a line is not that of an observation stream.
pub fn read_preprocess_options<'a>(records: &'a Vec<HeaderRecord>) -> (r: Result<
    &'a String,
    HeaderError,
>)
    ensures
        match first_value(records@, "varlociraptor_preprocess_args", 0) {
            Some(v) => r matches Ok(found) && *found == v,
            None => r matches Err(e) && e == HeaderError::InvalidObservations,
        },
{
    match header_value(records, "varlociraptor_preprocess_args") {
        Some(value) => Ok(value),
        None => Err(HeaderError::InvalidObservations),
    }
}

/// What a reader that expects the version `expected` makes of a header: the
/// first line that gives the version of the observation format counts. A
/// header without such a line is not that of an observation stream, and a
/// stream of any other version is refused.
pub open spec fn checked_version(records: Seq<HeaderRecord>, expected: &str) -> Result<
    (),
    HeaderError,
> {
    match first_value(records, "varlociraptor_observation_format_version", 0) {
        None => Err(HeaderError::InvalidObservations),
        Some(v) => if encode_utf8(v@) == text(expected) {
            Ok(())
        } else {
            Err(HeaderError::VersionMismatch)
        },
    }
}

/// Checks that a stream of observations is of the version that the reader
/// expects: the header must say so. A stream of any other version is
/// refused, and so is one that does not give its version.
pub fn check_format_version(records: &Vec<HeaderRecord>, expected: &str) -> (r: Result<
    (),
    HeaderError,
>)
    ensures
        r == checked_version(records@, expected),
{
    match header_value(records, "varlociraptor_observation_format_version") {
        None => Err(HeaderError::InvalidObservations),
        Some(value) => match compare_bytes(value.as_str().as_bytes(), expected.as_bytes()) {
            Order::Same => Ok(()),
            _ => Err(HeaderError::VersionMismatch),
        },
    }
}

/// Why the observations of a record of a stream could not be read.
#[derive(Clone, Copy, Debug, PartialEq, Eq, Structural)]
pub enum StreamError {
    /// The stream is refused by its header.
    Header(HeaderError),
    /// The record does not hold a pileup.
    Record(CodecError),
}

/// Reads the pileup of a record of a stream with the given header. The
/// reader is pinned to `OBSERVATION_FORMAT_VERSION`: of a stream whose header
/// gives another version, or none, no record is decoded. Else the record is
/// decoded as `read_observations` does.
pub fn read_stream_observations(records: &Vec<HeaderRecord>, fields: &Vec<InfoField>) -> (r:
    Result<Vec<Observation>, StreamError>)
    ensures
        match checked_version(records@, OBSERVATION_FORMAT_VERSION) {
            Err(e) => r == Err::<Vec<Observation>, StreamError>(StreamError::Header(e)),
            Ok(_) => match decoded(fields@) {
                Err(e) => r == Err::<Vec<Observation>, StreamError>(StreamError::Record(e)),
                Ok(pileup) => (r matches Ok(observations) && observations@ == pileup),
            },
        },
{
    match check_format_version(records, OBSERVATION_FORMAT_VERSION) {
        Err(e) => Err(StreamError::Header(e)),
        Ok(_) => match read_observations(fields) {
            Ok(observations) => Ok(observations),
            Err(e) => Err(StreamError::Record(e)),
        },
    }
}

} // verus!
