//! The observation codec: a pileup is stored as twelve integer arrays, one per
//! field of an observation, each a serialised column packed into carrier units.

use crate::observation::{MiniLogProb, Observation, ReadOrientation, ReadPosition, Strand};
use crate::units::{
    lemma_unpack_pack, pack_units, packed, pad_even, padded, unpack_units, unpacked,
};
use crate::wire::{
    bit_blocks, bit_count, bits_get, bits_len, bits_parse, bits_push, bits_with_capacity,
    blocks_of, deserialize_bits, deserialize_u16s, deserialize_u32s, flags_layout, has_bit,
    lemma_bits_read, lemma_flag_push, lemma_flag_read, lemma_u16s_read, lemma_u32s_read,
    serialize_bits, serialize_u16s, serialize_u32s, u16s_layout, u16s_parse,
    u32s_layout, u32s_parse, PackedBits,
};
use vstd::prelude::*;

verus! {

/// The twelve arrays of an observation record, in the order they are written.
#[derive(Clone, Copy, Debug, PartialEq, Eq, Structural)]
pub enum ObservationTag {
    ProbMapping,
    ProbRef,
    ProbAlt,
    ProbMissedAllele,
    ProbSampleAlt,
    ProbDoubleOverlap,
    Strand,
    ReadOrientation,
    Softclipped,
    Paired,
    ReadPosition,
    ProbHitBase,
}

/// How a column is serialised.
#[derive(Clone, Copy, Debug, PartialEq, Eq, Structural)]
pub enum ColumnKind {
    /// Quantised probabilities, 16 bits each.
    Prob,
    /// Category codes, 32 bits each.
    Code,
    /// Flags, packed into a bit vector.
    Flag,
}

/// One integer array of a record, under its tag.
#[derive(Debug)]
pub struct InfoField {
    pub tag: ObservationTag,
    pub values: Vec<i32>,
}

/// Why a pileup could not be written or read.
#[derive(Clone, Copy, Debug, PartialEq, Eq, Structural)]
pub enum CodecError {
    /// The serialiser refused the column. It refuses none of the columns of
    /// a pileup, so writing does not end with this.
    Serialize(ObservationTag),
    /// The record has no array under the tag.
    MissingField(ObservationTag),
    /// The array under the tag does not hold a column of its kind.
    Malformed(ObservationTag),
    /// A column is shorter than the column of mapping probabilities.
    ShortColumn,
}

impl ObservationTag {
    pub open spec fn spec_kind(self) -> ColumnKind {
        match self {
            ObservationTag::Strand | ObservationTag::ReadOrientation | ObservationTag::ReadPosition => ColumnKind::Code,
            ObservationTag::Softclipped | ObservationTag::Paired => ColumnKind::Flag,
            _ => ColumnKind::Prob,
        }
    }

    /// Position of the tag in the order of writing.
    pub open spec fn spec_index(self) -> int {
        match self {
            ObservationTag::ProbMapping => 0,
            ObservationTag::ProbRef => 1,
            ObservationTag::ProbAlt => 2,
            ObservationTag::ProbMissedAllele => 3,
            ObservationTag::ProbSampleAlt => 4,
            ObservationTag::ProbDoubleOverlap => 5,
            ObservationTag::Strand => 6,
            ObservationTag::ReadOrientation => 7,
            ObservationTag::Softclipped => 8,
            ObservationTag::Paired => 9,
            ObservationTag::ReadPosition => 10,
            ObservationTag::ProbHitBase => 11,
        }
    }

    /// The tag written at position `i`.
    pub open spec fn spec_at(i: int) -> ObservationTag {
        if i <= 0 {
            ObservationTag::ProbMapping
        } else if i == 1 {
            ObservationTag::ProbRef
        } else if i == 2 {
            ObservationTag::ProbAlt
        } else if i == 3 {
            ObservationTag::ProbMissedAllele
        } else if i == 4 {
            ObservationTag::ProbSampleAlt
        } else if i == 5 {
            ObservationTag::ProbDoubleOverlap
        } else if i == 6 {
            ObservationTag::Strand
        } else if i == 7 {
            ObservationTag::ReadOrientation
        } else if i == 8 {
            ObservationTag::Softclipped
        } else if i == 9 {
            ObservationTag::Paired
        } else if i == 10 {
            ObservationTag::ReadPosition
        } else {
            ObservationTag::ProbHitBase
        }
    }

    pub fn kind(self) -> (k: ColumnKind)
        ensures
            k == self.spec_kind(),
    {
        match self {
            ObservationTag::Strand | ObservationTag::ReadOrientation | ObservationTag::ReadPosition => ColumnKind::Code,
            ObservationTag::Softclipped | ObservationTag::Paired => ColumnKind::Flag,
            _ => ColumnKind::Prob,
        }
    }

    /// The tag written at position `i` of a record.
    pub fn at(i: usize) -> (tag: ObservationTag)
        requires
            i < 12,
        ensures
            tag == ObservationTag::spec_at(i as int),
            tag.spec_index() == i,
    {
        if i == 0 {
            ObservationTag::ProbMapping
        } else if i == 1 {
            ObservationTag::ProbRef
        } else if i == 2 {
            ObservationTag::ProbAlt
        } else if i == 3 {
            ObservationTag::ProbMissedAllele
        } else if i == 4 {
            ObservationTag::ProbSampleAlt
        } else if i == 5 {
            ObservationTag::ProbDoubleOverlap
        } else if i == 6 {
            ObservationTag::Strand
        } else if i == 7 {
            ObservationTag::ReadOrientation
        } else if i == 8 {
            ObservationTag::Softclipped
        } else if i == 9 {
            ObservationTag::Paired
        } else if i == 10 {
            ObservationTag::ReadPosition
        } else {
            ObservationTag::ProbHitBase
        }
    }

    /// The name of the tag in a record and in the header.
    pub fn name(self) -> (name: &'static str)
        ensures
            name@ == self.spec_name(),
    {
        match self {
            ObservationTag::ProbMapping => "PROB_MAPPING",
            ObservationTag::ProbRef => "PROB_REF",
            ObservationTag::ProbAlt => "PROB_ALT",
            ObservationTag::ProbMissedAllele => "PROB_MISSED_ALLELE",
            ObservationTag::ProbSampleAlt => "PROB_SAMPLE_ALT",
            ObservationTag::ProbDoubleOverlap => "PROB_DOUBLE_OVERLAP",
            ObservationTag::Strand => "STRAND",
            ObservationTag::ReadOrientation => "READ_ORIENTATION",
            ObservationTag::Softclipped => "SOFTCLIPPED",
            ObservationTag::Paired => "PAIRED",
            ObservationTag::ReadPosition => "READ_POSITION",
            ObservationTag::ProbHitBase => "PROB_HIT_BASE",
        }
    }

    pub open spec fn spec_name(self) -> Seq<char> {
        match self {
            ObservationTag::ProbMapping => "PROB_MAPPING"@,
            ObservationTag::ProbRef => "PROB_REF"@,
            ObservationTag::ProbAlt => "PROB_ALT"@,
            ObservationTag::ProbMissedAllele => "PROB_MISSED_ALLELE"@,
            ObservationTag::ProbSampleAlt => "PROB_SAMPLE_ALT"@,
            ObservationTag::ProbDoubleOverlap => "PROB_DOUBLE_OVERLAP"@,
            ObservationTag::Strand => "STRAND"@,
            ObservationTag::ReadOrientation => "READ_ORIENTATION"@,
            ObservationTag::Softclipped => "SOFTCLIPPED"@,
            ObservationTag::Paired => "PAIRED"@,
            ObservationTag::ReadPosition => "READ_POSITION"@,
            ObservationTag::ProbHitBase => "PROB_HIT_BASE"@,
        }
    }
}

/// The probability that an observation stores under a tag.
pub open spec fn prob_of(o: Observation, tag: ObservationTag) -> u16 {
    match tag {
        ObservationTag::ProbMapping => o.prob_mapping.0,
        ObservationTag::ProbRef => o.prob_ref.0,
        ObservationTag::ProbAlt => o.prob_alt.0,
        ObservationTag::ProbMissedAllele => o.prob_missed_allele.0,
        ObservationTag::ProbSampleAlt => o.prob_sample_alt.0,
        ObservationTag::ProbDoubleOverlap => o.prob_double_overlap.0,
        ObservationTag::ProbHitBase => o.prob_hit_base.0,
        _ => 0,
    }
}

/// The category code that an observation stores under a tag.
pub open spec fn code_of(o: Observation, tag: ObservationTag) -> u32 {
    match tag {
        ObservationTag::Strand => o.strand.spec_code(),
        ObservationTag::ReadOrientation => o.read_orientation.spec_code(),
        ObservationTag::ReadPosition => o.read_position.spec_code(),
        _ => 0,
    }
}

/// The flag that an observation stores under a tag.
pub open spec fn flag_of(o: Observation, tag: ObservationTag) -> bool {
    match tag {
        ObservationTag::Softclipped => o.softclipped,
        ObservationTag::Paired => o.paired,
        _ => false,
    }
}

/// The column of probabilities of a pileup under a tag.
pub open spec fn prob_column(pileup: Seq<Observation>, tag: ObservationTag) -> Seq<u16> {
    Seq::new(pileup.len(), |i: int| prob_of(pileup[i], tag))
}

/// The column of category codes of a pileup under a tag.
pub open spec fn code_column(pileup: Seq<Observation>, tag: ObservationTag) -> Seq<u32> {
    Seq::new(pileup.len(), |i: int| code_of(pileup[i], tag))
}

/// The column of flags of a pileup under a tag.
pub open spec fn flag_column(pileup: Seq<Observation>, tag: ObservationTag) -> Seq<bool> {
    Seq::new(pileup.len(), |i: int| flag_of(pileup[i], tag))
}

/// The serialised column of a pileup under a tag.
pub open spec fn payload(pileup: Seq<Observation>, tag: ObservationTag) -> Seq<u8> {
    match tag.spec_kind() {
        ColumnKind::Prob => u16s_layout(prob_column(pileup, tag)),
        ColumnKind::Code => u32s_layout(code_column(pileup, tag)),
        ColumnKind::Flag => flags_layout(flag_column(pileup, tag)),
    }
}

/// The carrier units of a pileup under a tag: the serialised column, padded
/// to an even length, two bytes to a unit.
pub open spec fn field_units(pileup: Seq<Observation>, tag: ObservationTag) -> Seq<i32> {
    packed(padded(payload(pileup, tag)))
}

/// `fields` is the record of `pileup`: the twelve arrays, each under its tag,
/// in the order of writing.
pub open spec fn encodes(fields: Seq<InfoField>, pileup: Seq<Observation>) -> bool {
    &&& fields.len() == 12
    &&& forall|i: int|
        0 <= i < 12 ==> (#[trigger] fields[i]).tag == ObservationTag::spec_at(i)
            && fields[i].values@ == field_units(pileup, ObservationTag::spec_at(i))
}

/// Pads a serialised column to an even length and packs it into carrier units.
pub fn pack_payload(bytes: Vec<u8>) -> (units: Vec<i32>)
    ensures
        units@ == packed(padded(bytes@)),
        forall|i: int| 0 <= i < units@.len() ==> 0 <= #[trigger] units@[i] <= 65535,
{
    let mut bytes = bytes;
    pad_even(&mut bytes);
    pack_units(&bytes)
}

fn prob_value(o: &Observation, tag: ObservationTag) -> (p: u16)
    ensures
        p == prob_of(*o, tag),
{
    match tag {
        ObservationTag::ProbMapping => o.prob_mapping.0,
        ObservationTag::ProbRef => o.prob_ref.0,
        ObservationTag::ProbAlt => o.prob_alt.0,
        ObservationTag::ProbMissedAllele => o.prob_missed_allele.0,
        ObservationTag::ProbSampleAlt => o.prob_sample_alt.0,
        ObservationTag::ProbDoubleOverlap => o.prob_double_overlap.0,
        ObservationTag::ProbHitBase => o.prob_hit_base.0,
        _ => 0,
    }
}

fn code_value(o: &Observation, tag: ObservationTag) -> (c: u32)
    ensures
        c == code_of(*o, tag),
{
    match tag {
        ObservationTag::Strand => o.strand.code(),
        ObservationTag::ReadOrientation => o.read_orientation.code(),
        ObservationTag::ReadPosition => o.read_position.code(),
        _ => 0,
    }
}

fn flag_value(o: &Observation, tag: ObservationTag) -> (f: bool)
    ensures
        f == flag_of(*o, tag),
{
    match tag {
        ObservationTag::Softclipped => o.softclipped,
        ObservationTag::Paired => o.paired,
        _ => false,
    }
}

/// Serialises the column of probabilities under `tag`.
fn prob_payload(observations: &Vec<Observation>, tag: ObservationTag) -> (r: Result<
    Vec<u8>,
    CodecError,
>)
    ensures
        r matches Ok(bytes) && bytes@ == u16s_layout(prob_column(observations@, tag)),
{
    let mut column: Vec<u16> = Vec::with_capacity(observations.len());
    let mut i: usize = 0;
    while i < observations.len()
        invariant
            i <= observations@.len(),
            column@.len() == i,
            forall|k: int| 0 <= k < i ==> #[trigger] column@[k] == prob_of(observations@[k], tag),
        decreases observations@.len() - i,
    {
        column.push(prob_value(&observations[i], tag));
        i += 1;
    }
    assert(column@ =~= prob_column(observations@, tag));
    match serialize_u16s(&column) {
        Ok(bytes) => Ok(bytes),
        Err(_) => Err(CodecError::Serialize(tag)),
    }
}

/// Serialises the column of category codes under `tag`.
fn code_payload(observations: &Vec<Observation>, tag: ObservationTag) -> (r: Result<
    Vec<u8>,
    CodecError,
>)
    ensures
        r matches Ok(bytes) && bytes@ == u32s_layout(code_column(observations@, tag)),
{
    let mut column: Vec<u32> = Vec::with_capacity(observations.len());
    let mut i: usize = 0;
    while i < observations.len()
        invariant
            i <= observations@.len(),
            column@.len() == i,
            forall|k: int| 0 <= k < i ==> #[trigger] column@[k] == code_of(observations@[k], tag),
        decreases observations@.len() - i,
    {
        column.push(code_value(&observations[i], tag));
        i += 1;
    }
    assert(column@ =~= code_column(observations@, tag));
    match serialize_u32s(&column) {
        Ok(bytes) => Ok(bytes),
        Err(_) => Err(CodecError::Serialize(tag)),
    }
}

/// Packs the column of flags under `tag` into a bit vector and serialises it.
fn flag_payload(observations: &Vec<Observation>, tag: ObservationTag) -> (r: Result<
    Vec<u8>,
    CodecError,
>)
    requires
        observations@.len() + 7 <= u64::MAX,
    ensures
        r matches Ok(bytes) && bytes@ == flags_layout(flag_column(observations@, tag)),
{
    let n = observations.len();
    let ghost flags = flag_column(observations@, tag);
    let ghost blocks = ((n + 7) / 8) as nat;
    let mut bits = bits_with_capacity(n as u64);
    assert(bit_blocks(bits) =~= blocks_of(flags.take(0), blocks));
    let mut i: usize = 0;
    while i < n
        invariant
            n == observations@.len(),
            flags == flag_column(observations@, tag),
            blocks == (n + 7) / 8,
            i <= n,
            bit_count(bits) == i,
            bit_blocks(bits) == blocks_of(flags.take(i as int), blocks),
        decreases n - i,
    {
        proof {
            lemma_flag_push(flags, i as int, blocks);
        }
        bits_push(&mut bits, flag_value(&observations[i], tag));
        i += 1;
    }
    assert(flags.take(n as int) =~= flags);
    match serialize_bits(&bits) {
        Ok(bytes) => Ok(bytes),
        Err(_) => Err(CodecError::Serialize(tag)),
    }
}

/// Encodes the column of a pileup under one tag.
fn encode_field(observations: &Vec<Observation>, tag: ObservationTag) -> (r: Result<
    InfoField,
    CodecError,
>)
    requires
        observations@.len() + 7 <= u64::MAX,
    ensures
        r matches Ok(field) && field.tag == tag && field.values@ == field_units(
            observations@,
            tag,
        ),
{
    let bytes = match tag.kind() {
        ColumnKind::Prob => prob_payload(observations, tag)?,
        ColumnKind::Code => code_payload(observations, tag)?,
        ColumnKind::Flag => flag_payload(observations, tag)?,
    };
    Ok(InfoField { tag, values: pack_payload(bytes) })
}

/// Encodes a pileup into the twelve arrays of its record.
///
/// Every observation contributes one entry to each column. Probabilities take
/// two bytes each, categories become small integers, flags are packed into bit
/// vectors; each serialised column is padded to an even length and packed two
/// bytes to a unit. Every pileup can be written: the arrays are exactly those
/// of `encodes`, and a reader gets the pileup back from them.
pub fn write_observations(observations: &Vec<Observation>) -> (r: Result<
    Vec<InfoField>,
    CodecError,
>)
    requires
        observations@.len() + 7 <= u64::MAX,
    ensures
        r is Ok,
        r matches Ok(fields) ==> encodes(fields@, observations@),
        r matches Ok(fields) ==> decoded(fields@) == Ok::<Seq<Observation>, CodecError>(
            observations@,
        ),
{
    let mut fields: Vec<InfoField> = Vec::with_capacity(12);
    let mut i: usize = 0;
    while i < 12
        invariant
            observations@.len() + 7 <= u64::MAX,
            i <= 12,
            fields@.len() == i,
            forall|k: int|
                0 <= k < i ==> (#[trigger] fields@[k]).tag == ObservationTag::spec_at(k)
                    && fields@[k].values@ == field_units(observations@, ObservationTag::spec_at(k)),
        decreases 12 - i,
    {
        let field = encode_field(observations, ObservationTag::at(i))?;
        fields.push(field);
        i += 1;
    }
    proof {
        lemma_round_trip(fields@, observations@);
    }
    Ok(fields)
}

/// The units of the first array under `tag` at or behind position `from`.
pub open spec fn first_from(fields: Seq<InfoField>, tag: ObservationTag, from: int) -> Option<
    Seq<i32>,
>
    decreases fields.len() - from,
{
    if from < 0 || from >= fields.len() {
        None
    } else if fields[from].tag == tag {
        Some(fields[from].values@)
    } else {
        first_from(fields, tag, from + 1)
    }
}

/// The column of probabilities that a record holds under `tag`.
pub open spec fn read_probs(fields: Seq<InfoField>, tag: ObservationTag) -> Result<
    Seq<u16>,
    CodecError,
> {
    match first_from(fields, tag, 0) {
        None => Err(CodecError::MissingField(tag)),
        Some(units) => match u16s_parse(unpacked(units)) {
            None => Err(CodecError::Malformed(tag)),
            Some(values) => Ok(values),
        },
    }
}

/// The column of category codes that a record holds under `tag`.
pub open spec fn read_codes(fields: Seq<InfoField>, tag: ObservationTag) -> Result<
    Seq<u32>,
    CodecError,
> {
    match first_from(fields, tag, 0) {
        None => Err(CodecError::MissingField(tag)),
        Some(units) => match u32s_parse(unpacked(units)) {
            None => Err(CodecError::Malformed(tag)),
            Some(values) => Ok(values),
        },
    }
}

/// The bit vector that a record holds under `tag`: its blocks and bit count.
pub open spec fn read_flags(fields: Seq<InfoField>, tag: ObservationTag) -> Result<
    (Seq<u8>, nat),
    CodecError,
> {
    match first_from(fields, tag, 0) {
        None => Err(CodecError::MissingField(tag)),
        Some(units) => match bits_parse(unpacked(units)) {
            None => Err(CodecError::Malformed(tag)),
            Some(bits) => Ok(bits),
        },
    }
}

/// The strands that a column of codes stands for, if every code is one.
pub open spec fn strands_of(codes: Seq<u32>) -> Option<Seq<Strand>> {
    if forall|i: int| 0 <= i < codes.len() ==> Strand::spec_from_code(#[trigger] codes[i]) is Some {
        Some(Seq::new(codes.len(), |i: int| Strand::spec_from_code(codes[i])->0))
    } else {
        None
    }
}

/// The orientations that a column of codes stands for, if every code is one.
pub open spec fn orientations_of(codes: Seq<u32>) -> Option<Seq<ReadOrientation>> {
    if forall|i: int|
        0 <= i < codes.len() ==> ReadOrientation::spec_from_code(#[trigger] codes[i]) is Some {
        Some(Seq::new(codes.len(), |i: int| ReadOrientation::spec_from_code(codes[i])->0))
    } else {
        None
    }
}

/// The read positions that a column of codes stands for, if every code is one.
pub open spec fn positions_of(codes: Seq<u32>) -> Option<Seq<ReadPosition>> {
    if forall|i: int|
        0 <= i < codes.len() ==> ReadPosition::spec_from_code(#[trigger] codes[i]) is Some {
        Some(Seq::new(codes.len(), |i: int| ReadPosition::spec_from_code(codes[i])->0))
    } else {
        None
    }
}

/// The twelve columns of a record, parsed.
pub struct Columns {
    pub prob_mapping: Seq<u16>,
    pub prob_ref: Seq<u16>,
    pub prob_alt: Seq<u16>,
    pub prob_missed_allele: Seq<u16>,
    pub prob_sample_alt: Seq<u16>,
    pub prob_double_overlap: Seq<u16>,
    pub prob_hit_base: Seq<u16>,
    pub strand: Seq<Strand>,
    pub read_orientation: Seq<ReadOrientation>,
    pub read_position: Seq<ReadPosition>,
    pub softclipped: (Seq<u8>, nat),
    pub paired: (Seq<u8>, nat),
}

impl Columns {
    /// The number of observations: the length of the column of mapping
    /// probabilities.
    pub open spec fn count(self) -> nat {
        self.prob_mapping.len()
    }

    /// Every column reaches the number of observations.
    pub open spec fn complete(self) -> bool {
        let n = self.count();
        &&& self.prob_ref.len() >= n
        &&& self.prob_alt.len() >= n
        &&& self.prob_missed_allele.len() >= n
        &&& self.prob_sample_alt.len() >= n
        &&& self.prob_double_overlap.len() >= n
        &&& self.prob_hit_base.len() >= n
        &&& self.strand.len() >= n
        &&& self.read_orientation.len() >= n
        &&& self.read_position.len() >= n
        &&& self.softclipped.1 >= n
        &&& self.paired.1 >= n
    }

    /// Observation `i`, one entry from each column.
    pub open spec fn row(self, i: int) -> Observation {
        Observation {
            prob_mapping: MiniLogProb(self.prob_mapping[i]),
            prob_alt: MiniLogProb(self.prob_alt[i]),
            prob_ref: MiniLogProb(self.prob_ref[i]),
            prob_missed_allele: MiniLogProb(self.prob_missed_allele[i]),
            prob_sample_alt: MiniLogProb(self.prob_sample_alt[i]),
            prob_double_overlap: MiniLogProb(self.prob_double_overlap[i]),
            prob_hit_base: MiniLogProb(self.prob_hit_base[i]),
            strand: self.strand[i],
            read_orientation: self.read_orientation[i],
            read_position: self.read_position[i],
            softclipped: has_bit(self.softclipped.0[i / 8], (i % 8) as u8),
            paired: has_bit(self.paired.0[i / 8], (i % 8) as u8),
        }
    }

    /// The pileup of the columns: as many observations as there are mapping
    /// probabilities, what lies behind them in longer columns left out.
    pub open spec fn pileup(self) -> Result<Seq<Observation>, CodecError> {
        if self.complete() {
            Ok(Seq::new(self.count(), |i: int| self.row(i)))
        } else {
            Err(CodecError::ShortColumn)
        }
    }
}

/// The typed column of strands of a record.
pub open spec fn read_strands(fields: Seq<InfoField>) -> Result<Seq<Strand>, CodecError> {
    match read_codes(fields, ObservationTag::Strand) {
        Err(e) => Err(e),
        Ok(codes) => match strands_of(codes) {
            None => Err(CodecError::Malformed(ObservationTag::Strand)),
            Some(values) => Ok(values),
        },
    }
}

/// The typed column of read orientations of a record.
pub open spec fn read_orientations(fields: Seq<InfoField>) -> Result<
    Seq<ReadOrientation>,
    CodecError,
> {
    match read_codes(fields, ObservationTag::ReadOrientation) {
        Err(e) => Err(e),
        Ok(codes) => match orientations_of(codes) {
            None => Err(CodecError::Malformed(ObservationTag::ReadOrientation)),
            Some(values) => Ok(values),
        },
    }
}

/// The typed column of read positions of a record.
pub open spec fn read_positions(fields: Seq<InfoField>) -> Result<Seq<ReadPosition>, CodecError> {
    match read_codes(fields, ObservationTag::ReadPosition) {
        Err(e) => Err(e),
        Ok(codes) => match positions_of(codes) {
            None => Err(CodecError::Malformed(ObservationTag::ReadPosition)),
            Some(values) => Ok(values),
        },
    }
}

/// What a reader makes of a record. The columns are looked up and parsed in
/// a fixed order, and the first that is missing or malformed decides the error;
/// then the columns are put together.
pub open spec fn decoded(fields: Seq<InfoField>) -> Result<Seq<Observation>, CodecError> {
    match read_probs(fields, ObservationTag::ProbMapping) {
        Err(e) => Err(e),
        Ok(prob_mapping) => match read_probs(fields, ObservationTag::ProbRef) {
            Err(e) => Err(e),
            Ok(prob_ref) => match read_probs(fields, ObservationTag::ProbAlt) {
                Err(e) => Err(e),
                Ok(prob_alt) => match read_probs(fields, ObservationTag::ProbMissedAllele) {
                    Err(e) => Err(e),
                    Ok(prob_missed_allele) => match read_probs(
                        fields,
                        ObservationTag::ProbSampleAlt,
                    ) {
                        Err(e) => Err(e),
                        Ok(prob_sample_alt) => match read_probs(
                            fields,
                            ObservationTag::ProbDoubleOverlap,
                        ) {
                            Err(e) => Err(e),
                            Ok(prob_double_overlap) => match read_probs(
                                fields,
                                ObservationTag::ProbHitBase,
                            ) {
                                Err(e) => Err(e),
                                Ok(prob_hit_base) => decoded_categories(
                                    fields,
                                    prob_mapping,
                                    prob_ref,
                                    prob_alt,
                                    prob_missed_allele,
                                    prob_sample_alt,
                                    prob_double_overlap,
                                    prob_hit_base,
                                ),
                            },
                        },
                    },
                },
            },
        },
    }
}

/// The second half of `decoded`: the categories and flags, read behind the
/// probabilities.
pub open spec fn decoded_categories(
    fields: Seq<InfoField>,
    prob_mapping: Seq<u16>,
    prob_ref: Seq<u16>,
    prob_alt: Seq<u16>,
    prob_missed_allele: Seq<u16>,
    prob_sample_alt: Seq<u16>,
    prob_double_overlap: Seq<u16>,
    prob_hit_base: Seq<u16>,
) -> Result<Seq<Observation>, CodecError> {
    match read_strands(fields) {
        Err(e) => Err(e),
        Ok(strand) => match read_orientations(fields) {
            Err(e) => Err(e),
            Ok(read_orientation) => match read_positions(fields) {
                Err(e) => Err(e),
                Ok(read_position) => match read_flags(fields, ObservationTag::Softclipped) {
                    Err(e) => Err(e),
                    Ok(softclipped) => match read_flags(fields, ObservationTag::Paired) {
                        Err(e) => Err(e),
                        Ok(paired) => (Columns {
                            prob_mapping,
                            prob_ref,
                            prob_alt,
                            prob_missed_allele,
                            prob_sample_alt,
                            prob_double_overlap,
                            prob_hit_base,
                            strand,
                            read_orientation,
                            read_position,
                            softclipped,
                            paired,
                        }).pileup(),
                    },
                },
            },
        },
    }
}

/// Unpacks the first array under `tag` into the bytes of its column.
fn column_bytes(fields: &Vec<InfoField>, tag: ObservationTag) -> (r: Result<Vec<u8>, CodecError>)
    ensures
        match first_from(fields@, tag, 0) {
            None => r == Err::<Vec<u8>, CodecError>(CodecError::MissingField(tag)),
            Some(units) => r matches Ok(bytes) && bytes@ == unpacked(units),
        },
{
    let mut i: usize = 0;
    while i < fields.len()
        invariant
            i <= fields@.len(),
            first_from(fields@, tag, 0) == first_from(fields@, tag, i as int),
        decreases fields@.len() - i,
    {
        if fields[i].tag == tag {
            return Ok(unpack_units(&fields[i].values));
        }
        i += 1;
    }
    Err(CodecError::MissingField(tag))
}

/// Reads the column of probabilities under `tag`.
fn prob_column_of(fields: &Vec<InfoField>, tag: ObservationTag) -> (r: Result<
    Vec<u16>,
    CodecError,
>)
    ensures
        match read_probs(fields@, tag) {
            Err(e) => r == Err::<Vec<u16>, CodecError>(e),
            Ok(values) => r matches Ok(v) && v@ == values,
        },
{
    let bytes = column_bytes(fields, tag)?;
    match deserialize_u16s(bytes.as_slice()) {
        Ok(values) => Ok(values),
        Err(_) => Err(CodecError::Malformed(tag)),
    }
}

/// Reads the column of category codes under `tag`.
fn code_column_of(fields: &Vec<InfoField>, tag: ObservationTag) -> (r: Result<
    Vec<u32>,
    CodecError,
>)
    ensures
        match read_codes(fields@, tag) {
            Err(e) => r == Err::<Vec<u32>, CodecError>(e),
            Ok(values) => r matches Ok(v) && v@ == values,
        },
{
    let bytes = column_bytes(fields, tag)?;
    match deserialize_u32s(bytes.as_slice()) {
        Ok(values) => Ok(values),
        Err(_) => Err(CodecError::Malformed(tag)),
    }
}

/// Reads the bit vector under `tag`.
fn flag_column_of(fields: &Vec<InfoField>, tag: ObservationTag) -> (r: Result<
    PackedBits,
    CodecError,
>)
    ensures
        match read_flags(fields@, tag) {
            Err(e) => r matches Err(err) && err == e,
            Ok(bits) => r matches Ok(b) && (bit_blocks(b), bit_count(b)) == bits,
        },
{
    let bytes = column_bytes(fields, tag)?;
    match deserialize_bits(bytes.as_slice()) {
        Ok(bits) => Ok(bits),
        Err(_) => Err(CodecError::Malformed(tag)),
    }
}

/// Reads the column of strands.
fn strand_column_of(fields: &Vec<InfoField>) -> (r: Result<Vec<Strand>, CodecError>)
    ensures
        match read_strands(fields@) {
            Err(e) => r == Err::<Vec<Strand>, CodecError>(e),
            Ok(values) => r matches Ok(v) && v@ == values,
        },
{
    let codes = code_column_of(fields, ObservationTag::Strand)?;
    let mut column: Vec<Strand> = Vec::with_capacity(codes.len());
    let mut i: usize = 0;
    while i < codes.len()
        invariant
            i <= codes@.len(),
            column@.len() == i,
            read_codes(fields@, ObservationTag::Strand) == Ok::<Seq<u32>, CodecError>(codes@),
            forall|k: int|
                0 <= k < i ==> Strand::spec_from_code(#[trigger] codes@[k]) == Some(column@[k]),
        decreases codes@.len() - i,
    {
        match Strand::from_code(codes[i]) {
            Some(value) => column.push(value),
            None => {
                assert(Strand::spec_from_code(codes@[i as int]) is None);
                return Err(CodecError::Malformed(ObservationTag::Strand));
            },
        }
        i += 1;
    }
    assert(column@ =~= strands_of(codes@)->0);
    Ok(column)
}

/// Reads the column of read orientations.
fn orientation_column_of(fields: &Vec<InfoField>) -> (r: Result<Vec<ReadOrientation>, CodecError>)
    ensures
        match read_orientations(fields@) {
            Err(e) => r == Err::<Vec<ReadOrientation>, CodecError>(e),
            Ok(values) => r matches Ok(v) && v@ == values,
        },
{
    let codes = code_column_of(fields, ObservationTag::ReadOrientation)?;
    let mut column: Vec<ReadOrientation> = Vec::with_capacity(codes.len());
    let mut i: usize = 0;
    while i < codes.len()
        invariant
            i <= codes@.len(),
            column@.len() == i,
            read_codes(fields@, ObservationTag::ReadOrientation) == Ok::<Seq<u32>, CodecError>(codes@),
            forall|k: int|
                0 <= k < i ==> ReadOrientation::spec_from_code(#[trigger] codes@[k]) == Some(
                    column@[k],
                ),
        decreases codes@.len() - i,
    {
        match ReadOrientation::from_code(codes[i]) {
            Some(value) => column.push(value),
            None => {
                assert(ReadOrientation::spec_from_code(codes@[i as int]) is None);
                return Err(CodecError::Malformed(ObservationTag::ReadOrientation));
            },
        }
        i += 1;
    }
    assert(column@ =~= orientations_of(codes@)->0);
    Ok(column)
}

/// Reads the column of read positions.
fn position_column_of(fields: &Vec<InfoField>) -> (r: Result<Vec<ReadPosition>, CodecError>)
    ensures
        match read_positions(fields@) {
            Err(e) => r == Err::<Vec<ReadPosition>, CodecError>(e),
            Ok(values) => r matches Ok(v) && v@ == values,
        },
{
    let codes = code_column_of(fields, ObservationTag::ReadPosition)?;
    let mut column: Vec<ReadPosition> = Vec::with_capacity(codes.len());
    let mut i: usize = 0;
    while i < codes.len()
        invariant
            i <= codes@.len(),
            column@.len() == i,
            read_codes(fields@, ObservationTag::ReadPosition) == Ok::<Seq<u32>, CodecError>(codes@),
            forall|k: int|
                0 <= k < i ==> ReadPosition::spec_from_code(#[trigger] codes@[k]) == Some(
                    column@[k],
                ),
        decreases codes@.len() - i,
    {
        match ReadPosition::from_code(codes[i]) {
            Some(value) => column.push(value),
            None => {
                assert(ReadPosition::spec_from_code(codes@[i as int]) is None);
                return Err(CodecError::Malformed(ObservationTag::ReadPosition));
            },
        }
        i += 1;
    }
    assert(column@ =~= positions_of(codes@)->0);
    Ok(column)
}

/// Decodes the pileup of a record.
///
/// The twelve columns are looked up by tag, unpacked and parsed, the
/// probabilities first, then the categories, then the flags. The first column
/// that is missing or does not parse is reported. The pileup has as many
/// observations as there are mapping probabilities; a column that is shorter
/// is reported, one that is longer is cut.
pub fn read_observations(fields: &Vec<InfoField>) -> (r: Result<Vec<Observation>, CodecError>)
    ensures
        match decoded(fields@) {
            Err(e) => r == Err::<Vec<Observation>, CodecError>(e),
            Ok(pileup) => r matches Ok(observations) && observations@ == pileup,
        },
{
    let prob_mapping = prob_column_of(fields, ObservationTag::ProbMapping)?;
    let prob_ref = prob_column_of(fields, ObservationTag::ProbRef)?;
    let prob_alt = prob_column_of(fields, ObservationTag::ProbAlt)?;
    let prob_missed_allele = prob_column_of(fields, ObservationTag::ProbMissedAllele)?;
    let prob_sample_alt = prob_column_of(fields, ObservationTag::ProbSampleAlt)?;
    let prob_double_overlap = prob_column_of(fields, ObservationTag::ProbDoubleOverlap)?;
    let prob_hit_base = prob_column_of(fields, ObservationTag::ProbHitBase)?;
    let strand = strand_column_of(fields)?;
    let read_orientation = orientation_column_of(fields)?;
    let read_position = position_column_of(fields)?;
    let softclipped = flag_column_of(fields, ObservationTag::Softclipped)?;
    let paired = flag_column_of(fields, ObservationTag::Paired)?;
    let ghost columns = Columns {
        prob_mapping: prob_mapping@,
        prob_ref: prob_ref@,
        prob_alt: prob_alt@,
        prob_missed_allele: prob_missed_allele@,
        prob_sample_alt: prob_sample_alt@,
        prob_double_overlap: prob_double_overlap@,
        prob_hit_base: prob_hit_base@,
        strand: strand@,
        read_orientation: read_orientation@,
        read_position: read_position@,
        softclipped: (bit_blocks(softclipped), bit_count(softclipped)),
        paired: (bit_blocks(paired), bit_count(paired)),
    };
    assert(decoded(fields@) == columns.pileup());
    let n = prob_mapping.len();
    let softclipped_len = bits_len(&softclipped);
    let paired_len = bits_len(&paired);
    if prob_ref.len() < n || prob_alt.len() < n || prob_missed_allele.len() < n
        || prob_sample_alt.len() < n || prob_double_overlap.len() < n || prob_hit_base.len() < n
        || strand.len() < n || read_orientation.len() < n || read_position.len() < n
        || softclipped_len < n as u64 || paired_len < n as u64 {
        return Err(CodecError::ShortColumn);
    }
    let mut observations: Vec<Observation> = Vec::with_capacity(n);
    let mut i: usize = 0;
    while i < n
        invariant
            i <= n,
            n == columns.count(),
            columns.complete(),
            columns.prob_mapping == prob_mapping@,
            columns.prob_ref == prob_ref@,
            columns.prob_alt == prob_alt@,
            columns.prob_missed_allele == prob_missed_allele@,
            columns.prob_sample_alt == prob_sample_alt@,
            columns.prob_double_overlap == prob_double_overlap@,
            columns.prob_hit_base == prob_hit_base@,
            columns.strand == strand@,
            columns.read_orientation == read_orientation@,
            columns.read_position == read_position@,
            columns.softclipped == (bit_blocks(softclipped), bit_count(softclipped)),
            columns.paired == (bit_blocks(paired), bit_count(paired)),
            observations@.len() == i,
            forall|k: int| 0 <= k < i ==> #[trigger] observations@[k] == columns.row(k),
        decreases n - i,
    {
        observations.push(
            Observation {
                prob_mapping: MiniLogProb(prob_mapping[i]),
                prob_alt: MiniLogProb(prob_alt[i]),
                prob_ref: MiniLogProb(prob_ref[i]),
                prob_missed_allele: MiniLogProb(prob_missed_allele[i]),
                prob_sample_alt: MiniLogProb(prob_sample_alt[i]),
                prob_double_overlap: MiniLogProb(prob_double_overlap[i]),
                prob_hit_base: MiniLogProb(prob_hit_base[i]),
                strand: strand[i],
                read_orientation: read_orientation[i],
                read_position: read_position[i],
                softclipped: bits_get(&softclipped, i as u64),
                paired: bits_get(&paired, i as u64),
            },
        );
        i += 1;
    }
    assert(observations@ =~= columns.pileup()->Ok_0);
    Ok(observations)
}

/// The first array under a tag is the one at `at`, when no array before it
/// carries the tag.
proof fn lemma_first_from(fields: Seq<InfoField>, tag: ObservationTag, from: int, at: int)
    requires
        0 <= from <= at < fields.len(),
        fields[at].tag == tag,
        forall|j: int| from <= j < at ==> (#[trigger] fields[j]).tag != tag,
    ensures
        first_from(fields, tag, from) == Some(fields[at].values@),
    decreases at - from,
{
    if from < at {
        assert(fields[from].tag != tag);
        lemma_first_from(fields, tag, from + 1, at);
    }
}

/// In the record of a pileup, the array found under a tag holds the units of
/// the pileup's column under that tag.
proof fn lemma_field_found(fields: Seq<InfoField>, pileup: Seq<Observation>, tag: ObservationTag)
    requires
        encodes(fields, pileup),
    ensures
        first_from(fields, tag, 0) == Some(field_units(pileup, tag)),
{
    let at = tag.spec_index();
    assert(ObservationTag::spec_at(at) == tag);
    assert(fields[at].tag == tag);
    assert forall|j: int| 0 <= j < at implies (#[trigger] fields[j]).tag != tag by {
        assert(fields[j].tag == ObservationTag::spec_at(j));
        assert(ObservationTag::spec_at(j).spec_index() == j);
    }
    lemma_first_from(fields, tag, 0, at);
}

/// The units of a column unpack to its serialised form, with at most one
/// byte behind it.
proof fn lemma_units_unpack(bytes: Seq<u8>) -> (tail: Seq<u8>)
    ensures
        unpacked(packed(padded(bytes))) == bytes + tail,
{
    lemma_unpack_pack(padded(bytes));
    if bytes.len() % 2 == 0 {
        assert(bytes + Seq::<u8>::empty() =~= bytes);
        Seq::empty()
    } else {
        assert(bytes + seq![0u8] =~= bytes.push(0u8));
        seq![0u8]
    }
}

/// A column of probabilities is read back from the record of its pileup.
proof fn lemma_probs_back(fields: Seq<InfoField>, pileup: Seq<Observation>, tag: ObservationTag)
    requires
        encodes(fields, pileup),
        pileup.len() <= u64::MAX,
        tag.spec_kind() == ColumnKind::Prob,
    ensures
        read_probs(fields, tag) == Ok::<Seq<u16>, CodecError>(prob_column(pileup, tag)),
{
    lemma_field_found(fields, pileup, tag);
    let tail = lemma_units_unpack(payload(pileup, tag));
    lemma_u16s_read(prob_column(pileup, tag), tail);
}

/// A column of category codes is read back from the record of its pileup.
proof fn lemma_codes_back(fields: Seq<InfoField>, pileup: Seq<Observation>, tag: ObservationTag)
    requires
        encodes(fields, pileup),
        pileup.len() <= u64::MAX,
        tag.spec_kind() == ColumnKind::Code,
    ensures
        read_codes(fields, tag) == Ok::<Seq<u32>, CodecError>(code_column(pileup, tag)),
{
    lemma_field_found(fields, pileup, tag);
    let tail = lemma_units_unpack(payload(pileup, tag));
    lemma_u32s_read(code_column(pileup, tag), tail);
}

/// A column of flags is read back from the record of its pileup: flag `i`
/// sits in bit `i % 8` of block `i / 8`.
proof fn lemma_flags_back(fields: Seq<InfoField>, pileup: Seq<Observation>, tag: ObservationTag)
    requires
        encodes(fields, pileup),
        pileup.len() + 7 <= u64::MAX,
        tag.spec_kind() == ColumnKind::Flag,
    ensures
        read_flags(fields, tag) matches Ok(bits) && bits.1 == pileup.len() && forall|i: int|
            0 <= i < pileup.len() ==> has_bit(#[trigger] bits.0[i / 8], (i % 8) as u8) == flag_of(
                pileup[i],
                tag,
            ),
{
    lemma_field_found(fields, pileup, tag);
    let tail = lemma_units_unpack(payload(pileup, tag));
    let flags = flag_column(pileup, tag);
    let blocks = blocks_of(flags, (flags.len() + 7) / 8);
    lemma_bits_read(blocks, flags.len(), tail);
    assert forall|i: int| 0 <= i < pileup.len() implies has_bit(
        #[trigger] blocks[i / 8],
        (i % 8) as u8,
    ) == flag_of(pileup[i], tag) by {
        lemma_flag_read(flags, i);
    }
}

/// The column of strands is read back from the record of its pileup.
proof fn lemma_strands_back(fields: Seq<InfoField>, pileup: Seq<Observation>)
    requires
        encodes(fields, pileup),
        pileup.len() <= u64::MAX,
    ensures
        read_strands(fields) == Ok::<Seq<Strand>, CodecError>(
            Seq::new(pileup.len(), |i: int| pileup[i].strand),
        ),
{
    lemma_codes_back(fields, pileup, ObservationTag::Strand);
    let codes = code_column(pileup, ObservationTag::Strand);
    assert forall|i: int| 0 <= i < codes.len() implies Strand::spec_from_code(
        #[trigger] codes[i],
    ) == Some(pileup[i].strand) by {}
    assert(strands_of(codes)->0 =~= Seq::new(pileup.len(), |i: int| pileup[i].strand));
}

/// The column of read orientations is read back from the record of its pileup.
proof fn lemma_orientations_back(fields: Seq<InfoField>, pileup: Seq<Observation>)
    requires
        encodes(fields, pileup),
        pileup.len() <= u64::MAX,
    ensures
        read_orientations(fields) == Ok::<Seq<ReadOrientation>, CodecError>(
            Seq::new(pileup.len(), |i: int| pileup[i].read_orientation),
        ),
{
    lemma_codes_back(fields, pileup, ObservationTag::ReadOrientation);
    let codes = code_column(pileup, ObservationTag::ReadOrientation);
    assert forall|i: int| 0 <= i < codes.len() implies ReadOrientation::spec_from_code(
        #[trigger] codes[i],
    ) == Some(pileup[i].read_orientation) by {}
    assert(orientations_of(codes)->0 =~= Seq::new(
        pileup.len(),
        |i: int| pileup[i].read_orientation,
    ));
}

/// The column of read positions is read back from the record of its pileup.
proof fn lemma_positions_back(fields: Seq<InfoField>, pileup: Seq<Observation>)
    requires
        encodes(fields, pileup),
        pileup.len() <= u64::MAX,
    ensures
        read_positions(fields) == Ok::<Seq<ReadPosition>, CodecError>(
            Seq::new(pileup.len(), |i: int| pileup[i].read_position),
        ),
{
    lemma_codes_back(fields, pileup, ObservationTag::ReadPosition);
    let codes = code_column(pileup, ObservationTag::ReadPosition);
    assert forall|i: int| 0 <= i < codes.len() implies ReadPosition::spec_from_code(
        #[trigger] codes[i],
    ) == Some(pileup[i].read_position) by {}
    assert(positions_of(codes)->0 =~= Seq::new(pileup.len(), |i: int| pileup[i].read_position));
}

/// The columns of a pileup, as they are read back from its record.
spec fn columns_back(fields: Seq<InfoField>, pileup: Seq<Observation>) -> Columns {
    Columns {
        prob_mapping: prob_column(pileup, ObservationTag::ProbMapping),
        prob_ref: prob_column(pileup, ObservationTag::ProbRef),
        prob_alt: prob_column(pileup, ObservationTag::ProbAlt),
        prob_missed_allele: prob_column(pileup, ObservationTag::ProbMissedAllele),
        prob_sample_alt: prob_column(pileup, ObservationTag::ProbSampleAlt),
        prob_double_overlap: prob_column(pileup, ObservationTag::ProbDoubleOverlap),
        prob_hit_base: prob_column(pileup, ObservationTag::ProbHitBase),
        strand: Seq::new(pileup.len(), |i: int| pileup[i].strand),
        read_orientation: Seq::new(pileup.len(), |i: int| pileup[i].read_orientation),
        read_position: Seq::new(pileup.len(), |i: int| pileup[i].read_position),
        softclipped: read_flags(fields, ObservationTag::Softclipped)->Ok_0,
        paired: read_flags(fields, ObservationTag::Paired)->Ok_0,
    }
}

/// The record of a pileup parses into the columns of the pileup.
proof fn lemma_columns_back(fields: Seq<InfoField>, pileup: Seq<Observation>)
    requires
        encodes(fields, pileup),
        pileup.len() + 7 <= u64::MAX,
    ensures
        decoded(fields) == columns_back(fields, pileup).pileup(),
{
    lemma_probs_back(fields, pileup, ObservationTag::ProbMapping);
    lemma_probs_back(fields, pileup, ObservationTag::ProbRef);
    lemma_probs_back(fields, pileup, ObservationTag::ProbAlt);
    lemma_probs_back(fields, pileup, ObservationTag::ProbMissedAllele);
    lemma_probs_back(fields, pileup, ObservationTag::ProbSampleAlt);
    lemma_probs_back(fields, pileup, ObservationTag::ProbDoubleOverlap);
    lemma_probs_back(fields, pileup, ObservationTag::ProbHitBase);
    lemma_strands_back(fields, pileup);
    lemma_orientations_back(fields, pileup);
    lemma_positions_back(fields, pileup);
    lemma_flags_back(fields, pileup, ObservationTag::Softclipped);
    lemma_flags_back(fields, pileup, ObservationTag::Paired);
    let c = columns_back(fields, pileup);
    assert(decoded_categories(
        fields,
        c.prob_mapping,
        c.prob_ref,
        c.prob_alt,
        c.prob_missed_allele,
        c.prob_sample_alt,
        c.prob_double_overlap,
        c.prob_hit_base,
    ) == c.pileup());
}

/// Reading undoes writing: the record of a pileup decodes to that pileup,
/// observation for observation and field for field.
pub proof fn lemma_round_trip(fields: Seq<InfoField>, pileup: Seq<Observation>)
    requires
        encodes(fields, pileup),
        pileup.len() + 7 <= u64::MAX,
    ensures
        decoded(fields) == Ok::<Seq<Observation>, CodecError>(pileup),
{
    lemma_columns_back(fields, pileup);
    lemma_flags_back(fields, pileup, ObservationTag::Softclipped);
    lemma_flags_back(fields, pileup, ObservationTag::Paired);
    let columns = columns_back(fields, pileup);
    assert(columns.complete());
    assert forall|i: int| 0 <= i < pileup.len() implies columns.row(i) == pileup[i] by {
        assert(has_bit(columns.softclipped.0[i / 8], (i % 8) as u8) == pileup[i].softclipped);
        assert(has_bit(columns.paired.0[i / 8], (i % 8) as u8) == pileup[i].paired);
    }
    assert(columns.pileup()->Ok_0 =~= pileup);
}

} // verus!
