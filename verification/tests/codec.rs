use varlociraptor::codec::{
    pack_payload, read_observations, write_observations, CodecError, InfoField, ObservationTag,
};
use varlociraptor::observation::{
    MiniLogProb, Observation, ReadOrientation, ReadPosition, Strand,
};
use varlociraptor::units::{pack_units, unpack_units};

fn observation(seed: u16) -> Observation {
    Observation {
        prob_mapping: MiniLogProb(seed),
        prob_alt: MiniLogProb(seed.wrapping_mul(3).wrapping_add(1)),
        prob_ref: MiniLogProb(seed.wrapping_mul(5).wrapping_add(2)),
        prob_missed_allele: MiniLogProb(seed.wrapping_mul(7).wrapping_add(3)),
        prob_sample_alt: MiniLogProb(seed.wrapping_mul(11).wrapping_add(4)),
        prob_double_overlap: MiniLogProb(seed.wrapping_mul(13).wrapping_add(5)),
        prob_hit_base: MiniLogProb(seed.wrapping_mul(17).wrapping_add(6)),
        strand: match seed % 4 {
            0 => Strand::Forward,
            1 => Strand::Reverse,
            2 => Strand::Both,
            _ => Strand::Unknown,
        },
        read_orientation: match seed % 9 {
            0 => ReadOrientation::F1R2,
            1 => ReadOrientation::F2R1,
            2 => ReadOrientation::R1F2,
            3 => ReadOrientation::R2F1,
            4 => ReadOrientation::F1F2,
            5 => ReadOrientation::R1R2,
            6 => ReadOrientation::F2F1,
            7 => ReadOrientation::R2R1,
            _ => ReadOrientation::Unknown,
        },
        read_position: if seed % 2 == 0 { ReadPosition::Major } else { ReadPosition::Other },
        softclipped: seed % 3 == 0,
        paired: seed % 5 != 0,
    }
}

fn pileup(n: usize) -> Vec<Observation> {
    (0..n).map(|i| observation((i * 37 + 11) as u16)).collect()
}

fn field<'a>(fields: &'a [InfoField], tag: ObservationTag) -> &'a Vec<i32> {
    &fields.iter().find(|f| f.tag == tag).unwrap().values
}

#[test]
fn round_trip_of_pileups_of_every_small_size() {
    for n in 0..40 {
        let observations = pileup(n);
        let fields = write_observations(&observations).unwrap();
        let back = read_observations(&fields).unwrap();
        assert_eq!(back, observations);
    }
}

#[test]
fn round_trip_of_a_thousand_observations() {
    let observations = pileup(1000);
    let fields = write_observations(&observations).unwrap();
    assert_eq!(fields.len(), 12);
    let back = read_observations(&fields).unwrap();
    assert_eq!(back.len(), 1000);
    assert_eq!(back, observations);
}

#[test]
fn record_has_twelve_arrays_in_the_order_of_writing() {
    let fields = write_observations(&pileup(3)).unwrap();
    let tags: Vec<ObservationTag> = fields.iter().map(|f| f.tag).collect();
    assert_eq!(
        tags,
        vec![
            ObservationTag::ProbMapping,
            ObservationTag::ProbRef,
            ObservationTag::ProbAlt,
            ObservationTag::ProbMissedAllele,
            ObservationTag::ProbSampleAlt,
            ObservationTag::ProbDoubleOverlap,
            ObservationTag::Strand,
            ObservationTag::ReadOrientation,
            ObservationTag::Softclipped,
            ObservationTag::Paired,
            ObservationTag::ReadPosition,
            ObservationTag::ProbHitBase,
        ]
    );
}

#[test]
fn exact_units_of_a_single_observation() {
    let o = Observation {
        prob_mapping: MiniLogProb(0x1234),
        prob_alt: MiniLogProb(0),
        prob_ref: MiniLogProb(0xffff),
        prob_missed_allele: MiniLogProb(1),
        prob_sample_alt: MiniLogProb(2),
        prob_double_overlap: MiniLogProb(3),
        prob_hit_base: MiniLogProb(0x8000),
        strand: Strand::Reverse,
        read_orientation: ReadOrientation::Unknown,
        read_position: ReadPosition::Other,
        softclipped: true,
        paired: false,
    };
    let fields = write_observations(&vec![o]).unwrap();
    assert_eq!(field(&fields, ObservationTag::ProbMapping), &vec![1, 0, 0, 0, 0x1234]);
    assert_eq!(field(&fields, ObservationTag::ProbAlt), &vec![1, 0, 0, 0, 0]);
    assert_eq!(field(&fields, ObservationTag::ProbRef), &vec![1, 0, 0, 0, 65535]);
    assert_eq!(field(&fields, ObservationTag::ProbHitBase), &vec![1, 0, 0, 0, 32768]);
    assert_eq!(field(&fields, ObservationTag::Strand), &vec![1, 0, 0, 0, 1, 0]);
    assert_eq!(field(&fields, ObservationTag::ReadOrientation), &vec![1, 0, 0, 0, 8, 0]);
    assert_eq!(field(&fields, ObservationTag::ReadPosition), &vec![1, 0, 0, 0, 1, 0]);
    assert_eq!(
        field(&fields, ObservationTag::Softclipped),
        &vec![257, 0, 0, 0, 256, 1, 0, 0, 0]
    );
    assert_eq!(field(&fields, ObservationTag::Paired), &vec![257, 0, 0, 0, 0, 1, 0, 0, 0]);
}

#[test]
fn exact_units_of_the_empty_pileup() {
    let fields = write_observations(&Vec::new()).unwrap();
    assert_eq!(field(&fields, ObservationTag::ProbMapping), &vec![0, 0, 0, 0]);
    assert_eq!(field(&fields, ObservationTag::Strand), &vec![0, 0, 0, 0]);
    assert_eq!(field(&fields, ObservationTag::Softclipped), &vec![0, 0, 0, 0, 0]);
    assert_eq!(read_observations(&fields).unwrap(), Vec::new());
}

#[test]
fn flags_fill_blocks_from_the_lowest_bit() {
    let mut observations = pileup(10);
    for (i, o) in observations.iter_mut().enumerate() {
        o.softclipped = i == 0 || i == 3 || i == 9;
    }
    let fields = write_observations(&observations).unwrap();
    // presence 1, two blocks, blocks 0b0000_1001 and 0b0000_0010, ten bits
    let bytes = unpack_units(field(&fields, ObservationTag::Softclipped));
    assert_eq!(
        bytes,
        vec![1, 2, 0, 0, 0, 0, 0, 0, 0, 0b0000_1001, 0b0000_0010, 10, 0, 0, 0, 0, 0, 0, 0, 0]
    );
}

#[test]
fn every_unit_is_a_16_bit_word() {
    let fields = write_observations(&pileup(100)).unwrap();
    for f in &fields {
        assert!(f.values.iter().all(|&v| (0..=65535).contains(&v)));
    }
}

#[test]
fn payload_of_odd_length_is_padded_with_a_zero() {
    assert_eq!(pack_payload(vec![1, 2, 3]), vec![0x0201, 0x0003]);
    assert_eq!(pack_payload(vec![1, 2, 3, 4]), vec![0x0201, 0x0403]);
    assert_eq!(pack_payload(vec![]), Vec::<i32>::new());
}

#[test]
fn units_pack_little_endian_and_unpack_by_their_low_word() {
    assert_eq!(pack_units(&vec![0x34, 0x12, 0xff, 0xff]), vec![0x1234, 65535]);
    assert_eq!(unpack_units(&vec![0x1234, 65535]), vec![0x34, 0x12, 0xff, 0xff]);
    assert_eq!(unpack_units(&vec![-1, 65536 + 7, i32::MIN]), vec![0xff, 0xff, 7, 0, 0, 0]);
}

#[test]
fn missing_array_is_reported_by_its_tag() {
    let mut fields = write_observations(&pileup(4)).unwrap();
    fields.retain(|f| f.tag != ObservationTag::ProbAlt);
    assert_eq!(
        read_observations(&fields),
        Err(CodecError::MissingField(ObservationTag::ProbAlt))
    );
    assert_eq!(
        read_observations(&Vec::new()),
        Err(CodecError::MissingField(ObservationTag::ProbMapping))
    );
}

#[test]
fn truncated_array_is_malformed() {
    let mut fields = write_observations(&pileup(4)).unwrap();
    for f in fields.iter_mut() {
        if f.tag == ObservationTag::ProbRef {
            f.values.truncate(5);
        }
    }
    assert_eq!(
        read_observations(&fields),
        Err(CodecError::Malformed(ObservationTag::ProbRef))
    );
}

#[test]
fn unknown_category_code_is_malformed() {
    let mut fields = write_observations(&pileup(2)).unwrap();
    for f in fields.iter_mut() {
        if f.tag == ObservationTag::Strand {
            f.values[4] = 4;
        }
    }
    assert_eq!(
        read_observations(&fields),
        Err(CodecError::Malformed(ObservationTag::Strand))
    );
}

#[test]
fn bit_vector_with_more_bits_than_blocks_is_malformed() {
    let mut fields = write_observations(&pileup(2)).unwrap();
    for f in fields.iter_mut() {
        if f.tag == ObservationTag::Paired {
            // bit count 9 over one block
            f.values[5] = 9;
        }
    }
    assert_eq!(
        read_observations(&fields),
        Err(CodecError::Malformed(ObservationTag::Paired))
    );
}

#[test]
fn shorter_column_is_reported_and_longer_column_is_cut() {
    let three = write_observations(&pileup(3)).unwrap();
    let five = write_observations(&pileup(5)).unwrap();
    let mut mixed: Vec<InfoField> = Vec::new();
    for (a, b) in three.into_iter().zip(five.into_iter()) {
        mixed.push(if a.tag == ObservationTag::ProbMapping { b } else { a });
    }
    assert_eq!(read_observations(&mixed), Err(CodecError::ShortColumn));

    let three = write_observations(&pileup(3)).unwrap();
    let five = write_observations(&pileup(5)).unwrap();
    let mut mixed: Vec<InfoField> = Vec::new();
    for (a, b) in three.into_iter().zip(five.into_iter()) {
        mixed.push(if a.tag == ObservationTag::ProbMapping { a } else { b });
    }
    let back = read_observations(&mixed).unwrap();
    assert_eq!(back.len(), 3);
    assert_eq!(back[1..], pileup(5)[1..3]);
}

#[test]
fn first_array_under_a_tag_counts() {
    let mut fields = write_observations(&pileup(3)).unwrap();
    let other = write_observations(&pileup(7)).unwrap();
    fields.extend(other);
    assert_eq!(read_observations(&fields).unwrap(), pileup(3));
}

#[test]
fn tag_names() {
    let names: Vec<&str> = (0..12).map(|i| ObservationTag::at(i).name()).collect();
    assert_eq!(
        names,
        vec![
            "PROB_MAPPING",
            "PROB_REF",
            "PROB_ALT",
            "PROB_MISSED_ALLELE",
            "PROB_SAMPLE_ALT",
            "PROB_DOUBLE_OVERLAP",
            "STRAND",
            "READ_ORIENTATION",
            "SOFTCLIPPED",
            "PAIRED",
            "READ_POSITION",
            "PROB_HIT_BASE",
        ]
    );
}

fn with_field(mut fields: Vec<InfoField>, tag: ObservationTag, bytes: Vec<u8>) -> Vec<InfoField> {
    for f in fields.iter_mut() {
        if f.tag == tag {
            f.values = pack_payload(bytes.clone());
        }
    }
    fields
}

#[test]
fn announced_length_beyond_the_bytes_is_malformed() {
    let fields = write_observations(&pileup(2)).unwrap();
    // 2^62 values announced, none there
    let huge = vec![0, 0, 0, 0, 0, 0, 0, 0x40];
    assert_eq!(
        read_observations(&with_field(fields, ObservationTag::ProbMapping, huge.clone())),
        Err(CodecError::Malformed(ObservationTag::ProbMapping))
    );
    let fields = write_observations(&pileup(2)).unwrap();
    assert_eq!(
        read_observations(&with_field(fields, ObservationTag::ReadPosition, huge)),
        Err(CodecError::Malformed(ObservationTag::ReadPosition))
    );
    let fields = write_observations(&pileup(2)).unwrap();
    // two values announced, one there
    assert_eq!(
        read_observations(&with_field(
            fields,
            ObservationTag::ProbAlt,
            vec![2, 0, 0, 0, 0, 0, 0, 0, 7, 0]
        )),
        Err(CodecError::Malformed(ObservationTag::ProbAlt))
    );
    let fields = write_observations(&pileup(2)).unwrap();
    // fewer than eight bytes of length
    assert_eq!(
        read_observations(&with_field(fields, ObservationTag::ProbAlt, vec![0, 0, 0, 0, 0, 0])),
        Err(CodecError::Malformed(ObservationTag::ProbAlt))
    );
}

#[test]
fn bytes_behind_a_column_are_ignored() {
    let observations = pileup(3);
    let fields = write_observations(&observations).unwrap();
    let mut bytes = unpack_units(field(&fields, ObservationTag::ProbRef));
    bytes.extend_from_slice(&[9, 9, 9, 9]);
    let fields = with_field(fields, ObservationTag::ProbRef, bytes);
    assert_eq!(read_observations(&fields).unwrap(), observations);
}

#[test]
fn bit_vector_storage_must_fit() {
    let le = |n: u64| n.to_le_bytes().to_vec();
    let bits = |tag: u8, blocks: &[u8], announced: u64, count: u64| {
        let mut bytes = vec![tag];
        if tag != 0 {
            bytes.extend(le(announced));
            bytes.extend_from_slice(blocks);
        }
        bytes.extend(le(count));
        bytes
    };
    let check = |bytes: Vec<u8>| {
        let fields = write_observations(&pileup(0)).unwrap();
        read_observations(&with_field(fields, ObservationTag::Softclipped, bytes))
    };
    let malformed = Err(CodecError::Malformed(ObservationTag::Softclipped));
    // storage present but empty
    assert_eq!(check(bits(1, &[], 0, 0)), malformed);
    // no storage, yet bits counted
    assert_eq!(check(bits(0, &[], 0, 1)), malformed);
    // a presence byte that is neither 0 nor 1
    assert_eq!(check(bits(2, &[0], 1, 0)), malformed);
    // more blocks announced than there are
    assert_eq!(check(bits(1, &[0, 0], 1 << 61, 3)), malformed);
    assert_eq!(check(bits(1, &[0, 0], 4, 3)), malformed);
    // the padding byte is taken for a block, and the bit count read behind it
    assert_eq!(check(bits(1, &[0, 0], 3, 3)), Ok(Vec::new()));
    // the bit count is missing
    assert_eq!(check(vec![1, 1, 0, 0, 0, 0, 0, 0, 0, 0xff]), malformed);
    assert_eq!(check(vec![0]), malformed);
    // storage with room to spare is fine
    assert_eq!(check(bits(1, &[0xff, 0xff], 2, 9)), Ok(Vec::new()));
    assert_eq!(check(bits(0, &[], 0, 0)), Ok(Vec::new()));
}

#[test]
fn flags_are_read_from_the_lowest_bit_of_each_block() {
    let observations = pileup(11);
    let fields = write_observations(&observations).unwrap();
    let mut bytes = vec![1u8];
    bytes.extend(2u64.to_le_bytes());
    bytes.extend_from_slice(&[0b1010_0001, 0b0000_0110]);
    bytes.extend(11u64.to_le_bytes());
    let back = read_observations(&with_field(fields, ObservationTag::Paired, bytes)).unwrap();
    let paired: Vec<bool> = back.iter().map(|o| o.paired).collect();
    assert_eq!(
        paired,
        vec![true, false, false, false, false, true, false, true, false, true, true]
    );
}

#[test]
fn units_beyond_16_bits_count_by_their_low_word() {
    let observations = pileup(3);
    let mut fields = write_observations(&observations).unwrap();
    for f in fields.iter_mut() {
        for v in f.values.iter_mut() {
            *v += 0x7fff_0000;
        }
    }
    assert_eq!(read_observations(&fields).unwrap(), observations);
}

#[test]
fn every_pileup_can_be_written() {
    for n in [0usize, 1, 7, 8, 9, 64, 65, 4097] {
        let fields = write_observations(&pileup(n));
        assert!(fields.is_ok());
        assert_eq!(fields.unwrap().len(), 12);
    }
}
