//! Per-fragment observations as they are stored: probabilities in their
//! 16-bit quantised form, categories as closed enums, flags as booleans.

use vstd::prelude::*;

verus! {

/// A log-space probability quantised to 16 bits, as stored on disk. The bits
/// are carried verbatim; converting from and to a wide log probability is the
/// caller's business.
#[derive(Clone, Copy, Debug, PartialEq, Eq, Structural)]
pub struct MiniLogProb(pub u16);

/// Strand evidence of a fragment.
#[derive(Clone, Copy, Debug, PartialEq, Eq, Structural)]
pub enum Strand {
    Forward,
    Reverse,
    Both,
    Unknown,
}

/// Orientation of the two reads of a pair.
#[derive(Clone, Copy, Debug, PartialEq, Eq, Structural)]
pub enum ReadOrientation {
    F1R2,
    F2R1,
    R1F2,
    R2F1,
    F1F2,
    R1R2,
    F2F1,
    R2R1,
    Unknown,
}

/// Position of the variant within the read: the most frequent one, or another.
#[derive(Clone, Copy, Debug, PartialEq, Eq, Structural)]
pub enum ReadPosition {
    Major,
    Other,
}

/// Evidence of one read fragment for one variant. The probability of a wrong
/// mapping is not stored: it is the complement of `prob_mapping`.
#[derive(Clone, Copy, Debug, PartialEq, Eq, Structural)]
pub struct Observation {
    /// Probability that the fragment is mapped correctly.
    pub prob_mapping: MiniLogProb,
    /// Probability of the fragment given the alternative allele.
    pub prob_alt: MiniLogProb,
    /// Probability of the fragment given the reference allele.
    pub prob_ref: MiniLogProb,
    /// Probability of the fragment given an allele that was not considered.
    pub prob_missed_allele: MiniLogProb,
    /// Probability to sample the alternative allele.
    pub prob_sample_alt: MiniLogProb,
    /// Probability that the two reads of the fragment overlap at the variant.
    pub prob_double_overlap: MiniLogProb,
    /// Probability to hit any one base of the fragment.
    pub prob_hit_base: MiniLogProb,
    pub strand: Strand,
    pub read_orientation: ReadOrientation,
    pub read_position: ReadPosition,
    pub softclipped: bool,
    pub paired: bool,
}

impl Strand {
    /// The integer a strand is stored as.
    pub open spec fn spec_code(self) -> u32 {
        match self {
            Strand::Forward => 0,
            Strand::Reverse => 1,
            Strand::Both => 2,
            Strand::Unknown => 3,
        }
    }

    /// The strand stored as `code`, if there is one.
    pub open spec fn spec_from_code(code: u32) -> Option<Strand> {
        if code == 0 {
            Some(Strand::Forward)
        } else if code == 1 {
            Some(Strand::Reverse)
        } else if code == 2 {
            Some(Strand::Both)
        } else if code == 3 {
            Some(Strand::Unknown)
        } else {
            None
        }
    }

    pub fn code(self) -> (c: u32)
        ensures
            c == self.spec_code(),
    {
        match self {
            Strand::Forward => 0,
            Strand::Reverse => 1,
            Strand::Both => 2,
            Strand::Unknown => 3,
        }
    }

    pub fn from_code(code: u32) -> (s: Option<Strand>)
        ensures
            s == Strand::spec_from_code(code),
    {
        if code == 0 {
            Some(Strand::Forward)
        } else if code == 1 {
            Some(Strand::Reverse)
        } else if code == 2 {
            Some(Strand::Both)
        } else if code == 3 {
            Some(Strand::Unknown)
        } else {
            None
        }
    }
}

impl ReadOrientation {
    /// The integer an orientation is stored as.
    pub open spec fn spec_code(self) -> u32 {
        match self {
            ReadOrientation::F1R2 => 0,
            ReadOrientation::F2R1 => 1,
            ReadOrientation::R1F2 => 2,
            ReadOrientation::R2F1 => 3,
            ReadOrientation::F1F2 => 4,
            ReadOrientation::R1R2 => 5,
            ReadOrientation::F2F1 => 6,
            ReadOrientation::R2R1 => 7,
            ReadOrientation::Unknown => 8,
        }
    }

    /// The orientation stored as `code`, if there is one.
    pub open spec fn spec_from_code(code: u32) -> Option<ReadOrientation> {
        if code == 0 {
            Some(ReadOrientation::F1R2)
        } else if code == 1 {
            Some(ReadOrientation::F2R1)
        } else if code == 2 {
            Some(ReadOrientation::R1F2)
        } else if code == 3 {
            Some(ReadOrientation::R2F1)
        } else if code == 4 {
            Some(ReadOrientation::F1F2)
        } else if code == 5 {
            Some(ReadOrientation::R1R2)
        } else if code == 6 {
            Some(ReadOrientation::F2F1)
        } else if code == 7 {
            Some(ReadOrientation::R2R1)
        } else if code == 8 {
            Some(ReadOrientation::Unknown)
        } else {
            None
        }
    }

    pub fn code(self) -> (c: u32)
        ensures
            c == self.spec_code(),
    {
        match self {
            ReadOrientation::F1R2 => 0,
            ReadOrientation::F2R1 => 1,
            ReadOrientation::R1F2 => 2,
            ReadOrientation::R2F1 => 3,
            ReadOrientation::F1F2 => 4,
            ReadOrientation::R1R2 => 5,
            ReadOrientation::F2F1 => 6,
            ReadOrientation::R2R1 => 7,
            ReadOrientation::Unknown => 8,
        }
    }

    pub fn from_code(code: u32) -> (o: Option<ReadOrientation>)
        ensures
            o == ReadOrientation::spec_from_code(code),
    {
        if code == 0 {
            Some(ReadOrientation::F1R2)
        } else if code == 1 {
            Some(ReadOrientation::F2R1)
        } else if code == 2 {
            Some(ReadOrientation::R1F2)
        } else if code == 3 {
            Some(ReadOrientation::R2F1)
        } else if code == 4 {
            Some(ReadOrientation::F1F2)
        } else if code == 5 {
            Some(ReadOrientation::R1R2)
        } else if code == 6 {
            Some(ReadOrientation::F2F1)
        } else if code == 7 {
            Some(ReadOrientation::R2R1)
        } else if code == 8 {
            Some(ReadOrientation::Unknown)
        } else {
            None
        }
    }
}

impl ReadPosition {
    /// The integer a read position is stored as.
    pub open spec fn spec_code(self) -> u32 {
        match self {
            ReadPosition::Major => 0,
            ReadPosition::Other => 1,
        }
    }

    /// The read position stored as `code`, if there is one.
    pub open spec fn spec_from_code(code: u32) -> Option<ReadPosition> {
        if code == 0 {
            Some(ReadPosition::Major)
        } else if code == 1 {
            Some(ReadPosition::Other)
        } else {
            None
        }
    }

    pub fn code(self) -> (c: u32)
        ensures
            c == self.spec_code(),
    {
        match self {
            ReadPosition::Major => 0,
            ReadPosition::Other => 1,
        }
    }

    pub fn from_code(code: u32) -> (p: Option<ReadPosition>)
        ensures
            p == ReadPosition::spec_from_code(code),
    {
        if code == 0 {
            Some(ReadPosition::Major)
        } else if code == 1 {
            Some(ReadPosition::Other)
        } else {
            None
        }
    }
}

} // verus!
