//! Candidate variants as a closed tagged union.

use crate::bytes::copy_bytes;
use vstd::prelude::*;

verus! {

/// A candidate variant, as decoded from a record of the candidate stream.
#[derive(Debug)]
pub enum Variant {
    /// Single nucleotide variant with its alternative base.
    SNV(u8),
    /// Multi nucleotide variant with its alternative bases.
    MNV(Vec<u8>),
    /// No variation: a site at which the reference allele is called.
    NoVariation,
    /// Deletion of the given length.
    Deletion(u64),
    /// Insertion of the given sequence.
    Insertion(Vec<u8>),
    /// Inversion of the given length.
    Inversion(u64),
    /// Duplication of the given length.
    Duplication(u64),
    /// Replacement of one allele by another.
    Replacement { ref_allele: Vec<u8>, alt_allele: Vec<u8> },
    /// One end of a rearrangement, with the event that groups it with others.
    Breakend { ref_allele: Vec<u8>, spec: Vec<u8>, event: Vec<u8> },
}

/// The mathematical value of a variant.
pub enum VariantView {
    SNV(u8),
    MNV(Seq<u8>),
    NoVariation,
    Deletion(u64),
    Insertion(Seq<u8>),
    Inversion(u64),
    Duplication(u64),
    Replacement { ref_allele: Seq<u8>, alt_allele: Seq<u8> },
    Breakend { ref_allele: Seq<u8>, spec: Seq<u8>, event: Seq<u8> },
}

impl View for Variant {
    type V = VariantView;

    open spec fn view(&self) -> VariantView {
        match self {
            Variant::SNV(alt) => VariantView::SNV(*alt),
            Variant::MNV(alt) => VariantView::MNV(alt@),
            Variant::NoVariation => VariantView::NoVariation,
            Variant::Deletion(len) => VariantView::Deletion(*len),
            Variant::Insertion(seq) => VariantView::Insertion(seq@),
            Variant::Inversion(len) => VariantView::Inversion(*len),
            Variant::Duplication(len) => VariantView::Duplication(*len),
            Variant::Replacement { ref_allele, alt_allele } => VariantView::Replacement {
                ref_allele: ref_allele@,
                alt_allele: alt_allele@,
            },
            Variant::Breakend { ref_allele, spec, event } => VariantView::Breakend {
                ref_allele: ref_allele@,
                spec: spec@,
                event: event@,
            },
        }
    }
}

impl VariantView {
    /// The constraints that each kind of variant puts on its contents:
    /// sequences are not empty, lengths are above zero.
    pub open spec fn valid(self) -> bool {
        match self {
            VariantView::MNV(alt) => alt.len() > 0,
            VariantView::Deletion(len) => len > 0,
            VariantView::Insertion(seq) => seq.len() > 0,
            VariantView::Inversion(len) => len > 0,
            VariantView::Duplication(len) => len > 0,
            _ => true,
        }
    }
}

impl Variant {
    pub fn is_breakend(&self) -> (b: bool)
        ensures
            b == (self@ is Breakend),
    {
        match self {
            Variant::Breakend { .. } => true,
            _ => false,
        }
    }

    /// Whether the contents meet the constraints of the kind of variant.
    pub fn is_valid(&self) -> (b: bool)
        ensures
            b == self@.valid(),
    {
        match self {
            Variant::MNV(alt) => alt.len() > 0,
            Variant::Deletion(len) => *len > 0,
            Variant::Insertion(seq) => seq.len() > 0,
            Variant::Inversion(len) => *len > 0,
            Variant::Duplication(len) => *len > 0,
            _ => true,
        }
    }

    /// A copy of the variant.
    pub fn copy(&self) -> (c: Variant)
        ensures
            c@ == self@,
    {
        match self {
            Variant::SNV(alt) => Variant::SNV(*alt),
            Variant::MNV(alt) => Variant::MNV(copy_bytes(alt)),
            Variant::NoVariation => Variant::NoVariation,
            Variant::Deletion(len) => Variant::Deletion(*len),
            Variant::Insertion(seq) => Variant::Insertion(copy_bytes(seq)),
            Variant::Inversion(len) => Variant::Inversion(*len),
            Variant::Duplication(len) => Variant::Duplication(*len),
            Variant::Replacement { ref_allele, alt_allele } => Variant::Replacement {
                ref_allele: copy_bytes(ref_allele),
                alt_allele: copy_bytes(alt_allele),
            },
            Variant::Breakend { ref_allele, spec, event } => Variant::Breakend {
                ref_allele: copy_bytes(ref_allele),
                spec: copy_bytes(spec),
                event: copy_bytes(event),
            },
        }
    }
}

} // verus!
