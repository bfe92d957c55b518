//! Genomic coordinates: contigs by name, positions 0-based, intervals half-open.

use vstd::prelude::*;

verus! {

/// A position on a contig.
#[derive(Clone, Debug)]
pub struct Locus {
    pub contig: String,
    pub pos: u64,
}

/// A half-open stretch `start..end` of a contig.
#[derive(Clone, Debug)]
pub struct Interval {
    pub contig: String,
    pub start: u64,
    pub end: u64,
}

impl Locus {
    pub fn new(contig: String, pos: u64) -> (locus: Locus)
        ensures
            locus.contig == contig,
            locus.pos == pos,
    {
        Locus { contig, pos }
    }
}

impl Interval {
    pub fn new(contig: String, start: u64, end: u64) -> (interval: Interval)
        ensures
            interval.contig == contig,
            interval.start == start,
            interval.end == end,
    {
        Interval { contig, start, end }
    }
}

} // verus!
