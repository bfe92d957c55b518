//! Where a read is realigned: for each locus of a variant, a window of the
//! read and a padded window of the reference that bracket the breakpoint, and
//! the merging of windows that touch on the reference.

use crate::genome::Interval;
use crate::observation::Strand;
use core::ops::Range;
use std::collections::BTreeMap;
use vstd::prelude::*;

verus! {

/// The longest read window that the edit distance prefilter takes.
pub const MAX_PATTERN_LEN: usize = 128;

/// What the realigner reads of an alignment record.
#[derive(Clone, Debug)]
pub struct AlignedRead {
    /// Name of the contig the read is aligned to.
    pub contig: String,
    /// Leftmost reference position of the alignment.
    pub pos: i64,
    /// Reference position behind the alignment.
    pub end_pos: i64,
    /// Number of bases of the read.
    pub seq_len: usize,
}

/// The read positions that the alignment assigns to the two ends of a locus,
/// soft clips and deletions counted in; `None` where the alignment does not
/// reach that end.
#[derive(Clone, Copy, Debug)]
pub struct ReadPositions {
    pub start: Option<u32>,
    pub end: Option<u32>,
}

/// A locus of a variant together with its positions in a read.
#[derive(Clone, Debug)]
pub struct LocusLookup {
    pub locus: Interval,
    pub positions: ReadPositions,
}

/// A window of the read and a window of the reference that together bracket
/// a breakpoint of the variant. `overlap` says whether the read bears on the
/// variant at this locus.
#[derive(Debug)]
pub struct CandidateRegion {
    pub overlap: bool,
    pub read_interval: Range<usize>,
    pub ref_interval: Range<usize>,
}

/// Geometry of realignment windows.
#[derive(Clone, Copy, Debug)]
pub struct Realigner {
    max_window: u64,
}

/// `x`, or the largest `usize` where `x` is beyond it.
pub open spec fn clamp(x: int) -> int {
    if x > usize::MAX {
        usize::MAX as int
    } else {
        x
    }
}

pub open spec fn spec_min(a: int, b: int) -> int {
    if a <= b {
        a
    } else {
        b
    }
}

pub open spec fn spec_max(a: int, b: int) -> int {
    if a >= b {
        a
    } else {
        b
    }
}

/// The range `start..end` of two integers that fit.
pub open spec fn span(start: int, end: int) -> Range<usize> {
    Range { start: start as usize, end: end as usize }
}

impl AlignedRead {
    /// The alignment lies at a position of the reference.
    pub open spec fn mapped(&self) -> bool {
        self.pos >= 0
    }
}

impl ReadPositions {
    /// Where both ends are found, they lie in order within the read.
    pub open spec fn within(&self, seq_len: usize) -> bool {
        self.start is Some && self.end is Some ==> self.start->0 <= self.end->0 <= seq_len
    }
}

impl Realigner {
    /// Create a new instance with the given window around a breakpoint.
    pub fn new(max_window: u64) -> (realigner: Self)
        ensures
            realigner.spec_max_window() == max_window,
    {
        Realigner { max_window }
    }

    pub closed spec fn spec_max_window(&self) -> u64 {
        self.max_window
    }

    pub fn max_window(&self) -> (w: u64)
        ensures
            w == self.spec_max_window(),
    {
        self.max_window
    }

    /// The window on the read, to each side of a breakpoint.
    pub open spec fn window(&self) -> int {
        clamp(self.spec_max_window() as int)
    }

    /// The window on the reference: one and a half times the window on the
    /// read, rounded to the nearest integer, a half upwards. It is a bit
    /// larger to allow for close indels, but not so large that the read can
    /// align away from the breakpoint.
    pub open spec fn spec_ref_window(&self) -> int {
        clamp((3 * self.spec_max_window() + 1) / 2)
    }

    /// The reference window around a breakpoint, cut at the ends of the contig.
    pub open spec fn ref_span(&self, breakpoint: int, ref_len: int) -> Range<usize> {
        span(
            spec_max(clamp(breakpoint) - self.spec_ref_window(), 0),
            spec_min(clamp(breakpoint) + self.spec_ref_window(), ref_len),
        )
    }

    /// The read window around a single read position, cut at the ends of the
    /// read.
    pub open spec fn read_span(&self, q: int, seq_len: int) -> Range<usize> {
        span(spec_max(q - self.window(), 0), spec_min(q + self.window(), seq_len))
    }

    /// The read window of a read that encloses the variant between `qstart`
    /// and `qend`: the variant padded by the window on each side, cut at the
    /// ends of the read. A window longer than the prefilter's limit is
    /// contracted to it from both sides, the odd base from the right.
    pub open spec fn enclosing_span(&self, qstart: int, qend: int, seq_len: int) -> Range<usize> {
        let offset = spec_max(qstart - self.window(), 0);
        let end = spec_min(qend + self.window(), seq_len);
        let exceed = spec_max(end - offset - MAX_PATTERN_LEN, 0);
        span(offset + exceed / 2, end - (exceed - exceed / 2))
    }

    /// The read window around the middle of a read that reaches neither end
    /// of the locus.
    pub open spec fn midpoint_span(&self, seq_len: int) -> Range<usize> {
        span(
            spec_max(seq_len / 2 - self.window(), 0),
            spec_min(seq_len / 2 + self.window() - 1, seq_len),
        )
    }

    /// The read starts at or behind the start of the locus and ends at or
    /// before its end.
    pub open spec fn enclosed_by(read: AlignedRead, locus: Interval) -> bool {
        read.pos >= locus.start && read.end_pos <= locus.end
    }

    /// A window can be placed: the read positions lie within the read, and a
    /// read that reaches neither end of the locus is mapped and leaves room for
    /// a window around its middle.
    pub open spec fn can_place(&self, read: AlignedRead, positions: ReadPositions) -> bool {
        &&& positions.within(read.seq_len)
        &&& positions.start is None && positions.end is None ==> read.mapped() && read.seq_len / 2
            + self.window() >= 1
    }

    /// The candidate region of a read at a locus.
    ///
    /// - Both ends found: the read encloses the variant; the read window
    ///   pads the variant, the reference window lies around the locus start.
    /// - Only the start found: the read overlaps from the right.
    /// - Only the end found: the read overlaps from the left; the reference
    ///   window lies around the locus end.
    /// - Neither found: the middle of the read is taken as breakpoint, and the
    ///   region counts only where the variant encloses the whole alignment.
    pub open spec fn spec_candidate_region(
        &self,
        read: AlignedRead,
        locus: Interval,
        positions: ReadPositions,
        ref_len: usize,
    ) -> CandidateRegion {
        match (positions.start, positions.end) {
            (Some(qstart), Some(qend)) => CandidateRegion {
                overlap: true,
                read_interval: self.enclosing_span(qstart as int, qend as int, read.seq_len as int),
                ref_interval: self.ref_span(locus.start as int, ref_len as int),
            },
            (Some(qstart), None) => CandidateRegion {
                overlap: true,
                read_interval: self.read_span(qstart as int, read.seq_len as int),
                ref_interval: self.ref_span(locus.start as int, ref_len as int),
            },
            (None, Some(qend)) => CandidateRegion {
                overlap: true,
                read_interval: self.read_span(qend as int, read.seq_len as int),
                ref_interval: self.ref_span(locus.end as int, ref_len as int),
            },
            (None, None) => CandidateRegion {
                overlap: Self::enclosed_by(read, locus),
                read_interval: self.midpoint_span(read.seq_len as int),
                ref_interval: self.ref_span(read.pos + read.seq_len / 2, ref_len as int),
            },
        }
    }

    fn window_len(&self) -> (w: usize)
        ensures
            w == self.window(),
    {
        to_usize(self.max_window)
    }

    /// The window on the reference.
    pub fn ref_window(&self) -> (w: usize)
        ensures
            w == self.spec_ref_window(),
    {
        // the window and the larger half of it, and no more than fits
        let half = self.max_window - self.max_window / 2;
        match self.max_window.checked_add(half) {
            Some(sum) => to_usize(sum),
            None => usize::MAX,
        }
    }

    fn ref_interval(&self, breakpoint: usize, ref_len: usize) -> (r: Range<usize>)
        ensures
            r == self.ref_span(breakpoint as int, ref_len as int),
    {
        let w = self.ref_window();
        breakpoint.saturating_sub(w)..min_of(breakpoint.saturating_add(w), ref_len)
    }

    fn read_interval(&self, q: usize, seq_len: usize) -> (r: Range<usize>)
        ensures
            r == self.read_span(q as int, seq_len as int),
    {
        let w = self.window_len();
        q.saturating_sub(w)..min_of(q.saturating_add(w), seq_len)
    }

    fn enclosing_interval(&self, qstart: usize, qend: usize, seq_len: usize) -> (r: Range<usize>)
        requires
            qstart <= qend <= seq_len,
        ensures
            r == self.enclosing_span(qstart as int, qend as int, seq_len as int),
    {
        let window = self.window_len();
        let mut read_offset = qstart.saturating_sub(window);
        let mut read_end = min_of(qend.saturating_add(window), seq_len);
        // reads that enclose the entire variant may exceed the maximum pattern length
        let exceed = (read_end - read_offset).saturating_sub(MAX_PATTERN_LEN);
        if exceed > 0 {
            read_offset += exceed / 2;
            read_end -= exceed - exceed / 2;
        }
        read_offset..read_end
    }

    fn midpoint_interval(&self, seq_len: usize) -> (r: Range<usize>)
        requires
            seq_len / 2 + self.window() >= 1,
        ensures
            r == self.midpoint_span(seq_len as int),
    {
        let m = seq_len / 2;
        let w = self.window_len();
        let end = match m.checked_add(w) {
            Some(sum) => min_of(sum - 1, seq_len),
            None => seq_len,
        };
        m.saturating_sub(w)..end
    }

    /// The candidate region of `read` at `locus`, given the read positions of
    /// the two ends of the locus and the length of the contig.
    pub fn candidate_region(
        &self,
        read: &AlignedRead,
        locus: &Interval,
        positions: ReadPositions,
        ref_len: usize,
    ) -> (region: CandidateRegion)
        requires
            self.can_place(*read, positions),
        ensures
            region == self.spec_candidate_region(*read, *locus, positions, ref_len),
    {
        match (positions.start, positions.end) {
            // read encloses variant
            (Some(qstart), Some(qend)) => CandidateRegion {
                overlap: true,
                read_interval: self.enclosing_interval(
                    qstart as usize,
                    qend as usize,
                    read.seq_len,
                ),
                ref_interval: self.ref_interval(to_usize(locus.start), ref_len),
            },
            // read overlaps from right
            (Some(qstart), None) => CandidateRegion {
                overlap: true,
                read_interval: self.read_interval(qstart as usize, read.seq_len),
                ref_interval: self.ref_interval(to_usize(locus.start), ref_len),
            },
            // read overlaps from left
            (None, Some(qend)) => CandidateRegion {
                overlap: true,
                read_interval: self.read_interval(qend as usize, read.seq_len),
                ref_interval: self.ref_interval(to_usize(locus.end), ref_len),
            },
            // no overlap
            (None, None) => {
                let breakpoint = to_usize(read.pos as u64).saturating_add(read.seq_len / 2);
                // Only deletions get here with an overlap: the read comes from the
                // reference allele and is mapped between start and end of the deletion.
                let enclosed = read.pos as u64 >= locus.start && (read.end_pos < 0
                    || read.end_pos as u64 <= locus.end);
                CandidateRegion {
                    overlap: enclosed,
                    read_interval: self.midpoint_interval(read.seq_len),
                    ref_interval: self.ref_interval(breakpoint, ref_len),
                }
            },
        }
    }
}

/// `x` as a `usize`, or the largest `usize` where `x` is beyond it.
fn to_usize(x: u64) -> (r: usize)
    ensures
        r == clamp(x as int),
{
    if x > usize::MAX as u64 {
        usize::MAX
    } else {
        x as usize
    }
}

fn min_of(a: usize, b: usize) -> (m: usize)
    ensures
        m == spec_min(a as int, b as int),
{
    if a <= b {
        a
    } else {
        b
    }
}

fn max_of(a: usize, b: usize) -> (m: usize)
    ensures
        m == spec_max(a as int, b as int),
{
    if a >= b {
        a
    } else {
        b
    }
}

/// The region that spans two regions: the union of their reference windows
/// and the union of their read windows.
pub open spec fn union_of(a: CandidateRegion, b: CandidateRegion) -> CandidateRegion {
    CandidateRegion {
        overlap: a.overlap,
        read_interval: span(
            spec_min(a.read_interval.start as int, b.read_interval.start as int),
            spec_max(a.read_interval.end as int, b.read_interval.end as int),
        ),
        ref_interval: span(
            spec_min(a.ref_interval.start as int, b.ref_interval.start as int),
            spec_max(a.ref_interval.end as int, b.ref_interval.end as int),
        ),
    }
}

/// Whether the reference window of `next` touches or overlaps that of `last`,
/// which lies to its left.
pub open spec fn touches(last: CandidateRegion, next: CandidateRegion) -> bool {
    next.ref_interval.start <= last.ref_interval.end
}

/// One step of merging: a region that does not overlap is dropped, one that
/// touches the last merged region is joined to it, any other starts a new
/// merged region.
pub open spec fn merge_step(acc: Seq<CandidateRegion>, next: CandidateRegion) -> Seq<
    CandidateRegion,
> {
    if !next.overlap {
        acc
    } else if acc.len() > 0 && touches(acc.last(), next) {
        acc.drop_last().push(union_of(acc.last(), next))
    } else {
        acc.push(next)
    }
}

/// The overlapping regions merged from left to right.
pub open spec fn merged(regions: Seq<CandidateRegion>) -> Seq<CandidateRegion>
    decreases regions.len(),
{
    if regions.len() == 0 {
        Seq::empty()
    } else {
        merge_step(merged(regions.drop_last()), regions.last())
    }
}

/// Whether any region overlaps.
pub open spec fn any_overlap(regions: Seq<CandidateRegion>) -> bool {
    exists|i: int| 0 <= i < regions.len() && (#[trigger] regions[i]).overlap
}

/// The candidate regions of a read: one for each locus on the read's contig,
/// in the order of the loci.
pub open spec fn regions_of(
    realigner: Realigner,
    read: AlignedRead,
    lookups: Seq<LocusLookup>,
    ref_len: usize,
) -> Seq<CandidateRegion>
    decreases lookups.len(),
{
    if lookups.len() == 0 {
        Seq::empty()
    } else {
        let before = regions_of(realigner, read, lookups.drop_last(), ref_len);
        let last = lookups.last();
        if last.locus.contig@ == read.contig@ {
            before.push(
                realigner.spec_candidate_region(read, last.locus, last.positions, ref_len),
            )
        } else {
            before
        }
    }
}

/// A window can be placed at every locus on the read's contig.
pub open spec fn can_place_all(
    realigner: Realigner,
    read: AlignedRead,
    lookups: Seq<LocusLookup>,
) -> bool {
    forall|i: int|
        0 <= i < lookups.len() && (#[trigger] lookups[i]).locus.contig@ == read.contig@
            ==> realigner.can_place(read, lookups[i].positions)
}

/// Where a read is realigned.
#[derive(Debug)]
pub enum SupportRegions {
    /// No locus overlaps the read. Both alleles explain it equally well: each
    /// gets one half, and the read says nothing about strands.
    Uninformative,
    /// The merged regions. The probabilities of the two alleles are computed
    /// for each and multiplied over all of them.
    Regions(Vec<CandidateRegion>),
}

fn copy_range(r: &Range<usize>) -> (c: Range<usize>)
    ensures
        c == *r,
{
    r.start..r.end
}

/// Merges candidate regions from left to right. Regions that do not overlap
/// the read are left out. A region whose reference window touches or overlaps
/// that of the region merged last is joined to it, and the joined region spans
/// both reference windows and both read windows; any other region stays on
/// its own.
pub fn merge_regions(regions: &Vec<CandidateRegion>) -> (out: Vec<CandidateRegion>)
    ensures
        out@ == merged(regions@),
{
    let mut out: Vec<CandidateRegion> = Vec::new();
    let mut i: usize = 0;
    while i < regions.len()
        invariant
            i <= regions@.len(),
            out@ == merged(regions@.take(i as int)),
        decreases regions@.len() - i,
    {
        let region = &regions[i];
        proof {
            assert(regions@.take(i + 1).drop_last() =~= regions@.take(i as int));
            assert(regions@.take(i + 1).last() == regions@[i as int]);
        }
        if region.overlap {
            let joined = match out.pop() {
                Some(last) => {
                    if region.ref_interval.start <= last.ref_interval.end {
                        // they touch, hence merge
                        CandidateRegion {
                            overlap: last.overlap,
                            read_interval: min_of(last.read_interval.start, region.read_interval.start)
                                ..max_of(last.read_interval.end, region.read_interval.end),
                            ref_interval: min_of(last.ref_interval.start, region.ref_interval.start)
                                ..max_of(last.ref_interval.end, region.ref_interval.end),
                        }
                    } else {
                        // apart, hence a region of its own
                        out.push(last);
                        CandidateRegion {
                            overlap: true,
                            read_interval: copy_range(&region.read_interval),
                            ref_interval: copy_range(&region.ref_interval),
                        }
                    }
                },
                None => CandidateRegion {
                    overlap: true,
                    read_interval: copy_range(&region.read_interval),
                    ref_interval: copy_range(&region.ref_interval),
                },
            };
            out.push(joined);
        }
        i += 1;
        assert(out@ =~= merged(regions@.take(i as int)));
    }
    assert(regions@.take(regions@.len() as int) =~= regions@);
    out
}

impl Realigner {
    /// The candidate regions of a read, one for each locus on its contig.
    pub fn candidate_regions(
        &self,
        read: &AlignedRead,
        lookups: &Vec<LocusLookup>,
        ref_len: usize,
    ) -> (regions: Vec<CandidateRegion>)
        requires
            can_place_all(*self, *read, lookups@),
        ensures
            regions@ == regions_of(*self, *read, lookups@, ref_len),
    {
        let mut regions: Vec<CandidateRegion> = Vec::new();
        let mut i: usize = 0;
        while i < lookups.len()
            invariant
                i <= lookups@.len(),
                can_place_all(*self, *read, lookups@),
                regions@ == regions_of(*self, *read, lookups@.take(i as int), ref_len),
            decreases lookups@.len() - i,
        {
            proof {
                assert(lookups@.take(i + 1).drop_last() =~= lookups@.take(i as int));
                assert(lookups@.take(i + 1).last() == lookups@[i as int]);
            }
            let lookup = &lookups[i];
            if lookup.locus.contig == read.contig {
                regions.push(self.candidate_region(read, &lookup.locus, lookup.positions, ref_len));
            }
            i += 1;
        }
        assert(lookups@.take(lookups@.len() as int) =~= lookups@);
        regions
    }

    /// Decides where a read is realigned for a variant with the given loci.
    ///
    /// Where no candidate region overlaps, no realignment is needed. Else the
    /// overlapping regions are merged from left to right.
    pub fn allele_support_regions(
        &self,
        read: &AlignedRead,
        lookups: &Vec<LocusLookup>,
        ref_len: usize,
    ) -> (support: SupportRegions)
        requires
            can_place_all(*self, *read, lookups@),
        ensures
            !any_overlap(regions_of(*self, *read, lookups@, ref_len))
                ==> support is Uninformative,
            any_overlap(regions_of(*self, *read, lookups@, ref_len)) ==> (support matches SupportRegions::Regions(
                regions,
            ) && regions@ == merged(regions_of(*self, *read, lookups@, ref_len))),
    {
        let candidates = self.candidate_regions(read, lookups, ref_len);
        if !overlaps_any(&candidates) {
            return SupportRegions::Uninformative;
        }
        SupportRegions::Regions(merge_regions(&candidates))
    }
}

/// Whether any of the regions overlaps the read.
pub fn overlaps_any(regions: &Vec<CandidateRegion>) -> (any: bool)
    ensures
        any == any_overlap(regions@),
{
    let mut i: usize = 0;
    while i < regions.len()
        invariant
            i <= regions@.len(),
            forall|k: int| 0 <= k < i ==> !(#[trigger] regions@[k]).overlap,
        decreases regions@.len() - i,
    {
        if regions[i].overlap {
            return true;
        }
        i += 1;
    }
    false
}

/// Every merged region overlaps the read, and there is a merged region
/// exactly when some region overlaps.
pub proof fn lemma_merged_overlap(regions: Seq<CandidateRegion>)
    ensures
        forall|k: int| 0 <= k < merged(regions).len() ==> (#[trigger] merged(regions)[k]).overlap,
        merged(regions).len() > 0 <==> any_overlap(regions),
        merged(regions).len() <= regions.len(),
    decreases regions.len(),
{
    if regions.len() > 0 {
        let before = regions.drop_last();
        lemma_merged_overlap(before);
        if any_overlap(before) {
            let i = choose|i: int| 0 <= i < before.len() && (#[trigger] before[i]).overlap;
            assert(regions[i].overlap);
        }
        if any_overlap(regions) {
            let i = choose|i: int| 0 <= i < regions.len() && (#[trigger] regions[i]).overlap;
            if i < before.len() {
                assert(before[i].overlap);
            }
        }
        if regions.last().overlap {
            assert(regions[regions.len() - 1].overlap);
        }
    }
}

/// What is merged from a sequence of regions depends on what was merged from
/// its head alone.
pub proof fn lemma_merged_tail(
    a: Seq<CandidateRegion>,
    b: Seq<CandidateRegion>,
    tail: Seq<CandidateRegion>,
)
    requires
        merged(a) == merged(b),
    ensures
        merged(a + tail) == merged(b + tail),
    decreases tail.len(),
{
    if tail.len() == 0 {
        assert(a + tail =~= a);
        assert(b + tail =~= b);
    } else {
        lemma_merged_tail(a, b, tail.drop_last());
        assert((a + tail).drop_last() =~= a + tail.drop_last());
        assert((b + tail).drop_last() =~= b + tail.drop_last());
        assert((a + tail).last() == tail.last());
        assert((b + tail).last() == tail.last());
    }
}

/// Two neighbouring regions that overlap the read and touch on the
/// reference, the left one first, can be joined by hand beforehand: the
/// merged regions are the same.
pub proof fn lemma_merge_joined(
    head: Seq<CandidateRegion>,
    a: CandidateRegion,
    b: CandidateRegion,
    tail: Seq<CandidateRegion>,
)
    requires
        a.overlap,
        b.overlap,
        touches(a, b),
        a.ref_interval.start <= b.ref_interval.start,
    ensures
        merged(head.push(a).push(b) + tail) == merged(head.push(union_of(a, b)) + tail),
{
    let acc = merged(head);
    let u = union_of(a, b);
    assert(head.push(a).drop_last() =~= head);
    assert(head.push(a).push(b).drop_last() =~= head.push(a));
    assert(head.push(u).drop_last() =~= head);
    assert(merged(head.push(a)) == merge_step(acc, a));
    assert(merged(head.push(a).push(b)) == merge_step(merge_step(acc, a), b));
    assert(merged(head.push(u)) == merge_step(acc, u));
    if acc.len() > 0 && touches(acc.last(), a) {
        let l = acc.last();
        let la = union_of(l, a);
        assert(merge_step(acc, a) == acc.drop_last().push(la));
        assert(acc.drop_last().push(la).drop_last() =~= acc.drop_last());
        assert(union_of(la, b) == union_of(l, u));
        assert(merge_step(merge_step(acc, a), b) =~= merge_step(acc, u));
    } else {
        assert(merge_step(acc, a) == acc.push(a));
        assert(acc.push(a).drop_last() =~= acc);
        assert(merge_step(merge_step(acc, a), b) =~= merge_step(acc, u));
    }
    lemma_merged_tail(head.push(a).push(b), head.push(u), tail);
}

/// Regions whose reference windows go from left to right: starts and ends do
/// not decrease along the sequence.
pub open spec fn left_to_right(regions: Seq<CandidateRegion>) -> bool {
    forall|i: int, j: int|
        0 <= i <= j < regions.len() ==> (#[trigger] regions[i]).ref_interval.start <= (
        #[trigger] regions[j]).ref_interval.start && regions[i].ref_interval.end
            <= regions[j].ref_interval.end
}

/// Region `m` starts on the reference where one of `regions` starts.
pub open spec fn starts_with_one(regions: Seq<CandidateRegion>, m: CandidateRegion) -> bool {
    exists|i: int|
        0 <= i < regions.len() && (#[trigger] regions[i]).ref_interval.start
            == m.ref_interval.start
}

/// Of regions that go from left to right, the merged regions lie apart: each
/// starts behind the end of the one before it, and each starts where one of
/// the regions starts.
pub proof fn lemma_merged_apart(regions: Seq<CandidateRegion>)
    requires
        left_to_right(regions),
    ensures
        forall|k: int|
            0 < k < merged(regions).len() ==> (#[trigger] merged(regions)[k]).ref_interval.start
                > merged(regions)[k - 1].ref_interval.end,
        forall|k: int|
            0 <= k < merged(regions).len() ==> starts_with_one(
                regions,
                #[trigger] merged(regions)[k],
            ),
    decreases regions.len(),
{
    if regions.len() > 0 {
        let before = regions.drop_last();
        let next = regions.last();
        assert forall|i: int, j: int| 0 <= i <= j < before.len() implies (
        #[trigger] before[i]).ref_interval.start <= (#[trigger] before[j]).ref_interval.start
            && before[i].ref_interval.end <= before[j].ref_interval.end by {
            assert(before[i] == regions[i]);
            assert(before[j] == regions[j]);
        }
        lemma_merged_apart(before);
        let acc = merged(before);
        let out = merged(regions);
        assert forall|k: int| 0 <= k < acc.len() implies starts_with_one(
            regions,
            #[trigger] acc[k],
        ) && acc[k].ref_interval.start <= next.ref_interval.start by {
            assert(starts_with_one(before, acc[k]));
            let i = choose|i: int|
                0 <= i < before.len() && (#[trigger] before[i]).ref_interval.start
                    == acc[k].ref_interval.start;
            assert(regions[i] == before[i]);
            assert(regions[i].ref_interval.start <= regions[regions.len() - 1].ref_interval.start);
        }
        assert(regions[regions.len() - 1] == next);
        if !next.overlap {
        } else if acc.len() > 0 && touches(acc.last(), next) {
            let joined = union_of(acc.last(), next);
            assert(joined.ref_interval.start == acc.last().ref_interval.start);
            assert(starts_with_one(regions, acc.last()));
            assert forall|k: int| 0 <= k < out.len() implies starts_with_one(
                regions,
                #[trigger] out[k],
            ) by {
                if k < out.len() - 1 {
                    assert(out[k] == acc[k]);
                } else {
                    let i = choose|i: int|
                        0 <= i < regions.len() && (#[trigger] regions[i]).ref_interval.start
                            == acc.last().ref_interval.start;
                    assert(regions[i].ref_interval.start == out[k].ref_interval.start);
                }
            }
            assert forall|k: int| 0 < k < out.len() implies (#[trigger] out[k]).ref_interval.start
                > out[k - 1].ref_interval.end by {
                assert(out[k - 1] == acc[k - 1]);
                if k < out.len() - 1 {
                    assert(out[k] == acc[k]);
                } else {
                    assert(acc[k].ref_interval.start > acc[k - 1].ref_interval.end);
                }
            }
        } else {
            assert forall|k: int| 0 <= k < out.len() implies starts_with_one(
                regions,
                #[trigger] out[k],
            ) by {
                if k < out.len() - 1 {
                    assert(out[k] == acc[k]);
                } else {
                    assert(regions[regions.len() - 1].ref_interval.start
                        == out[k].ref_interval.start);
                }
            }
            assert forall|k: int| 0 < k < out.len() implies (#[trigger] out[k]).ref_interval.start
                > out[k - 1].ref_interval.end by {
                assert(out[k - 1] == acc[k - 1]);
                if k < out.len() - 1 {
                    assert(out[k] == acc[k]);
                }
            }
        }
    }
}

/// By how much the band of the pair HMM exceeds the least edit distance.
pub const EDIT_BAND: usize = 2;

/// What the edit distance prefilter found for one template of an allele.
#[derive(Clone, Copy, Debug)]
pub struct EditDistanceHit {
    /// The least edit distance of the read window to a stretch of the template.
    pub dist: usize,
    /// The edit distance up to which alignments are summed over.
    pub dist_upper_bound: usize,
}

impl EditDistanceHit {
    /// The hit at the given least edit distance. The band of the pair HMM is
    /// wider than that distance by `EDIT_BAND`, as far as that fits.
    pub fn new(dist: usize) -> (hit: Self)
        ensures
            hit.dist == dist,
            hit.dist_upper_bound == clamp(dist + EDIT_BAND),
    {
        EditDistanceHit { dist, dist_upper_bound: dist.saturating_add(EDIT_BAND) }
    }
}

/// How the probability of an allele is obtained from its templates.
#[derive(Debug)]
pub enum AlleleEvidence {
    /// A template matches the read window exactly. The certainty of the read's
    /// own bases is the probability; every other path would be much worse.
    Certainty,
    /// The templates to realign, by index: those at the least edit distance.
    /// Each is shrunk to its hit and run within its band; the best
    /// probability among them counts.
    Realign(Vec<usize>),
}

/// `d` is the least edit distance among the hits.
pub open spec fn least_dist(hits: Seq<EditDistanceHit>, d: usize) -> bool {
    &&& exists|i: int| 0 <= i < hits.len() && (#[trigger] hits[i]).dist == d
    &&& forall|i: int| 0 <= i < hits.len() ==> (#[trigger] hits[i]).dist >= d
}

/// `bucket` holds, in order, the indices of exactly the hits at distance `d`.
pub open spec fn bucket_of(hits: Seq<EditDistanceHit>, d: usize, bucket: Seq<usize>) -> bool {
    &&& forall|k: int|
        0 <= k < bucket.len() ==> (#[trigger] bucket[k]) < hits.len() && hits[bucket[k] as int].dist
            == d
    &&& forall|k: int, l: int| 0 <= k < l < bucket.len() ==> bucket[k] < bucket[l]
    &&& forall|i: int|
        0 <= i < hits.len() && (#[trigger] hits[i]).dist == d ==> bucket.contains(i as usize)
}

/// The least edit distance among the hits.
pub fn best_dist(hits: &Vec<EditDistanceHit>) -> (d: usize)
    requires
        hits@.len() > 0,
    ensures
        least_dist(hits@, d),
{
    let mut d = hits[0].dist;
    let mut i: usize = 1;
    while i < hits.len()
        invariant
            1 <= i <= hits@.len(),
            exists|k: int| 0 <= k < i && (#[trigger] hits@[k]).dist == d,
            forall|k: int| 0 <= k < i ==> (#[trigger] hits@[k]).dist >= d,
        decreases hits@.len() - i,
    {
        if hits[i].dist < d {
            d = hits[i].dist;
        }
        i += 1;
    }
    d
}

/// `bucket` holds, in order, the indices of exactly those of the first `upto`
/// hits that are at distance `d`.
pub open spec fn bucket_upto(
    hits: Seq<EditDistanceHit>,
    upto: int,
    d: usize,
    bucket: Seq<usize>,
) -> bool {
    &&& forall|k: int|
        0 <= k < bucket.len() ==> (#[trigger] bucket[k]) < upto && hits[bucket[k] as int].dist == d
    &&& forall|k: int, l: int| 0 <= k < l < bucket.len() ==> bucket[k] < bucket[l]
    &&& forall|j: int|
        0 <= j < upto && (#[trigger] hits[j]).dist == d ==> bucket.contains(j as usize)
}

/// Buckets the templates by the edit distance of their hits: under each
/// distance that occurs, the indices of the templates at that distance, in
/// their order.
pub fn hits_by_dist(hits: &Vec<EditDistanceHit>) -> (buckets: BTreeMap<usize, Vec<usize>>)
    ensures
        forall|d: usize| #[trigger]
            buckets@.contains_key(d) ==> bucket_of(hits@, d, buckets@[d]@),
        forall|j: int| 0 <= j < hits@.len() ==> buckets@.contains_key((#[trigger] hits@[j]).dist),
        forall|d: usize| #[trigger]
            buckets@.contains_key(d) ==> ((forall|j: int|
                0 <= j < hits@.len() ==> (#[trigger] hits@[j]).dist == d) ==> buckets@[d]@
                == Seq::new(hits@.len(), |j: int| j as usize)),
{
    let mut buckets: BTreeMap<usize, Vec<usize>> = BTreeMap::new();
    let mut i: usize = 0;
    while i < hits.len()
        invariant
            i <= hits@.len(),
            forall|d: usize| #[trigger]
                buckets@.contains_key(d) ==> bucket_upto(hits@, i as int, d, buckets@[d]@),
            forall|j: int| 0 <= j < i ==> buckets@.contains_key((#[trigger] hits@[j]).dist),
            forall|d: usize| #[trigger]
                buckets@.contains_key(d) ==> ((forall|j: int|
                    0 <= j < i ==> (#[trigger] hits@[j]).dist == d) ==> buckets@[d]@ == Seq::new(
                    i as nat,
                    |j: int| j as usize,
                )),
        decreases hits@.len() - i,
    {
        let d = hits[i].dist;
        let ghost before = buckets@;
        let mut bucket = match buckets.remove(&d) {
            Some(bucket) => bucket,
            None => Vec::new(),
        };
        let ghost grown = bucket@;
        bucket.push(i);
        buckets.insert(d, bucket);
        proof {
            assert forall|e: usize| #[trigger] buckets@.contains_key(e) implies bucket_upto(
                hits@,
                i + 1,
                e,
                buckets@[e]@,
            ) && ((forall|j: int| 0 <= j < i + 1 ==> (#[trigger] hits@[j]).dist == e)
                ==> buckets@[e]@ == Seq::new((i + 1) as nat, |j: int| j as usize)) by {
                let b = buckets@[e]@;
                if e == d {
                    assert(b == grown.push(i));
                    assert(b[grown.len() as int] == i);
                    assert forall|j: int|
                        0 <= j < i + 1 && (#[trigger] hits@[j]).dist == d implies b.contains(
                        j as usize,
                    ) by {
                        if j < i {
                            assert(before.contains_key(d));
                            let k = choose|k: int| 0 <= k < grown.len() && grown[k] == j as usize;
                            assert(b[k] == j as usize);
                        }
                    }
                    if forall|j: int| 0 <= j < i + 1 ==> (#[trigger] hits@[j]).dist == d {
                        if i > 0 {
                            assert(hits@[0].dist == d);
                            assert(before.contains_key(d));
                        }
                        assert(b =~= Seq::new((i + 1) as nat, |j: int| j as usize));
                    }
                } else {
                    assert(before.contains_key(e));
                    assert(buckets@[e] == before[e]);
                    assert(hits@[i as int].dist != e);
                }
            }
        }
        i += 1;
    }
    buckets
}

/// Decides how the probability of an allele is obtained from the edit
/// distance hits of its templates. Only the templates at the least distance
/// count. Where that distance is zero, no realignment is needed. Where all
/// templates tie, all of them are realigned.
pub fn prob_allele_evidence(hits: &Vec<EditDistanceHit>) -> (evidence: AlleleEvidence)
    requires
        hits@.len() > 0,
    ensures
        least_dist(hits@, 0) <==> evidence is Certainty,
        evidence matches AlleleEvidence::Realign(bucket) ==> forall|d: usize| #[trigger]
            least_dist(hits@, d) ==> bucket_of(hits@, d, bucket@),
        evidence matches AlleleEvidence::Realign(bucket) ==> ((forall|i: int, j: int|
            0 <= i < hits@.len() && 0 <= j < hits@.len() ==> (#[trigger] hits@[i]).dist == (
            #[trigger] hits@[j]).dist) ==> bucket@ == Seq::new(hits@.len(), |i: int| i as usize)),
{
    let d = best_dist(hits);
    if d == 0 {
        // METHOD: In case of a perfect match, all alternative paths are much worse.
        return AlleleEvidence::Certainty;
    }
    let mut buckets = hits_by_dist(hits);
    // METHOD: for equal best edit dists, the probabilities have to be compared.
    let bucket = match buckets.remove(&d) {
        Some(bucket) => bucket,
        None => Vec::new(),
    };
    proof {
        let w = choose|k: int| 0 <= k < hits@.len() && (#[trigger] hits@[k]).dist == d;
        assert(bucket_of(hits@, d, bucket@));
        if forall|i: int, j: int|
            0 <= i < hits@.len() && 0 <= j < hits@.len() ==> (#[trigger] hits@[i]).dist == (
            #[trigger] hits@[j]).dist {
            assert forall|j: int| 0 <= j < hits@.len() implies (#[trigger] hits@[j]).dist == d by {
                assert(hits@[j].dist == hits@[w].dist);
            }
        }
    }
    AlleleEvidence::Realign(bucket)
}

/// How the probabilities of the two alleles in one region are put on a common
/// scale.
#[derive(Clone, Copy, Debug, PartialEq, Eq, Structural)]
pub enum Normalization {
    /// Both are above zero: each is divided by their sum. What the two have
    /// in common, such as a close variant in cis, drops out.
    BySum,
    /// One of them is zero: they stay as they are. Dividing would magnify
    /// their ratio.
    Keep,
    /// Both are zero: each becomes one half. The read explains neither
    /// allele, and the rest of the pileup is not to be wiped out by it.
    Halves,
}

/// The normalization of a region, given which of the two probabilities are zero.
pub fn normalization(ref_is_zero: bool, alt_is_zero: bool) -> (n: Normalization)
    ensures
        n == (if ref_is_zero && alt_is_zero {
            Normalization::Halves
        } else if ref_is_zero || alt_is_zero {
            Normalization::Keep
        } else {
            Normalization::BySum
        }),
{
    if ref_is_zero && alt_is_zero {
        Normalization::Halves
    } else if ref_is_zero || alt_is_zero {
        Normalization::Keep
    } else {
        Normalization::BySum
    }
}

/// The strand that a read contributes once the probabilities of its regions
/// are combined. A read that tells the two alleles apart keeps its strand; a
/// read that supports both alike is not informative, and its strand is not
/// retained.
pub fn retained_strand(informative: bool, strand: Strand) -> (s: Strand)
    ensures
        s == (if informative {
            strand
        } else {
            Strand::Unknown
        }),
{
    if informative {
        strand
    } else {
        Strand::Unknown
    }
}

/// The windows of a candidate region stay within the read and the contig, and
/// the window of a read that encloses the variant is no longer than the
/// prefilter takes.
pub proof fn lemma_region_bounds(
    realigner: Realigner,
    read: AlignedRead,
    locus: Interval,
    positions: ReadPositions,
    ref_len: usize,
)
    requires
        realigner.can_place(read, positions),
    ensures
        ({
            let region = realigner.spec_candidate_region(read, locus, positions, ref_len);
            &&& region.read_interval.end <= read.seq_len
            &&& region.ref_interval.end <= ref_len
            &&& positions.start is Some && positions.end is Some ==> region.read_interval.start
                <= region.read_interval.end && region.read_interval.end
                - region.read_interval.start <= MAX_PATTERN_LEN
        }),
{
    if positions.start is Some && positions.end is Some {
        let qstart = positions.start->0 as int;
        let qend = positions.end->0 as int;
        let seq_len = read.seq_len as int;
        let offset = spec_max(qstart - realigner.window(), 0);
        let end = spec_min(qend + realigner.window(), seq_len);
        let exceed = spec_max(end - offset - MAX_PATTERN_LEN, 0);
        assert(offset <= end);
        assert(0 <= offset + exceed / 2 <= end - (exceed - exceed / 2) <= seq_len);
    }
}

} // verus!
