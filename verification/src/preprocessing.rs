//! The preprocessing pipeline, record by record: which observations to
//! extract for the variants of a candidate record, and which output records
//! to emit with them. Breakends are held back until the last record of their
//! event has been seen.

use crate::breakends::{
    insertion_point, ordered, Breakend, BreakendGroup, BreakendGroupBuilder, BreakendIndex,
    BreakendView,
};
use crate::bytes::{copy_bytes, copy_optional_bytes, optional_bytes};
use crate::codec::{encodes, write_observations, CodecError, InfoField};
use crate::genome::{Interval, Locus};
use crate::observation::Observation;
use crate::table::{lookup, Table};
use crate::variant::{Variant, VariantView};
use vstd::prelude::*;
use vstd::slice::slice_to_vec;
use vstd::utf8::encode_utf8;

verus! {

/// What the pipeline reads of one record of the candidate stream.
#[derive(Debug)]
pub struct WorkItem {
    /// Position of the record on its contig.
    pub start: u64,
    /// Name of the contig.
    pub chrom: String,
    /// The variants that the record holds.
    pub variants: Vec<Variant>,
    /// For each variant, whether its breakend description is one that can be
    /// realigned. It counts for breakends only.
    pub supported: Vec<bool>,
    /// Identifier of the record, `.` where it has none.
    pub record_id: Vec<u8>,
    /// Identifier of the record of the mate breakend.
    pub record_mateid: Option<Vec<u8>>,
    /// Index of the record in the stream.
    pub record_index: usize,
}

/// A variant in the form that observations are extracted for: placed on its
/// contig, with the reference bases it replaces where they are needed.
#[derive(Debug)]
pub enum Extraction {
    SNV { locus: Locus, ref_base: u8, alt_base: u8 },
    MNV { locus: Locus, ref_bases: Vec<u8>, alt_bases: Vec<u8> },
    NoVariation { locus: Locus, ref_base: u8 },
    Deletion { interval: Interval },
    Insertion { locus: Locus, seq: Vec<u8> },
    Inversion { interval: Interval },
    Duplication { interval: Interval },
    Replacement { interval: Interval, replacement: Vec<u8> },
    BreakendGroup { group: BreakendGroup },
}

/// The mathematical value of an extraction.
pub enum ExtractionView {
    SNV { contig: Seq<char>, pos: u64, ref_base: u8, alt_base: u8 },
    MNV { contig: Seq<char>, pos: u64, ref_bases: Seq<u8>, alt_bases: Seq<u8> },
    NoVariation { contig: Seq<char>, pos: u64, ref_base: u8 },
    Deletion { contig: Seq<char>, start: u64, end: u64 },
    Insertion { contig: Seq<char>, pos: u64, seq: Seq<u8> },
    Inversion { contig: Seq<char>, start: u64, end: u64 },
    Duplication { contig: Seq<char>, start: u64, end: u64 },
    Replacement { contig: Seq<char>, start: u64, end: u64, replacement: Seq<u8> },
    BreakendGroup { members: Seq<BreakendView> },
}

impl View for Extraction {
    type V = ExtractionView;

    open spec fn view(&self) -> ExtractionView {
        match self {
            Extraction::SNV { locus, ref_base, alt_base } => ExtractionView::SNV {
                contig: locus.contig@,
                pos: locus.pos,
                ref_base: *ref_base,
                alt_base: *alt_base,
            },
            Extraction::MNV { locus, ref_bases, alt_bases } => ExtractionView::MNV {
                contig: locus.contig@,
                pos: locus.pos,
                ref_bases: ref_bases@,
                alt_bases: alt_bases@,
            },
            Extraction::NoVariation { locus, ref_base } => ExtractionView::NoVariation {
                contig: locus.contig@,
                pos: locus.pos,
                ref_base: *ref_base,
            },
            Extraction::Deletion { interval } => ExtractionView::Deletion {
                contig: interval.contig@,
                start: interval.start,
                end: interval.end,
            },
            Extraction::Insertion { locus, seq } => ExtractionView::Insertion {
                contig: locus.contig@,
                pos: locus.pos,
                seq: seq@,
            },
            Extraction::Inversion { interval } => ExtractionView::Inversion {
                contig: interval.contig@,
                start: interval.start,
                end: interval.end,
            },
            Extraction::Duplication { interval } => ExtractionView::Duplication {
                contig: interval.contig@,
                start: interval.start,
                end: interval.end,
            },
            Extraction::Replacement { interval, replacement } => ExtractionView::Replacement {
                contig: interval.contig@,
                start: interval.start,
                end: interval.end,
                replacement: replacement@,
            },
            Extraction::BreakendGroup { group } => ExtractionView::BreakendGroup {
                members: group.members(),
            },
        }
    }
}

/// An output record to emit: where it lies, how it is named, the variant it
/// describes, and the extraction whose observations it carries.
#[derive(Debug)]
pub struct Call {
    pub chrom: Vec<u8>,
    pub pos: u64,
    pub id: Option<Vec<u8>>,
    pub mateid: Option<Vec<u8>>,
    pub variant: Variant,
    /// Index of the extraction among those of the same record.
    pub extraction: usize,
}

/// The mathematical value of a call.
pub struct CallView {
    pub chrom: Seq<u8>,
    pub pos: u64,
    pub id: Option<Seq<u8>>,
    pub mateid: Option<Seq<u8>>,
    pub variant: VariantView,
    pub extraction: nat,
}

impl View for Call {
    type V = CallView;

    open spec fn view(&self) -> CallView {
        CallView {
            chrom: self.chrom@,
            pos: self.pos,
            id: optional_bytes(self.id),
            mateid: optional_bytes(self.mateid),
            variant: self.variant@,
            extraction: self.extraction as nat,
        }
    }
}

/// What a candidate record gives rise to: the observations to extract, and
/// the output records that carry them, in the order of emission.
#[derive(Debug)]
pub struct Calls {
    /// Index of the candidate record.
    pub index: usize,
    pub extractions: Vec<Extraction>,
    pub inner: Vec<Call>,
}

impl Calls {
    /// Every output record names one of the extractions.
    pub open spec fn wf(&self) -> bool {
        forall|i: int|
            0 <= i < self.inner@.len() ==> (#[trigger] self.inner@[i]).extraction
                < self.extractions@.len()
    }
}

/// An output record with its observations, ready to be written.
#[derive(Debug)]
pub struct OutputRecord {
    pub call: Call,
    /// The twelve arrays of the pileup.
    pub observations: Vec<InfoField>,
}

/// Why a record could not be processed.
#[derive(Clone, Copy, Debug, PartialEq, Eq, Structural)]
pub enum ProcessError {
    /// The contents of a variant do not meet the constraints of its kind, or
    /// a breakend was to be placed on its own, without its group.
    InvalidVariant,
    /// The variant does not lie within its contig.
    OutOfContig,
    /// The breakend index does not know the event of a breakend.
    UnknownEvent,
}

/// The state of an event, once a record of it has been seen.
#[derive(Debug)]
pub enum EventState {
    /// Members are being collected.
    Building(BreakendGroupBuilder),
    /// A member could not be realigned. Later members are passed over.
    Invalid,
    /// The group has been put together and handed out. Later members are
    /// passed over.
    Removed,
}

/// The mathematical value of the state of an event.
pub enum StateView {
    Building(Seq<BreakendView>),
    Invalid,
    Removed,
}

impl View for EventState {
    type V = StateView;

    open spec fn view(&self) -> StateView {
        match self {
            EventState::Building(builder) => StateView::Building(builder.members()),
            EventState::Invalid => StateView::Invalid,
            EventState::Removed => StateView::Removed,
        }
    }
}

/// What the arrival of a breakend does to its event.
pub struct Transition {
    /// The state of the event afterwards.
    pub state: StateView,
    /// The members of the group, where the arrival completes it.
    pub emitted: Option<Seq<BreakendView>>,
}

/// The state machine of an event. `state` is `None` before the first record
/// of the event.
///
/// - An invalid or removed event stays as it is.
/// - A breakend that cannot be realigned makes the event invalid, also where
///   it is the last of the event.
/// - Any other breakend joins the members at its place in the order. Where
///   its record is the last of the event, the group is complete: it is handed
///   out and the event is removed. Else the event goes on building.
/// - An event that the index does not know cannot be decided.
pub open spec fn transition(
    state: Option<StateView>,
    breakend: BreakendView,
    supported: bool,
    last: Option<usize>,
    record_index: usize,
) -> Result<Transition, ProcessError> {
    match state {
        Some(StateView::Invalid) => Ok(Transition { state: StateView::Invalid, emitted: None }),
        Some(StateView::Removed) => Ok(Transition { state: StateView::Removed, emitted: None }),
        _ => {
            let members = match state {
                Some(StateView::Building(members)) => members,
                _ => Seq::empty(),
            };
            let grown = members.insert(insertion_point(members, breakend), breakend);
            if !supported {
                Ok(Transition { state: StateView::Invalid, emitted: None })
            } else if last is None {
                Err(ProcessError::UnknownEvent)
            } else if last->0 == record_index {
                Ok(Transition { state: StateView::Removed, emitted: Some(grown) })
            } else {
                Ok(Transition { state: StateView::Building(grown), emitted: None })
            }
        },
    }
}

/// The identifier of an output record: none where the candidate record has
/// the placeholder `.`.
pub open spec fn call_id(id: Seq<u8>) -> Option<Seq<u8>> {
    if id == seq![46u8] {
        None
    } else {
        Some(id)
    }
}

/// A variant placed at `start` of the contig with the sequence `seq`. The
/// reference bases that a variant replaces must lie within the contig, and
/// the end of an interval must be a position. A breakend has no place of its
/// own: it is extracted with its group.
pub open spec fn typed(variant: VariantView, chrom: Seq<char>, start: u64, seq: Seq<u8>) -> Result<
    ExtractionView,
    ProcessError,
> {
    if !variant.valid() {
        Err(ProcessError::InvalidVariant)
    } else {
        match variant {
            VariantView::SNV(alt) => if start < seq.len() {
                Ok(
                    ExtractionView::SNV {
                        contig: chrom,
                        pos: start,
                        ref_base: seq[start as int],
                        alt_base: alt,
                    },
                )
            } else {
                Err(ProcessError::OutOfContig)
            },
            VariantView::MNV(alt) => if start + alt.len() <= seq.len() {
                Ok(
                    ExtractionView::MNV {
                        contig: chrom,
                        pos: start,
                        ref_bases: seq.subrange(start as int, start + alt.len()),
                        alt_bases: alt,
                    },
                )
            } else {
                Err(ProcessError::OutOfContig)
            },
            VariantView::NoVariation => if start < seq.len() {
                Ok(ExtractionView::NoVariation { contig: chrom, pos: start, ref_base: seq[start as int] })
            } else {
                Err(ProcessError::OutOfContig)
            },
            VariantView::Deletion(len) => if start + len <= u64::MAX {
                Ok(ExtractionView::Deletion { contig: chrom, start, end: (start + len) as u64 })
            } else {
                Err(ProcessError::OutOfContig)
            },
            VariantView::Insertion(inserted) => Ok(
                ExtractionView::Insertion { contig: chrom, pos: start, seq: inserted },
            ),
            VariantView::Inversion(len) => if start + len <= u64::MAX {
                Ok(ExtractionView::Inversion { contig: chrom, start, end: (start + len) as u64 })
            } else {
                Err(ProcessError::OutOfContig)
            },
            VariantView::Duplication(len) => if start + len <= u64::MAX {
                Ok(ExtractionView::Duplication { contig: chrom, start, end: (start + len) as u64 })
            } else {
                Err(ProcessError::OutOfContig)
            },
            VariantView::Replacement { ref_allele, alt_allele } => if start + ref_allele.len()
                <= u64::MAX {
                Ok(
                    ExtractionView::Replacement {
                        contig: chrom,
                        start,
                        end: (start + ref_allele.len()) as u64,
                        replacement: alt_allele,
                    },
                )
            } else {
                Err(ProcessError::OutOfContig)
            },
            VariantView::Breakend { .. } => Err(ProcessError::InvalidVariant),
        }
    }
}

impl WorkItem {
    /// Every variant has its flag.
    pub open spec fn wf(&self) -> bool {
        self.supported@.len() == self.variants@.len()
    }

    /// The record holds a breakend.
    pub open spec fn has_breakend(&self) -> bool {
        exists|k: int| 0 <= k < self.variants@.len() && (#[trigger] self.variants@[k])@ is Breakend
    }

    /// The breakend that the record holds as variant `k`.
    pub open spec fn breakend(&self, k: int) -> BreakendView {
        BreakendView {
            contig: self.chrom@,
            pos: self.start,
            ref_allele: self.variants@[k]@->Breakend_ref_allele,
            spec: self.variants@[k]@->Breakend_spec,
            id: self.record_id@,
            mateid: optional_bytes(self.record_mateid),
        }
    }
}

/// The output record of one member of a completed group.
pub open spec fn member_call(member: BreakendView, event: Seq<u8>, extraction: nat) -> CallView {
    CallView {
        chrom: encode_utf8(member.contig),
        pos: member.pos,
        id: call_id(member.id),
        mateid: member.mateid,
        variant: VariantView::Breakend {
            ref_allele: member.ref_allele,
            spec: member.spec,
            event,
        },
        extraction,
    }
}

/// The output records of a completed group: one per member, in the order of
/// the group, all carrying the observations of the same extraction.
pub open spec fn member_calls(members: Seq<BreakendView>, event: Seq<u8>, extraction: nat) -> Seq<
    CallView,
> {
    Seq::new(members.len(), |i: int| member_call(members[i], event, extraction))
}

/// How far a record has been processed.
pub struct Progress {
    /// The state of every event seen so far.
    pub events: Map<Seq<u8>, StateView>,
    pub extractions: Seq<ExtractionView>,
    pub calls: Seq<CallView>,
    /// The error that stopped the processing, if any.
    pub error: Option<ProcessError>,
}

/// Processing variant `k` of a record that holds a breakend. A variant that
/// is no breakend is passed over.
pub open spec fn breakend_step(
    p: Progress,
    index: Map<Seq<u8>, usize>,
    item: WorkItem,
    k: int,
) -> Progress {
    if p.error is Some {
        p
    } else {
        match item.variants@[k]@ {
            VariantView::Breakend { ref_allele, spec, event } => match transition(
                lookup(p.events, event),
                item.breakend(k),
                item.supported@[k],
                lookup(index, event),
                item.record_index,
            ) {
                Err(e) => Progress {
                    events: p.events,
                    extractions: p.extractions,
                    calls: p.calls,
                    error: Some(e),
                },
                Ok(t) => match t.emitted {
                    None => Progress {
                        events: p.events.insert(event, t.state),
                        extractions: p.extractions,
                        calls: p.calls,
                        error: None,
                    },
                    Some(members) => Progress {
                        events: p.events.insert(event, t.state),
                        extractions: p.extractions.push(
                            ExtractionView::BreakendGroup { members },
                        ),
                        calls: p.calls + member_calls(members, event, p.extractions.len()),
                        error: None,
                    },
                },
            },
            _ => p,
        }
    }
}

/// Processing variant `k` of a record without breakends.
pub open spec fn typed_step(p: Progress, item: WorkItem, seq: Seq<u8>, k: int) -> Progress {
    if p.error is Some {
        p
    } else {
        match typed(item.variants@[k]@, item.chrom@, item.start, seq) {
            Err(e) => Progress {
                events: p.events,
                extractions: p.extractions,
                calls: p.calls,
                error: Some(e),
            },
            Ok(extraction) => Progress {
                events: p.events,
                extractions: p.extractions.push(extraction),
                calls: p.calls.push(
                    CallView {
                        chrom: encode_utf8(item.chrom@),
                        pos: item.start,
                        id: call_id(item.record_id@),
                        mateid: None,
                        variant: item.variants@[k]@,
                        extraction: p.extractions.len(),
                    },
                ),
                error: None,
            },
        }
    }
}

/// The progress after the first `k` variants of a record. In a record that
/// holds a breakend only the breakends count; in any other record every
/// variant gives one extraction and one output record.
pub open spec fn progress(
    events: Map<Seq<u8>, StateView>,
    index: Map<Seq<u8>, usize>,
    item: WorkItem,
    seq: Seq<u8>,
    k: nat,
) -> Progress
    decreases k,
{
    if k == 0 {
        Progress { events, extractions: Seq::empty(), calls: Seq::empty(), error: None }
    } else {
        let before = progress(events, index, item, seq, (k - 1) as nat);
        if item.has_breakend() {
            breakend_step(before, index, item, k - 1)
        } else {
            typed_step(before, item, seq, k - 1)
        }
    }
}

/// The values of a sequence of calls.
pub open spec fn call_views(calls: Seq<Call>) -> Seq<CallView> {
    Seq::new(calls.len(), |i: int| calls[i]@)
}

/// The values of a sequence of extractions.
pub open spec fn extraction_views(extractions: Seq<Extraction>) -> Seq<ExtractionView> {
    Seq::new(extractions.len(), |i: int| extractions[i]@)
}

/// The pipeline's memory across records: the index of the last record of
/// each event, and the state of every event seen so far.
pub struct ObservationProcessor {
    breakend_index: BreakendIndex,
    events: Table<EventState>,
}

/// The identifier of an output record for the identifier of a candidate record.
pub fn call_identifier(id: &Vec<u8>) -> (r: Option<Vec<u8>>)
    ensures
        optional_bytes(r) == call_id(id@),
{
    if id.len() == 1 && id[0] == 46 {
        assert(id@ =~= seq![46u8]);
        None
    } else {
        Some(copy_bytes(id))
    }
}

/// The bytes of a contig name.
fn name_bytes(name: &String) -> (bytes: Vec<u8>)
    ensures
        bytes@ == encode_utf8(name@),
{
    slice_to_vec(name.as_str().as_bytes())
}

/// The stretch of `len` positions from `start` on `chrom`.
fn interval_from(chrom: &String, start: u64, len: u64) -> (r: Result<Interval, ProcessError>)
    ensures
        start + len > u64::MAX ==> r == Err::<Interval, ProcessError>(ProcessError::OutOfContig),
        start + len <= u64::MAX ==> (r matches Ok(interval) && (interval.contig@ == chrom@
            && interval.start == start && interval.end == start + len)),
{
    match start.checked_add(len) {
        Some(end) => Ok(Interval::new(chrom.clone(), start, end)),
        None => Err(ProcessError::OutOfContig),
    }
}

/// The base at `start` of the contig.
fn base_at(chrom_seq: &Vec<u8>, start: u64) -> (r: Result<u8, ProcessError>)
    ensures
        start >= chrom_seq@.len() ==> r == Err::<u8, ProcessError>(ProcessError::OutOfContig),
        start < chrom_seq@.len() ==> r == Ok::<u8, ProcessError>(chrom_seq@[start as int]),
{
    if start >= chrom_seq.len() as u64 {
        Err(ProcessError::OutOfContig)
    } else {
        Ok(chrom_seq[start as usize])
    }
}

/// The `len` bases from `start` of the contig.
fn bases_at(chrom_seq: &Vec<u8>, start: u64, len: usize) -> (r: Result<Vec<u8>, ProcessError>)
    ensures
        start + len > chrom_seq@.len() ==> r == Err::<Vec<u8>, ProcessError>(
            ProcessError::OutOfContig,
        ),
        start + len <= chrom_seq@.len() ==> (r matches Ok(bases) && bases@ == chrom_seq@.subrange(
            start as int,
            start + len,
        )),
{
    if start > chrom_seq.len() as u64 {
        return Err(ProcessError::OutOfContig);
    }
    let from = start as usize;
    if len > chrom_seq.len() - from {
        return Err(ProcessError::OutOfContig);
    }
    Ok(slice_to_vec(vstd::slice::slice_subrange(chrom_seq.as_slice(), from, from + len)))
}

/// Places a variant on its contig.
pub fn typed_extraction(variant: &Variant, work_item: &WorkItem, chrom_seq: &Vec<u8>) -> (r: Result<
    Extraction,
    ProcessError,
>)
    ensures
        match typed(variant@, work_item.chrom@, work_item.start, chrom_seq@) {
            Err(e) => r matches Err(err) && err == e,
            Ok(extraction) => r matches Ok(x) && x@ == extraction,
        },
{
    if !variant.is_valid() {
        return Err(ProcessError::InvalidVariant);
    }
    let start = work_item.start;
    match variant {
        Variant::SNV(alt) => {
            let ref_base = base_at(chrom_seq, start)?;
            Ok(
                Extraction::SNV {
                    locus: Locus::new(work_item.chrom.clone(), start),
                    ref_base,
                    alt_base: *alt,
                },
            )
        },
        Variant::MNV(alt) => {
            let ref_bases = bases_at(chrom_seq, start, alt.len())?;
            Ok(
                Extraction::MNV {
                    locus: Locus::new(work_item.chrom.clone(), start),
                    ref_bases,
                    alt_bases: copy_bytes(alt),
                },
            )
        },
        Variant::NoVariation => {
            let ref_base = base_at(chrom_seq, start)?;
            Ok(
                Extraction::NoVariation {
                    locus: Locus::new(work_item.chrom.clone(), start),
                    ref_base,
                },
            )
        },
        Variant::Deletion(len) => {
            let interval = interval_from(&work_item.chrom, start, *len)?;
            Ok(Extraction::Deletion { interval })
        },
        Variant::Insertion(seq) => Ok(
            Extraction::Insertion {
                locus: Locus::new(work_item.chrom.clone(), start),
                seq: copy_bytes(seq),
            },
        ),
        Variant::Inversion(len) => {
            let interval = interval_from(&work_item.chrom, start, *len)?;
            Ok(Extraction::Inversion { interval })
        },
        Variant::Duplication(len) => {
            let interval = interval_from(&work_item.chrom, start, *len)?;
            Ok(Extraction::Duplication { interval })
        },
        Variant::Replacement { ref_allele, alt_allele } => {
            let interval = interval_from(&work_item.chrom, start, ref_allele.len() as u64)?;
            Ok(Extraction::Replacement { interval, replacement: copy_bytes(alt_allele) })
        },
        Variant::Breakend { .. } => Err(ProcessError::InvalidVariant),
    }
}

impl ObservationProcessor {
    /// The state of every event seen so far.
    pub closed spec fn events(&self) -> Map<Seq<u8>, StateView> {
        self.events@
    }

    /// For each event, the index of its last record.
    pub closed spec fn index(&self) -> Map<Seq<u8>, usize> {
        self.breakend_index@
    }

    /// Each event has one state, and the members of an event that is
    /// building are in order.
    pub closed spec fn wf(&self) -> bool {
        &&& self.events.wf()
        &&& self.breakend_index.wf()
        &&& members_ordered(self.events@)
    }

    /// A processor that has seen no record.
    pub fn new(breakend_index: BreakendIndex) -> (processor: Self)
        requires
            breakend_index.wf(),
        ensures
            processor.wf(),
            processor.events() == Map::<Seq<u8>, StateView>::empty(),
            processor.index() == breakend_index@,
    {
        ObservationProcessor { breakend_index, events: Table::new() }
    }

    /// Takes a breakend of `event` that arrives with the record at
    /// `record_index`, and moves the event on by its state machine. Hands out
    /// the group where the breakend completes it.
    pub fn process_breakend(
        &mut self,
        event: &Vec<u8>,
        breakend: Breakend,
        supported: bool,
        record_index: usize,
    ) -> (r: Result<Option<BreakendGroup>, ProcessError>)
        requires
            old(self).wf(),
        ensures
            final(self).wf(),
            final(self).index() == old(self).index(),
            match transition(
                lookup(old(self).events(), event@),
                breakend@,
                supported,
                lookup(old(self).index(), event@),
                record_index,
            ) {
                Err(e) => final(self).events() == old(self).events() && (r matches Err(err) && err
                    == e),
                Ok(t) => final(self).events() == old(self).events().insert(event@, t.state)
                    && (match t.emitted {
                    None => r matches Ok(None),
                    Some(members) => (r matches Ok(Some(group)) && group.members() == members),
                }),
            },
    {
        let ghost before = self.events@;
        let last = self.breakend_index.last_record_index(event.as_slice());
        let state = self.events.take(event.as_slice());
        let known = state.is_some();
        let mut builder = match state {
            Some(EventState::Invalid) => {
                self.events.put(event.as_slice(), EventState::Invalid);
                assert(self.events@ =~= before.insert(event@, StateView::Invalid));
                return Ok(None);
            },
            Some(EventState::Removed) => {
                self.events.put(event.as_slice(), EventState::Removed);
                assert(self.events@ =~= before.insert(event@, StateView::Removed));
                return Ok(None);
            },
            Some(EventState::Building(builder)) => builder,
            None => BreakendGroupBuilder::new(),
        };
        let ghost members = builder.members();
        assert(ordered(members));
        if !supported {
            // A breakend that cannot be realigned: the group is given up.
            self.events.put(event.as_slice(), EventState::Invalid);
            assert(self.events@ =~= before.insert(event@, StateView::Invalid));
            return Ok(None);
        }
        match last {
            None => {
                if known {
                    self.events.put(event.as_slice(), EventState::Building(builder));
                    assert(self.events@ =~= before);
                } else {
                    assert(self.events@ =~= before);
                }
                Err(ProcessError::UnknownEvent)
            },
            Some(last) => {
                builder.push_breakend(breakend);
                if last == record_index {
                    // The last record of the event: the group is complete.
                    let group = builder.build();
                    self.events.put(event.as_slice(), EventState::Removed);
                    assert(self.events@ =~= before.insert(event@, StateView::Removed));
                    Ok(Some(group))
                } else {
                    self.events.put(event.as_slice(), EventState::Building(builder));
                    assert(self.events@ =~= before.insert(
                        event@,
                        StateView::Building(
                            members.insert(insertion_point(members, breakend@), breakend@),
                        ),
                    ));
                    Ok(None)
                }
            },
        }
    }
}

/// The members of every event that is building are in order.
pub open spec fn members_ordered(events: Map<Seq<u8>, StateView>) -> bool {
    forall|event: Seq<u8>| #[trigger]
        events.contains_key(event) ==> (events[event] matches StateView::Building(members)
            ==> ordered(members))
}

/// Once an error has stopped the processing of a record, nothing changes any
/// more.
pub proof fn lemma_progress_stops(
    events: Map<Seq<u8>, StateView>,
    index: Map<Seq<u8>, usize>,
    item: WorkItem,
    seq: Seq<u8>,
    k: nat,
    n: nat,
)
    requires
        k <= n,
        progress(events, index, item, seq, k).error is Some,
    ensures
        progress(events, index, item, seq, n) == progress(events, index, item, seq, k),
    decreases n - k,
{
    if k < n {
        lemma_progress_stops(events, index, item, seq, k, (n - 1) as nat);
    }
}

/// Appends the output records of a completed group: one per member, each at
/// the member's own locus and with its mate, all for the same extraction.
fn emit_group(calls: &mut Vec<Call>, group: &BreakendGroup, event: &Vec<u8>, extraction: usize)
    ensures
        call_views(final(calls)@) == call_views(old(calls)@) + member_calls(
            group.members(),
            event@,
            extraction as nat,
        ),
{
    let breakends = group.breakends();
    let ghost before = call_views(calls@);
    let ghost members = group.members();
    let mut i: usize = 0;
    assert(call_views(calls@) =~= before + member_calls(members, event@, extraction as nat).take(
        0,
    ));
    while i < breakends.len()
        invariant
            i <= breakends@.len(),
            crate::breakends::views(breakends@) == members,
            call_views(calls@) == before + member_calls(members, event@, extraction as nat).take(
                i as int,
            ),
        decreases breakends@.len() - i,
    {
        let breakend = &breakends[i];
        assert(breakend@ == members[i as int]);
        let call = Call {
            chrom: name_bytes(&breakend.locus().contig),
            pos: breakend.locus().pos,
            id: call_identifier(breakend.id()),
            mateid: copy_optional_bytes(breakend.mateid()),
            variant: breakend.to_variant(event),
            extraction,
        };
        assert(call@ == member_call(members[i as int], event@, extraction as nat));
        let ghost calls_before = calls@;
        calls.push(call);
        i += 1;
        proof {
            let all = member_calls(members, event@, extraction as nat);
            assert(all.take(i as int) =~= all.take(i - 1).push(all[i - 1]));
            assert(call_views(calls@) =~= call_views(calls_before).push(
                calls@[calls_before.len() as int]@,
            ));
            assert(call_views(calls@) =~= before + all.take(i as int));
        }
    }
    assert(member_calls(members, event@, extraction as nat).take(i as int) =~= member_calls(
        members,
        event@,
        extraction as nat,
    ));
}

/// Whether any of the variants is a breakend.
fn any_breakend(work_item: &WorkItem) -> (any: bool)
    ensures
        any == work_item.has_breakend(),
{
    let mut i: usize = 0;
    while i < work_item.variants.len()
        invariant
            i <= work_item.variants@.len(),
            forall|k: int| 0 <= k < i ==> !((#[trigger] work_item.variants@[k])@ is Breakend),
        decreases work_item.variants@.len() - i,
    {
        if work_item.variants[i].is_breakend() {
            return true;
        }
        i += 1;
    }
    false
}

impl ObservationProcessor {
    /// Decides what to extract for variant `k` of a record.
    ///
    /// A variant that is no breakend is placed on its contig, and the events
    /// stay as they are. A breakend moves its event on; there is something to
    /// extract only where it completes its group.
    pub fn process_variant(&mut self, work_item: &WorkItem, k: usize, chrom_seq: &Vec<u8>) -> (r:
        Result<Option<Extraction>, ProcessError>)
        requires
            old(self).wf(),
            work_item.wf(),
            k < work_item.variants@.len(),
        ensures
            final(self).wf(),
            final(self).index() == old(self).index(),
            !(work_item.variants@[k as int]@ is Breakend) ==> final(self).events() == old(
                self,
            ).events() && match typed(
                work_item.variants@[k as int]@,
                work_item.chrom@,
                work_item.start,
                chrom_seq@,
            ) {
                Err(e) => (r matches Err(err) && err == e),
                Ok(extraction) => (r matches Ok(Some(x)) && x@ == extraction),
            },
            work_item.variants@[k as int]@ matches VariantView::Breakend { event, .. }
                ==> match transition(
                lookup(old(self).events(), event),
                work_item.breakend(k as int),
                work_item.supported@[k as int],
                lookup(old(self).index(), event),
                work_item.record_index,
            ) {
                Err(e) => final(self).events() == old(self).events() && (r matches Err(err) && err
                    == e),
                Ok(t) => final(self).events() == old(self).events().insert(event, t.state)
                    && (match t.emitted {
                    None => r matches Ok(None),
                    Some(members) => (r matches Ok(Some(x)) && x@ == ExtractionView::BreakendGroup {
                        members,
                    }),
                }),
            },
    {
        match &work_item.variants[k] {
            Variant::Breakend { ref_allele, spec, event } => {
                let breakend = Breakend::new(
                    Locus::new(work_item.chrom.clone(), work_item.start),
                    ref_allele,
                    spec,
                    &work_item.record_id,
                    copy_optional_bytes(&work_item.record_mateid),
                );
                assert(breakend@ == work_item.breakend(k as int));
                match self.process_breakend(
                    event,
                    breakend,
                    work_item.supported[k],
                    work_item.record_index,
                )? {
                    Some(group) => Ok(Some(Extraction::BreakendGroup { group })),
                    None => Ok(None),
                }
            },
            variant => {
                let extraction = typed_extraction(variant, work_item, chrom_seq)?;
                Ok(Some(extraction))
            },
        }
    }

    /// Processes one record of the candidate stream.
    ///
    /// A record without variants gives nothing. In a record without breakends
    /// every variant gives one extraction and one output record at the
    /// position of the record. In a record with a breakend, each breakend
    /// moves its event on, and an event that is completed gives one
    /// extraction and one output record per member of its group; nothing is
    /// emitted for an event before its last record. The first variant that
    /// cannot be processed stops the record with its error.
    pub fn process_record(&mut self, work_item: &WorkItem, chrom_seq: &Vec<u8>) -> (r: Result<
        Calls,
        ProcessError,
    >)
        requires
            old(self).wf(),
            work_item.wf(),
        ensures
            final(self).wf(),
            final(self).index() == old(self).index(),
            ({
                let p = progress(
                    old(self).events(),
                    old(self).index(),
                    *work_item,
                    chrom_seq@,
                    work_item.variants@.len(),
                );
                &&& final(self).events() == p.events
                &&& match p.error {
                    Some(e) => (r matches Err(err) && err == e),
                    None => (r matches Ok(calls) && calls.index == work_item.record_index
                        && extraction_views(calls.extractions@) == p.extractions && call_views(
                        calls.inner@,
                    ) == p.calls && calls.wf()),
                }
            }),
    {
        let with_breakend = any_breakend(work_item);
        let mut extractions: Vec<Extraction> = Vec::new();
        let mut calls: Vec<Call> = Vec::new();
        let ghost events = self.events();
        let ghost index = self.index();
        let n = work_item.variants.len();
        let mut k: usize = 0;
        assert(extraction_views(extractions@) =~= Seq::<ExtractionView>::empty());
        assert(call_views(calls@) =~= Seq::<CallView>::empty());
        while k < n
            invariant
                k <= n,
                n == work_item.variants@.len(),
                work_item.wf(),
                with_breakend == work_item.has_breakend(),
                self.wf(),
                self.index() == index,
                index == old(self).index(),
                events == old(self).events(),
                ({
                    let p = progress(events, index, *work_item, chrom_seq@, k as nat);
                    &&& p.error is None
                    &&& self.events() == p.events
                    &&& extraction_views(extractions@) == p.extractions
                    &&& call_views(calls@) == p.calls
                }),
            decreases n - k,
        {
            let ghost before = progress(events, index, *work_item, chrom_seq@, k as nat);
            let ghost after = progress(events, index, *work_item, chrom_seq@, (k + 1) as nat);
            let ghost extractions_before = extractions@;
            if with_breakend {
                assert(after == breakend_step(before, index, *work_item, k as int));
                match &work_item.variants[k] {
                    Variant::Breakend { event, .. } => {
                        match self.process_variant(work_item, k, chrom_seq) {
                            Err(e) => {
                                proof {
                                    lemma_progress_stops(
                                        events,
                                        index,
                                        *work_item,
                                        chrom_seq@,
                                        (k + 1) as nat,
                                        n as nat,
                                    );
                                }
                                return Err(e);
                            },
                            Ok(None) => {},
                            Ok(Some(extraction)) => {
                                match &extraction {
                                    Extraction::BreakendGroup { group } => {
                                        // All records of the event carry the same observations.
                                        emit_group(&mut calls, group, event, extractions.len());
                                    },
                                    _ => {},
                                }
                                extractions.push(extraction);
                                assert(extraction_views(extractions@) =~= extraction_views(
                                    extractions_before,
                                ).push(extractions@[extractions_before.len() as int]@));
                            },
                        }
                    },
                    _ => {},
                }
            } else {
                assert(after == typed_step(before, *work_item, chrom_seq@, k as int));
                assert(!(work_item.variants@[k as int]@ is Breakend));
                match self.process_variant(work_item, k, chrom_seq) {
                    Err(e) => {
                        proof {
                            lemma_progress_stops(
                                events,
                                index,
                                *work_item,
                                chrom_seq@,
                                (k + 1) as nat,
                                n as nat,
                            );
                        }
                        return Err(e);
                    },
                    Ok(None) => {},
                    Ok(Some(extraction)) => {
                        let ghost calls_before = calls@;
                        let call = Call {
                            chrom: name_bytes(&work_item.chrom),
                            pos: work_item.start,
                            id: call_identifier(&work_item.record_id),
                            mateid: None,
                            variant: work_item.variants[k].copy(),
                            extraction: extractions.len(),
                        };
                        calls.push(call);
                        extractions.push(extraction);
                        assert(extraction_views(extractions@) =~= extraction_views(
                            extractions_before,
                        ).push(extractions@[extractions_before.len() as int]@));
                        assert(call_views(calls@) =~= call_views(calls_before).push(
                            calls@[calls_before.len() as int]@,
                        ));
                    },
                }
            }
            k += 1;
        }
        proof {
            lemma_progress_refers(events, index, *work_item, chrom_seq@, n as nat);
            assert forall|i: int| 0 <= i < calls@.len() implies (#[trigger] calls@[i]).extraction
                < extractions@.len() by {
                assert(call_views(calls@)[i] == calls@[i]@);
            }
        }
        Ok(Calls { index: work_item.record_index, extractions, inner: calls })
    }
}

/// A group is handed out once per event: only with the last record of the
/// event, only for a breakend that can be realigned, and never again after
/// that, whatever arrives for the event.
pub proof fn lemma_handed_out_once(
    state: Option<StateView>,
    breakend: BreakendView,
    supported: bool,
    last: Option<usize>,
    record_index: usize,
    later: BreakendView,
    later_supported: bool,
    later_index: usize,
)
    requires
        transition(state, breakend, supported, last, record_index) matches Ok(t) && t.emitted
            is Some,
    ensures
        supported,
        last == Some(record_index),
        transition(state, breakend, supported, last, record_index)->Ok_0.state
            == StateView::Removed,
        transition(Some(StateView::Removed), later, later_supported, last, later_index) == Ok::<
            Transition,
            ProcessError,
        >(Transition { state: StateView::Removed, emitted: None }),
{
}

/// An event that was given up stays given up: no breakend brings it back,
/// and no group is handed out for it.
pub proof fn lemma_invalid_is_final(
    breakend: BreakendView,
    supported: bool,
    last: Option<usize>,
    record_index: usize,
)
    ensures
        transition(Some(StateView::Invalid), breakend, supported, last, record_index) == Ok::<
            Transition,
            ProcessError,
        >(Transition { state: StateView::Invalid, emitted: None }),
{
}

/// The members of an event stay in order when a breakend joins them, and
/// the group that is handed out holds one member more than were collected.
pub proof fn lemma_members_grow(
    members: Seq<BreakendView>,
    breakend: BreakendView,
    last: Option<usize>,
    record_index: usize,
)
    requires
        ordered(members),
        last is Some,
    ensures
        match transition(Some(StateView::Building(members)), breakend, true, last, record_index) {
            Ok(t) => match t.emitted {
                Some(group) => ordered(group) && group.len() == members.len() + 1
                    && group.contains(breakend),
                None => t.state matches StateView::Building(grown) && ordered(grown) && grown.len()
                    == members.len() + 1 && grown.contains(breakend),
            },
            Err(_) => false,
        },
{
    let at = insertion_point(members, breakend);
    crate::breakends::lemma_insertion_exists(members, breakend);
    let grown = members.insert(at, breakend);
    crate::breakends::lemma_insert_ordered(members, breakend);
    assert(grown[at] == breakend);
}

/// A record without breakends leaves every event as it is, and gives one
/// extraction and one output record per variant that was processed.
pub proof fn lemma_plain_record(
    events: Map<Seq<u8>, StateView>,
    index: Map<Seq<u8>, usize>,
    item: WorkItem,
    seq: Seq<u8>,
    k: nat,
)
    requires
        !item.has_breakend(),
    ensures
        progress(events, index, item, seq, k).events == events,
        progress(events, index, item, seq, k).error is None ==> progress(
            events,
            index,
            item,
            seq,
            k,
        ).calls.len() == k && progress(events, index, item, seq, k).extractions.len() == k,
    decreases k,
{
    if k > 0 {
        lemma_plain_record(events, index, item, seq, (k - 1) as nat);
    }
}

/// Whether a count is due to be reported: every hundredth is.
pub fn report_due(count: usize) -> (due: bool)
    ensures
        due == (count > 0 && count % 100 == 0),
{
    count > 0 && count % 100 == 0
}

/// Every output record of a record in progress names one of its extractions.
pub proof fn lemma_progress_refers(
    events: Map<Seq<u8>, StateView>,
    index: Map<Seq<u8>, usize>,
    item: WorkItem,
    seq: Seq<u8>,
    k: nat,
)
    ensures
        forall|i: int|
            0 <= i < progress(events, index, item, seq, k).calls.len() ==> (#[trigger] progress(
                events,
                index,
                item,
                seq,
                k,
            ).calls[i]).extraction < progress(events, index, item, seq, k).extractions.len(),
    decreases k,
{
    if k > 0 {
        lemma_progress_refers(events, index, item, seq, (k - 1) as nat);
        let before = progress(events, index, item, seq, (k - 1) as nat);
        let after = progress(events, index, item, seq, k);
        assert forall|i: int| 0 <= i < after.calls.len() implies (#[trigger] after.calls[i]).extraction
            < after.extractions.len() by {
            if i < before.calls.len() {
                assert(after.calls[i] == before.calls[i]);
            }
        }
    }
}

impl Call {
    /// A copy of the call.
    pub fn copy(&self) -> (c: Call)
        ensures
            c@ == self@,
    {
        Call {
            chrom: copy_bytes(&self.chrom),
            pos: self.pos,
            id: copy_optional_bytes(&self.id),
            mateid: copy_optional_bytes(&self.mateid),
            variant: self.variant.copy(),
            extraction: self.extraction,
        }
    }
}

/// Puts the observations that were extracted for a record into its output
/// records: each gets the encoded pileup of the extraction that it names, so
/// the records of one breakend group all carry the same observations.
/// `pileups` holds one pileup per extraction, in their order. Every pileup can
/// be encoded, so every output record is filled.
pub fn output_records(calls: &Calls, pileups: &Vec<Vec<Observation>>) -> (r: Result<
    Vec<OutputRecord>,
    CodecError,
>)
    requires
        calls.wf(),
        pileups@.len() == calls.extractions@.len(),
        forall|j: int| 0 <= j < pileups@.len() ==> (#[trigger] pileups@[j])@.len() + 7 <= u64::MAX,
    ensures
        r is Ok,
        r matches Ok(records) ==> records@.len() == calls.inner@.len() && forall|i: int|
            0 <= i < records@.len() ==> (#[trigger] records@[i]).call@ == calls.inner@[i]@
                && encodes(
                records@[i].observations@,
                pileups@[calls.inner@[i].extraction as int]@,
            ),
{
    let mut records: Vec<OutputRecord> = Vec::with_capacity(calls.inner.len());
    let mut i: usize = 0;
    while i < calls.inner.len()
        invariant
            i <= calls.inner@.len(),
            calls.wf(),
            pileups@.len() == calls.extractions@.len(),
            forall|j: int|
                0 <= j < pileups@.len() ==> (#[trigger] pileups@[j])@.len() + 7 <= u64::MAX,
            records@.len() == i,
            forall|k: int|
                0 <= k < i ==> (#[trigger] records@[k]).call@ == calls.inner@[k]@ && encodes(
                    records@[k].observations@,
                    pileups@[calls.inner@[k].extraction as int]@,
                ),
        decreases calls.inner@.len() - i,
    {
        let call = &calls.inner[i];
        let observations = write_observations(&pileups[call.extraction])?;
        records.push(OutputRecord { call: call.copy(), observations });
        i += 1;
    }
    Ok(records)
}

} // verus!
