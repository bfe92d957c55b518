//! Breakends and their grouping by event: the members of an event arrive
//! record by record and are put together when its last record is seen.

use crate::bytes::{
    compare_bytes, copy_bytes, copy_optional_bytes, lemma_lex_strict, lex_lt, optional_bytes, Order,
};
use crate::genome::Locus;
use crate::table::{lookup, Table};
use crate::variant::{Variant, VariantView};
use vstd::prelude::*;
use vstd::utf8::encode_utf8;

verus! {

/// One end of a rearrangement.
#[derive(Debug)]
pub struct Breakend {
    pub locus: Locus,
    pub ref_allele: Vec<u8>,
    /// The description of the joined sequence, as given in the record.
    pub spec: Vec<u8>,
    /// The identifier of the record that holds the breakend.
    pub id: Vec<u8>,
    /// The identifier of the record that holds the other end.
    pub mateid: Option<Vec<u8>>,
}

/// The mathematical value of a breakend.
pub struct BreakendView {
    pub contig: Seq<char>,
    pub pos: u64,
    pub ref_allele: Seq<u8>,
    pub spec: Seq<u8>,
    pub id: Seq<u8>,
    pub mateid: Option<Seq<u8>>,
}

impl View for Breakend {
    type V = BreakendView;

    open spec fn view(&self) -> BreakendView {
        BreakendView {
            contig: self.locus.contig@,
            pos: self.locus.pos,
            ref_allele: self.ref_allele@,
            spec: self.spec@,
            id: self.id@,
            mateid: optional_bytes(self.mateid),
        }
    }
}

/// The values of a sequence of breakends.
pub open spec fn views(breakends: Seq<Breakend>) -> Seq<BreakendView> {
    Seq::new(breakends.len(), |i: int| breakends[i]@)
}

impl BreakendView {
    /// The order of breakends within a group: by contig, then position, then
    /// identifier. `self` comes strictly before `other`.
    pub open spec fn before(self, other: BreakendView) -> bool {
        let c = encode_utf8(self.contig);
        let d = encode_utf8(other.contig);
        lex_lt(c, d) || (c == d && (self.pos < other.pos || (self.pos == other.pos && lex_lt(
            self.id,
            other.id,
        ))))
    }
}

/// The breakends are in order: none comes strictly before its predecessor.
pub open spec fn ordered(breakends: Seq<BreakendView>) -> bool {
    forall|i: int| 0 < i < breakends.len() ==> !(#[trigger] breakends[i]).before(breakends[i - 1])
}

impl Breakend {
    /// A breakend at `locus`, as the record with identifier `id` gives it.
    pub fn new(
        locus: Locus,
        ref_allele: &Vec<u8>,
        spec: &Vec<u8>,
        id: &Vec<u8>,
        mateid: Option<Vec<u8>>,
    ) -> (breakend: Breakend)
        ensures
            breakend@ == (BreakendView {
                contig: locus.contig@,
                pos: locus.pos,
                ref_allele: ref_allele@,
                spec: spec@,
                id: id@,
                mateid: optional_bytes(mateid),
            }),
    {
        Breakend {
            locus,
            ref_allele: copy_bytes(ref_allele),
            spec: copy_bytes(spec),
            id: copy_bytes(id),
            mateid,
        }
    }

    pub fn locus(&self) -> (locus: &Locus)
        ensures
            *locus == self.locus,
    {
        &self.locus
    }

    pub fn id(&self) -> (id: &Vec<u8>)
        ensures
            *id == self.id,
    {
        &self.id
    }

    pub fn mateid(&self) -> (mateid: &Option<Vec<u8>>)
        ensures
            *mateid == self.mateid,
    {
        &self.mateid
    }

    /// The breakend as a variant of the given event.
    pub fn to_variant(&self, event: &Vec<u8>) -> (variant: Variant)
        ensures
            variant@ == (VariantView::Breakend {
                ref_allele: self@.ref_allele,
                spec: self@.spec,
                event: event@,
            }),
    {
        Variant::Breakend {
            ref_allele: copy_bytes(&self.ref_allele),
            spec: copy_bytes(&self.spec),
            event: copy_bytes(event),
        }
    }

    /// A copy of the breakend.
    pub fn copy(&self) -> (c: Breakend)
        ensures
            c@ == self@,
    {
        Breakend {
            locus: Locus { contig: self.locus.contig.clone(), pos: self.locus.pos },
            ref_allele: copy_bytes(&self.ref_allele),
            spec: copy_bytes(&self.spec),
            id: copy_bytes(&self.id),
            mateid: copy_optional_bytes(&self.mateid),
        }
    }

    /// Whether the breakend comes strictly before `other` in the order of a
    /// group.
    pub fn comes_before(&self, other: &Breakend) -> (b: bool)
        ensures
            b == self@.before(other@),
    {
        match compare_bytes(
            self.locus.contig.as_str().as_bytes(),
            other.locus.contig.as_str().as_bytes(),
        ) {
            Order::Before => true,
            Order::After => false,
            Order::Same => {
                if self.locus.pos < other.locus.pos {
                    true
                } else if self.locus.pos > other.locus.pos {
                    false
                } else {
                    match compare_bytes(self.id.as_slice(), other.id.as_slice()) {
                        Order::Before => true,
                        _ => false,
                    }
                }
            },
        }
    }
}

/// The order of breakends is strict: of two, none comes before the other
/// both ways.
pub proof fn lemma_before_strict(a: BreakendView, b: BreakendView)
    ensures
        !(a.before(b) && b.before(a)),
{
    lemma_lex_strict(encode_utf8(a.contig), encode_utf8(b.contig));
    lemma_lex_strict(a.id, b.id);
}

/// Copies of the breakends, in their order.
pub fn copy_breakends(breakends: &Vec<Breakend>) -> (copy: Vec<Breakend>)
    ensures
        views(copy@) == views(breakends@),
{
    let mut copy: Vec<Breakend> = Vec::with_capacity(breakends.len());
    let mut i: usize = 0;
    while i < breakends.len()
        invariant
            i <= breakends@.len(),
            copy@.len() == i,
            forall|k: int| 0 <= k < i ==> (#[trigger] copy@[k])@ == breakends@[k]@,
        decreases breakends@.len() - i,
    {
        copy.push(breakends[i].copy());
        i += 1;
    }
    assert(views(copy@) =~= views(breakends@));
    copy
}

/// The members of one event, kept in order while they are collected.
#[derive(Debug)]
pub struct BreakendGroupBuilder {
    breakends: Vec<Breakend>,
}

/// The members of one event, complete and in order.
#[derive(Debug)]
pub struct BreakendGroup {
    breakends: Vec<Breakend>,
}

impl BreakendGroupBuilder {
    /// The members collected so far, in order.
    pub closed spec fn members(&self) -> Seq<BreakendView> {
        views(self.breakends@)
    }

    pub fn new() -> (builder: Self)
        ensures
            builder.members() == Seq::<BreakendView>::empty(),
    {
        let builder = BreakendGroupBuilder { breakends: Vec::new() };
        assert(builder.members() =~= Seq::<BreakendView>::empty());
        builder
    }

    /// The number of members collected so far.
    pub fn len(&self) -> (n: usize)
        ensures
            n == self.members().len(),
    {
        self.breakends.len()
    }

    /// Adds a member at its place in the order: behind every member that does
    /// not come after it.
    pub fn push_breakend(&mut self, breakend: Breakend)
        requires
            ordered(old(self).members()),
        ensures
            ordered(final(self).members()),
            is_insertion_point(
                old(self).members(),
                breakend@,
                insertion_point(old(self).members(), breakend@),
            ),
            final(self).members() == old(self).members().insert(
                insertion_point(old(self).members(), breakend@),
                breakend@,
            ),
    {
        let ghost before = self.members();
        let ghost value = breakend@;
        let mut at: usize = 0;
        while at < self.breakends.len() && !breakend.comes_before(&self.breakends[at])
            invariant
                at <= self.breakends@.len(),
                self.members() == before,
                breakend@ == value,
                forall|k: int| 0 <= k < at ==> !value.before(#[trigger] before[k]),
            decreases self.breakends@.len() - at,
        {
            at += 1;
        }
        assert(is_insertion_point(before, value, at as int));
        proof {
            lemma_insertion_point(before, value, at as int);
        }
        self.breakends.insert(at, breakend);
        proof {
            lemma_insert_ordered(before, value);
            assert(self.members() =~= before.insert(at as int, value));
        }
    }

    /// The group of the members collected so far.
    pub fn build(&self) -> (group: BreakendGroup)
        ensures
            group.members() == self.members(),
    {
        BreakendGroup { breakends: copy_breakends(&self.breakends) }
    }
}

/// `at` is where `value` goes into `members`: no member before `at` comes
/// after `value`, and the member at `at`, if there is one, does.
pub open spec fn is_insertion_point(members: Seq<BreakendView>, value: BreakendView, at: int) -> bool {
    &&& 0 <= at <= members.len()
    &&& forall|k: int| 0 <= k < at ==> !value.before(#[trigger] members[k])
    &&& at < members.len() ==> value.before(members[at])
}

/// The place of `value` in `members`.
pub open spec fn insertion_point(members: Seq<BreakendView>, value: BreakendView) -> int {
    choose|at: int| is_insertion_point(members, value, at)
}

/// There is one place for a value in a sequence of members.
pub proof fn lemma_insertion_point(members: Seq<BreakendView>, value: BreakendView, at: int)
    requires
        is_insertion_point(members, value, at),
    ensures
        insertion_point(members, value) == at,
{
    let other = insertion_point(members, value);
    assert(is_insertion_point(members, value, other));
    if other < at {
        assert(!value.before(members[other]));
    } else if at < other {
        assert(!value.before(members[at]));
    }
}

/// Every value has a place in an ordered sequence of members.
pub proof fn lemma_insertion_exists(members: Seq<BreakendView>, value: BreakendView)
    ensures
        is_insertion_point(members, value, insertion_point(members, value)),
{
    lemma_first_after(members, value, 0);
}

/// There is a place for `value` at or behind `from`, given that no member
/// before `from` comes after it.
proof fn lemma_first_after(members: Seq<BreakendView>, value: BreakendView, from: int)
    requires
        0 <= from <= members.len(),
        forall|k: int| 0 <= k < from ==> !value.before(#[trigger] members[k]),
    ensures
        exists|at: int| is_insertion_point(members, value, at),
    decreases members.len() - from,
{
    if from < members.len() && !value.before(members[from]) {
        lemma_first_after(members, value, from + 1);
    } else {
        assert(is_insertion_point(members, value, from));
    }
}

/// Members stay in order when a value goes in at its place.
pub proof fn lemma_insert_ordered(members: Seq<BreakendView>, value: BreakendView)
    requires
        ordered(members),
    ensures
        ordered(members.insert(insertion_point(members, value), value)),
{
    lemma_insertion_exists(members, value);
    let at = insertion_point(members, value);
    let after = members.insert(at, value);
    assert forall|i: int| 0 < i < after.len() implies !(#[trigger] after[i]).before(
        after[i - 1],
    ) by {
        if i < at {
            assert(after[i] == members[i] && after[i - 1] == members[i - 1]);
        } else if i == at {
            assert(after[i - 1] == members[i - 1]);
        } else if i == at + 1 {
            assert(after[i] == members[at]);
            lemma_before_strict(value, members[at]);
        } else {
            assert(after[i] == members[i - 1] && after[i - 1] == members[i - 2]);
        }
    }
}

impl BreakendGroup {
    /// The members of the group, in order.
    pub closed spec fn members(&self) -> Seq<BreakendView> {
        views(self.breakends@)
    }

    /// The members of the group, in order.
    pub fn breakends(&self) -> (breakends: &Vec<Breakend>)
        ensures
            views(breakends@) == self.members(),
    {
        &self.breakends
    }
}

/// For each event, the index of the last record of the candidate stream that
/// holds one of its breakends.
pub struct BreakendIndex {
    last_records: Table<usize>,
}

impl View for BreakendIndex {
    type V = Map<Seq<u8>, usize>;

    closed spec fn view(&self) -> Map<Seq<u8>, usize> {
        self.last_records@
    }
}

impl BreakendIndex {
    /// The index holds at most one entry per event.
    pub closed spec fn wf(&self) -> bool {
        self.last_records.wf()
    }

    /// The index of a stream without breakends.
    pub fn new() -> (index: Self)
        ensures
            index.wf(),
            index@ == Map::<Seq<u8>, usize>::empty(),
    {
        BreakendIndex { last_records: Table::new() }
    }

    /// Notes that the record at `record_index` holds a breakend of `event`.
    /// The last record of an event is the one with the greatest index among
    /// those noted for it.
    pub fn register(&mut self, event: &[u8], record_index: usize)
        requires
            old(self).wf(),
        ensures
            final(self).wf(),
            final(self)@ == old(self)@.insert(
                event@,
                match lookup(old(self)@, event@) {
                    Some(last) if last > record_index => last,
                    _ => record_index,
                },
            ),
    {
        let last = match self.last_records.get(event) {
            Some(last) if *last > record_index => *last,
            _ => record_index,
        };
        self.last_records.put(event, last);
    }

    /// The index of the last record of `event`, if the stream holds the event.
    pub fn last_record_index(&self, event: &[u8]) -> (last: Option<usize>)
        requires
            self.wf(),
        ensures
            last == lookup(self@, event@),
    {
        match self.last_records.get(event) {
            Some(i) => Some(*i),
            None => None,
        }
    }
}

} // verus!
