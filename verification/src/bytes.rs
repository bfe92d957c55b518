//! Byte strings: identifiers, alleles and names as they come from records.

use vstd::prelude::*;
use vstd::slice::slice_to_vec;

verus! {

/// A copy of a byte string.
pub fn copy_bytes(bytes: &Vec<u8>) -> (copy: Vec<u8>)
    ensures
        copy@ == bytes@,
{
    slice_to_vec(bytes.as_slice())
}

/// A copy of an optional byte string.
pub fn copy_optional_bytes(bytes: &Option<Vec<u8>>) -> (copy: Option<Vec<u8>>)
    ensures
        optional_bytes(copy) == optional_bytes(*bytes),
{
    match bytes {
        Some(b) => Some(copy_bytes(b)),
        None => None,
    }
}

/// The contents of an optional byte string.
pub open spec fn optional_bytes(bytes: Option<Vec<u8>>) -> Option<Seq<u8>> {
    match bytes {
        Some(b) => Some(b@),
        None => None,
    }
}

/// Byte strings in dictionary order: `a` comes strictly before `b` when it is
/// a proper prefix of `b` or has the smaller byte where the two first differ.
pub open spec fn lex_lt(a: Seq<u8>, b: Seq<u8>) -> bool {
    exists|k: int| #[trigger]
        differ_at(a, b, k) && (k == a.len() || a[k] < b[k])
}

/// `a` and `b` agree before position `k`, and `b` goes on at `k`.
pub open spec fn differ_at(a: Seq<u8>, b: Seq<u8>, k: int) -> bool {
    &&& 0 <= k <= a.len()
    &&& k < b.len()
    &&& forall|j: int| 0 <= j < k ==> a[j] == b[j]
}

/// How two byte strings compare in dictionary order.
#[derive(Clone, Copy, Debug, PartialEq, Eq, Structural)]
pub enum Order {
    Before,
    Same,
    After,
}

/// Dictionary order is strict: no byte string comes before itself, and of two
/// none comes before the other both ways.
pub proof fn lemma_lex_strict(a: Seq<u8>, b: Seq<u8>)
    ensures
        !(lex_lt(a, b) && lex_lt(b, a)),
        !lex_lt(a, a),
{
    if lex_lt(a, b) && lex_lt(b, a) {
        let k = choose|k: int| #[trigger] differ_at(a, b, k) && (k == a.len() || a[k] < b[k]);
        let l = choose|l: int| #[trigger] differ_at(b, a, l) && (l == b.len() || b[l] < a[l]);
        if k < l {
            assert(b[k] == a[k]);
        } else if l < k {
            assert(a[l] == b[l]);
        }
    }
    if lex_lt(a, a) {
        let k = choose|k: int| #[trigger] differ_at(a, a, k) && (k == a.len() || a[k] < a[k]);
    }
}

/// Compares two byte strings in dictionary order.
pub fn compare_bytes(a: &[u8], b: &[u8]) -> (order: Order)
    ensures
        order == Order::Before <==> lex_lt(a@, b@),
        order == Order::Same <==> a@ == b@,
        order == Order::After <==> lex_lt(b@, a@),
{
    proof {
        lemma_lex_strict(a@, b@);
        lemma_lex_strict(a@, a@);
    }
    let mut i: usize = 0;
    while i < a.len() && i < b.len()
        invariant
            i <= a@.len(),
            i <= b@.len(),
            forall|j: int| 0 <= j < i ==> a@[j] == b@[j],
        decreases a@.len() - i,
    {
        if a[i] < b[i] {
            assert(differ_at(a@, b@, i as int));
            assert(a@ != b@);
            return Order::Before;
        }
        if a[i] > b[i] {
            assert(differ_at(b@, a@, i as int));
            assert(a@ != b@);
            return Order::After;
        }
        i += 1;
    }
    if i < b.len() {
        assert(differ_at(a@, b@, i as int));
        assert(a@.len() != b@.len());
        Order::Before
    } else if i < a.len() {
        assert(differ_at(b@, a@, i as int));
        assert(a@.len() != b@.len());
        Order::After
    } else {
        assert(a@ =~= b@);
        Order::Same
    }
}

} // verus!
