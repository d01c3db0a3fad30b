//! The mathematical model of a collection's storage: a sequence of slots,
//! each either occupied (`Some`) or vacant (`None`).
use vstd::prelude::*;

verus! {

/// Number of occupied slots.
pub open spec fn occupied_count(s: Seq<Option<u8>>) -> nat
    decreases s.len(),
{
    if s.len() == 0 {
        0
    } else {
        occupied_count(s.drop_last()) + if s.last() is Some {
            1nat
        } else {
            0nat
        }
    }
}

/// The values of the occupied slots, in ascending index order.
pub open spec fn occupied_values(s: Seq<Option<u8>>) -> Seq<u8>
    decreases s.len(),
{
    if s.len() == 0 {
        Seq::empty()
    } else {
        let front = occupied_values(s.drop_last());
        match s.last() {
            Some(v) => front.push(v),
            None => front,
        }
    }
}

/// Some slot is vacant.
pub open spec fn has_vacancy(s: Seq<Option<u8>>) -> bool {
    exists|j: int| 0 <= j < s.len() && #[trigger] s[j] is None
}

/// `i` is the lowest-numbered vacant slot.
pub open spec fn is_lowest_vacant(s: Seq<Option<u8>>, i: int) -> bool {
    &&& 0 <= i < s.len()
    &&& s[i] is None
    &&& forall|j: int| 0 <= j < i ==> #[trigger] s[j] is Some
}

/// The lowest occupied slot at index `p` or above, if any.
pub open spec fn next_occupied(s: Seq<Option<u8>>, p: int) -> Option<int>
    decreases s.len() - p,
{
    if p < 0 || p >= s.len() {
        None
    } else if s[p] is Some {
        Some(p)
    } else {
        next_occupied(s, p + 1)
    }
}

/// The lowest vacant slot at index `p` or above, if any.
pub open spec fn next_vacant(s: Seq<Option<u8>>, p: int) -> Option<int>
    decreases s.len() - p,
{
    if p < 0 || p >= s.len() {
        None
    } else if s[p] is None {
        Some(p)
    } else {
        next_vacant(s, p + 1)
    }
}

/// Where an insertion into `s` goes: the lowest vacant slot, or the end.
pub open spec fn add_index(s: Seq<Option<u8>>) -> int {
    match next_vacant(s, 0) {
        Some(k) => k,
        None => s.len() as int,
    }
}

/// The slots after inserting `item` into `s`.
pub open spec fn slots_after_add(s: Seq<Option<u8>>, item: u8) -> Seq<Option<u8>> {
    if add_index(s) < s.len() {
        s.update(add_index(s), Some(item))
    } else {
        s.push(Some(item))
    }
}

/// Two slot sequences that agree on which slots are occupied.
pub open spec fn same_occupancy(a: Seq<Option<u8>>, b: Seq<Option<u8>>) -> bool {
    &&& a.len() == b.len()
    &&& forall|i: int| 0 <= i < a.len() ==> (#[trigger] a[i] is Some <==> b[i] is Some)
}

pub proof fn lemma_count_bounded(s: Seq<Option<u8>>)
    ensures
        occupied_count(s) <= s.len(),
        occupied_count(s) == s.len() <==> !has_vacancy(s),
    decreases s.len(),
{
    if s.len() > 0 {
        let t = s.drop_last();
        lemma_count_bounded(t);
        if has_vacancy(t) {
            let j = choose|j: int| 0 <= j < t.len() && #[trigger] t[j] is None;
            assert(s[j] is None);
        }
        if has_vacancy(s) {
            let j = choose|j: int| 0 <= j < s.len() && #[trigger] s[j] is None;
            if j < t.len() {
                assert(t[j] is None);
            }
        } else {
            assert forall|j: int| 0 <= j < t.len() implies #[trigger] t[j] is Some by {
                assert(s[j] is Some);
            }
            assert(s[s.len() - 1] is Some);
        }
    }
}

pub proof fn lemma_count_update(s: Seq<Option<u8>>, i: int, v: Option<u8>)
    requires
        0 <= i < s.len(),
    ensures
        occupied_count(s.update(i, v)) + (if s[i] is Some { 1int } else { 0int })
            == occupied_count(s) + (if v is Some { 1int } else { 0int }),
    decreases s.len(),
{
    let u = s.update(i, v);
    if i < s.len() - 1 {
        assert(u.drop_last() =~= s.drop_last().update(i, v));
        lemma_count_update(s.drop_last(), i, v);
    } else {
        assert(u.drop_last() =~= s.drop_last());
    }
}

pub proof fn lemma_next_occupied(s: Seq<Option<u8>>, p: int)
    requires
        0 <= p,
    ensures
        match next_occupied(s, p) {
            Some(k) => p <= k < s.len() && s[k] is Some && forall|j: int|
                p <= j < k ==> #[trigger] s[j] is None,
            None => forall|j: int| p <= j < s.len() ==> #[trigger] s[j] is None,
        },
    decreases s.len() - p,
{
    if p < s.len() && s[p] is None {
        lemma_next_occupied(s, p + 1);
    }
}

pub proof fn lemma_next_occupied_same(a: Seq<Option<u8>>, b: Seq<Option<u8>>, p: int)
    requires
        same_occupancy(a, b),
    ensures
        next_occupied(a, p) == next_occupied(b, p),
    decreases a.len() - p,
{
    if 0 <= p < a.len() {
        assert(a[p] is Some <==> b[p] is Some);
        lemma_next_occupied_same(a, b, p + 1);
    }
}

/// Slot sequences that agree on which slots are occupied have as many
/// occupied slots.
pub proof fn lemma_count_same_occupancy(a: Seq<Option<u8>>, b: Seq<Option<u8>>)
    requires
        same_occupancy(a, b),
    ensures
        occupied_count(a) == occupied_count(b),
    decreases a.len(),
{
    if a.len() > 0 {
        let (x, y) = (a.drop_last(), b.drop_last());
        assert(same_occupancy(x, y)) by {
            assert forall|i: int| 0 <= i < x.len() implies (#[trigger] x[i] is Some <==> y[i] is Some) by {
                assert(a[i] is Some <==> b[i] is Some);
            }
        }
        assert(a[a.len() - 1] is Some <==> b[b.len() - 1] is Some);
        lemma_count_same_occupancy(x, y);
    }
}

pub proof fn lemma_next_vacant(s: Seq<Option<u8>>, p: int)
    requires
        0 <= p,
    ensures
        match next_vacant(s, p) {
            Some(k) => p <= k < s.len() && s[k] is None && forall|j: int|
                p <= j < k ==> #[trigger] s[j] is Some,
            None => forall|j: int| p <= j < s.len() ==> #[trigger] s[j] is Some,
        },
    decreases s.len() - p,
{
    if p < s.len() && s[p] is Some {
        lemma_next_vacant(s, p + 1);
    }
}

/// An insertion goes to the lowest vacant slot when there is one, and to the
/// end otherwise.
pub proof fn lemma_add_index(s: Seq<Option<u8>>)
    ensures
        has_vacancy(s) ==> is_lowest_vacant(s, add_index(s)),
        !has_vacancy(s) ==> add_index(s) == s.len(),
{
    lemma_next_vacant(s, 0);
    if has_vacancy(s) {
        let j = choose|j: int| 0 <= j < s.len() && #[trigger] s[j] is None;
        assert(s[j] is None);
    } else {
        if next_vacant(s, 0) is Some {
            let k = next_vacant(s, 0)->0;
            assert(s[k] is None);
        }
    }
}

} // verus!
