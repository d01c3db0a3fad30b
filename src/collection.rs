//! The slotted collection and its occupancy state machine.
use vstd::prelude::*;

use crate::slots::{
    add_index, has_vacancy, is_lowest_vacant, lemma_add_index, lemma_count_bounded,
    lemma_count_update, occupied_count, slots_after_add,
};

verus! {

/// Summary of how the storage is occupied.
#[derive(Debug, Clone, Copy, PartialEq, Eq, Structural)]
pub enum CollectionState {
    /// Nothing was ever inserted.
    Empty,
    /// `Full(n)`: the storage holds `n` slots, all occupied.
    Full(u32),
    /// `NotFull(n, f)`: `n` occupied slots and `f >= 1` vacant ones.
    NotFull(u32, u32),
}

/// Why `take` refused an index.
#[derive(Debug, Clone, Copy, PartialEq, Eq, Structural)]
pub enum TakeError {
    /// The index lies at or beyond the end of the storage.
    OutOfBounds,
    /// The slot at the index is already vacant.
    Vacant,
}

#[derive(Debug)]
pub struct Collection {
    inner: Vec<Option<u8>>,
    state: CollectionState,
}

impl View for Collection {
    type V = Seq<Option<u8>>;

    closed spec fn view(&self) -> Seq<Option<u8>> {
        self.inner@
    }
}

/// The state after an insertion into a collection in state `st`.
pub open spec fn state_after_add(st: CollectionState) -> CollectionState {
    match st {
        CollectionState::Empty => CollectionState::Full(1),
        CollectionState::Full(n) => CollectionState::Full((n + 1) as u32),
        CollectionState::NotFull(n, f) => if f == 1 {
            CollectionState::Full((n + 1) as u32)
        } else {
            CollectionState::NotFull((n + 1) as u32, (f - 1) as u32)
        },
    }
}

/// The state after a successful removal from a collection in state `st`.
pub open spec fn state_after_take(st: CollectionState) -> CollectionState {
    match st {
        CollectionState::Empty => CollectionState::Empty,
        CollectionState::Full(n) => CollectionState::NotFull((n - 1) as u32, 1),
        CollectionState::NotFull(n, f) => CollectionState::NotFull((n - 1) as u32, (f + 1) as u32),
    }
}

/// What taking slot `i` out of `s` returns.
pub open spec fn take_result(s: Seq<Option<u8>>, i: int) -> Result<u8, TakeError> {
    if i < 0 || i >= s.len() {
        Err(TakeError::OutOfBounds)
    } else if s[i] is None {
        Err(TakeError::Vacant)
    } else {
        Ok(s[i]->0)
    }
}

/// The slots after taking slot `i` out of `s`: vacant on success, unchanged
/// on failure.
pub open spec fn slots_after_take(s: Seq<Option<u8>>, i: int) -> Seq<Option<u8>> {
    if take_result(s, i) is Ok {
        s.update(i, None)
    } else {
        s
    }
}

impl Collection {
    /// The occupancy state kept beside the storage.
    pub closed spec fn occupancy(&self) -> CollectionState {
        self.state
    }

    /// The storage and the occupancy state agree.
    pub closed spec fn wf(&self) -> bool {
        &&& self.inner@.len() <= u32::MAX
        &&& match self.state {
            CollectionState::Empty => self.inner@.len() == 0,
            CollectionState::Full(n) => n == self.inner@.len() && n == occupied_count(self.inner@),
            CollectionState::NotFull(n, f) => {
                &&& n == occupied_count(self.inner@)
                &&& n + f == self.inner@.len()
                &&& f >= 1
            },
        }
    }

    /// An empty collection.
    pub fn new() -> (r: Self)
        ensures
            r.wf(),
            r@ == Seq::<Option<u8>>::empty(),
            occupied_count(r@) == 0,
            r.occupancy() == CollectionState::Empty,
    {
        Collection { inner: Vec::new(), state: CollectionState::Empty }
    }

    /// Puts `item` in the lowest vacant slot, or at the end when none is
    /// vacant, and returns the slot's index.
    pub fn add(&mut self, item: u8) -> (r: usize)
        requires
            old(self).wf(),
            occupied_count(old(self)@) < u32::MAX,
        ensures
            final(self).wf(),
            final(self).occupancy() == state_after_add(old(self).occupancy()),
            r == add_index(old(self)@),
            final(self)@ == slots_after_add(old(self)@, item),
            occupied_count(final(self)@) == occupied_count(old(self)@) + 1,
            has_vacancy(old(self)@) ==> is_lowest_vacant(old(self)@, r as int),
            !has_vacancy(old(self)@) ==> r == old(self)@.len(),
    {
        proof {
            lemma_count_bounded(self.inner@);
            lemma_add_index(self.inner@);
        }
        match self.state {
            CollectionState::Empty => {
                self.state = CollectionState::Full(1);
                self.inner.push(Some(item));
                assert(self.inner@.drop_last() =~= Seq::<Option<u8>>::empty());
                assert(occupied_count(Seq::<Option<u8>>::empty()) == 0);
                assert(occupied_count(self.inner@) == 1);
                0
            },
            CollectionState::Full(n) => {
                self.state = CollectionState::Full(n + 1);
                let ghost before = self.inner@;
                self.inner.push(Some(item));
                assert(self.inner@.drop_last() =~= before);
                assert(occupied_count(self.inner@) == n + 1);
                n as usize
            },
            CollectionState::NotFull(n, f) => {
                let avail = f - 1;
                // The scan covers the whole storage: once the last slot has
                // been taken, the lowest vacancy can lie at index `n` itself.
                let len = self.inner.len();
                let mut i: usize = 0;
                while i < len
                    invariant
                        i <= len,
                        len == self.inner@.len(),
                        self.inner@ == old(self)@,
                        self.state == old(self).state,
                        old(self).state == CollectionState::NotFull(n, f),
                        avail == f - 1,
                        n == occupied_count(old(self)@),
                        n < u32::MAX,
                        n + f == len,
                        len <= u32::MAX,
                        forall|j: int| 0 <= j < i ==> #[trigger] self.inner@[j] is Some,
                    decreases len - i,
                {
                    if self.inner[i].is_none() {
                        let ghost before = self.inner@;
                        self.inner.set(i, Some(item));
                        proof {
                            lemma_count_update(before, i as int, Some(item));
                            lemma_add_index(before);
                            let k = add_index(before);
                            assert(before[i as int] is None);
                            if k < i {
                                assert(before[k] is Some);
                            } else if k > i {
                                assert(before[i as int] is Some);
                            }
                        }
                        if avail > 0 {
                            self.state = CollectionState::NotFull(n + 1, avail);
                        } else {
                            self.state = CollectionState::Full(n + 1);
                        }
                        return i;
                    }
                    i += 1;
                }
                // The state promises a vacancy, so the scan cannot come up empty.
                proof {
                    assert(!has_vacancy(self.inner@));
                }
                unreached()
            },
        }
    }

    /// Takes the value out of slot `index`, leaving the slot vacant.
    pub fn take(&mut self, index: usize) -> (r: Result<u8, TakeError>)
        requires
            old(self).wf(),
        ensures
            final(self).wf(),
            r == take_result(old(self)@, index as int),
            final(self)@ == slots_after_take(old(self)@, index as int),
            r is Ok ==> final(self).occupancy() == state_after_take(old(self).occupancy())
                && occupied_count(final(self)@) + 1 == occupied_count(old(self)@),
            r is Err ==> *final(self) == *old(self),
    {
        if index >= self.inner.len() {
            return Err(TakeError::OutOfBounds);
        }
        let item = match self.inner[index] {
            Some(v) => v,
            None => {
                return Err(TakeError::Vacant);
            },
        };
        let ghost before = self.inner@;
        self.inner.set(index, None);
        proof {
            lemma_count_update(before, index as int, None);
            lemma_count_bounded(before);
        }
        match self.state {
            CollectionState::Full(n) => self.state = CollectionState::NotFull(n - 1, 1),
            CollectionState::NotFull(n, avail) => {
                self.state = CollectionState::NotFull(n - 1, avail + 1)
            },
            CollectionState::Empty => (),
        }
        Ok(item)
    }
    /// Number of occupied slots.
    pub fn len(&self) -> (r: u32)
        requires
            self.wf(),
        ensures
            r == occupied_count(self@),
    {
        match self.state {
            CollectionState::Full(n) => n,
            CollectionState::NotFull(n, _) => n,
            CollectionState::Empty => 0,
        }
    }

    /// Length of the storage, vacant slots included.
    pub fn len_slots(&self) -> (r: usize)
        ensures
            r == self@.len(),
    {
        self.inner.len()
    }

    /// No slot is occupied.
    pub fn is_empty(&self) -> (r: bool)
        requires
            self.wf(),
        ensures
            r == (occupied_count(self@) == 0),
    {
        match self.state {
            CollectionState::Empty => true,
            CollectionState::NotFull(n, _) => n == 0,
            CollectionState::Full(n) => n == 0,
        }
    }

    /// The occupancy state.
    pub fn state(&self) -> (r: CollectionState)
        ensures
            r == self.occupancy(),
    {
        self.state
    }

    /// The value in slot `index`, or `None` when the slot is vacant or
    /// beyond the end of the storage.
    pub fn get(&self, index: usize) -> (r: Option<&u8>)
        ensures
            index < self@.len() && self@[index as int] is Some ==> r == Some(
                &self@[index as int]->0,
            ),
            index >= self@.len() || self@[index as int] is None ==> r is None,
    {
        if index < self.inner.len() {
            self.inner[index].as_ref()
        } else {
            None
        }
    }

    /// A reference through which the value in slot `index` can be changed,
    /// or `None` when the slot is vacant or beyond the end of the storage.
    /// The slot stays occupied whatever is written.
    pub fn get_mut(&mut self, index: usize) -> (r: Option<&mut u8>)
        requires
            old(self).wf(),
        ensures
            final(self).wf(),
            final(self).occupancy() == old(self).occupancy(),
            index < old(self)@.len() && old(self)@[index as int] is Some ==> r is Some && *r->0
                == old(self)@[index as int]->0 && final(self)@ == old(self)@.update(
                index as int,
                Some(*final(r->0)),
            ),
            index >= old(self)@.len() || old(self)@[index as int] is None ==> r is None
                && final(self)@ == old(self)@,
    {
        if index >= self.inner.len() || self.inner[index].is_none() {
            return None;
        }
        let ghost before = self.inner@;
        match self.inner[index].as_mut() {
            Some(v) => {
                proof {
                    lemma_count_update(before, index as int, Some(*final(v)));
                }
                Some(v)
            },
            None => unreached(),
        }
    }
}

impl core::ops::Index<usize> for Collection {
    type Output = Option<u8>;

    /// The slot at `index`; the index must lie below the end of the storage.
    fn index(&self, index: usize) -> (r: &Option<u8>)
        ensures
            *r == self@[index as int],
    {
        &self.inner[index]
    }
}

impl vstd::std_specs::core::IndexSpecImpl<usize> for Collection {
    open spec fn index_req(&self, index: &usize) -> bool {
        *index < self@.len()
    }
}

/// The occupancy state always matches the storage: `Empty` has no slots,
/// `Full(n)` has `n` slots, all occupied, and `NotFull(n, f)` has `n` occupied
/// and `f >= 1` vacant slots, `n + f` in all.
pub proof fn lemma_occupancy_consistent(c: &Collection)
    requires
        c.wf(),
    ensures
        match c.occupancy() {
            CollectionState::Empty => c@.len() == 0,
            CollectionState::Full(n) => n == c@.len() && n == occupied_count(c@) && !has_vacancy(
                c@,
            ),
            CollectionState::NotFull(n, f) => {
                &&& n == occupied_count(c@)
                &&& n + f == c@.len()
                &&& f >= 1
                &&& has_vacancy(c@)
            },
        },
{
    lemma_count_bounded(c@);
}

/// Each insertion adds one to the number of occupied slots; each successful
/// removal takes one away, and a failed one leaves it as it was. So after `k`
/// insertions and `j` successful removals into a new collection, `k - j`
/// slots are occupied.
pub proof fn lemma_count_steps(s: Seq<Option<u8>>, item: u8, i: int)
    ensures
        occupied_count(Seq::<Option<u8>>::empty()) == 0,
        occupied_count(slots_after_add(s, item)) == occupied_count(s) + 1,
        take_result(s, i) is Ok ==> occupied_count(slots_after_take(s, i)) + 1 == occupied_count(s),
        take_result(s, i) is Err ==> occupied_count(slots_after_take(s, i)) == occupied_count(s),
{
    lemma_add_index(s);
    let t = slots_after_add(s, item);
    if add_index(s) < s.len() {
        lemma_count_update(s, add_index(s), Some(item));
    } else {
        assert(t.drop_last() =~= s);
    }
    if take_result(s, i) is Ok {
        lemma_count_update(s, i, None);
    }
}

/// One call on a collection, as the laws about sequences of calls see it.
pub enum Op {
    Add(u8),
    Take(usize),
}

/// The slots after applying `ops`, in order, to `s`.
pub open spec fn run(s: Seq<Option<u8>>, ops: Seq<Op>) -> Seq<Option<u8>>
    decreases ops.len(),
{
    if ops.len() == 0 {
        s
    } else {
        let t = run(s, ops.drop_last());
        match ops.last() {
            Op::Add(item) => slots_after_add(t, item),
            Op::Take(i) => slots_after_take(t, i as int),
        }
    }
}

/// How many insertions `ops` holds.
pub open spec fn adds_in(ops: Seq<Op>) -> nat
    decreases ops.len(),
{
    if ops.len() == 0 {
        0
    } else {
        adds_in(ops.drop_last()) + if ops.last() is Add {
            1nat
        } else {
            0nat
        }
    }
}

/// How many removals in `ops`, applied to `s`, succeed.
pub open spec fn takes_done(s: Seq<Option<u8>>, ops: Seq<Op>) -> nat
    decreases ops.len(),
{
    if ops.len() == 0 {
        0
    } else {
        takes_done(s, ops.drop_last()) + match ops.last() {
            Op::Take(i) => if take_result(run(s, ops.drop_last()), i as int) is Ok {
                1nat
            } else {
                0nat
            },
            Op::Add(_) => 0nat,
        }
    }
}

/// After any sequence of calls on a new collection, `k` insertions and `j`
/// successful removals among them, exactly `k - j` slots are occupied.
pub proof fn lemma_count_after_calls(ops: Seq<Op>)
    ensures
        occupied_count(run(Seq::empty(), ops)) + takes_done(Seq::empty(), ops) == adds_in(ops),
    decreases ops.len(),
{
    if ops.len() > 0 {
        let front = ops.drop_last();
        lemma_count_after_calls(front);
        let t = run(Seq::empty(), front);
        match ops.last() {
            Op::Add(item) => lemma_count_steps(t, item, 0),
            Op::Take(i) => lemma_count_steps(t, 0, i as int),
        }
    } else {
        assert(occupied_count(Seq::<Option<u8>>::empty()) == 0);
    }
}

/// Once slot `r` holds a value, any sequence of calls that never takes slot
/// `r` leaves that value there, whatever it inserts and removes elsewhere.
pub proof fn lemma_index_stable_over_calls(s: Seq<Option<u8>>, ops: Seq<Op>, r: usize)
    requires
        r < s.len(),
        s[r as int] is Some,
        forall|k: int| 0 <= k < ops.len() ==> #[trigger] ops[k] != Op::Take(r),
    ensures
        run(s, ops).len() >= s.len(),
        run(s, ops)[r as int] == s[r as int],
    decreases ops.len(),
{
    if ops.len() > 0 {
        let front = ops.drop_last();
        assert forall|k: int| 0 <= k < front.len() implies #[trigger] front[k] != Op::Take(r) by {
            assert(front[k] == ops[k]);
        }
        lemma_index_stable_over_calls(s, front, r);
        let t = run(s, front);
        assert(ops.last() == ops[ops.len() - 1]);
        match ops.last() {
            Op::Add(item) => {
                lemma_add_index(t);
                lemma_index_stability(t, item, 0);
            },
            Op::Take(i) => {
                lemma_index_stability(t, 0, i as int);
            },
        }
    }
}

/// An insertion or a removal changes only the slot it names: every other
/// slot keeps its value, and the storage never shrinks.
pub proof fn lemma_index_stability(s: Seq<Option<u8>>, item: u8, i: int)
    ensures
        slots_after_add(s, item).len() >= s.len(),
        slots_after_add(s, item)[add_index(s)] == Some(item),
        forall|j: int|
            0 <= j < s.len() && j != add_index(s) ==> #[trigger] slots_after_add(s, item)[j] == s[j],
        slots_after_take(s, i).len() == s.len(),
        forall|j: int| 0 <= j < s.len() && j != i ==> #[trigger] slots_after_take(s, i)[j] == s[j],
{
    lemma_add_index(s);
}

/// Taking the same slot twice: the first time returns the value, the second
/// finds the slot vacant and changes nothing.
pub proof fn lemma_double_take(s: Seq<Option<u8>>, i: int)
    requires
        take_result(s, i) is Ok,
    ensures
        take_result(slots_after_take(s, i), i) == Err::<u8, TakeError>(TakeError::Vacant),
        slots_after_take(slots_after_take(s, i), i) == slots_after_take(s, i),
{
}

} // verus!
