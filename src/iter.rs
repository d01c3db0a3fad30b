//! Traversal of the occupied slots in ascending index order, owned, shared
//! or exclusive.
use vstd::prelude::*;

use crate::collection::Collection;
use crate::slots::{
    lemma_count_same_occupancy, lemma_next_occupied, lemma_next_occupied_same, next_occupied,
    occupied_count, occupied_values, same_occupancy,
};

verus! {

/// A cursor over the occupied slots of a collection held as `T`.
pub struct CollectionIter<T> {
    /// The collection traversed.
    pub inner: T,
    /// The index at which the search for the next occupied slot starts.
    pub pos: usize,
}

impl Collection {
    /// A traversal of shared references to the occupied values.
    pub fn iter(&self) -> (r: CollectionIter<&Self>)
        ensures
            r.slots() == self@,
            r.pos() == 0,
    {
        CollectionIter { inner: self, pos: 0 }
    }

    /// A traversal of exclusive references to the occupied values.
    pub fn iter_mut(&mut self) -> (r: CollectionIter<&mut Collection>)
        requires
            old(self).wf(),
        ensures
            r.slots() == old(self)@,
            r.pos() == 0,
            r.wf(),
            *r.inner == *old(self),
            *final(r.inner) == *final(self),
    {
        CollectionIter { inner: self, pos: 0 }
    }

    /// A traversal that consumes the collection and yields its values.
    pub fn into_iter(self) -> (r: CollectionIter<Collection>)
        ensures
            r.slots() == self@,
            r.pos() == 0,
    {
        CollectionIter { inner: self, pos: 0 }
    }
}

/// What a step from cursor `pos` over `slots` yields: the value of the next
/// occupied slot, with the cursor just past it, or nothing, with the cursor
/// at the end.
pub open spec fn step(slots: Seq<Option<u8>>, pos: int, item: Option<u8>, new_pos: int) -> bool {
    match next_occupied(slots, pos) {
        Some(k) => item == Some(slots[k]->0) && new_pos == k + 1,
        None => item is None && new_pos == if pos < slots.len() {
            slots.len() as int
        } else {
            pos
        },
    }
}

impl<'a> CollectionIter<&'a Collection> {
    pub open spec fn slots(&self) -> Seq<Option<u8>> {
        self.inner@
    }

    pub open spec fn pos(&self) -> int {
        self.pos as int
    }

    /// The next occupied value at or after the cursor.
    pub fn next(&mut self) -> (r: Option<&'a u8>)
        ensures
            final(self).slots() == old(self).slots(),
            step(old(self).slots(), old(self).pos(), (match r {
                Some(v) => Some(*v),
                None => None,
            }), final(self).pos()),
    {
        let len = self.inner.len_slots();
        while self.pos < len
            invariant
                len == self.inner@.len(),
                self.inner == old(self).inner,
                old(self).pos <= self.pos,
                old(self).pos < len ==> self.pos <= len,
                old(self).pos >= len ==> self.pos == old(self).pos,
                next_occupied(self.inner@, self.pos as int) == next_occupied(
                    self.inner@,
                    old(self).pos as int,
                ),
            decreases len - self.pos,
        {
            let p = self.pos;
            self.pos = p + 1;
            match self.inner.get(p) {
                Some(v) => {
                    return Some(v);
                },
                None => {},
            }
        }
        None
    }
}

impl CollectionIter<Collection> {
    pub open spec fn slots(&self) -> Seq<Option<u8>> {
        self.inner@
    }

    pub open spec fn pos(&self) -> int {
        self.pos as int
    }

    /// The next occupied value at or after the cursor.
    pub fn next(&mut self) -> (r: Option<u8>)
        ensures
            final(self).slots() == old(self).slots(),
            step(old(self).slots(), old(self).pos(), r, final(self).pos()),
    {
        let len = self.inner.len_slots();
        while self.pos < len
            invariant
                len == self.inner@.len(),
                self.inner@ == old(self).inner@,
                old(self).pos <= self.pos,
                old(self).pos < len ==> self.pos <= len,
                old(self).pos >= len ==> self.pos == old(self).pos,
                next_occupied(self.inner@, self.pos as int) == next_occupied(
                    self.inner@,
                    old(self).pos as int,
                ),
            decreases len - self.pos,
        {
            let p = self.pos;
            self.pos = p + 1;
            match self.inner.get(p) {
                Some(v) => {
                    return Some(*v);
                },
                None => {},
            }
        }
        None
    }
}

impl<'a> CollectionIter<&'a mut Collection> {
    pub open spec fn slots(&self) -> Seq<Option<u8>> {
        (*self.inner)@
    }

    pub open spec fn pos(&self) -> int {
        self.pos as int
    }

    /// The collection under the cursor is well formed.
    pub open spec fn wf(&self) -> bool {
        self.inner.wf()
    }

    /// An exclusive reference to the next occupied value at or after the
    /// cursor; the cursor moves past it, so no slot is handed out twice.
    pub fn next(&mut self) -> (r: Option<&mut u8>)
        requires
            old(self).wf(),
        ensures
            final(self).wf(),
            *final(final(self).inner) == *final(old(self).inner),
            final(self).inner.occupancy() == old(self).inner.occupancy(),
            same_occupancy(final(self).slots(), old(self).slots()),
            occupied_count(final(self).slots()) == occupied_count(old(self).slots()),
            step(old(self).slots(), old(self).pos(), (match r {
                Some(v) => Some(*v),
                None => None,
            }), final(self).pos()),
            match r {
                Some(v) => final(self).slots() == old(self).slots().update(
                    final(self).pos() - 1,
                    Some(*final(v)),
                ),
                None => final(self).slots() == old(self).slots(),
            },
    {
        let len = self.inner.len_slots();
        while self.pos < len
            invariant
                len == self.inner@.len(),
                *self.inner == *old(self).inner,
                self.pos >= 0,
                *final(self.inner) == *final(old(self).inner),
                self.inner.wf(),
                old(self).pos <= self.pos,
                old(self).pos < len ==> self.pos <= len,
                old(self).pos >= len ==> self.pos == old(self).pos,
                next_occupied(self.inner@, self.pos as int) == next_occupied(
                    self.inner@,
                    old(self).pos as int,
                ),
            decreases len - self.pos,
        {
            let p = self.pos;
            self.pos = p + 1;
            if self.inner.get(p).is_some() {
                let ghost before = self.inner@;
                let r = self.inner.get_mut(p);
                proof {
                    let v = r->0;
                    assert(same_occupancy(before.update(p as int, Some(*final(v))), before));
                    lemma_count_same_occupancy(before.update(p as int, Some(*final(v))), before);
                }
                return r;
            }
        }
        proof {
            assert(same_occupancy(self.inner@, old(self).inner@));
        }
        None
    }
}

/// One step of any traversal, started at cursor 0, extends what was collected
/// so far by the value of the next occupied slot; when it yields nothing, what
/// was collected is every occupied value, in ascending index order.
pub proof fn lemma_step_collects(
    s: Seq<Option<u8>>,
    pos: int,
    acc: Seq<u8>,
    item: Option<u8>,
    new_pos: int,
)
    requires
        0 <= pos <= s.len(),
        acc == occupied_values(s.take(pos)),
        step(s, pos, item, new_pos),
    ensures
        pos <= new_pos <= s.len(),
        item is Some ==> pos < new_pos && acc.push(item->0) == occupied_values(s.take(new_pos)),
        item is None ==> new_pos == s.len() && acc == occupied_values(s),
    decreases s.len() - pos,
{
    lemma_next_occupied(s, pos);
    if pos < s.len() {
        assert(s.take(pos + 1).drop_last() =~= s.take(pos));
        if s[pos] is None {
            lemma_step_collects(s, pos + 1, acc, item, new_pos);
        } else {
            assert(s.take(pos + 1).last() == s[pos]);
        }
    } else {
        assert(s.take(pos) =~= s);
    }
}

/// A step of an exclusive traversal hands out an occupied slot at or after
/// the cursor and moves the cursor past it. Whatever is written through the
/// reference, the slot stays occupied, so every later step goes to the same
/// slot as it would have before: no slot is handed out twice, and no vacant
/// slot is ever reached.
pub proof fn lemma_exclusive_step(s: Seq<Option<u8>>, pos: int, item: Option<u8>, new_pos: int, v: u8)
    requires
        0 <= pos,
        step(s, pos, item, new_pos),
        item is Some,
    ensures
        pos < new_pos <= s.len(),
        s[new_pos - 1] is Some,
        forall|j: int| pos <= j < new_pos - 1 ==> #[trigger] s[j] is None,
        forall|p: int| next_occupied(s.update(new_pos - 1, Some(v)), p) == next_occupied(s, p),
{
    lemma_next_occupied(s, pos);
    let t = s.update(new_pos - 1, Some(v));
    assert forall|p: int| next_occupied(t, p) == next_occupied(s, p) by {
        lemma_next_occupied_same(t, s, p);
    }
}

impl Collection {
    /// The occupied values in ascending index order, gathered by a shared
    /// traversal.
    pub fn values(&self) -> (r: Vec<u8>)
        ensures
            r@ == occupied_values(self@),
    {
        let mut it = self.iter();
        let mut out: Vec<u8> = Vec::new();
        proof {
            assert(self@.take(0) =~= Seq::<Option<u8>>::empty());
            assert(occupied_values(Seq::<Option<u8>>::empty()) =~= Seq::<u8>::empty());
        }
        loop
            invariant
                it.slots() == self@,
                0 <= it.pos() <= self@.len(),
                out@ == occupied_values(self@.take(it.pos())),
            decreases self@.len() - it.pos(),
        {
            let ghost pos = it.pos();
            let ghost before = out@;
            let step_item = it.next();
            proof {
                let item = match step_item {
                    Some(v) => Some(*v),
                    None => None,
                };
                lemma_step_collects(self@, pos, before, item, it.pos());
            }
            match step_item {
                Some(v) => out.push(*v),
                None => {
                    return out;
                },
            }
        }
    }
}

} // verus!
