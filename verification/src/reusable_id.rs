//! A reusable (recyclable) id sequence.
//!
//! Ids come out in order, but a released id is handed out again before any
//! new one.  The released ids live in a sorted list, so the smallest
//! released id is always reused first.

use vstd::prelude::*;

verus! {

/// A reusable (recyclable) id source: hands out `start`, `start + 1`, ...,
/// except that released ids are reused first, smallest first.
pub struct ReusableId {
    pub available_ids: Vec<usize>,
    pub next_id: usize,
}

impl ReusableId {
    /// The source's invariant: the released ids are sorted, unique, and all
    /// below the high-water mark.
    pub open spec fn wf(self) -> bool {
        &&& forall|i: int, j: int|
            0 <= i < j < self.available_ids@.len() ==> self.available_ids@[i]
                < self.available_ids@[j]
        &&& forall|i: int|
            0 <= i < self.available_ids@.len() ==> #[trigger] self.available_ids@[i]
                < self.next_id
    }

    /// A fresh source that counts up from `start`.
    pub fn new(start: usize) -> (r: ReusableId)
        ensures
            r.wf(),
            r.next_id == start,
            r.available_ids@.len() == 0,
    {
        ReusableId { available_ids: Vec::new(), next_id: start }
    }

    /// The next id: the smallest released one if any was released, else the
    /// next fresh one.
    pub fn next(&mut self) -> (r: usize)
        requires
            old(self).wf(),
            old(self).available_ids@.len() == 0 ==> old(self).next_id < usize::MAX,
        ensures
            final(self).wf(),
            old(self).available_ids@.len() > 0 ==> r == old(self).available_ids@[0]
                && final(self).available_ids@ == old(self).available_ids@.drop_first()
                && final(self).next_id == old(self).next_id,
            old(self).available_ids@.len() == 0 ==> r == old(self).next_id
                && final(self).next_id == old(self).next_id + 1
                && final(self).available_ids@ == old(self).available_ids@,
    {
        if self.available_ids.len() > 0 {
            let id = self.available_ids.remove(0);
            proof {
                assert(final(self).available_ids@ =~= old(self).available_ids@.drop_first());
            }
            id
        } else {
            let id = self.next_id;
            self.next_id = self.next_id + 1;
            id
        }
    }

    /// Put an id back for reuse; one the source never handed out, or one
    /// already waiting, changes nothing.
    pub fn release(&mut self, id: usize)
        requires
            old(self).wf(),
        ensures
            final(self).wf(),
            final(self).next_id == old(self).next_id,
            id >= old(self).next_id ==> final(self).available_ids@ == old(self).available_ids@,
            id < old(self).next_id ==> final(self).available_ids@.to_set()
                == old(self).available_ids@.to_set().insert(id),
    {
        if id >= self.next_id {
            return ;
        }
        let mut j: usize = 0;
        let len = self.available_ids.len();
        while j < len && self.available_ids[j] < id
            invariant
                j <= len,
                len == self.available_ids@.len(),
                *self == *old(self),
                forall|k: int| 0 <= k < j ==> #[trigger] self.available_ids@[k] < id,
            decreases len - j,
        {
            j = j + 1;
        }
        if j < len && self.available_ids[j] == id {
            proof {
                assert(self.available_ids@.to_set().contains(id));
                assert(self.available_ids@.to_set() =~= self.available_ids@.to_set().insert(id));
            }
            return ;
        }
        let ghost before = self.available_ids@;
        let ghost pos = j as int;
        self.available_ids.insert(j, id);
        proof {
            assert(forall|k: int| 0 <= k < pos ==> #[trigger] before[k] < id);
            assert(pos < before.len() ==> before[pos] > id);
            let after = self.available_ids@;
            assert forall|i: int, k: int| 0 <= i < k < after.len() implies after[i]
                < after[k] by {
                if i < pos && k < pos {
                } else if i < pos && k == pos {
                    assert(after[i] == before[i]);
                } else if i < pos && k > pos {
                    assert(after[i] == before[i]);
                    assert(after[k] == before[k - 1]);
                } else if i == pos && k > pos {
                    assert(after[k] == before[k - 1]);
                } else if i > pos && k > pos {
                    assert(after[i] == before[i - 1]);
                    assert(after[k] == before[k - 1]);
                }
            }
            assert(after.to_set() =~= before.to_set().insert(id)) by {
                assert forall|v: usize| after.to_set().contains(v) implies before.to_set().insert(
                    id,
                ).contains(v) by {
                    let i = choose|i: int| 0 <= i < after.len() && after[i] == v;
                    if i < pos {
                        assert(before[i] == v);
                    } else if i > pos {
                        assert(before[i - 1] == v);
                    }
                }
                assert forall|v: usize| before.to_set().insert(id).contains(v) implies after
                    .to_set().contains(v) by {
                    if v == id {
                        assert(after[pos] == v);
                    } else {
                        let i = choose|i: int| 0 <= i < before.len() && before[i] == v;
                        if i < pos {
                            assert(after[i] == v);
                        } else {
                            assert(after[i + 1] == v);
                        }
                    }
                }
            }
        }
    }
}

impl Default for ReusableId {
    /// A fresh source that counts up from one.
    fn default() -> (r: ReusableId)
        ensures
            r.wf(),
            r.next_id == 1,
            r.available_ids@.len() == 0,
    {
        ReusableId::new(1)
    }
}

} // verus!
