//! A bounded set of 32-byte ids that forgets the one unused for longest.
use vstd::prelude::*;
use crate::utils::node_id::bytes32_eq;

verus! {

/// The ids of a run of 32-byte values.
pub open spec fn id_views(items: Seq<[u8; 32]>) -> Seq<Seq<u8>> {
    Seq::new(items.len(), |i: int| items[i]@)
}

/// `items` without `id`, for a run that holds no id twice.
pub open spec fn without(items: Seq<Seq<u8>>, id: Seq<u8>) -> Seq<Seq<u8>> {
    if items.contains(id) {
        items.remove(items.index_of(id))
    } else {
        items
    }
}

/// `items` once `id` has been used: `id` stands last, and if that makes more
/// than `capacity` ids, the first one goes.
pub open spec fn touched(items: Seq<Seq<u8>>, id: Seq<u8>, capacity: int) -> Seq<Seq<u8>> {
    let moved = without(items, id).push(id);
    if moved.len() > capacity {
        moved.drop_first()
    } else {
        moved
    }
}

/// A set of at most `capacity` ids, ordered from the one unused for longest
/// to the one used last.
#[derive(Debug)]
pub struct LruSet {
    items: Vec<[u8; 32]>,
    capacity: usize,
}

impl LruSet {
    /// The ids held, the one used last at the end.
    pub closed spec fn items(&self) -> Seq<Seq<u8>> {
        id_views(self.items@)
    }

    /// The largest number of ids held at a time.
    pub closed spec fn capacity(&self) -> int {
        self.capacity as int
    }

    /// No id is held twice and the bound is kept.
    pub open spec fn wf(&self) -> bool {
        &&& self.items().no_duplicates()
        &&& self.items().len() <= self.capacity()
    }

    /// What `wf` says: no id is held twice and the bound is kept.
    pub proof fn lemma_items_distinct(&self)
        requires
            self.wf(),
        ensures
            self.items().no_duplicates(),
            self.items().len() <= self.capacity(),
    {
    }

    /// An empty set that will hold up to `capacity` ids.
    pub fn new(capacity: usize) -> (set: Self)
        ensures
            set.wf(),
            set.capacity() == capacity,
            set.items() == Seq::<Seq<u8>>::empty(),
    {
        let set = LruSet { items: Vec::new(), capacity };
        assert(set.items() =~= Seq::<Seq<u8>>::empty());
        set
    }

    /// Number of ids held.
    pub fn len(&self) -> (len: usize)
        ensures
            len == self.items().len(),
    {
        self.items.len()
    }

    /// The id at place `i`, counted from the one unused for longest.
    pub fn get(&self, i: usize) -> (id: &[u8; 32])
        requires
            i < self.items().len(),
        ensures
            id@ == self.items()[i as int],
    {
        &self.items[i]
    }

    fn position(&self, id: &[u8; 32]) -> (found: Option<usize>)
        ensures
            found matches Some(i) ==> i < self.items().len() && self.items()[i as int] == id@
                && forall|k: int| 0 <= k < i ==> self.items()[k] != id@,
            found is None ==> !self.items().contains(id@),
    {
        let mut i: usize = 0;
        while i < self.items.len()
            invariant
                i <= self.items@.len(),
                forall|k: int| 0 <= k < i ==> self.items()[k] != id@,
            decreases self.items@.len() - i,
        {
            if bytes32_eq(&self.items[i], id) {
                return Some(i);
            }
            i += 1;
        }
        None
    }

    /// Whether `id` is held.
    pub fn contains(&self, id: &[u8; 32]) -> (held: bool)
        ensures
            held == self.items().contains(id@),
    {
        self.position(id).is_some()
    }

    /// Uses `id`: it becomes the id used last, joining the set if it was not
    /// held. Returns whether it was held before.
    pub fn touch(&mut self, id: [u8; 32]) -> (held: bool)
        requires
            old(self).wf(),
        ensures
            final(self).wf(),
            final(self).capacity() == old(self).capacity(),
            held == old(self).items().contains(id@),
            final(self).items() == touched(old(self).items(), id@, old(self).capacity()),
    {
        let ghost before = self.items();
        let found = self.position(&id);
        let held = found.is_some();
        if let Some(i) = found {
            proof {
                lemma_index_of(before, id@, i as int);
            }
            self.items.remove(i);
            assert(self.items() =~= without(before, id@));
        } else {
            assert(self.items() =~= without(before, id@));
        }
        proof {
            lemma_without_keeps_distinct(before, id@);
        }
        let ghost removed = self.items();
        self.items.push(id);
        assert(self.items() =~= removed.push(id@));
        assert(self.items().no_duplicates());
        if self.items.len() > self.capacity {
            self.items.remove(0);
            assert(self.items() =~= removed.push(id@).drop_first());
        }
        held
    }

    /// Drops `id` from the set. Returns whether it was held.
    pub fn remove(&mut self, id: &[u8; 32]) -> (held: bool)
        requires
            old(self).wf(),
        ensures
            final(self).wf(),
            final(self).capacity() == old(self).capacity(),
            held == old(self).items().contains(id@),
            final(self).items() == without(old(self).items(), id@),
    {
        let ghost before = self.items();
        proof {
            lemma_without_keeps_distinct(before, id@);
        }
        match self.position(id) {
            Some(i) => {
                proof {
                    lemma_index_of(before, id@, i as int);
                }
                self.items.remove(i);
                assert(self.items() =~= without(before, id@));
                true
            },
            None => false,
        }
    }
}

/// In a run without repetitions, `index_of` names the one place of `id`.
pub proof fn lemma_index_of(items: Seq<Seq<u8>>, id: Seq<u8>, i: int)
    requires
        items.no_duplicates(),
        0 <= i < items.len(),
        items[i] == id,
    ensures
        items.contains(id),
        items.index_of(id) == i,
{
    let j = items.index_of(id);
    assert(0 <= j < items.len() && items[j] == id);
    if j != i {
        assert(items[i] != items[j]);
    }
}

/// Taking an id out of a run without repetitions leaves no repetition, takes
/// the id out altogether, keeps every other id, and shortens the run by at
/// most one.
pub proof fn lemma_without_keeps_distinct(items: Seq<Seq<u8>>, id: Seq<u8>)
    requires
        items.no_duplicates(),
    ensures
        without(items, id).no_duplicates(),
        !without(items, id).contains(id),
        forall|other: Seq<u8>|
            other != id ==> (#[trigger] without(items, id).contains(other) == items.contains(
                other,
            )),
        without(items, id).len() == if items.contains(id) {
            items.len() - 1
        } else {
            items.len() as int
        },
{
    if items.contains(id) {
        let i = items.index_of(id);
        let rest = items.remove(i);
        assert forall|a: int, b: int| 0 <= a < rest.len() && 0 <= b < rest.len() && a != b implies rest[a]
            != rest[b] by {
            let a0 = if a < i {
                a
            } else {
                a + 1
            };
            let b0 = if b < i {
                b
            } else {
                b + 1
            };
            assert(items[a0] != items[b0]);
        }
        assert forall|k: int| 0 <= k < rest.len() implies rest[k] != id by {
            let k0 = if k < i {
                k
            } else {
                k + 1
            };
            assert(items[k0] != items[i]);
        }
        assert forall|other: Seq<u8>| other != id implies (#[trigger] rest.contains(other)
            == items.contains(other)) by {
            if items.contains(other) {
                let k = choose|k: int| 0 <= k < items.len() && items[k] == other;
                let k1 = if k < i {
                    k
                } else {
                    k - 1
                };
                assert(rest[k1] == other);
            }
            if rest.contains(other) {
                let k = choose|k: int| 0 <= k < rest.len() && rest[k] == other;
                let k0 = if k < i {
                    k
                } else {
                    k + 1
                };
                assert(items[k0] == other);
            }
        }
    }
}

/// The ids held after the ids of `used` have been used one after another,
/// starting from the empty set.
pub open spec fn log_after(used: Seq<Seq<u8>>, capacity: int) -> Seq<Seq<u8>>
    decreases used.len(),
{
    if used.len() == 0 {
        Seq::empty()
    } else {
        touched(log_after(used.drop_last(), capacity), used.last(), capacity)
    }
}

/// Whether `id` is among the last `count` of `items`.
pub open spec fn in_tail(items: Seq<Seq<u8>>, count: int, id: Seq<u8>) -> bool {
    exists|p: int| 0 <= p < items.len() && items.len() - count <= p && #[trigger] items[p] == id
}

/// What holds of the ids held after any run of uses: none is held twice and
/// the bound is kept; the id used `k` uses ago is among the last `k` held,
/// as far as so many are held; and while the set is not full, every id ever
/// used is held.
pub open spec fn log_invariant(used: Seq<Seq<u8>>, capacity: int) -> bool {
    let held = log_after(used, capacity);
    &&& held.no_duplicates()
    &&& held.len() <= capacity
    &&& forall|j: int|
        0 <= j < used.len() && used.len() - j <= held.len() ==> in_tail(
            held,
            used.len() - j,
            #[trigger] used[j],
        )
    &&& held.len() < capacity ==> forall|j: int|
        0 <= j < used.len() ==> held.contains(#[trigger] used[j])
}

/// Taking another id out of a run keeps an id among the last `count`.
pub proof fn lemma_without_keeps_tail(items: Seq<Seq<u8>>, gone: Seq<u8>, count: int, id: Seq<u8>)
    requires
        items.no_duplicates(),
        id != gone,
        in_tail(items, count, id),
    ensures
        in_tail(without(items, gone), count, id),
{
    if items.contains(gone) {
        let q = items.index_of(gone);
        let p = choose|p: int|
            0 <= p < items.len() && items.len() - count <= p && #[trigger] items[p] == id;
        let rest = items.remove(q);
        let shifted = if p < q {
            p
        } else {
            p - 1
        };
        assert(rest[shifted] == id);
    }
}

/// The invariant of the ids held is kept by every use.
pub proof fn lemma_log_invariant(used: Seq<Seq<u8>>, capacity: int)
    requires
        capacity >= 0,
    ensures
        log_invariant(used, capacity),
    decreases used.len(),
{
    if used.len() > 0 {
        let earlier = used.drop_last();
        let id = used.last();
        lemma_log_invariant(earlier, capacity);
        let before = log_after(earlier, capacity);
        let rest = without(before, id);
        let moved = rest.push(id);
        let held = log_after(used, capacity);
        lemma_without_keeps_distinct(before, id);
        assert(moved.no_duplicates()) by {
            assert forall|a: int, b: int|
                0 <= a < moved.len() && 0 <= b < moved.len() && a != b implies moved[a]
                != moved[b] by {
                if a < rest.len() && b < rest.len() {
                    assert(rest[a] != rest[b]);
                } else if a < rest.len() {
                    assert(rest.contains(rest[a]));
                } else {
                    assert(rest.contains(rest[b]));
                }
            }
        }
        let dropped = moved.len() > capacity;
        assert(held == if dropped {
            moved.drop_first()
        } else {
            moved
        });
        assert(held.no_duplicates()) by {
            if dropped {
                assert forall|a: int, b: int|
                    0 <= a < held.len() && 0 <= b < held.len() && a != b implies held[a]
                    != held[b] by {
                    assert(moved[a + 1] != moved[b + 1]);
                }
            }
        }
        assert forall|j: int|
            0 <= j < used.len() && used.len() - j <= held.len() implies in_tail(
            held,
            used.len() - j,
            #[trigger] used[j],
        ) by {
            let count = used.len() - j;
            if used[j] == id {
                assert(moved[moved.len() - 1] == id);
                if dropped {
                    assert(held[held.len() - 1] == moved[moved.len() - 1]);
                } else {
                    assert(held[held.len() - 1] == id);
                }
            } else {
                assert(j < earlier.len());
                assert(earlier[j] == used[j]);
                assert(earlier.len() - j <= before.len());
                assert(in_tail(before, earlier.len() - j, earlier[j]));
                lemma_without_keeps_tail(before, id, earlier.len() - j, used[j]);
                let p = choose|p: int|
                    0 <= p < rest.len() && rest.len() - (earlier.len() - j) <= p
                        && #[trigger] rest[p] == used[j];
                assert(moved[p] == used[j]);
                if dropped {
                    assert(p >= 1);
                    assert(held[p - 1] == moved[p]);
                } else {
                    assert(held[p] == used[j]);
                }
            }
        }
        if held.len() < capacity {
            assert(!dropped);
            assert forall|j: int| 0 <= j < used.len() implies held.contains(
                #[trigger] used[j],
            ) by {
                if used[j] == id {
                    assert(held[held.len() - 1] == id);
                } else {
                    assert(earlier[j] == used[j]);
                    assert(before.contains(earlier[j]));
                    assert(rest.contains(used[j]));
                    let p = choose|p: int| 0 <= p < rest.len() && rest[p] == used[j];
                    assert(held[p] == used[j]);
                }
            }
        }
    }
}

/// An id is held for as long as fewer than `capacity` uses have followed its
/// last use: whatever was used among the last `capacity` uses is held.
pub proof fn lemma_recently_used_is_held(used: Seq<Seq<u8>>, capacity: int, j: int)
    requires
        0 <= j < used.len(),
        used.len() - j <= capacity,
    ensures
        log_after(used, capacity).contains(used[j]),
{
    lemma_log_invariant(used, capacity);
    let held = log_after(used, capacity);
    if used.len() - j <= held.len() {
        assert(in_tail(held, used.len() - j, used[j]));
    }
}

} // verus!
