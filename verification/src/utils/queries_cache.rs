//! The queries that wait for an answer.
//!
//! A query is entered before it is sent and leaves when its answer comes,
//! when it is given up, or when its deadline has passed.
use vstd::prelude::*;
use crate::utils::gen_random_bytes32;
use crate::utils::node_id::bytes32_eq;

verus! {

/// A query that waits for its answer.
#[derive(Clone, Copy, Debug)]
pub struct PendingQuery {
    pub id: [u8; 32],
    pub deadline: u64,
}

/// The content of a [`PendingQuery`].
pub struct PendingView {
    pub id: Seq<u8>,
    pub deadline: u64,
}

impl View for PendingQuery {
    type V = PendingView;

    open spec fn view(&self) -> PendingView {
        PendingView { id: self.id@, deadline: self.deadline }
    }
}

/// The views of a run of pending queries.
pub open spec fn pending_views(queries: Seq<PendingQuery>) -> Seq<PendingView> {
    Seq::new(queries.len(), |i: int| queries[i]@)
}

/// Whether `queries` holds the query `id`.
pub open spec fn is_pending(queries: Seq<PendingView>, id: Seq<u8>) -> bool {
    exists|i: int| 0 <= i < queries.len() && (#[trigger] queries[i]).id == id
}

/// Where the query `id` stands.
pub open spec fn pending_position(queries: Seq<PendingView>, id: Seq<u8>) -> int {
    choose|i: int| 0 <= i < queries.len() && (#[trigger] queries[i]).id == id
}

/// No id names two queries.
pub open spec fn ids_unique(queries: Seq<PendingView>) -> bool {
    forall|i: int, j: int|
        0 <= i < j < queries.len() ==> (#[trigger] queries[i]).id != (#[trigger] queries[j]).id
}

/// The queries of `queries` whose deadline has not passed at `now`, in their
/// order.
pub open spec fn still_pending(queries: Seq<PendingView>, now: u64) -> Seq<PendingView>
    decreases queries.len(),
{
    if queries.len() == 0 {
        Seq::empty()
    } else if queries.last().deadline < now {
        still_pending(queries.drop_last(), now)
    } else {
        still_pending(queries.drop_last(), now).push(queries.last())
    }
}

/// The ids of the queries of `queries` whose deadline has passed at `now`,
/// in their order.
pub open spec fn timed_out(queries: Seq<PendingView>, now: u64) -> Seq<Seq<u8>>
    decreases queries.len(),
{
    if queries.len() == 0 {
        Seq::empty()
    } else if queries.last().deadline < now {
        timed_out(queries.drop_last(), now).push(queries.last().id)
    } else {
        timed_out(queries.drop_last(), now)
    }
}

/// The ids of a run of 32-byte values.
pub open spec fn query_ids(ids: Seq<[u8; 32]>) -> Seq<Seq<u8>> {
    Seq::new(ids.len(), |i: int| ids[i]@)
}

/// What remains of a run without repetitions has none, and holds only what
/// the run held.
pub proof fn lemma_still_pending(queries: Seq<PendingView>, now: u64)
    requires
        ids_unique(queries),
    ensures
        ids_unique(still_pending(queries, now)),
        forall|id: Seq<u8>| #[trigger]
            is_pending(still_pending(queries, now), id) ==> is_pending(queries, id),
    decreases queries.len(),
{
    if queries.len() > 0 {
        let rest = queries.drop_last();
        let last = queries.last();
        lemma_still_pending(rest, now);
        let kept_rest = still_pending(rest, now);
        let kept = still_pending(queries, now);
        assert forall|id: Seq<u8>| #[trigger] is_pending(kept, id) implies is_pending(
            queries,
            id,
        ) by {
            let k = pending_position(kept, id);
            if k < kept_rest.len() {
                assert(kept_rest[k].id == id);
                assert(is_pending(kept_rest, id));
                let m = pending_position(rest, id);
                assert(queries[m].id == id);
            } else {
                assert(queries[queries.len() - 1].id == id);
            }
        }
        if !(last.deadline < now) {
            assert forall|a: int, b: int| 0 <= a < b < kept.len() implies (#[trigger] kept[a]).id
                != (#[trigger] kept[b]).id by {
                if b < kept_rest.len() {
                    assert(kept_rest[a].id != kept_rest[b].id);
                } else {
                    assert(is_pending(kept_rest, kept_rest[a].id));
                    let m = pending_position(rest, kept_rest[a].id);
                    assert(queries[m].id != queries[queries.len() - 1].id);
                }
            }
        }
    }
}

/// The queries of one node that wait for an answer.
#[derive(Debug)]
pub struct QueriesCache {
    queries: Vec<PendingQuery>,
}

impl QueriesCache {
    /// The queries that wait, in the order in which they were entered.
    pub closed spec fn pending(&self) -> Seq<PendingView> {
        pending_views(self.queries@)
    }

    /// No id names two queries.
    pub open spec fn wf(&self) -> bool {
        ids_unique(self.pending())
    }

    /// A cache without queries.
    pub fn new() -> (cache: Self)
        ensures
            cache.wf(),
            cache.pending() == Seq::<PendingView>::empty(),
    {
        let cache = QueriesCache { queries: Vec::new() };
        assert(cache.pending() =~= Seq::<PendingView>::empty());
        cache
    }

    /// Number of queries that wait.
    pub fn len(&self) -> (len: usize)
        ensures
            len == self.pending().len(),
    {
        self.queries.len()
    }

    fn position(&self, id: &[u8; 32]) -> (found: Option<usize>)
        ensures
            found matches Some(i) ==> i < self.pending().len() && self.pending()[i as int].id
                == id@,
            found is None ==> !is_pending(self.pending(), id@),
    {
        let mut i: usize = 0;
        while i < self.queries.len()
            invariant
                i <= self.queries@.len(),
                forall|k: int| 0 <= k < i ==> (#[trigger] self.pending()[k]).id != id@,
            decreases self.queries@.len() - i,
        {
            if bytes32_eq(&self.queries[i].id, id) {
                assert(self.pending()[i as int].id == id@);
                return Some(i);
            }
            i += 1;
        }
        None
    }

    /// Enters the query `id`, to be answered by `deadline`. Returns whether
    /// it was entered: an id that names a waiting query is not entered again.
    pub fn add_query(&mut self, id: [u8; 32], deadline: u64) -> (added: bool)
        requires
            old(self).wf(),
        ensures
            final(self).wf(),
            added == !is_pending(old(self).pending(), id@),
            final(self).pending() == if added {
                old(self).pending().push(PendingView { id: id@, deadline })
            } else {
                old(self).pending()
            },
    {
        if self.position(&id).is_some() {
            return false;
        }
        let ghost before = self.pending();
        self.queries.push(PendingQuery { id, deadline });
        proof {
            assert(self.pending() =~= before.push(PendingView { id: id@, deadline }));
            assert forall|a: int, b: int| 0 <= a < b < self.pending().len() implies (
            #[trigger] self.pending()[a]).id != (#[trigger] self.pending()[b]).id by {
                if b < before.len() {
                    assert(before[a].id != before[b].id);
                } else {
                    assert(before[a].id != id@);
                }
            }
        }
        true
    }

    /// Takes the query `id` out, because its answer has come or because it
    /// is given up. Returns whether it was waiting.
    pub fn remove_query(&mut self, id: &[u8; 32]) -> (waiting: bool)
        requires
            old(self).wf(),
        ensures
            final(self).wf(),
            waiting == is_pending(old(self).pending(), id@),
            final(self).pending() == if waiting {
                old(self).pending().remove(pending_position(old(self).pending(), id@))
            } else {
                old(self).pending()
            },
            !is_pending(final(self).pending(), id@),
    {
        let ghost before = self.pending();
        match self.position(id) {
            Some(i) => {
                proof {
                    let j = pending_position(before, id@);
                    if j < i {
                        assert(before[j].id != before[i as int].id);
                    } else if i < j {
                        assert(before[i as int].id != before[j].id);
                    }
                }
                self.queries.remove(i);
                proof {
                    assert(self.pending() =~= before.remove(i as int));
                    assert forall|a: int, b: int| 0 <= a < b < self.pending().len() implies (
                    #[trigger] self.pending()[a]).id != (#[trigger] self.pending()[b]).id by {
                        let a0 = if a < i {
                            a
                        } else {
                            a + 1
                        };
                        let b0 = if b < i {
                            b
                        } else {
                            b + 1
                        };
                        assert(before[a0].id != before[b0].id);
                    }
                    assert forall|k: int| 0 <= k < self.pending().len() implies (
                    #[trigger] self.pending()[k]).id != id@ by {
                        let k0 = if k < i {
                            k
                        } else {
                            k + 1
                        };
                        if k0 < i {
                            assert(before[k0].id != before[i as int].id);
                        } else {
                            assert(before[i as int].id != before[k0].id);
                        }
                    }
                }
                true
            },
            None => false,
        }
    }

    /// Takes out every query whose deadline has passed at `now` and returns
    /// their ids.
    pub fn expire(&mut self, now: u64) -> (expired: Vec<[u8; 32]>)
        requires
            old(self).wf(),
        ensures
            final(self).wf(),
            final(self).pending() == still_pending(old(self).pending(), now),
            query_ids(expired@) == timed_out(old(self).pending(), now),
    {
        let ghost before = self.pending();
        let mut kept: Vec<PendingQuery> = Vec::new();
        let mut expired: Vec<[u8; 32]> = Vec::new();
        let mut i: usize = 0;
        proof {
            assert(before.take(0) =~= Seq::<PendingView>::empty());
            assert(pending_views(kept@) =~= Seq::<PendingView>::empty());
            assert(query_ids(expired@) =~= Seq::<Seq<u8>>::empty());
        }
        while i < self.queries.len()
            invariant
                i <= self.queries@.len(),
                before == pending_views(self.queries@),
                pending_views(kept@) == still_pending(before.take(i as int), now),
                query_ids(expired@) == timed_out(before.take(i as int), now),
            decreases self.queries@.len() - i,
        {
            let query = self.queries[i];
            let ghost kept_before = kept@;
            let ghost expired_before = expired@;
            proof {
                assert(before.take(i as int + 1).drop_last() =~= before.take(i as int));
                assert(before.take(i as int + 1).last() == query@);
            }
            if query.deadline < now {
                expired.push(query.id);
                assert(query_ids(expired@) =~= query_ids(expired_before).push(query.id@));
            } else {
                kept.push(query);
                assert(pending_views(kept@) =~= pending_views(kept_before).push(query@));
            }
            i += 1;
        }
        proof {
            assert(before.take(i as int) =~= before);
            lemma_still_pending(before, now);
        }
        self.queries = kept;
        expired
    }
}

/// A fresh query id: 32 random bytes.
pub fn gen_query_id() -> (id: [u8; 32]) {
    gen_random_bytes32()
}

} // verus!
