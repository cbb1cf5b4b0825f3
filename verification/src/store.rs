//! A record store held in memory, and the model of a store that the loop's
//! guarantees are stated against.
//!
//! A record is either pending or processed. A processed record is held
//! together with its embedding, so the flag and the embedding cannot come
//! apart: one write moves a record from one side to the other, or does
//! nothing at all.

use vstd::prelude::*;
use crate::record::{Record, ids_of};
use crate::pairing::EmbeddingWrite;

verus! {

/// A processed record with the embedding that was written for it.
#[derive(Clone, Debug, PartialEq)]
pub struct Embedded<V> {
    pub record: Record,
    pub embedding: V,
}

/// The identifiers of the processed records, in the order they were written.
pub open spec fn embedded_ids<V>(done: Seq<Embedded<V>>) -> Seq<i64> {
    Seq::new(done.len(), |i: int| done[i].record.id)
}

/// The contents of a store: the records still unprocessed, in fetch order,
/// and the processed ones.
pub struct StoreView<V> {
    pub pending: Seq<Record>,
    pub done: Seq<Embedded<V>>,
}

impl<V> StoreView<V> {
    /// No identifier occurs twice in the store.
    pub open spec fn wf(self) -> bool {
        &&& forall|i: int, j: int|
            0 <= i < j < self.pending.len() ==> (#[trigger] self.pending[i]).id != (
            #[trigger] self.pending[j]).id
        &&& forall|i: int, j: int|
            0 <= i < j < self.done.len() ==> (#[trigger] self.done[i]).record.id != (
            #[trigger] self.done[j]).record.id
        &&& forall|i: int, j: int|
            0 <= i < self.pending.len() && 0 <= j < self.done.len() ==> (
            #[trigger] self.pending[i]).id != (#[trigger] self.done[j]).record.id
    }

    /// Whether an unprocessed record has the identifier `id`.
    pub open spec fn is_pending(self, id: i64) -> bool {
        ids_of(self.pending).contains(id)
    }

    /// Whether a processed record has the identifier `id`.
    pub open spec fn is_processed(self, id: i64) -> bool {
        embedded_ids(self.done).contains(id)
    }

    /// The embedding stored for `id`: that of the processed record with this
    /// identifier, and none for any other identifier.
    pub open spec fn embedding_of(self, id: i64) -> Option<V> {
        if self.is_processed(id) {
            Some(self.done[embedded_ids(self.done).index_of(id)].embedding)
        } else {
            None
        }
    }

    /// The size of the batch a fetch of at most `limit` records returns.
    pub open spec fn fetch_len(self, limit: nat) -> nat {
        if limit <= self.pending.len() {
            limit
        } else {
            self.pending.len()
        }
    }

    /// The batch a fetch of at most `limit` records returns: the first
    /// unprocessed records, as many as there are up to the limit.
    pub open spec fn fetch(self, limit: nat) -> Seq<Record> {
        self.pending.take(self.fetch_len(limit) as int)
    }

    /// The store after a successful write of `embedding` for `id`. The pending
    /// record with this identifier becomes a processed one holding the
    /// embedding. Where no pending record has the identifier the write fails
    /// and the store is as before.
    pub open spec fn mark(self, id: i64, embedding: V) -> StoreView<V> {
        if self.is_pending(id) {
            let at = ids_of(self.pending).index_of(id);
            StoreView {
                pending: self.pending.remove(at),
                done: self.done.push(Embedded { record: self.pending[at], embedding }),
            }
        } else {
            self
        }
    }

    /// The store after `writes` have been attempted one after the other, where
    /// `reached[i]` says whether the `i`-th write reached the store. A write
    /// that did not reach it leaves the store untouched.
    pub open spec fn settle(self, writes: Seq<EmbeddingWrite<V>>, reached: Seq<bool>) -> StoreView<
        V,
    >
        decreases writes.len(),
    {
        if writes.len() == 0 {
            self
        } else {
            let after = if reached.len() > 0 && reached[0] {
                self.mark(writes[0].id, writes[0].embedding)
            } else {
                self
            };
            after.settle(writes.skip(1), reached.skip(1))
        }
    }
}

/// A record store kept in memory.
pub struct MemoryStore<V> {
    pending: Vec<Record>,
    done: Vec<Embedded<V>>,
}

impl<V> View for MemoryStore<V> {
    type V = StoreView<V>;

    closed spec fn view(&self) -> StoreView<V> {
        StoreView { pending: self.pending@, done: self.done@ }
    }
}

/// The position of the first record of `records` with the identifier `id`.
fn position_of(records: &Vec<Record>, id: i64) -> (at: Option<usize>)
    ensures
        at is Some <==> ids_of(records@).contains(id),
        at is Some ==> at->0 < records.len() && records[at->0 as int].id == id,
{
    let mut i: usize = 0;
    while i < records.len()
        invariant
            i <= records.len(),
            forall|k: int| 0 <= k < i ==> records[k].id != id,
        decreases records.len() - i,
    {
        if records[i].id == id {
            assert(ids_of(records@)[i as int] == id);
            return Some(i);
        }
        i += 1;
    }
    None
}

/// The position of the first processed record of `done` with the identifier
/// `id`.
fn position_in_done<V>(done: &Vec<Embedded<V>>, id: i64) -> (at: Option<usize>)
    ensures
        at is Some <==> embedded_ids(done@).contains(id),
        at is Some ==> at->0 < done.len() && done[at->0 as int].record.id == id,
{
    let mut i: usize = 0;
    while i < done.len()
        invariant
            i <= done.len(),
            forall|k: int| 0 <= k < i ==> done[k].record.id != id,
        decreases done.len() - i,
    {
        if done[i].record.id == id {
            assert(embedded_ids(done@)[i as int] == id);
            return Some(i);
        }
        i += 1;
    }
    None
}

impl<V> MemoryStore<V> {
    /// A store without records.
    pub fn new() -> (store: MemoryStore<V>)
        ensures
            store@.pending.len() == 0,
            store@.done.len() == 0,
            store@.wf(),
    {
        MemoryStore { pending: Vec::new(), done: Vec::new() }
    }

    /// Adds an unprocessed record, behind those already pending. An identifier
    /// that the store already holds is refused, and the store is left as it
    /// was.
    pub fn insert(&mut self, id: i64, content: String) -> (added: bool)
        requires
            old(self)@.wf(),
        ensures
            added == !(old(self)@.is_pending(id) || old(self)@.is_processed(id)),
            added ==> final(self)@ == (StoreView {
                pending: old(self)@.pending.push(Record { id, content }),
                done: old(self)@.done,
            }),
            !added ==> final(self)@ == old(self)@,
            final(self)@.wf(),
    {
        if position_of(&self.pending, id).is_some() {
            return false;
        }
        if position_in_done(&self.done, id).is_some() {
            return false;
        }
        proof {
            let before = self@;
            assert forall|i: int| 0 <= i < before.pending.len() implies before.pending[i].id
                != id by {
                assert(ids_of(before.pending)[i] == before.pending[i].id);
            }
            assert forall|j: int| 0 <= j < before.done.len() implies before.done[j].record.id
                != id by {
                assert(embedded_ids(before.done)[j] == before.done[j].record.id);
            }
        }
        self.pending.push(Record { id, content });
        true
    }

    /// The number of unprocessed records.
    pub fn pending_count(&self) -> (count: usize)
        ensures
            count == self@.pending.len(),
    {
        self.pending.len()
    }

    /// The number of processed records.
    pub fn processed_count(&self) -> (count: usize)
        ensures
            count == self@.done.len(),
    {
        self.done.len()
    }

    /// Whether the record `id` has been processed.
    pub fn is_processed(&self, id: i64) -> (processed: bool)
        ensures
            processed == self@.is_processed(id),
    {
        position_in_done(&self.done, id).is_some()
    }

    /// The embedding stored for the record `id`, if it has been processed.
    pub fn embedding(&self, id: i64) -> (embedding: Option<&V>)
        requires
            self@.wf(),
        ensures
            embedding is Some == self@.is_processed(id),
            embedding is Some ==> Some(*embedding->0) == self@.embedding_of(id),
    {
        match position_in_done(&self.done, id) {
            Some(at) => {
                proof {
                    let ids = embedded_ids(self@.done);
                    let chosen = ids.index_of(id);
                    assert(ids[chosen] == id);
                    assert(self@.done[chosen].record.id == id);
                    assert(self@.done[at as int].record.id == id);
                    assert(chosen == at);
                }
                Some(&self.done[at].embedding)
            },
            None => None,
        }
    }

    /// Returns the first unprocessed records, at most `limit` of them. An
    /// empty batch says that nothing is left to process.
    pub fn fetch_unprocessed(&self, limit: usize) -> (batch: Vec<Record>)
        ensures
            batch@ == self@.fetch(limit as nat),
            batch.len() <= limit,
    {
        let mut batch: Vec<Record> = Vec::new();
        let mut i: usize = 0;
        while i < self.pending.len() && i < limit
            invariant
                i <= self.pending.len(),
                i <= limit,
                batch@ == self.pending@.take(i as int),
            decreases self.pending.len() - i,
        {
            let record = Record { id: self.pending[i].id, content: self.pending[i].content.clone() };
            batch.push(record);
            assert(batch@ =~= self.pending@.take(i + 1));
            i += 1;
        }
        batch
    }

    /// Stores `embedding` for the record `id` and marks it processed, both at
    /// once. The write fails, and changes nothing, where no unprocessed record
    /// has this identifier.
    pub fn mark_processed(&mut self, id: i64, embedding: V) -> (written: bool)
        requires
            old(self)@.wf(),
        ensures
            written == old(self)@.is_pending(id),
            final(self)@ == old(self)@.mark(id, embedding),
            final(self)@.wf(),
    {
        match position_of(&self.pending, id) {
            Some(at) => {
                proof {
                    let ids = ids_of(self@.pending);
                    let chosen = ids.index_of(id);
                    assert(ids[chosen] == id);
                    assert(self@.pending[chosen].id == id);
                    assert(self@.pending[at as int].id == id);
                    assert(chosen == at);
                    lemma_mark_keeps_wf(self@, id, embedding);
                }
                let record = self.pending.remove(at);
                self.done.push(Embedded { record, embedding });
                true
            },
            None => false,
        }
    }
}

/// A write leaves every identifier of the store unique.
pub proof fn lemma_mark_keeps_wf<V>(store: StoreView<V>, id: i64, embedding: V)
    requires
        store.wf(),
    ensures
        store.mark(id, embedding).wf(),
{
    if store.is_pending(id) {
        let at = ids_of(store.pending).index_of(id);
        assert(ids_of(store.pending)[at] == id);
        let after = store.mark(id, embedding);
        assert forall|i: int, j: int| 0 <= i < j < after.pending.len() implies (
        #[trigger] after.pending[i]).id != (#[trigger] after.pending[j]).id by {
            let oi = if i < at { i } else { i + 1 };
            let oj = if j < at { j } else { j + 1 };
            assert(after.pending[i] == store.pending[oi]);
            assert(after.pending[j] == store.pending[oj]);
        }
        assert forall|i: int, j: int| 0 <= i < j < after.done.len() implies (
        #[trigger] after.done[i]).record.id != (#[trigger] after.done[j]).record.id by {
            assert(after.done[i] == store.done[i]);
            if j < store.done.len() {
                assert(after.done[j] == store.done[j]);
            } else {
                assert(after.done[j].record == store.pending[at]);
            }
        }
        assert forall|i: int, j: int|
            0 <= i < after.pending.len() && 0 <= j < after.done.len() implies (
        #[trigger] after.pending[i]).id != (#[trigger] after.done[j]).record.id by {
            let oi = if i < at { i } else { i + 1 };
            assert(after.pending[i] == store.pending[oi]);
            if j < store.done.len() {
                assert(after.done[j] == store.done[j]);
            } else {
                assert(after.done[j].record == store.pending[at]);
            }
        }
    }
}

} // verus!
