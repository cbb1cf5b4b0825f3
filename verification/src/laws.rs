//! What holds of the loop and the store together.

use vstd::prelude::*;
use crate::record::{Record, ids_of, texts_of};
use crate::pairing::{EmbeddingWrite, paired};
use crate::store::{Embedded, StoreView, embedded_ids, lemma_mark_keeps_wf};
use crate::driver::{LoopView, PhaseView, EventView, ActionView, Stage, next};

verus! {

/// The outcomes of `n` writes that all reached the store.
pub open spec fn all_reached(n: nat) -> Seq<bool> {
    Seq::new(n, |i: int| true)
}

/// The records of `batch`, each with the embedding at its own position.
pub open spec fn embedded<V>(batch: Seq<Record>, embeddings: Seq<V>) -> Seq<Embedded<V>> {
    Seq::new(batch.len(), |i: int| (Embedded { record: batch[i], embedding: embeddings[i] }))
}

/// In a store without duplicate identifiers, the pending record at `at` is the
/// one a write for its identifier finds.
proof fn lemma_mark_at<V>(store: StoreView<V>, at: int, embedding: V)
    requires
        store.wf(),
        0 <= at < store.pending.len(),
    ensures
        store.mark(store.pending[at].id, embedding) == (StoreView {
            pending: store.pending.remove(at),
            done: store.done.push(Embedded { record: store.pending[at], embedding }),
        }),
{
    let ids = ids_of(store.pending);
    let id = store.pending[at].id;
    assert(ids[at] == id);
    let chosen = ids.index_of(id);
    assert(ids[chosen] == id);
    assert(store.pending[chosen].id == id);
    assert(chosen == at);
}

/// Writing, with success, the embeddings for `count` pending records that
/// stand together from position `start` on takes exactly these records out of
/// the pending ones and adds them, each with its embedding, to the processed.
proof fn lemma_settle_range<V>(store: StoreView<V>, start: int, count: nat, embeddings: Seq<V>)
    requires
        store.wf(),
        0 <= start,
        start + count <= store.pending.len(),
        embeddings.len() == count,
    ensures
        store.settle(
            paired(ids_of(store.pending.subrange(start, start + count)), embeddings),
            all_reached(count),
        ) == (StoreView {
            pending: store.pending.take(start) + store.pending.skip(start + count),
            done: store.done + embedded(store.pending.subrange(start, start + count), embeddings),
        }),
    decreases count,
{
    let batch = store.pending.subrange(start, start + count);
    let writes = paired(ids_of(batch), embeddings);
    let target = StoreView {
        pending: store.pending.take(start) + store.pending.skip(start + count),
        done: store.done + embedded(batch, embeddings),
    };
    if count == 0 {
        assert(target.pending =~= store.pending);
        assert(target.done =~= store.done);
    } else {
        assert(writes[0].id == store.pending[start].id);
        lemma_mark_at(store, start, embeddings[0]);
        lemma_mark_keeps_wf(store, store.pending[start].id, embeddings[0]);
        let after = store.mark(store.pending[start].id, embeddings[0]);
        let rest = (count - 1) as nat;
        let after_batch = after.pending.subrange(start, start + rest);
        assert(after_batch =~= batch.skip(1));
        assert(writes.skip(1) =~= paired(ids_of(after_batch), embeddings.skip(1)));
        assert(all_reached(count).skip(1) =~= all_reached(rest));
        lemma_settle_range(after, start, rest, embeddings.skip(1));
        assert(after.pending.take(start) + after.pending.skip(start + rest) =~= target.pending);
        assert(after.done + embedded(after_batch, embeddings.skip(1)) =~= target.done);
    }
}

/// Writing the embeddings for the first `count` pending records, where every
/// write but the one at `failed` reaches the store, leaves the record at
/// `failed` as the first pending one and processes the others.
proof fn lemma_settle_one_failure<V>(
    store: StoreView<V>,
    count: nat,
    failed: int,
    embeddings: Seq<V>,
)
    requires
        store.wf(),
        count <= store.pending.len(),
        0 <= failed < count,
        embeddings.len() == count,
    ensures
        store.settle(
            paired(ids_of(store.pending.take(count as int)), embeddings),
            all_reached(count).update(failed, false),
        ) == (StoreView {
            pending: seq![store.pending[failed]] + store.pending.skip(count as int),
            done: store.done + embedded(store.pending.take(count as int), embeddings).remove(
                failed,
            ),
        }),
    decreases failed,
{
    let batch = store.pending.take(count as int);
    let writes = paired(ids_of(batch), embeddings);
    let reached = all_reached(count).update(failed, false);
    let rest = (count - 1) as nat;
    let target = StoreView {
        pending: seq![store.pending[failed]] + store.pending.skip(count as int),
        done: store.done + embedded(batch, embeddings).remove(failed),
    };
    if failed == 0 {
        let tail = store.pending.subrange(1, count as int);
        assert(tail =~= batch.skip(1));
        assert(writes.skip(1) =~= paired(ids_of(tail), embeddings.skip(1)));
        assert(reached.skip(1) =~= all_reached(rest));
        lemma_settle_range(store, 1, rest, embeddings.skip(1));
        assert(store.pending.take(1) + store.pending.skip(count as int) =~= target.pending);
        assert(store.done + embedded(tail, embeddings.skip(1)) =~= target.done);
    } else {
        assert(writes[0].id == store.pending[0].id);
        lemma_mark_at(store, 0, embeddings[0]);
        lemma_mark_keeps_wf(store, store.pending[0].id, embeddings[0]);
        let after = store.mark(store.pending[0].id, embeddings[0]);
        let after_batch = after.pending.take(rest as int);
        assert(after_batch =~= batch.skip(1));
        assert(writes.skip(1) =~= paired(ids_of(after_batch), embeddings.skip(1)));
        assert(reached.skip(1) =~= all_reached(rest).update(failed - 1, false));
        lemma_settle_one_failure(after, rest, failed - 1, embeddings.skip(1));
        assert(seq![after.pending[failed - 1]] + after.pending.skip(rest as int)
            =~= target.pending);
        assert(after.done + embedded(after_batch, embeddings.skip(1)).remove(failed - 1)
            =~= target.done);
    }
}


/// Attempted writes, whichever of them reach the store, leave every
/// identifier unique.
pub proof fn lemma_settle_keeps_wf<V>(
    store: StoreView<V>,
    writes: Seq<EmbeddingWrite<V>>,
    reached: Seq<bool>,
)
    requires
        store.wf(),
    ensures
        store.settle(writes, reached).wf(),
    decreases writes.len(),
{
    if writes.len() > 0 {
        lemma_mark_keeps_wf(store, writes[0].id, writes[0].embedding);
        let after = if reached.len() > 0 && reached[0] {
            store.mark(writes[0].id, writes[0].embedding)
        } else {
            store
        };
        lemma_settle_keeps_wf(after, writes.skip(1), reached.skip(1));
    }
}

/// The processed record at position `at` is found under its identifier, with
/// its own embedding.
proof fn lemma_embedding_at<V>(store: StoreView<V>, at: int)
    requires
        store.wf(),
        0 <= at < store.done.len(),
    ensures
        store.is_processed(store.done[at].record.id),
        store.embedding_of(store.done[at].record.id) == Some(store.done[at].embedding),
{
    let ids = embedded_ids(store.done);
    let id = store.done[at].record.id;
    assert(ids[at] == id);
    let chosen = ids.index_of(id);
    assert(ids[chosen] == id);
    assert(store.done[chosen].record.id == id);
    assert(chosen == at);
}

/// A run that has handled nothing yet and awaits its first batch.
pub open spec fn fresh(limit: nat) -> LoopView {
    LoopView { limit, total: 0, phase: PhaseView::AwaitingBatch }
}

/// A provider that never fails: it answers every sequence of texts with as
/// many embeddings.
pub open spec fn always_succeeds<V>(encode: spec_fn(Seq<Seq<char>>) -> Seq<V>) -> bool {
    forall|texts: Seq<Seq<char>>| (#[trigger] encode(texts)).len() == texts.len()
}

/// One turn of the loop against `store`, with `encode` as the provider and
/// every write reaching the store: the batch is fetched and handed to the
/// loop, each action the loop asks for is performed, and its outcome is
/// handed back, until the loop asks for the next batch or stops.
pub open spec fn cycle<V>(
    run: LoopView,
    store: StoreView<V>,
    encode: spec_fn(Seq<Seq<char>>) -> Seq<V>,
) -> (LoopView, StoreView<V>) {
    let fetched = next::<V>(run, EventView::Fetched(store.fetch(run.limit)));
    match fetched.1 {
        ActionView::Encode { texts } => {
            let encoded = next(fetched.0, EventView::Encoded(encode(texts)));
            match encoded.1 {
                ActionView::Write { writes } => {
                    let settled = next::<V>(encoded.0, EventView::WritesSettled);
                    (settled.0, store.settle(writes, all_reached(writes.len())))
                },
                _ => (encoded.0, store),
            }
        },
        _ => (fetched.0, store),
    }
}

/// The loop and the store after `turns` turns.
pub open spec fn run_for<V>(
    run: LoopView,
    store: StoreView<V>,
    encode: spec_fn(Seq<Seq<char>>) -> Seq<V>,
    turns: nat,
) -> (LoopView, StoreView<V>)
    decreases turns,
{
    if turns == 0 {
        (run, store)
    } else {
        let after = cycle(run, store, encode);
        run_for(after.0, after.1, encode, (turns - 1) as nat)
    }
}

/// Once a run has ended, further turns change neither the run nor the store.
pub proof fn lemma_finished_run_stays<V>(
    run: LoopView,
    store: StoreView<V>,
    encode: spec_fn(Seq<Seq<char>>) -> Seq<V>,
    turns: nat,
)
    requires
        run.finished(),
    ensures
        run_for(run, store, encode, turns) == (run, store),
    decreases turns,
{
    if turns > 0 {
        assert(cycle(run, store, encode) == (run, store));
        lemma_finished_run_stays(run, store, encode, (turns - 1) as nat);
    }
}

/// No fetch returns more records than the limit it was given, however many
/// are pending; and it returns fewer only where no more are pending.
pub proof fn law_fetch_within_limit<V>(store: StoreView<V>, limit: nat)
    ensures
        store.fetch(limit).len() <= limit,
        store.fetch(limit).len() < limit ==> store.fetch(limit) == store.pending,
{
    if store.fetch(limit).len() < limit {
        assert(store.fetch(limit) =~= store.pending);
    }
}

/// A write changes the flag and the embedding of a record together. Where the
/// record is pending, it is processed afterwards and holds the embedding that
/// was written; every other record stays as it was. Where it is not pending,
/// nothing changes.
pub proof fn law_write_is_atomic<V>(store: StoreView<V>, id: i64, embedding: V)
    requires
        store.wf(),
    ensures
        store.is_pending(id) ==> {
            &&& store.mark(id, embedding).is_processed(id)
            &&& !store.mark(id, embedding).is_pending(id)
            &&& store.mark(id, embedding).embedding_of(id) == Some(embedding)
        },
        !store.is_pending(id) ==> store.mark(id, embedding) == store,
        forall|other: i64|
            other != id ==> {
                &&& store.mark(id, embedding).is_pending(other) == store.is_pending(other)
                &&& store.mark(id, embedding).embedding_of(other) == store.embedding_of(other)
            },
{
    let after = store.mark(id, embedding);
    lemma_mark_keeps_wf(store, id, embedding);
    if store.is_pending(id) {
        let at = ids_of(store.pending).index_of(id);
        assert(ids_of(store.pending)[at] == id);
        assert(store.pending[at].id == id);
        let last = store.done.len() as int;
        assert(after.done[last].record.id == id);
        lemma_embedding_at(after, last);
        if after.is_pending(id) {
            let again = ids_of(after.pending).index_of(id);
            assert(ids_of(after.pending)[again] == id);
            assert(after.pending[again].id == after.done[last].record.id);
        }
        assert forall|other: i64| other != id implies {
            &&& after.is_pending(other) == store.is_pending(other)
            &&& after.embedding_of(other) == store.embedding_of(other)
        } by {
            if store.is_pending(other) {
                let k = ids_of(store.pending).index_of(other);
                assert(ids_of(store.pending)[k] == other);
                let moved = if k < at { k } else { k - 1 };
                assert(after.pending[moved] == store.pending[k]);
                assert(ids_of(after.pending)[moved] == other);
            }
            if after.is_pending(other) {
                let k = ids_of(after.pending).index_of(other);
                assert(ids_of(after.pending)[k] == other);
                let from = if k < at { k } else { k + 1 };
                assert(after.pending[k] == store.pending[from]);
                assert(ids_of(store.pending)[from] == other);
            }
            if store.is_processed(other) {
                let k = embedded_ids(store.done).index_of(other);
                assert(embedded_ids(store.done)[k] == other);
                assert(after.done[k] == store.done[k]);
                lemma_embedding_at(store, k);
                lemma_embedding_at(after, k);
            }
            if after.is_processed(other) {
                let k = embedded_ids(after.done).index_of(other);
                assert(embedded_ids(after.done)[k] == other);
                assert(k < last);
                assert(after.done[k] == store.done[k]);
                assert(embedded_ids(store.done)[k] == other);
            }
        }
    }
}

/// After a batch whose writes all reached the store, every record of the
/// batch is processed and holds the embedding that stood at its own position
/// in the provider's answer. The records processed before keep theirs, and
/// the pending records are those that were pending behind the batch.
pub proof fn law_batch_embeds_by_position<V>(store: StoreView<V>, limit: nat, embeddings: Seq<V>)
    requires
        store.wf(),
        embeddings.len() == store.fetch(limit).len(),
    ensures
        ({
            let batch = store.fetch(limit);
            let after = store.settle(
                paired(ids_of(batch), embeddings),
                all_reached(batch.len()),
            );
            &&& after.wf()
            &&& after.pending == store.pending.skip(batch.len() as int)
            &&& after.done == store.done + embedded(batch, embeddings)
            &&& forall|i: int|
                0 <= i < batch.len() ==> after.is_processed(#[trigger] batch[i].id)
                    && after.embedding_of(batch[i].id) == Some(embeddings[i])
            &&& forall|j: int|
                0 <= j < store.done.len() ==> after.embedding_of(
                    (#[trigger] store.done[j]).record.id,
                ) == Some(store.done[j].embedding)
        }),
{
    let batch = store.fetch(limit);
    let count = batch.len();
    let writes = paired(ids_of(batch), embeddings);
    let after = store.settle(writes, all_reached(count));
    lemma_settle_range(store, 0, count, embeddings);
    lemma_settle_keeps_wf(store, writes, all_reached(count));
    assert(batch =~= store.pending.subrange(0, count as int));
    assert(store.pending.take(0) + store.pending.skip(count as int) =~= store.pending.skip(
        count as int,
    ));
    assert forall|i: int| 0 <= i < batch.len() implies after.is_processed(
        #[trigger] batch[i].id,
    ) && after.embedding_of(batch[i].id) == Some(embeddings[i]) by {
        let at = store.done.len() + i;
        assert(after.done[at] == embedded(batch, embeddings)[i]);
        lemma_embedding_at(after, at);
    }
    assert forall|j: int| 0 <= j < store.done.len() implies after.embedding_of(
        (#[trigger] store.done[j]).record.id,
    ) == Some(store.done[j].embedding) by {
        assert(after.done[j] == store.done[j]);
        lemma_embedding_at(after, j);
    }
}

/// The loop pairs by position: the write it asks for at position `i` carries
/// the identifier of the record whose text stood at position `i` of what it
/// handed out for encoding, and the embedding at position `i` of the answer.
pub proof fn law_writes_pair_by_position<V>(
    run: LoopView,
    batch: Seq<Record>,
    embeddings: Seq<V>,
    i: int,
)
    requires
        run.phase is AwaitingBatch,
        embeddings.len() == batch.len(),
        0 <= i < batch.len(),
    ensures
        ({
            let fetched = next::<V>(run, EventView::Fetched(batch));
            let encoded = next(fetched.0, EventView::Encoded(embeddings));
            &&& fetched.1 == ActionView::<V>::Encode { texts: texts_of(batch) }
            &&& texts_of(batch)[i] == batch[i].content@
            &&& encoded.1 is Write
            &&& encoded.1->writes.len() == batch.len()
            &&& encoded.1->writes[i] == (EmbeddingWrite {
                id: batch[i].id,
                embedding: embeddings[i],
            })
        }),
{
}

/// Where one write of a batch fails, the other records of the batch are
/// processed all the same, each with the embedding at its own position, and
/// the record whose write failed is still pending: any later fetch of at
/// least one record returns it, in the first place.
pub proof fn law_one_failed_write<V>(
    store: StoreView<V>,
    limit: nat,
    embeddings: Seq<V>,
    failed: int,
    later_limit: nat,
)
    requires
        store.wf(),
        embeddings.len() == store.fetch(limit).len(),
        0 <= failed < store.fetch(limit).len(),
        later_limit > 0,
    ensures
        ({
            let batch = store.fetch(limit);
            let after = store.settle(
                paired(ids_of(batch), embeddings),
                all_reached(batch.len()).update(failed, false),
            );
            &&& after.wf()
            &&& forall|i: int|
                0 <= i < batch.len() && i != failed ==> after.is_processed(#[trigger] batch[i].id)
                    && after.embedding_of(batch[i].id) == Some(embeddings[i])
            &&& !after.is_processed(batch[failed].id)
            &&& after.is_pending(batch[failed].id)
            &&& after.fetch(later_limit).len() > 0
            &&& after.fetch(later_limit)[0] == batch[failed]
        }),
{
    let batch = store.fetch(limit);
    let count = batch.len();
    let writes = paired(ids_of(batch), embeddings);
    let reached = all_reached(count).update(failed, false);
    let after = store.settle(writes, reached);
    lemma_settle_one_failure(store, count, failed, embeddings);
    lemma_settle_keeps_wf(store, writes, reached);
    assert(after.pending[0] == batch[failed]);
    assert(ids_of(after.pending)[0] == batch[failed].id);
    assert forall|i: int| 0 <= i < batch.len() && i != failed implies after.is_processed(
        #[trigger] batch[i].id,
    ) && after.embedding_of(batch[i].id) == Some(embeddings[i]) by {
        let moved = if i < failed { i } else { i - 1 };
        let at = store.done.len() + moved;
        assert(after.done[at] == embedded(batch, embeddings)[i]);
        lemma_embedding_at(after, at);
    }
    if after.is_processed(batch[failed].id) {
        let k = embedded_ids(after.done).index_of(batch[failed].id);
        assert(embedded_ids(after.done)[k] == batch[failed].id);
        assert(after.done[k].record.id == after.pending[0].id);
    }
}

/// With a provider that never fails and writes that all reach the store, a
/// run comes to its end: after as many turns as there are pending records,
/// and one more, it is done, nothing is pending, and its total is the number
/// of records that were pending when it began. More turns change nothing.
pub proof fn law_run_completes<V>(
    run: LoopView,
    store: StoreView<V>,
    encode: spec_fn(Seq<Seq<char>>) -> Seq<V>,
    turns: nat,
)
    requires
        run.phase is AwaitingBatch,
        run.limit > 0,
        store.wf(),
        always_succeeds(encode),
        turns > store.pending.len(),
    ensures
        run_for(run, store, encode, turns).0 == (LoopView {
            limit: run.limit,
            total: run.total + store.pending.len(),
            phase: PhaseView::Done,
        }),
        run_for(run, store, encode, turns).1.pending.len() == 0,
        run_for(run, store, encode, turns).1.done.len() == store.done.len() + store.pending.len(),
        run_for(run, store, encode, turns).1.wf(),
    decreases turns,
{
    let batch = store.fetch(run.limit);
    let count = batch.len();
    let rest = (turns - 1) as nat;
    if count == 0 {
        let ended = LoopView { phase: PhaseView::Done, ..run };
        assert(cycle(run, store, encode) == (ended, store));
        lemma_finished_run_stays(ended, store, encode, rest);
    } else {
        let embeddings = encode(texts_of(batch));
        assert(embeddings.len() == count);
        let writes = paired(ids_of(batch), embeddings);
        assert(writes.len() == count);
        law_batch_embeds_by_position(store, run.limit, embeddings);
        let after = store.settle(writes, all_reached(count));
        let resumed = LoopView {
            limit: run.limit,
            total: run.total + count,
            phase: PhaseView::AwaitingBatch,
        };
        assert(cycle(run, store, encode) == (resumed, after));
        law_run_completes(resumed, after, encode, rest);
    }
}

/// A second run, started after a first one has completed and with no record
/// added in between, finds nothing to do: its first fetch is empty and it
/// ends with a total of zero, leaving the store as it found it.
pub proof fn law_second_run_finds_nothing<V>(
    store: StoreView<V>,
    limit: nat,
    encode: spec_fn(Seq<Seq<char>>) -> Seq<V>,
    turns: nat,
    more_turns: nat,
)
    requires
        limit > 0,
        store.wf(),
        always_succeeds(encode),
        turns > store.pending.len(),
        more_turns > 0,
    ensures
        ({
            let first = run_for(fresh(limit), store, encode, turns);
            let second = run_for(fresh(limit), first.1, encode, more_turns);
            &&& first.0.phase is Done
            &&& first.1.fetch(limit).len() == 0
            &&& second.0 == (LoopView { limit, total: 0, phase: PhaseView::Done })
            &&& second.1 == first.1
        }),
{
    law_run_completes(fresh(limit), store, encode, turns);
    let first = run_for(fresh(limit), store, encode, turns);
    law_run_completes(fresh(limit), first.1, encode, more_turns);
    let ended = LoopView { limit, total: 0, phase: PhaseView::Done };
    assert(cycle(fresh(limit), first.1, encode) == (ended, first.1));
    lemma_finished_run_stays(ended, first.1, encode, (more_turns - 1) as nat);
}


/// The provider is never asked to encode an empty batch: whenever the loop
/// asks for an encoding, it hands out at least one text.
pub proof fn law_never_encodes_nothing<V>(run: LoopView, event: EventView<V>)
    ensures
        next(run, event).1 is Encode ==> next(run, event).1->texts.len() > 0,
{
}

/// A run that has ended, done or failed, asks for nothing more: whatever it
/// is told, it stays as it is. In particular no write follows a failed
/// encoding.
pub proof fn law_finished_run_asks_nothing<V>(run: LoopView, event: EventView<V>)
    requires
        run.finished(),
    ensures
        next(run, event).0 == run,
        next(run, event).1 is Ignore,
{
}

/// A failed encoding ends the run at once, with no write for any record of
/// the batch and the total as it was before the batch.
pub proof fn law_failed_encoding_writes_nothing<V>(run: LoopView)
    requires
        run.phase is AwaitingEmbeddings,
    ensures
        next::<V>(run, EventView::EncodeFailed).1 == (ActionView::<V>::Abort {
            stage: Stage::Encode,
        }),
        next::<V>(run, EventView::EncodeFailed).0.finished(),
        next::<V>(run, EventView::EncodeFailed).0.total == run.total,
{
}


/// A record carries the processed flag exactly when it carries an embedding,
/// and a pending record carries neither.
pub proof fn law_processed_iff_embedded<V>(store: StoreView<V>, id: i64)
    requires
        store.wf(),
    ensures
        store.is_processed(id) <==> store.embedding_of(id) is Some,
        store.is_pending(id) ==> !store.is_processed(id) && store.embedding_of(id) is None,
{
    if store.is_pending(id) && store.is_processed(id) {
        let i = ids_of(store.pending).index_of(id);
        let j = embedded_ids(store.done).index_of(id);
        assert(ids_of(store.pending)[i] == id);
        assert(embedded_ids(store.done)[j] == id);
        assert(store.pending[i].id == store.done[j].record.id);
    }
}

/// A fetch returns pending records only, in the order in which they are
/// pending: a record that has been processed does not come back.
pub proof fn law_fetch_returns_only_pending<V>(store: StoreView<V>, limit: nat, i: int)
    requires
        store.wf(),
        0 <= i < store.fetch(limit).len(),
    ensures
        store.fetch(limit)[i] == store.pending[i],
        store.is_pending(store.fetch(limit)[i].id),
        !store.is_processed(store.fetch(limit)[i].id),
{
    let id = store.pending[i].id;
    assert(ids_of(store.pending)[i] == id);
    law_processed_iff_embedded(store, id);
}

} // verus!
