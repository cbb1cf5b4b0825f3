//! The backfill loop as a state machine.
//!
//! The loop itself performs no fetch, no encoding and no write. It is told
//! what happened, as an [`Event`], and answers with what to do next, as an
//! [`Action`]. Whoever drives it performs the action and reports back.

use vstd::prelude::*;
use crate::record::{Record, ids_of, texts_of, string_views, split_batch};
use crate::pairing::{EmbeddingWrite, paired, pair_embeddings};

verus! {

/// The stage at which a run was stopped by a failure.
#[derive(Clone, Copy, Debug, PartialEq, Eq, Structural)]
pub enum Stage {
    Fetch,
    Encode,
}

/// What the driver reports to the loop.
#[derive(Debug)]
pub enum Event<V> {
    /// The store returned this batch of unprocessed records.
    Fetched(Vec<Record>),
    /// The store could not be asked for a batch.
    FetchFailed,
    /// The provider returned these embeddings for the texts last handed out.
    Encoded(Vec<V>),
    /// The provider failed; no embedding of the batch was produced.
    EncodeFailed,
    /// Every write of the batch has settled, whether it succeeded or not.
    WritesSettled,
}

/// What the loop asks the driver to do next.
#[derive(Debug, PartialEq)]
pub enum Action<V> {
    /// Fetch at most `limit` unprocessed records.
    Fetch { limit: usize },
    /// Compute one embedding for each of `texts`, in order.
    Encode { texts: Vec<String> },
    /// Perform each of `writes` independently of the others.
    Write { writes: Vec<EmbeddingWrite<V>> },
    /// The run is complete; `total` records were handled.
    Finish { total: usize },
    /// The run is stopped by a failure at `stage`.
    Abort { stage: Stage },
    /// The event was not awaited; nothing is to be done for it.
    Ignore,
}

/// Where a run stands.
pub enum PhaseView {
    AwaitingBatch,
    AwaitingEmbeddings { ids: Seq<i64> },
    AwaitingWrites { count: nat },
    Done,
    Failed { stage: Stage },
}

/// The mathematical content of a [`BackfillLoop`].
pub struct LoopView {
    pub limit: nat,
    pub total: nat,
    pub phase: PhaseView,
}

pub enum EventView<V> {
    Fetched(Seq<Record>),
    FetchFailed,
    Encoded(Seq<V>),
    EncodeFailed,
    WritesSettled,
}

pub enum ActionView<V> {
    Fetch { limit: nat },
    Encode { texts: Seq<Seq<char>> },
    Write { writes: Seq<EmbeddingWrite<V>> },
    Finish { total: nat },
    Abort { stage: Stage },
    Ignore,
}

impl<V> View for Event<V> {
    type V = EventView<V>;

    open spec fn view(&self) -> EventView<V> {
        match *self {
            Event::Fetched(batch) => EventView::Fetched(batch@),
            Event::FetchFailed => EventView::FetchFailed,
            Event::Encoded(embeddings) => EventView::Encoded(embeddings@),
            Event::EncodeFailed => EventView::EncodeFailed,
            Event::WritesSettled => EventView::WritesSettled,
        }
    }
}

impl<V> View for Action<V> {
    type V = ActionView<V>;

    open spec fn view(&self) -> ActionView<V> {
        match *self {
            Action::Fetch { limit } => ActionView::Fetch { limit: limit as nat },
            Action::Encode { texts } => ActionView::Encode { texts: string_views(texts@) },
            Action::Write { writes } => ActionView::Write { writes: writes@ },
            Action::Finish { total } => ActionView::Finish { total: total as nat },
            Action::Abort { stage } => ActionView::Abort { stage },
            Action::Ignore => ActionView::Ignore,
        }
    }
}

impl LoopView {
    /// The running total, with the batch in flight counted in, fits the
    /// machine's word, and the limit is positive.
    pub open spec fn wf(self) -> bool {
        &&& 0 < self.limit <= usize::MAX
        &&& self.total + self.in_flight() <= usize::MAX
    }

    /// The number of records fetched and not yet added to the total.
    pub open spec fn in_flight(self) -> nat {
        match self.phase {
            PhaseView::AwaitingEmbeddings { ids } => ids.len(),
            PhaseView::AwaitingWrites { count } => count,
            _ => 0,
        }
    }

    /// Whether the run has reached one of its two final states.
    pub open spec fn finished(self) -> bool {
        self.phase is Done || self.phase is Failed
    }
}

/// The loop's transition: the state after `event`, and the action it asks for.
///
/// While a batch is awaited, an empty batch ends the run with the total so
/// far, a non-empty one has its texts encoded, and a failed fetch stops the
/// run. While embeddings are awaited, they are paired by position with the
/// identifiers of the batch and handed out as writes; a failed encoding stops
/// the run with no write at all. Once the writes have settled, the size of the
/// fetched batch is added to the total and the next batch is asked for. Any
/// other event is ignored and changes nothing.
pub open spec fn next<V>(state: LoopView, event: EventView<V>) -> (LoopView, ActionView<V>) {
    match (state.phase, event) {
        (PhaseView::AwaitingBatch, EventView::Fetched(batch)) => {
            if batch.len() == 0 {
                (
                    LoopView { phase: PhaseView::Done, ..state },
                    ActionView::Finish { total: state.total },
                )
            } else {
                (
                    LoopView {
                        phase: PhaseView::AwaitingEmbeddings { ids: ids_of(batch) },
                        ..state
                    },
                    ActionView::Encode { texts: texts_of(batch) },
                )
            }
        },
        (PhaseView::AwaitingBatch, EventView::FetchFailed) => (
            LoopView { phase: PhaseView::Failed { stage: Stage::Fetch }, ..state },
            ActionView::Abort { stage: Stage::Fetch },
        ),
        (PhaseView::AwaitingEmbeddings { ids }, EventView::Encoded(embeddings)) => (
            LoopView { phase: PhaseView::AwaitingWrites { count: ids.len() }, ..state },
            ActionView::Write { writes: paired(ids, embeddings) },
        ),
        (PhaseView::AwaitingEmbeddings { ids }, EventView::EncodeFailed) => (
            LoopView { phase: PhaseView::Failed { stage: Stage::Encode }, ..state },
            ActionView::Abort { stage: Stage::Encode },
        ),
        (PhaseView::AwaitingWrites { count }, EventView::WritesSettled) => (
            LoopView { total: state.total + count, phase: PhaseView::AwaitingBatch, ..state },
            ActionView::Fetch { limit: state.limit },
        ),
        _ => (state, ActionView::Ignore),
    }
}

/// Whether `event` can be taken in `state` without the running total leaving
/// the machine's word: a fetched batch must fit on top of the total.
pub open spec fn fits<V>(state: LoopView, event: EventView<V>) -> bool {
    match (state.phase, event) {
        (PhaseView::AwaitingBatch, EventView::Fetched(batch)) => state.total + batch.len()
            <= usize::MAX,
        _ => true,
    }
}

enum Phase {
    AwaitingBatch,
    AwaitingEmbeddings { ids: Vec<i64> },
    AwaitingWrites { count: usize },
    Done,
    Failed { stage: Stage },
}

/// One run of the backfill: the batch limit, the number of records handled so
/// far, and what the run is waiting for.
pub struct BackfillLoop {
    limit: usize,
    total: usize,
    phase: Phase,
}

impl View for BackfillLoop {
    type V = LoopView;

    closed spec fn view(&self) -> LoopView {
        LoopView {
            limit: self.limit as nat,
            total: self.total as nat,
            phase: match self.phase {
                Phase::AwaitingBatch => PhaseView::AwaitingBatch,
                Phase::AwaitingEmbeddings { ids } => PhaseView::AwaitingEmbeddings { ids: ids@ },
                Phase::AwaitingWrites { count } => PhaseView::AwaitingWrites {
                    count: count as nat,
                },
                Phase::Done => PhaseView::Done,
                Phase::Failed { stage } => PhaseView::Failed { stage },
            },
        }
    }
}

impl BackfillLoop {
    /// A run that has handled nothing yet and awaits its first batch, of at
    /// most `limit` records.
    pub fn new(limit: usize) -> (run: BackfillLoop)
        requires
            limit > 0,
        ensures
            run@ == (LoopView { limit: limit as nat, total: 0, phase: PhaseView::AwaitingBatch }),
            run@.wf(),
    {
        BackfillLoop { limit, total: 0, phase: Phase::AwaitingBatch }
    }

    /// The largest batch the run asks for.
    pub fn limit(&self) -> (limit: usize)
        ensures
            limit == self@.limit,
    {
        self.limit
    }

    /// The number of records handled by the batches completed so far.
    pub fn total(&self) -> (total: usize)
        ensures
            total == self@.total,
    {
        self.total
    }

    /// Whether the run has ended, in success or in failure.
    pub fn is_finished(&self) -> (finished: bool)
        ensures
            finished == self@.finished(),
    {
        match self.phase {
            Phase::Done => true,
            Phase::Failed { .. } => true,
            _ => false,
        }
    }

    /// The stage at which the run failed, if it did.
    pub fn failure(&self) -> (stage: Option<Stage>)
        ensures
            stage == (match self@.phase {
                PhaseView::Failed { stage } => Some(stage),
                _ => None,
            }),
    {
        match self.phase {
            Phase::Failed { stage } => Some(stage),
            _ => None,
        }
    }

    /// Takes `event` and returns the state that follows with the action to
    /// perform, as [`next`] defines them.
    pub fn step<V>(self, event: Event<V>) -> (out: (BackfillLoop, Action<V>))
        requires
            self@.wf(),
            fits(self@, event@),
        ensures
            (out.0@, out.1@) == next(self@, event@),
            out.0@.wf(),
    {
        let BackfillLoop { limit, total, phase } = self;
        match (phase, event) {
            (Phase::AwaitingBatch, Event::Fetched(batch)) => {
                if batch.len() == 0 {
                    (BackfillLoop { limit, total, phase: Phase::Done }, Action::Finish { total })
                } else {
                    let (ids, texts) = split_batch(&batch);
                    (
                        BackfillLoop { limit, total, phase: Phase::AwaitingEmbeddings { ids } },
                        Action::Encode { texts },
                    )
                }
            },
            (Phase::AwaitingBatch, Event::FetchFailed) => (
                BackfillLoop { limit, total, phase: Phase::Failed { stage: Stage::Fetch } },
                Action::Abort { stage: Stage::Fetch },
            ),
            (Phase::AwaitingEmbeddings { ids }, Event::Encoded(embeddings)) => {
                let writes = pair_embeddings(embeddings, &ids);
                (
                    BackfillLoop { limit, total, phase: Phase::AwaitingWrites { count: ids.len() } },
                    Action::Write { writes },
                )
            },
            (Phase::AwaitingEmbeddings { ids }, Event::EncodeFailed) => (
                BackfillLoop { limit, total, phase: Phase::Failed { stage: Stage::Encode } },
                Action::Abort { stage: Stage::Encode },
            ),
            (Phase::AwaitingWrites { count }, Event::WritesSettled) => (
                BackfillLoop { limit, total: total + count, phase: Phase::AwaitingBatch },
                Action::Fetch { limit },
            ),
            (phase, _) => (BackfillLoop { limit, total, phase }, Action::Ignore),
        }
    }
}

} // verus!
