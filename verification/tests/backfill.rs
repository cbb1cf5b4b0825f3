use embedding_backfill::driver::{Action, BackfillLoop, Event, Stage};
use embedding_backfill::pairing::{pair_embeddings, EmbeddingWrite};
use embedding_backfill::record::{split_batch, Record};
use embedding_backfill::store::MemoryStore;

fn record(id: i64, content: &str) -> Record {
    Record { id, content: content.to_string() }
}

fn store_with(records: &[(i64, &str)]) -> MemoryStore<Vec<f32>> {
    let mut store = MemoryStore::new();
    for (id, content) in records {
        assert!(store.insert(*id, content.to_string()));
    }
    store
}

/// An embedding that depends on the text alone: its length and its first byte.
fn embed(text: &str) -> Vec<f32> {
    vec![text.len() as f32, text.bytes().next().unwrap_or(0) as f32]
}

struct Outcome {
    run: BackfillLoop,
    fetched: Vec<Vec<i64>>,
    progress: Vec<usize>,
    finished_with: Option<usize>,
    aborted_at: Option<Stage>,
}

/// Drives a run against a store held in memory. `fail_encode_on` names the
/// fetch (counted from 1) whose encoding fails; a write to an identifier in
/// `unwritable` never reaches the store. At most `max_fetches` fetches are made.
fn drive(
    store: &mut MemoryStore<Vec<f32>>,
    limit: usize,
    fail_encode_on: Option<usize>,
    unwritable: &[i64],
    max_fetches: usize,
) -> Outcome {
    let mut run = BackfillLoop::new(limit);
    let mut fetched = Vec::new();
    let mut progress = Vec::new();
    let mut finished_with = None;
    let mut aborted_at = None;
    let first = store.fetch_unprocessed(run.limit());
    fetched.push(first.iter().map(|r| r.id).collect::<Vec<i64>>());
    let mut event: Event<Vec<f32>> = Event::Fetched(first);
    loop {
        let (next, action) = run.step(event);
        run = next;
        event = match action {
            Action::Fetch { limit } => {
                progress.push(run.total());
                if fetched.len() == max_fetches {
                    break;
                }
                let batch = store.fetch_unprocessed(limit);
                assert!(batch.len() <= limit);
                fetched.push(batch.iter().map(|r| r.id).collect());
                Event::Fetched(batch)
            }
            Action::Encode { texts } => {
                assert!(!texts.is_empty());
                if fail_encode_on == Some(fetched.len()) {
                    Event::EncodeFailed
                } else {
                    Event::Encoded(texts.iter().map(|t| embed(t)).collect())
                }
            }
            Action::Write { writes } => {
                for write in writes {
                    if !unwritable.contains(&write.id) {
                        assert!(store.mark_processed(write.id, write.embedding));
                    }
                }
                Event::WritesSettled
            }
            Action::Finish { total } => {
                finished_with = Some(total);
                break;
            }
            Action::Abort { stage } => {
                aborted_at = Some(stage);
                break;
            }
            Action::Ignore => panic!("the loop ignored an event it had asked for"),
        };
    }
    Outcome { run, fetched, progress, finished_with, aborted_at }
}

#[test]
fn three_records_with_limit_two_take_two_batches() {
    let mut store = store_with(&[(1, "alpha"), (2, "beta"), (3, "gamma")]);
    let outcome = drive(&mut store, 2, None, &[], 10);
    assert_eq!(outcome.fetched, vec![vec![1, 2], vec![3], vec![]]);
    assert_eq!(outcome.progress, vec![2, 3]);
    assert_eq!(outcome.finished_with, Some(3));
    assert_eq!(outcome.aborted_at, None);
    assert!(outcome.run.is_finished());
    assert_eq!(outcome.run.total(), 3);
    assert_eq!(outcome.run.failure(), None);
    assert_eq!(store.pending_count(), 0);
    assert_eq!(store.processed_count(), 3);
}

#[test]
fn run_ends_with_the_number_of_records_pending_at_start() {
    let mut store = store_with(&[(10, "a"), (11, "bb"), (12, "ccc"), (13, "dddd"), (14, "e")]);
    assert!(store.mark_processed(11, vec![0.5]));
    let pending_at_start = store.pending_count();
    assert_eq!(pending_at_start, 4);
    let outcome = drive(&mut store, 3, None, &[], 10);
    assert_eq!(outcome.finished_with, Some(pending_at_start));
    assert_eq!(outcome.fetched, vec![vec![10, 12, 13], vec![14], vec![]]);
    assert_eq!(store.pending_count(), 0);
    assert_eq!(store.processed_count(), 5);
}

#[test]
fn processed_record_holds_the_embedding_of_its_own_text() {
    let mut store = store_with(&[(1, "alpha"), (2, "be"), (3, "gam")]);
    let outcome = drive(&mut store, 100, None, &[], 10);
    assert_eq!(outcome.finished_with, Some(3));
    for (id, text) in [(1, "alpha"), (2, "be"), (3, "gam")] {
        assert!(store.is_processed(id));
        assert_eq!(store.embedding(id), Some(&embed(text)));
    }
    assert_eq!(store.embedding(1), Some(&vec![5.0, 97.0]));
    assert_eq!(store.embedding(2), Some(&vec![2.0, 98.0]));
}

#[test]
fn pending_record_has_no_embedding() {
    let store = store_with(&[(1, "alpha")]);
    assert!(!store.is_processed(1));
    assert_eq!(store.embedding(1), None);
    assert_eq!(store.embedding(99), None);
}

#[test]
fn fetch_never_returns_more_than_the_limit() {
    let store = store_with(&[(1, "a"), (2, "b"), (3, "c"), (4, "d"), (5, "e")]);
    for limit in 0..8 {
        let batch = store.fetch_unprocessed(limit);
        assert_eq!(batch.len(), limit.min(5));
        let ids: Vec<i64> = batch.iter().map(|r| r.id).collect();
        let expected: Vec<i64> = (1..=5).take(limit).collect();
        assert_eq!(ids, expected);
    }
}

#[test]
fn fetch_returns_records_with_their_content() {
    let store = store_with(&[(7, "seven"), (8, "eight")]);
    assert_eq!(store.fetch_unprocessed(1), vec![record(7, "seven")]);
    assert_eq!(store.fetch_unprocessed(2), vec![record(7, "seven"), record(8, "eight")]);
}

#[test]
fn fetch_on_empty_store_is_empty() {
    let store: MemoryStore<Vec<f32>> = MemoryStore::new();
    assert!(store.fetch_unprocessed(100).is_empty());
    assert_eq!(store.pending_count(), 0);
    assert_eq!(store.processed_count(), 0);
}

#[test]
fn second_text_is_written_with_second_embedding() {
    let run = BackfillLoop::new(100);
    let batch = vec![record(1, "t1"), record(2, "t2"), record(3, "t3")];
    let (run, action) = run.step::<Vec<f32>>(Event::Fetched(batch));
    assert_eq!(
        action,
        Action::Encode { texts: vec!["t1".to_string(), "t2".to_string(), "t3".to_string()] }
    );
    assert!(!run.is_finished());
    let (v1, v2, v3) = (vec![1.0f32], vec![2.0f32], vec![3.0f32]);
    let (run, action) = run.step(Event::Encoded(vec![v1.clone(), v2.clone(), v3.clone()]));
    assert_eq!(
        action,
        Action::Write {
            writes: vec![
                EmbeddingWrite { id: 1, embedding: v1 },
                EmbeddingWrite { id: 2, embedding: v2 },
                EmbeddingWrite { id: 3, embedding: v3 },
            ]
        }
    );
    assert_eq!(run.total(), 0);
    let (run, action) = run.step::<Vec<f32>>(Event::WritesSettled);
    assert_eq!(action, Action::Fetch { limit: 100 });
    assert_eq!(run.total(), 3);
}

#[test]
fn one_failed_write_leaves_the_others_processed() {
    let mut store = store_with(&[(1, "a"), (2, "bb"), (3, "ccc"), (4, "dddd")]);
    let outcome = drive(&mut store, 3, None, &[2], 2);
    assert_eq!(outcome.fetched, vec![vec![1, 2, 3], vec![2, 4]]);
    assert_eq!(outcome.progress, vec![3, 5]);
    assert!(store.is_processed(1));
    assert!(store.is_processed(3));
    assert!(store.is_processed(4));
    assert!(!store.is_processed(2));
    assert_eq!(store.embedding(1), Some(&embed("a")));
    assert_eq!(store.embedding(3), Some(&embed("ccc")));
    assert_eq!(store.embedding(2), None);
    assert_eq!(store.fetch_unprocessed(3), vec![record(2, "bb")]);
    assert!(!outcome.run.is_finished());
}

#[test]
fn total_counts_fetched_records_even_when_every_write_fails() {
    let mut store = store_with(&[(1, "a"), (2, "b")]);
    let outcome = drive(&mut store, 2, None, &[1, 2], 3);
    assert_eq!(outcome.fetched, vec![vec![1, 2], vec![1, 2], vec![1, 2]]);
    assert_eq!(outcome.progress, vec![2, 4, 6]);
    assert_eq!(store.pending_count(), 2);
    assert_eq!(store.processed_count(), 0);
}

#[test]
fn second_run_finds_nothing_to_do() {
    let mut store = store_with(&[(1, "a"), (2, "b"), (3, "c")]);
    let first = drive(&mut store, 2, None, &[], 10);
    assert_eq!(first.finished_with, Some(3));
    let second = drive(&mut store, 2, None, &[], 10);
    assert_eq!(second.fetched, vec![Vec::<i64>::new()]);
    assert_eq!(second.progress, Vec::<usize>::new());
    assert_eq!(second.finished_with, Some(0));
    assert_eq!(store.processed_count(), 3);
}

#[test]
fn empty_first_batch_finishes_with_zero() {
    let run = BackfillLoop::new(100);
    let (run, action) = run.step::<Vec<f32>>(Event::Fetched(Vec::new()));
    assert_eq!(action, Action::Finish { total: 0 });
    assert!(run.is_finished());
    assert_eq!(run.failure(), None);
    assert_eq!(run.total(), 0);
}

#[test]
fn failed_fetch_aborts_the_run() {
    let run = BackfillLoop::new(100);
    let (run, action) = run.step::<Vec<f32>>(Event::FetchFailed);
    assert_eq!(action, Action::Abort { stage: Stage::Fetch });
    assert!(run.is_finished());
    assert_eq!(run.failure(), Some(Stage::Fetch));
}

#[test]
fn failed_encoding_aborts_without_any_write() {
    let mut store = store_with(&[(1, "a"), (2, "b"), (3, "c")]);
    let outcome = drive(&mut store, 2, Some(2), &[], 10);
    assert_eq!(outcome.fetched, vec![vec![1, 2], vec![3]]);
    assert_eq!(outcome.progress, vec![2]);
    assert_eq!(outcome.aborted_at, Some(Stage::Encode));
    assert_eq!(outcome.finished_with, None);
    assert_eq!(outcome.run.failure(), Some(Stage::Encode));
    assert_eq!(outcome.run.total(), 2);
    assert!(!store.is_processed(3));
    assert_eq!(store.pending_count(), 1);
}

#[test]
fn event_that_is_not_awaited_is_ignored() {
    let run = BackfillLoop::new(5);
    let (run, action) = run.step(Event::Encoded(vec![vec![1.0f32]]));
    assert_eq!(action, Action::Ignore);
    let (run, action) = run.step::<Vec<f32>>(Event::WritesSettled);
    assert_eq!(action, Action::Ignore);
    assert_eq!(run.total(), 0);
    assert!(!run.is_finished());
    let (run, action) = run.step::<Vec<f32>>(Event::Fetched(vec![record(1, "a")]));
    assert_eq!(action, Action::Encode { texts: vec!["a".to_string()] });
    let (run, action) = run.step::<Vec<f32>>(Event::Fetched(vec![record(2, "b")]));
    assert_eq!(action, Action::Ignore);
    let (run, action) = run.step::<Vec<f32>>(Event::EncodeFailed);
    assert_eq!(action, Action::Abort { stage: Stage::Encode });
    let (run, action) = run.step::<Vec<f32>>(Event::Fetched(Vec::new()));
    assert_eq!(action, Action::Ignore);
    assert_eq!(run.failure(), Some(Stage::Encode));
}

#[test]
fn finished_run_ignores_further_events() {
    let run = BackfillLoop::new(5);
    let (run, _) = run.step::<Vec<f32>>(Event::Fetched(Vec::new()));
    let (run, action) = run.step::<Vec<f32>>(Event::Fetched(vec![record(1, "a")]));
    assert_eq!(action, Action::Ignore);
    assert!(run.is_finished());
    assert_eq!(run.total(), 0);
}

#[test]
fn new_run_keeps_its_limit() {
    let run = BackfillLoop::new(100);
    assert_eq!(run.limit(), 100);
    assert_eq!(run.total(), 0);
    assert!(!run.is_finished());
    assert_eq!(run.failure(), None);
}

#[test]
fn split_batch_keeps_order() {
    let batch = vec![record(3, "three"), record(1, "one"), record(2, "two")];
    let (ids, texts) = split_batch(&batch);
    assert_eq!(ids, vec![3, 1, 2]);
    assert_eq!(texts, vec!["three".to_string(), "one".to_string(), "two".to_string()]);
}

#[test]
fn split_batch_of_nothing_is_empty() {
    let (ids, texts) = split_batch(&Vec::new());
    assert!(ids.is_empty());
    assert!(texts.is_empty());
}

#[test]
fn pair_embeddings_pairs_by_position() {
    let writes = pair_embeddings(vec![vec![0.1f32], vec![0.2f32], vec![0.3f32]], &vec![7, 8, 9]);
    assert_eq!(
        writes,
        vec![
            EmbeddingWrite { id: 7, embedding: vec![0.1f32] },
            EmbeddingWrite { id: 8, embedding: vec![0.2f32] },
            EmbeddingWrite { id: 9, embedding: vec![0.3f32] },
        ]
    );
}

#[test]
fn pair_embeddings_stops_at_the_shorter_side() {
    let fewer = pair_embeddings(vec!['a', 'b'], &vec![1, 2, 3]);
    assert_eq!(
        fewer,
        vec![EmbeddingWrite { id: 1, embedding: 'a' }, EmbeddingWrite { id: 2, embedding: 'b' }]
    );
    let more = pair_embeddings(vec!['a', 'b', 'c'], &vec![1]);
    assert_eq!(more, vec![EmbeddingWrite { id: 1, embedding: 'a' }]);
    let none = pair_embeddings(Vec::<char>::new(), &vec![1, 2]);
    assert!(none.is_empty());
}

#[test]
fn short_answer_from_provider_writes_only_what_it_covers() {
    let run = BackfillLoop::new(10);
    let (run, _) = run.step::<u8>(Event::Fetched(vec![record(1, "a"), record(2, "b")]));
    let (run, action) = run.step(Event::Encoded(vec![9u8]));
    assert_eq!(action, Action::Write { writes: vec![EmbeddingWrite { id: 1, embedding: 9u8 }] });
    let (run, action) = run.step::<u8>(Event::WritesSettled);
    assert_eq!(action, Action::Fetch { limit: 10 });
    assert_eq!(run.total(), 2);
}

#[test]
fn insert_refuses_an_identifier_already_held() {
    let mut store: MemoryStore<Vec<f32>> = MemoryStore::new();
    assert!(store.insert(1, "first".to_string()));
    assert!(!store.insert(1, "again".to_string()));
    assert_eq!(store.pending_count(), 1);
    assert!(store.mark_processed(1, vec![1.0]));
    assert!(!store.insert(1, "once more".to_string()));
    assert_eq!(store.pending_count(), 0);
    assert_eq!(store.processed_count(), 1);
    assert_eq!(store.fetch_unprocessed(10), Vec::<Record>::new());
}

#[test]
fn mark_processed_fails_for_unknown_or_processed_record() {
    let mut store = store_with(&[(1, "a"), (2, "b")]);
    assert!(!store.mark_processed(5, vec![1.0]));
    assert_eq!(store.pending_count(), 2);
    assert_eq!(store.processed_count(), 0);
    assert!(store.mark_processed(2, vec![2.0]));
    assert!(!store.mark_processed(2, vec![3.0]));
    assert_eq!(store.embedding(2), Some(&vec![2.0f32]));
    assert_eq!(store.fetch_unprocessed(10), vec![record(1, "a")]);
}

#[test]
fn marked_record_does_not_reappear() {
    let mut store = store_with(&[(1, "a"), (2, "b"), (3, "c")]);
    assert!(store.mark_processed(2, vec![0.0]));
    let ids: Vec<i64> = store.fetch_unprocessed(10).iter().map(|r| r.id).collect();
    assert_eq!(ids, vec![1, 3]);
}
