use archiver::document::Chunk;
use archiver::embedding::{check_embed_input, check_embedding, collect_batch};
use archiver::errors::{EmbeddingError, StoreError};
use archiver::store::{NewRecord, VectorStore};

fn chunk(doc_id: u64, idx: usize, text: &str) -> Chunk {
    Chunk { source_document_id: doc_id, sequence_index: idx, content: text.as_bytes().to_vec() }
}

fn rec(id: u64, embedding: Vec<i64>, text: &str) -> NewRecord {
    NewRecord { id, embedding, chunk: chunk(1, 0, text) }
}

fn ready_store(dim: usize) -> VectorStore {
    let mut s = VectorStore::new(dim).unwrap();
    s.initialize();
    s
}

#[test]
fn embedding_validation() {
    assert!(check_embedding(&vec![1, 2, 3], 3));
    assert!(!check_embedding(&vec![1, 2], 3));
    assert!(!check_embedding(&vec![1, 2, 1000001], 3));
    assert!(!check_embedding(&vec![-1000001, 0, 0], 3));
    assert!(check_embedding(&vec![-1000000, 1000000, 0], 3));
}

#[test]
fn empty_embed_input_is_rejected() {
    assert!(matches!(check_embed_input(&Vec::new()), Err(EmbeddingError::EmptyInput)));
    assert!(check_embed_input(&b"hi".to_vec()).is_ok());
}

#[test]
fn batch_results_keep_order_or_report_first_failure() {
    let all_ok: Vec<Result<Vec<i64>, EmbeddingError>> = vec![Ok(vec![1, 2]), Ok(vec![3, 4])];
    let vs = collect_batch(&all_ok).unwrap();
    assert_eq!(vs, vec![vec![1, 2], vec![3, 4]]);

    let mixed: Vec<Result<Vec<i64>, EmbeddingError>> =
        vec![Ok(vec![1]), Err(EmbeddingError::BackendTimeout), Err(EmbeddingError::BackendFailure)];
    let (idx, e) = collect_batch(&mixed).unwrap_err();
    assert_eq!(idx, 1);
    assert!(matches!(e, EmbeddingError::BackendTimeout));
}

#[test]
fn store_rejects_bad_dimension() {
    assert!(matches!(VectorStore::new(0), Err(StoreError::BadDimension)));
    assert!(matches!(VectorStore::new(65537), Err(StoreError::BadDimension)));
    assert!(VectorStore::new(768).is_ok());
}

#[test]
fn upsert_before_initialize_fails() {
    let mut s = VectorStore::new(2).unwrap();
    let r = s.upsert(&vec![rec(1, vec![0, 0], "a")]);
    assert!(matches!(r, Err(StoreError::NotReady)));
    s.initialize();
    assert!(s.upsert(&vec![rec(1, vec![0, 0], "a")]).is_ok());
}

#[test]
fn initialize_is_idempotent() {
    let mut s = VectorStore::new(2).unwrap();
    s.initialize();
    s.initialize();
    assert!(s.upsert(&vec![rec(1, vec![0, 0], "a")]).is_ok());
    s.initialize();
    assert_eq!(s.record_count(), 1);
}

#[test]
fn upsert_is_atomic_on_invalid_embedding() {
    let mut s = ready_store(2);
    let batch = vec![rec(1, vec![0, 0], "good"), rec(2, vec![0, 0, 0], "wrong dimension")];
    assert!(matches!(s.upsert(&batch), Err(StoreError::InvalidEmbedding)));
    assert_eq!(s.record_count(), 0);
}

#[test]
fn upsert_rejects_duplicate_ids() {
    let mut s = ready_store(2);
    let batch = vec![rec(5, vec![0, 0], "a"), rec(5, vec![1, 1], "b")];
    assert!(matches!(s.upsert(&batch), Err(StoreError::DuplicateId)));
    assert_eq!(s.record_count(), 0);

    assert!(s.upsert(&vec![rec(5, vec![0, 0], "a")]).is_ok());
    assert!(matches!(s.upsert(&vec![rec(5, vec![1, 1], "b")]), Err(StoreError::DuplicateId)));
    assert_eq!(s.record_count(), 1);
}

#[test]
fn search_on_empty_store_returns_nothing() {
    let s = ready_store(2);
    let hits = s.search(&vec![0, 0], 5, i64::MIN).unwrap();
    assert_eq!(hits.len(), 0);
}

#[test]
fn search_rejects_wrong_dimension_query() {
    let s = ready_store(2);
    assert!(matches!(s.search(&vec![0, 0, 0], 5, 0), Err(StoreError::InvalidEmbedding)));
}

#[test]
fn self_embedding_query_returns_record_as_top_hit() {
    let mut s = ready_store(2);
    let batch = vec![
        rec(1, vec![10, 10], "far"),
        rec(2, vec![3, 4], "target"),
        rec(3, vec![0, 0], "origin"),
    ];
    s.upsert(&batch).unwrap();
    let hits = s.search(&vec![3, 4], 3, i64::MIN).unwrap();
    assert_eq!(hits.len(), 3);
    assert_eq!(hits[0].record.id, 2);
    assert_eq!(hits[0].score, 0);
    assert_eq!(hits[0].record.chunk.content, b"target".to_vec());
}

#[test]
fn scores_are_negated_squared_distance() {
    let mut s = ready_store(2);
    s.upsert(&vec![rec(1, vec![1, 2], "a")]).unwrap();
    let hits = s.search(&vec![4, 6], 1, i64::MIN).unwrap();
    // distance^2 = 3^2 + 4^2 = 25
    assert_eq!(hits[0].score, -25);
}

#[test]
fn search_filters_by_threshold() {
    let mut s = ready_store(2);
    s.upsert(&vec![rec(1, vec![0, 5], "near"), rec(2, vec![0, 100], "far")]).unwrap();
    // best match is at distance 25; a stricter threshold returns nothing
    let hits = s.search(&vec![0, 0], 5, -24).unwrap();
    assert_eq!(hits.len(), 0);
    let hits = s.search(&vec![0, 0], 5, -25).unwrap();
    assert_eq!(hits.len(), 1);
    assert_eq!(hits[0].record.id, 1);
}

#[test]
fn search_returns_at_most_k_sorted_by_score() {
    let mut s = ready_store(1);
    s.upsert(&vec![
        rec(1, vec![7], "a"),
        rec(2, vec![1], "b"),
        rec(3, vec![4], "c"),
        rec(4, vec![2], "d"),
    ])
        .unwrap();
    let hits = s.search(&vec![0], 3, i64::MIN).unwrap();
    assert_eq!(hits.len(), 3);
    for w in hits.windows(2) {
        assert!(w[0].score >= w[1].score);
    }
    assert_eq!(hits[0].record.id, 2);
    assert_eq!(hits[1].record.id, 4);
    assert_eq!(hits[2].record.id, 3);
}

#[test]
fn equal_scores_break_ties_by_insertion_time() {
    let mut s = ready_store(1);
    s.upsert(&vec![rec(10, vec![5], "first"), rec(9, vec![-5], "second")]).unwrap();
    let hits = s.search(&vec![0], 2, i64::MIN).unwrap();
    assert_eq!(hits.len(), 2);
    assert_eq!(hits[0].score, hits[1].score);
    assert_eq!(hits[0].record.id, 10);
    assert_eq!(hits[1].record.id, 9);
}

#[test]
fn insertion_times_are_consecutive() {
    let mut s = ready_store(1);
    s.upsert(&vec![rec(1, vec![0], "a"), rec(2, vec![0], "b")]).unwrap();
    assert_eq!(s.time_watermark(), 2);
    s.upsert(&vec![rec(3, vec![0], "c")]).unwrap();
    assert_eq!(s.time_watermark(), 3);
    assert_eq!(s.record_count(), 3);
    assert_eq!(s.dimension_of(), 1);
}
