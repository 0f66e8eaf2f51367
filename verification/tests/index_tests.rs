use rag_system_mini::index::dot_product;
use rag_system_mini::index::EmbeddingIndex;

fn sample_index() -> EmbeddingIndex {
    let mut idx = EmbeddingIndex::new(2);
    idx.ingest(
        String::from("alpha"),
        String::from("first document"),
        vec![1_000_000, 0],
    );
    idx.ingest(
        String::from("beta"),
        String::from("second document"),
        vec![0, 1_000_000],
    );
    idx.ingest(
        String::from("gamma"),
        String::from("third document"),
        vec![707_000, 707_000],
    );
    idx
}

#[test]
fn dot_product_exact_value() {
    let a: Vec<i64> = vec![1_000, 2_000];
    let b: Vec<i64> = vec![3_000, 4_000];
    assert_eq!(dot_product(&a, &b), 3_000_000 + 8_000_000);
}

#[test]
fn dot_product_handles_negative_coordinates() {
    let a: Vec<i64> = vec![-1_000_000, 1_000_000];
    let b: Vec<i64> = vec![1_000_000, 1_000_000];
    assert_eq!(dot_product(&a, &b), 0);
}

#[test]
fn query_on_empty_index_returns_empty_not_error() {
    let idx = EmbeddingIndex::new(2);
    let q: Vec<i64> = vec![1_000_000, 0];
    let hits = idx.query(&q, 5);
    assert!(hits.is_empty());
}

#[test]
fn query_returns_at_most_k_results() {
    let idx = sample_index();
    let q: Vec<i64> = vec![1_000_000, 0];
    assert_eq!(idx.query(&q, 0).len(), 0);
    assert_eq!(idx.query(&q, 1).len(), 1);
    assert_eq!(idx.query(&q, 2).len(), 2);
    assert_eq!(idx.query(&q, 3).len(), 3);
    // fewer than k stored: exactly min(k, stored) come back
    assert_eq!(idx.query(&q, 10).len(), 3);
}

#[test]
fn query_ranks_by_similarity_descending() {
    let idx = sample_index();
    let q: Vec<i64> = vec![1_000_000, 0];
    let hits = idx.query(&q, 3);
    assert_eq!(hits[0].id, "alpha");
    assert_eq!(hits[0].score, 1_000_000_000_000);
    assert_eq!(hits[1].id, "gamma");
    assert_eq!(hits[1].score, 707_000_000_000);
    assert_eq!(hits[2].id, "beta");
    assert_eq!(hits[2].score, 0);
}

#[test]
fn query_single_match_has_positive_score() {
    let mut idx = EmbeddingIndex::new(2);
    idx.ingest(
        String::from("hello"),
        String::from("Hello world"),
        vec![900_000, 435_000],
    );
    let q: Vec<i64> = vec![900_000, 435_000];
    let hits = idx.query(&q, 1);
    assert_eq!(hits.len(), 1);
    assert_eq!(hits[0].id, "hello");
    assert_eq!(hits[0].text, "Hello world");
    assert!(hits[0].score > 0);
}

#[test]
fn query_is_deterministic_across_repeated_calls() {
    let idx = sample_index();
    let q: Vec<i64> = vec![500_000, 500_000];
    let first = idx.query(&q, 3);
    let second = idx.query(&q, 3);
    assert_eq!(first.len(), second.len());
    for (a, b) in first.iter().zip(second.iter()) {
        assert_eq!(a.id, b.id);
        assert_eq!(a.text, b.text);
        assert_eq!(a.score, b.score);
    }
}

#[test]
fn equal_scores_are_returned_in_ascending_id_order() {
    let mut idx = EmbeddingIndex::new(2);
    // insertion order deliberately descending by id; vectors identical
    idx.ingest(String::from("zeta"), String::from("z"), vec![1_000_000, 0]);
    idx.ingest(String::from("eta"), String::from("e"), vec![1_000_000, 0]);
    idx.ingest(String::from("beta"), String::from("b"), vec![1_000_000, 0]);
    let q: Vec<i64> = vec![1_000_000, 0];
    let hits = idx.query(&q, 3);
    assert_eq!(hits[0].score, hits[1].score);
    assert_eq!(hits[1].score, hits[2].score);
    assert_eq!(hits[0].id, "beta");
    assert_eq!(hits[1].id, "eta");
    assert_eq!(hits[2].id, "zeta");
}

#[test]
fn reingesting_an_id_overwrites_the_record() {
    let mut idx = EmbeddingIndex::new(2);
    idx.ingest(String::from("doc"), String::from("text A"), vec![1_000_000, 0]);
    idx.ingest(String::from("doc"), String::from("text B"), vec![0, 1_000_000]);
    assert_eq!(idx.len(), 1);
    let q: Vec<i64> = vec![0, 1_000_000];
    let hits = idx.query(&q, 1);
    assert_eq!(hits.len(), 1);
    assert_eq!(hits[0].id, "doc");
    assert_eq!(hits[0].text, "text B");
    // the stored vector is text B's embedding, so the score is the full
    // fixed-point square, not zero
    assert_eq!(hits[0].score, 1_000_000_000_000);
}

#[test]
fn overwriting_keeps_other_records() {
    let mut idx = sample_index();
    idx.ingest(String::from("beta"), String::from("new beta"), vec![1_000_000, 0]);
    assert_eq!(idx.len(), 3);
    let q: Vec<i64> = vec![1_000_000, 0];
    let hits = idx.query(&q, 3);
    assert_eq!(hits[0].score, hits[1].score);
    assert_eq!(hits[0].id, "alpha");
    assert_eq!(hits[1].id, "beta");
    assert_eq!(hits[1].text, "new beta");
}
