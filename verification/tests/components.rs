use hask::chunker::split;
use hask::embedding::{dot_product, validate_embed_response, Embedding, SCALE};
use hask::errors::PipelineError;
use hask::index::VectorIndex;
use hask::rerank::{apply_rerank, rerank_or_fallback, RerankEntry};
use hask::store::DedupStore;
use hask::summary::summary_or_fallback;
use hask::urlnorm::normalize_url;

fn emb(components: Vec<i64>) -> Embedding {
    Embedding { components }
}

#[test]
fn normalizes_case_fragment_and_trailing_slash() {
    assert_eq!(
        normalize_url("HTTPS://Example.com/Path/#Frag"),
        "https://example.com/path"
    );
    assert_eq!(normalize_url("http://a.com///"), "http://a.com");
    assert_eq!(normalize_url("#only-fragment"), "");
    assert_eq!(normalize_url("http://a.com/x"), "http://a.com/x");
}

#[test]
fn chunker_empty_content_yields_no_chunks() {
    let chunks = split("", 10);
    assert!(chunks.is_empty());
}

#[test]
fn chunker_short_content_is_one_chunk() {
    assert_eq!(split("abcde", 5), vec!["abcde".to_string()]);
}

#[test]
fn chunker_prefers_boundary_and_concats_back() {
    let chunks = split("ab cdef", 4);
    assert_eq!(chunks, vec!["ab ".to_string(), "cdef".to_string()]);
    let joined: String = chunks.concat();
    assert_eq!(joined, "ab cdef");
}

#[test]
fn chunker_without_boundary_cuts_at_width() {
    assert_eq!(
        split("abcdefgh", 3),
        vec!["abc".to_string(), "def".to_string(), "gh".to_string()]
    );
}

#[test]
fn dot_product_exact_value() {
    let a = vec![SCALE, 0];
    let b = vec![SCALE, 0];
    assert_eq!(dot_product(&a, &b), (SCALE as i128) * (SCALE as i128));
    let c = vec![0, SCALE];
    assert_eq!(dot_product(&a, &c), 0);
    let d = vec![-SCALE, 0];
    assert_eq!(dot_product(&a, &d), -(SCALE as i128) * (SCALE as i128));
}

#[test]
fn embed_validation_accepts_well_formed_batch() {
    let raw = vec![vec![SCALE, 0], vec![0, -SCALE]];
    let embs = validate_embed_response(2, 2, &raw).unwrap();
    assert_eq!(embs.len(), 2);
    assert_eq!(embs[0].components, vec![SCALE, 0]);
}

#[test]
fn embed_validation_rejects_count_mismatch() {
    let raw = vec![vec![SCALE, 0]];
    let r = validate_embed_response(2, 2, &raw);
    assert_eq!(r.unwrap_err(), PipelineError::MalformedResponse);
}

#[test]
fn embed_validation_rejects_wrong_dimension() {
    let raw = vec![vec![SCALE, 0, 0]];
    let r = validate_embed_response(1, 2, &raw);
    assert_eq!(r.unwrap_err(), PipelineError::MalformedResponse);
}

#[test]
fn embed_validation_rejects_out_of_range_coordinate() {
    let raw = vec![vec![SCALE + 1, 0]];
    let r = validate_embed_response(1, 2, &raw);
    assert_eq!(r.unwrap_err(), PipelineError::MalformedResponse);
}

#[test]
fn search_orders_by_similarity_and_truncates() {
    let mut index = VectorIndex::new(2);
    index.insert(1, emb(vec![SCALE, 0]));
    index.insert(2, emb(vec![0, SCALE]));
    index.insert(3, emb(vec![SCALE / 2, 0]));
    let q = emb(vec![SCALE, 0]);
    let hits = index.search(&q, 10);
    assert_eq!(hits.len(), 3);
    assert_eq!(hits[0].chunk_id, 1);
    assert_eq!(hits[1].chunk_id, 3);
    assert_eq!(hits[2].chunk_id, 2);
    let top2 = index.search(&q, 2);
    assert_eq!(top2.len(), 2);
    assert_eq!(top2[0].chunk_id, 1);
    assert_eq!(top2[1].chunk_id, 3);
}

#[test]
fn search_breaks_ties_toward_earlier_insertion() {
    let mut index = VectorIndex::new(2);
    index.insert(7, emb(vec![SCALE, 0]));
    index.insert(8, emb(vec![SCALE, 0]));
    let hits = index.search(&emb(vec![SCALE, 0]), 2);
    assert_eq!(hits[0].chunk_id, 7);
    assert_eq!(hits[1].chunk_id, 8);
}

#[test]
fn insert_replaces_and_remove_deletes() {
    let mut index = VectorIndex::new(2);
    index.insert(1, emb(vec![SCALE, 0]));
    index.insert(1, emb(vec![0, SCALE]));
    assert_eq!(index.len(), 1);
    let hits = index.search(&emb(vec![0, SCALE]), 1);
    assert_eq!(hits[0].chunk_id, 1);
    assert_eq!(hits[0].score, (SCALE as i128) * (SCALE as i128));
    index.remove(1);
    assert_eq!(index.len(), 0);
    index.remove(1);
    assert_eq!(index.len(), 0);
}

#[test]
fn self_similarity_tops_search() {
    let mut index = VectorIndex::new(3);
    index.insert(1, emb(vec![SCALE, 0, 0]));
    index.insert(2, emb(vec![0, SCALE, 0]));
    index.insert(3, emb(vec![0, 0, SCALE]));
    let hits = index.search(&emb(vec![0, SCALE, 0]), 3);
    assert_eq!(hits[0].chunk_id, 2);
    assert_eq!(hits[0].score, (SCALE as i128) * (SCALE as i128));
}

#[test]
fn dedup_store_tracks_membership() {
    let mut store = DedupStore::new();
    assert!(!store.contains_url("http://a.com"));
    let out = store.upsert("http://A.com/", "t", "c", 1);
    assert!(out.created);
    assert_eq!(out.page.url, "http://a.com");
    assert!(store.contains_url("http://a.com"));
    assert!(store.contains_url("HTTP://A.COM/#x"));
    let again = store.upsert("http://a.com", "t2", "c2", 2);
    assert!(!again.created);
    assert_eq!(store.pages.len(), 1);
    assert_eq!(store.pages[0].raw_content, "c2");
    assert_eq!(store.pages[0].title, "t2");
}

#[test]
fn rerank_sorts_valid_answer() {
    let entries = vec![
        RerankEntry { index: 2, score: 10 },
        RerankEntry { index: 0, score: 90 },
        RerankEntry { index: 1, score: 50 },
    ];
    let v = apply_rerank(4, entries).unwrap();
    assert_eq!(v.len(), 4);
    assert_eq!(v[0].index, 0);
    assert_eq!(v[0].score, Some(90));
    assert_eq!(v[1].index, 1);
    assert_eq!(v[2].index, 2);
    assert_eq!(v[3].index, 3);
    assert_eq!(v[3].score, None);
}

#[test]
fn rerank_rejects_out_of_range_index() {
    let entries = vec![RerankEntry { index: 5, score: 1 }];
    let r = apply_rerank(3, entries);
    assert_eq!(r.unwrap_err(), PipelineError::MalformedResponse);
}

#[test]
fn rerank_rejects_duplicate_index() {
    let entries = vec![
        RerankEntry { index: 1, score: 1 },
        RerankEntry { index: 1, score: 2 },
    ];
    let r = apply_rerank(3, entries);
    assert_eq!(r.unwrap_err(), PipelineError::MalformedResponse);
}

#[test]
fn rerank_falls_back_to_index_order_on_provider_failure() {
    let v = rerank_or_fallback(3, Err(PipelineError::ProviderTimeout));
    assert_eq!(v.len(), 3);
    for (t, slot) in v.iter().enumerate() {
        assert_eq!(slot.index, t);
        assert_eq!(slot.score, None);
    }
    let bad = vec![RerankEntry { index: 9, score: 1 }];
    let w = rerank_or_fallback(3, Ok(bad));
    assert_eq!(w.len(), 3);
    assert_eq!(w[0].index, 0);
}

#[test]
fn summary_passes_through_or_truncates() {
    let ok = summary_or_fallback("full text", Ok("short".to_string()), 4);
    assert_eq!(ok, "short");
    let fb = summary_or_fallback("full text", Err(PipelineError::ProviderTimeout), 4);
    assert_eq!(fb, "full");
    let all = summary_or_fallback("hi", Err(PipelineError::ProviderError(500, "x".into())), 10);
    assert_eq!(all, "hi");
}

#[test]
fn retry_only_transient_failures_within_budget() {
    assert!(PipelineError::ProviderTimeout.is_retryable());
    assert!(PipelineError::ProviderRateLimited.is_retryable());
    assert!(!PipelineError::MalformedResponse.is_retryable());
    assert!(!PipelineError::StorageError.is_retryable());
    assert!(!PipelineError::ProviderError(429, "busy".into()).is_retryable());
    assert!(hask::errors::should_retry(&PipelineError::ProviderTimeout, 0, 3));
    assert!(!hask::errors::should_retry(&PipelineError::ProviderTimeout, 3, 3));
    assert!(!hask::errors::should_retry(&PipelineError::MalformedResponse, 0, 3));
}
