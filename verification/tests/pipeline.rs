use hask::brain::{ingest_begin, ingest_commit, query_candidates};
use hask::embedding::{validate_embed_response, Embedding, SCALE};
use hask::errors::PipelineError;
use hask::index::VectorIndex;
use hask::rerank::{rerank_or_fallback, RerankEntry};
use hask::store::DedupStore;

fn emb(components: Vec<i64>) -> Embedding {
    Embedding { components }
}

/// One embedding per chunk text: a unit basis vector chosen by `axis`.
fn basis(dim: usize, axis: usize) -> Embedding {
    let mut v = vec![0i64; dim];
    v[axis] = SCALE;
    Embedding { components: v }
}

#[test]
fn ingest_then_query_round_trip() {
    let mut store = DedupStore::new();
    let mut index = VectorIndex::new(2);
    let prep = ingest_begin(
        &mut store,
        &mut index,
        "http://a.com/page",
        "A page",
        "first part. second part",
        1,
        12,
    );
    assert!(prep.created);
    assert_eq!(prep.texts, vec!["first part. ".to_string(), "second part".to_string()]);
    let embs = vec![basis(2, 0), basis(2, 1)];
    let ids = ingest_commit(&mut store, &mut index, &prep.key, &prep.texts, &embs).unwrap();
    assert_eq!(ids.len(), 2);
    assert_eq!(index.len(), 2);

    let hits = index.search(&basis(2, 1), 1);
    assert_eq!(hits.len(), 1);
    assert_eq!(hits[0].chunk_id, ids[1]);
    assert_eq!(hits[0].score, (SCALE as i128) * (SCALE as i128));

    let cands = query_candidates(&store, &index, &basis(2, 0), 5);
    assert_eq!(cands.len(), 2);
    assert_eq!(cands[0].text, "first part. ");
    assert_eq!(cands[0].page_url, "http://a.com/page");
    assert_eq!(cands[0].title, "A page");
}

#[test]
fn saving_twice_keeps_one_page_and_no_duplicate_chunks() {
    let mut store = DedupStore::new();
    let mut index = VectorIndex::new(2);
    for _ in 0..2 {
        let prep = ingest_begin(&mut store, &mut index, "http://a.com", "t", "same text", 1, 50);
        let embs = vec![basis(2, 0)];
        ingest_commit(&mut store, &mut index, &prep.key, &prep.texts, &embs).unwrap();
    }
    assert_eq!(store.pages.len(), 1);
    assert_eq!(index.len(), 1);
    assert_eq!(store.chunks.len(), 1);
    assert_eq!(store.chunks[0].text, "same text");
}

#[test]
fn reingestion_replaces_old_chunks() {
    let mut store = DedupStore::new();
    let mut index = VectorIndex::new(2);
    let prep_a = ingest_begin(&mut store, &mut index, "http://a.com", "t", "content a", 1, 50);
    ingest_commit(&mut store, &mut index, &prep_a.key, &prep_a.texts, &vec![basis(2, 0)]).unwrap();

    let prep_b = ingest_begin(&mut store, &mut index, "http://a.com", "t", "content b", 2, 50);
    assert!(!prep_b.created);
    ingest_commit(&mut store, &mut index, &prep_b.key, &prep_b.texts, &vec![basis(2, 1)]).unwrap();

    assert_eq!(store.pages.len(), 1);
    assert_eq!(store.pages[0].raw_content, "content b");
    assert_eq!(store.chunks.len(), 1);
    assert_eq!(store.chunks[0].text, "content b");
    assert_eq!(index.len(), 1);
    let hits = index.search(&basis(2, 1), 2);
    assert_eq!(hits[0].score, (SCALE as i128) * (SCALE as i128));
}

#[test]
fn empty_page_is_a_valid_save_with_nothing_indexed() {
    let mut store = DedupStore::new();
    let mut index = VectorIndex::new(2);
    let prep = ingest_begin(&mut store, &mut index, "http://empty.com", "t", "", 1, 50);
    assert!(prep.texts.is_empty());
    let ids = ingest_commit(&mut store, &mut index, &prep.key, &prep.texts, &vec![]).unwrap();
    assert!(ids.is_empty());
    assert_eq!(store.pages.len(), 1);
    assert_eq!(index.len(), 0);
}

#[test]
fn empty_index_query_yields_empty_results() {
    let store = DedupStore::new();
    let index = VectorIndex::new(3);
    let cands = query_candidates(&store, &index, &basis(3, 0), 10);
    assert!(cands.is_empty());
}

#[test]
fn malformed_embedding_batch_leaves_index_untouched() {
    let mut store = DedupStore::new();
    let mut index = VectorIndex::new(2);
    let prep = ingest_begin(&mut store, &mut index, "http://a.com", "t", "some text", 1, 50);
    assert_eq!(prep.texts.len(), 1);
    // The provider answered with two vectors for one text.
    let raw = vec![vec![SCALE, 0], vec![0, SCALE]];
    let r = validate_embed_response(prep.texts.len(), 2, &raw);
    assert_eq!(r.unwrap_err(), PipelineError::MalformedResponse);
    // The batch is never committed, so the index stays unmodified.
    assert_eq!(index.len(), 0);
}

#[test]
fn scenario_python_doc_ranks_first_after_rerank() {
    let docs = vec![
        "it is easy to write python code".to_string(),
        "I try another letter here, and i love paris".to_string(),
        "I am a software engineer".to_string(),
        "I am a mechanical engineer".to_string(),
        "I am a civil engineer".to_string(),
    ];
    let mut store = DedupStore::new();
    let mut index = VectorIndex::new(5);
    for (i, doc) in docs.iter().enumerate() {
        let url = format!("http://docs.example/{}", i);
        let prep = ingest_begin(&mut store, &mut index, &url, doc, doc, 1, 100);
        let embs = vec![basis(5, i)];
        ingest_commit(&mut store, &mut index, &prep.key, &prep.texts, &embs).unwrap();
    }
    // The query embedding lands nearest a wrong document, so the raw index
    // order does not put the python document first.
    let mut q = vec![SCALE / 2; 5];
    q[2] = SCALE;
    let cands = query_candidates(&store, &index, &emb(q), 5);
    assert_eq!(cands.len(), 5);
    assert_ne!(cands[0].text, docs[0]);

    // The rerank provider clearly prefers the python document.
    let mut entries = Vec::new();
    for (t, c) in cands.iter().enumerate() {
        let score = if c.text == docs[0] { 990 } else { 100 - t as i64 };
        entries.push(RerankEntry { index: t, score });
    }
    let order = rerank_or_fallback(cands.len(), Ok(entries));
    let top = &cands[order[0].index];
    assert_eq!(top.text, docs[0]);
    assert_eq!(top.page_url, "http://docs.example/0");
}

#[test]
fn index_is_rebuildable_from_the_store() {
    let mut store = DedupStore::new();
    let mut index = VectorIndex::new(2);
    let prep = ingest_begin(&mut store, &mut index, "http://a.com", "t", "alpha. beta", 1, 7);
    let embs = vec![basis(2, 0), basis(2, 1)];
    ingest_commit(&mut store, &mut index, &prep.key, &prep.texts, &embs).unwrap();

    let rebuilt = hask::brain::rebuild_index(&store, 2);
    assert_eq!(rebuilt.len(), index.len());
    let q = basis(2, 1);
    let from_old = index.search(&q, 5);
    let from_new = rebuilt.search(&q, 5);
    assert_eq!(from_old, from_new);
}

#[test]
fn exhausted_id_counter_surfaces_storage_error_and_changes_nothing() {
    let mut store = DedupStore::new();
    let mut index = VectorIndex::new(2);
    let prep = ingest_begin(&mut store, &mut index, "http://a.com", "t", "text", 1, 50);
    store.next_id = u64::MAX;
    let embs = vec![basis(2, 0)];
    let r = ingest_commit(&mut store, &mut index, &prep.key, &prep.texts, &embs);
    assert_eq!(r.unwrap_err(), PipelineError::StorageError);
    assert_eq!(index.len(), 0);
    assert!(store.chunks.is_empty());
}

#[test]
fn card_carries_candidate_fields_and_summary() {
    let mut store = DedupStore::new();
    let mut index = VectorIndex::new(2);
    let prep = ingest_begin(&mut store, &mut index, "http://a.com", "Title", "body text", 1, 50);
    ingest_commit(&mut store, &mut index, &prep.key, &prep.texts, &vec![basis(2, 0)]).unwrap();
    let cands = query_candidates(&store, &index, &basis(2, 0), 1);
    let summary = hask::summary::summary_or_fallback(
        &cands[0].content,
        Err(PipelineError::ProviderTimeout),
        4,
    );
    let card = hask::brain::make_card(&cands[0], Some(7), summary);
    assert_eq!(card.page_url, "http://a.com");
    assert_eq!(card.title, "Title");
    assert_eq!(card.rerank_score, Some(7));
    assert_eq!(card.summary, "body");
    assert_eq!(card.score, cands[0].score);
}
