//! The ingestion and query pipelines over one shared state: the dedup
//! store and the vector index.
//!
//! Ingestion runs `Received -> Deduped -> Chunked` inside `ingest_begin`
//! (upsert, clearing of the previous revision, chunking), hands the chunk
//! texts out for the external embedding call, and commits the embedded
//! revision atomically in `ingest_commit`: either every chunk of the page
//! revision is stored and indexed, or none is. A failed embedding call
//! leaves no partial revision behind.
//!
//! The query pipeline embeds the query externally, searches the index, and
//! resolves the hits back to their chunks and pages here.

use crate::chunker::{chunks_of, split};
use crate::embedding::{dot, Embedding};
use crate::errors::PipelineError;
use crate::index::{contains_id, IndexEntry, VectorIndex};
use crate::store::{contains_page, page_matches, Chunk, DedupStore, Page};
use crate::urlnorm::normalized;
use vstd::prelude::*;

verus! {

/// Whether the record `e` occurs in `entries`.
pub open spec fn entry_present(entries: Seq<IndexEntry>, e: IndexEntry) -> bool {
    exists|u: int| 0 <= u < entries.len() && entries[u] == e
}

/// Whether some stored chunk carries the entry's identifier and vector.
pub open spec fn entry_backed(chunks: Seq<Chunk>, e: IndexEntry) -> bool {
    exists|j: int|
        0 <= j < chunks.len() && (#[trigger] chunks[j]).id == e.chunk_id && chunks[j].embedding@
            == e.vector@
}

/// The pipeline invariant tying the index to the store: every index entry
/// is backed by a stored chunk with the same identifier and vector, so the
/// index never holds orphaned entries and is reconstructible from the
/// store.
pub open spec fn linked(store: DedupStore, index: VectorIndex) -> bool {
    forall|t: int|
        0 <= t < index.entries@.len() ==> entry_backed(
            store.chunks@,
            #[trigger] index.entries@[t],
        )
}

/// The page record the ingestion of `(key, title, content, fetched_at)`
/// leaves behind: present, unique by `wf`, and carrying exactly these
/// fields.
pub open spec fn page_state(
    pages: Seq<Page>,
    key: Seq<char>,
    title: Seq<char>,
    content: Seq<char>,
    fetched_at: u64,
) -> bool {
    &&& contains_page(pages, key)
    &&& forall|i: int|
        0 <= i < pages.len() && (#[trigger] pages[i]).url@ == key ==> page_matches(
            pages[i],
            key,
            title,
            content,
            fetched_at,
        )
}

/// What `ingest_begin` hands back: the page's dedup key, whether the page
/// was newly created, and the chunk texts to be embedded externally.
pub struct IngestPrep {
    pub key: String,
    pub created: bool,
    pub texts: Vec<String>,
}

/// First half of one ingestion run: dedups the URL (creating or updating
/// its page), clears every chunk of the previous revision from both the
/// store and the index, and chunks the new content. Afterwards the store
/// holds no chunk for this page and the index no entry of one, so a failed
/// embedding call leaves no partial revision.
#[verifier::loop_isolation(false)]
#[verifier::rlimit(60)]
pub fn ingest_begin(
    store: &mut DedupStore,
    index: &mut VectorIndex,
    url: &str,
    title: &str,
    content: &str,
    fetched_at: u64,
    max_chunk: usize,
) -> (prep: IngestPrep)
    requires
        old(store).wf(),
        old(index).wf(),
        linked(*old(store), *old(index)),
        max_chunk >= 1,
    ensures
        final(store).wf(),
        final(index).wf(),
        linked(*final(store), *final(index)),
        final(index).dim == old(index).dim,
        prep.key@ == normalized(url@),
        prep.created == !contains_page(old(store).pages@, normalized(url@)),
        prep.texts@.len() == chunks_of(content@, max_chunk as int).len(),
        forall|i: int|
            0 <= i < prep.texts@.len() ==> (#[trigger] prep.texts@[i])@ == chunks_of(
                content@,
                max_chunk as int,
            )[i],
        page_state(final(store).pages@, normalized(url@), title@, content@, fetched_at),
        final(store).pages@.len() == old(store).pages@.len() + if prep.created {
            1int
        } else {
            0int
        },
        forall|t: int|
            0 <= t < final(store).chunks@.len()
                ==> (#[trigger] final(store).chunks@[t]).page_url@ != normalized(url@),
        final(store).next_id == old(store).next_id,
{
    let outcome = store.upsert(url, title, content, fetched_at);
    let key = outcome.page.url;
    let ids = store.chunk_ids_for(&key);
    let ghost entries0 = index.entries@;
    let m = ids.len();
    let mut i: usize = 0;
    while i < m
        invariant
            0 <= i <= m,
            index.wf(),
            index.dim == old(index).dim,
            forall|t: int|
                0 <= t < index.entries@.len() ==> entry_present(
                    entries0,
                    #[trigger] index.entries@[t],
                ),
            forall|t: int| 0 <= t < i ==> !contains_id(index.entries@, #[trigger] ids@[t]),
        decreases m - i,
    {
        let ghost prev = index.entries@;
        index.remove(ids[i]);
        proof {
            if contains_id(prev, ids@[i as int]) {
                let pos = choose|pos: int|
                    0 <= pos < prev.len() && (#[trigger] prev[pos]).chunk_id == ids@[i as int];
                assert(index.entries@ == prev.remove(pos));
                assert forall|t: int| 0 <= t < index.entries@.len() implies entry_present(
                    entries0,
                    #[trigger] index.entries@[t],
                ) by {
                    let u = if t < pos {
                        t
                    } else {
                        t + 1
                    };
                    assert(index.entries@[t] == prev[u]);
                    assert(entry_present(entries0, prev[u]));
                }
            }
            assert forall|t: int| 0 <= t < i + 1 implies !contains_id(
                index.entries@,
                #[trigger] ids@[t],
            ) by {
                if t < i {
                    if contains_id(index.entries@, ids@[t]) {
                        let pos = choose|pos: int|
                            0 <= pos < index.entries@.len() && (
                            #[trigger] index.entries@[pos]).chunk_id == ids@[t];
                        if contains_id(prev, ids@[i as int]) {
                            let rpos = choose|rpos: int|
                                0 <= rpos < prev.len() && (#[trigger] prev[rpos]).chunk_id
                                    == ids@[i as int];
                            let u = if pos < rpos {
                                pos
                            } else {
                                pos + 1
                            };
                            assert(index.entries@[pos] == prev[u]);
                            assert(contains_id(prev, ids@[t]));
                        }
                    }
                }
            }
        }
        i = i + 1;
    }
    store.remove_chunks_for(&key);
    proof {
        assert forall|t: int| 0 <= t < index.entries@.len() implies entry_backed(
            store.chunks@,
            #[trigger] index.entries@[t],
        ) by {
            let e = index.entries@[t];
            assert(entry_present(entries0, e));
            let u = choose|u: int| 0 <= u < entries0.len() && entries0[u] == e;
            assert(entry_backed(old(store).chunks@, entries0[u]));
            let j = choose|j: int|
                0 <= j < old(store).chunks@.len() && (#[trigger] old(store).chunks@[j]).id
                    == e.chunk_id && old(store).chunks@[j].embedding@ == e.vector@;
            if old(store).chunks@[j].page_url@ == key@ {
                assert(ids@.contains(old(store).chunks@[j].id));
                let w = choose|w: int| 0 <= w < ids@.len() && ids@[w] == e.chunk_id;
                assert(!contains_id(index.entries@, ids@[w]));
            } else {
                assert(crate::store::chunk_present(store.chunks@, old(store).chunks@[j]));
                let jj = choose|jj: int|
                    0 <= jj < store.chunks@.len() && store.chunks@[jj] == old(store).chunks@[j];
                assert(store.chunks@[jj].id == e.chunk_id);
            }
        }
    }
    let texts = split(content, max_chunk);
    IngestPrep { key, created: outcome.created, texts }
}

/// Second half of one ingestion run: commits the embedded chunks of one
/// page revision atomically. Every text is stored as a chunk under a fresh
/// identifier and indexed under its embedding, in order; on a
/// `StorageError` (the only failure: the id counter is exhausted) neither
/// the store nor the index is changed.
#[verifier::loop_isolation(false)]
pub fn ingest_commit(
    store: &mut DedupStore,
    index: &mut VectorIndex,
    key: &String,
    texts: &Vec<String>,
    embs: &Vec<Embedding>,
) -> (r: Result<Vec<u64>, PipelineError>)
    requires
        old(store).wf(),
        old(index).wf(),
        linked(*old(store), *old(index)),
        contains_page(old(store).pages@, key@),
        texts@.len() == embs@.len(),
        forall|t: int|
            0 <= t < embs@.len() ==> (#[trigger] embs@[t]).wf() && embs@[t]@.len() == old(
                index,
            ).dim,
    ensures
        final(store).wf(),
        final(index).wf(),
        linked(*final(store), *final(index)),
        final(index).dim == old(index).dim,
        final(store).pages@ == old(store).pages@,
        r is Ok <==> old(store).next_id + texts@.len() <= u64::MAX,
        r is Err ==> final(store).chunks@ == old(store).chunks@ && final(store).next_id == old(
            store,
        ).next_id && final(index).entries@ == old(index).entries@,
        r matches Err(e) ==> e == PipelineError::StorageError,
        r matches Ok(ids) ==> {
            let n = texts@.len() as int;
            let base = old(store).chunks@.len() as int;
            let ebase = old(index).entries@.len() as int;
            &&& ids@.len() == n
            &&& forall|t: int| 0 <= t < n ==> ids@[t] == old(store).next_id + t
            &&& final(store).chunks@.len() == base + n
            &&& final(store).chunks@.take(base) == old(store).chunks@
            &&& forall|t: int|
                0 <= t < n ==> {
                    let c = #[trigger] final(store).chunks@[base + t];
                    &&& c.id == old(store).next_id + t
                    &&& c.page_url@ == key@
                    &&& c.seq_index == t
                    &&& c.text@ == texts@[t]@
                    &&& c.embedding@ == embs@[t]@
                }
            &&& final(index).entries@.len() == ebase + n
            &&& final(index).entries@.take(ebase) == old(index).entries@
            &&& forall|t: int|
                0 <= t < n ==> {
                    let e = #[trigger] final(index).entries@[ebase + t];
                    &&& e.chunk_id == old(store).next_id + t
                    &&& e.vector@ == embs@[t]@
                }
        },
{
    let n = texts.len();
    let ghost base_id = old(store).next_id;
    let ids = match store.append_chunks(key, texts, embs) {
        Ok(ids) => ids,
        Err(e) => {
            return Err(e);
        },
    };
    let ghost entries0 = old(index).entries@;
    let mut t: usize = 0;
    while t < n
        invariant
            0 <= t <= n,
            ids@.len() == n,
            index.wf(),
            index.dim == old(index).dim,
            index.entries@.len() == entries0.len() + t,
            index.entries@.take(entries0.len() as int) == entries0,
            forall|u: int|
                0 <= u < t ==> {
                    let e = #[trigger] index.entries@[entries0.len() + u];
                    &&& e.chunk_id == base_id + u
                    &&& e.vector@ == embs@[u]@
                },
            forall|u: int|
                0 <= u < index.entries@.len() ==> (#[trigger] index.entries@[u]).chunk_id < base_id
                    + t,
        decreases n - t,
    {
        let ghost prev = index.entries@;
        proof {
            assert(!contains_id(prev, ids@[t as int]));
        }
        index.insert(ids[t], embs[t].duplicate());
        proof {
            assert(index.entries@ == prev.push(
                IndexEntry { chunk_id: ids@[t as int], vector: index.entries@.last().vector },
            ));
            assert(index.entries@.take(entries0.len() as int) =~= entries0);
        }
        t = t + 1;
    }
    proof {
        assert forall|u: int| 0 <= u < index.entries@.len() implies entry_backed(
            store.chunks@,
            #[trigger] index.entries@[u],
        ) by {
            let e = index.entries@[u];
            if u < entries0.len() {
                assert(entries0[u] == e);
                assert(entry_backed(old(store).chunks@, e));
                let j = choose|j: int|
                    0 <= j < old(store).chunks@.len() && (#[trigger] old(store).chunks@[j]).id
                        == e.chunk_id && old(store).chunks@[j].embedding@ == e.vector@;
                assert(store.chunks@[j] == old(store).chunks@[j]);
            } else {
                let w = u - entries0.len();
                assert(index.entries@[entries0.len() + w] == e);
                assert(store.chunks@[old(store).chunks@.len() + w].id == e.chunk_id);
                assert(store.chunks@[old(store).chunks@.len() + w].embedding@ == e.vector@);
            }
        }
    }
    Ok(ids)
}

/// Cold-start of the derived cache: a fresh index rebuilt by re-inserting
/// every chunk the store holds, in order. The index needs no durable
/// format of its own because this reconstruction is always available.
#[verifier::loop_isolation(false)]
pub fn rebuild_index(store: &DedupStore, dim: usize) -> (r: VectorIndex)
    requires
        store.wf(),
        forall|j: int|
            0 <= j < store.chunks@.len() ==> (#[trigger] store.chunks@[j]).embedding.wf()
                && store.chunks@[j].embedding@.len() == dim,
    ensures
        r.wf(),
        r.dim == dim,
        linked(*store, r),
        r.entries@.len() == store.chunks@.len(),
        forall|t: int|
            0 <= t < store.chunks@.len() ==> (#[trigger] r.entries@[t]).chunk_id
                == store.chunks@[t].id && r.entries@[t].vector@ == store.chunks@[t].embedding@,
{
    let mut index = VectorIndex::new(dim);
    let n = store.chunks.len();
    let mut j: usize = 0;
    while j < n
        invariant
            0 <= j <= n,
            index.wf(),
            index.dim == dim,
            index.entries@.len() == j,
            forall|t: int|
                0 <= t < j ==> (#[trigger] index.entries@[t]).chunk_id == store.chunks@[t].id
                    && index.entries@[t].vector@ == store.chunks@[t].embedding@,
        decreases n - j,
    {
        proof {
            if contains_id(index.entries@, store.chunks@[j as int].id) {
                let t = choose|t: int|
                    0 <= t < index.entries@.len() && (#[trigger] index.entries@[t]).chunk_id
                        == store.chunks@[j as int].id;
                assert(store.chunks@[t].id == store.chunks@[j as int].id);
                assert(false);
            }
        }
        index.insert(store.chunks[j].id, store.chunks[j].embedding.duplicate());
        j = j + 1;
    }
    proof {
        assert forall|t: int| 0 <= t < index.entries@.len() implies entry_backed(
            store.chunks@,
            #[trigger] index.entries@[t],
        ) by {
            assert(store.chunks@[t].id == index.entries@[t].chunk_id);
        }
    }
    index
}

/// One resolved search candidate: the matched chunk, its page, and the
/// similarity of the query to the chunk's embedding.
pub struct Candidate {
    pub chunk_id: u64,
    pub page_url: String,
    pub title: String,
    pub text: String,
    pub content: String,
    pub score: i128,
}

/// Whether `c` faithfully resolves a stored chunk and its page, with
/// `c.score` the similarity of the query `q` to that chunk's embedding.
pub open spec fn candidate_backed(store: DedupStore, q: Seq<i64>, c: Candidate) -> bool {
    exists|j: int, i: int|
        {
            &&& 0 <= j < store.chunks@.len()
            &&& 0 <= i < store.pages@.len()
            &&& (#[trigger] store.chunks@[j]).id == c.chunk_id
            &&& c.text@ == store.chunks@[j].text@
            &&& c.score == dot(q, store.chunks@[j].embedding@)
            &&& (#[trigger] store.pages@[i]).url@ == store.chunks@[j].page_url@
            &&& c.page_url@ == store.pages@[i].url@
            &&& c.title@ == store.pages@[i].title@
            &&& c.content@ == store.pages@[i].raw_content@
        }
}

/// The query pipeline up to its external calls: searches the index for the
/// `min(k, indexed)` chunks most similar to the embedded query, best first,
/// and resolves each hit to its chunk text and page. An empty index yields
/// an empty candidate list, never an error.
#[verifier::loop_isolation(false)]
pub fn query_candidates(store: &DedupStore, index: &VectorIndex, q: &Embedding, k: usize) -> (r:
    Vec<Candidate>)
    requires
        store.wf(),
        index.wf(),
        linked(*store, *index),
        q.wf(),
        q@.len() == index.dim,
    ensures
        r@.len() == if k <= index.entries@.len() {
            k as int
        } else {
            index.entries@.len() as int
        },
        forall|i: int, j: int|
            0 <= i < j < r@.len() ==> (#[trigger] r@[i]).score >= (#[trigger] r@[j]).score,
        forall|t: int| 0 <= t < r@.len() ==> candidate_backed(*store, q@, #[trigger] r@[t]),
{
    let hits = index.search(q, k);
    let mut out: Vec<Candidate> = Vec::new();
    let mut t: usize = 0;
    while t < hits.len()
        invariant
            0 <= t <= hits@.len(),
            out@.len() == t,
            forall|u: int| 0 <= u < t ==> (#[trigger] out@[u]).score == hits@[u].score,
            forall|u: int| 0 <= u < t ==> candidate_backed(*store, q@, #[trigger] out@[u]),
        decreases hits@.len() - t,
    {
        let hit = hits[t];
        proof {
            assert(index.is_hit(q@, hits@[t as int]));
            assert(entry_backed(store.chunks@, index.entries@[hit.pos as int]));
        }
        let chunk = match store.find_chunk(hit.chunk_id) {
            Some(c) => c,
            None => {
                proof {
                    assert(false);
                }
                return out;
            },
        };
        let page = match store.find_page(&chunk.page_url) {
            Some(p) => p,
            None => {
                proof {
                    let j = choose|j: int|
                        0 <= j < store.chunks@.len() && *chunk == #[trigger] store.chunks@[j];
                    assert(contains_page(store.pages@, store.chunks@[j].page_url@));
                }
                return out;
            },
        };
        let cand = Candidate {
            chunk_id: hit.chunk_id,
            page_url: chunk.page_url.clone(),
            title: page.title.clone(),
            text: chunk.text.clone(),
            content: page.raw_content.clone(),
            score: hit.score,
        };
        proof {
            let jb = choose|jb: int|
                0 <= jb < store.chunks@.len() && (#[trigger] store.chunks@[jb]).id
                    == index.entries@[hit.pos as int].chunk_id && store.chunks@[jb].embedding@
                    == index.entries@[hit.pos as int].vector@;
            let j = choose|j: int|
                0 <= j < store.chunks@.len() && *chunk == #[trigger] store.chunks@[j];
            assert(store.chunks@[jb].id == store.chunks@[j].id);
            assert(jb == j);
            let i = choose|i: int|
                0 <= i < store.pages@.len() && *page == #[trigger] store.pages@[i];
            assert(candidate_backed(*store, q@, cand));
        }
        out.push(cand);
        t = t + 1;
    }
    proof {
        assert forall|i: int, j: int| 0 <= i < j < out@.len() implies (#[trigger] out@[i]).score
            >= (#[trigger] out@[j]).score by {
            assert(crate::index::hit_beats(hits@[i], hits@[j]));
        }
    }
    out
}

/// One result card of the query pipeline, as shown to the user: where to
/// jump back to, under which title, how it ranked, and a summary that is
/// never silently empty.
pub struct SearchCard {
    pub page_url: String,
    pub title: String,
    pub score: i128,
    pub rerank_score: Option<i64>,
    pub summary: String,
}

/// Assembles the card for one ranked candidate from its resolved fields,
/// its rerank score (if the provider supplied one), and the summary chosen
/// by the summarization fallback.
pub fn make_card(cand: &Candidate, rerank_score: Option<i64>, summary: String) -> (r: SearchCard)
    ensures
        r.page_url@ == cand.page_url@,
        r.title@ == cand.title@,
        r.score == cand.score,
        r.rerank_score == rerank_score,
        r.summary@ == summary@,
{
    SearchCard {
        page_url: cand.page_url.clone(),
        title: cand.title.clone(),
        score: cand.score,
        rerank_score,
        summary,
    }
}

} // verus!
