//! The dedup store: the single source of truth for "have we seen this URL",
//! the page records it owns, and the chunk records derived from them.
//!
//! A page is keyed by its normalized URL and is never duplicated:
//! re-ingestion updates the record in place. Chunks reference their page and
//! carry the embedding they were indexed under, so the vector index can be
//! rebuilt from this store at any time.
//!
//! Callers hold the store behind one exclusive reference per operation, so
//! two upserts of the same key cannot interleave.

use crate::embedding::Embedding;
use crate::urlnorm::{normalize_url, normalized};
use vstd::prelude::*;

verus! {

/// One captured page: the unique normalized URL, its title, when it was
/// fetched, and the extracted text.
pub struct Page {
    pub url: String,
    pub title: String,
    pub fetched_at: u64,
    pub raw_content: String,
}

/// Whether `p` carries exactly the given key and fields.
pub open spec fn page_matches(
    p: Page,
    key: Seq<char>,
    title: Seq<char>,
    content: Seq<char>,
    fetched_at: u64,
) -> bool {
    &&& p.url@ == key
    &&& p.title@ == title
    &&& p.raw_content@ == content
    &&& p.fetched_at == fetched_at
}

/// One chunk of a page: its identifier, the page it belongs to, its rank
/// within that page, its text, and the embedding it is indexed under.
/// Immutable once created; removed only together with its page revision.
pub struct Chunk {
    pub id: u64,
    pub page_url: String,
    pub seq_index: usize,
    pub text: String,
    pub embedding: Embedding,
}

/// Whether some page of `pages` carries the key `key`.
pub open spec fn contains_page(pages: Seq<Page>, key: Seq<char>) -> bool {
    exists|i: int| 0 <= i < pages.len() && pages[i].url@ == key
}

/// Whether some chunk of `chunks` carries the identifier `id`.
pub open spec fn contains_chunk(chunks: Seq<Chunk>, id: u64) -> bool {
    exists|j: int| 0 <= j < chunks.len() && chunks[j].id == id
}

/// Whether `id` is the identifier of some chunk of the page `key`.
pub open spec fn id_belongs_to(chunks: Seq<Chunk>, id: u64, key: Seq<char>) -> bool {
    exists|j: int|
        0 <= j < chunks.len() && (#[trigger] chunks[j]).id == id && chunks[j].page_url@ == key
}

/// Whether the record `c` occurs in `chunks`.
pub open spec fn chunk_present(chunks: Seq<Chunk>, c: Chunk) -> bool {
    exists|t: int| 0 <= t < chunks.len() && chunks[t] == c
}

/// A record present in a sequence stays present when another is appended.
pub proof fn lemma_present_push(chunks: Seq<Chunk>, c: Chunk, d: Chunk)
    requires
        chunk_present(chunks, c),
    ensures
        chunk_present(chunks.push(d), c),
{
    let t = choose|t: int| 0 <= t < chunks.len() && chunks[t] == c;
    assert(chunks.push(d)[t] == c);
}

/// Keep-predicate of `remove_chunks_for`: the chunks of every other page.
pub open spec fn other_page(key: Seq<char>) -> spec_fn(Chunk) -> bool {
    |c: Chunk| c.page_url@ != key
}

/// The outcome of an upsert: the stored page and whether it was newly
/// created (as opposed to updated in place).
pub struct UpsertOutcome {
    pub page: Page,
    pub created: bool,
}

/// The durable mapping from normalized URL to page record, with the chunk
/// records of the currently committed revision of each page.
pub struct DedupStore {
    pub pages: Vec<Page>,
    pub chunks: Vec<Chunk>,
    pub next_id: u64,
}

impl DedupStore {
    /// Page keys are pairwise distinct; chunk identifiers are pairwise
    /// distinct, all below the id counter; and every chunk belongs to a
    /// stored page (no orphans).
    pub open spec fn wf(&self) -> bool {
        &&& forall|i: int, j: int|
            0 <= i < j < self.pages@.len() ==> (#[trigger] self.pages@[i]).url@ != (
            #[trigger] self.pages@[j]).url@
        &&& forall|i: int, j: int|
            0 <= i < j < self.chunks@.len() ==> (#[trigger] self.chunks@[i]).id != (
            #[trigger] self.chunks@[j]).id
        &&& forall|j: int| 0 <= j < self.chunks@.len() ==> (#[trigger] self.chunks@[j]).id < self.next_id
        &&& forall|j: int|
            0 <= j < self.chunks@.len() ==> contains_page(
                self.pages@,
                (#[trigger] self.chunks@[j]).page_url@,
            )
    }

    /// An empty store: no page has been seen.
    pub fn new() -> (r: DedupStore)
        ensures
            r.wf(),
            r.pages@.len() == 0,
            r.chunks@.len() == 0,
            r.next_id == 0,
    {
        DedupStore { pages: Vec::new(), chunks: Vec::new(), next_id: 0 }
    }

    /// Whether a page with the normalized form of `url` is present. No side
    /// effects.
    #[verifier::loop_isolation(false)]
    pub fn contains_url(&self, url: &str) -> (r: bool)
        ensures
            r == contains_page(self.pages@, normalized(url@)),
    {
        let key = normalize_url(url);
        let n = self.pages.len();
        let mut i: usize = 0;
        while i < n
            invariant
                0 <= i <= n,
                forall|t: int| 0 <= t < i ==> (#[trigger] self.pages@[t]).url@ != key@,
            decreases n - i,
        {
            if self.pages[i].url == key {
                return true;
            }
            i = i + 1;
        }
        false
    }

    /// Creates the page for the normalized form of `url`, or updates its
    /// title, content and fetch time in place if the key is present.
    /// Calling it twice with identical arguments leaves the same stored
    /// state. Chunks and the id counter are untouched.
    #[verifier::loop_isolation(false)]
    pub fn upsert(&mut self, url: &str, title: &str, content: &str, fetched_at: u64) -> (r:
        UpsertOutcome)
        requires
            old(self).wf(),
        ensures
            final(self).wf(),
            final(self).chunks@ == old(self).chunks@,
            final(self).next_id == old(self).next_id,
            r.created == !contains_page(old(self).pages@, normalized(url@)),
            page_matches(r.page, normalized(url@), title@, content@, fetched_at),
            contains_page(final(self).pages@, normalized(url@)),
            r.created ==> {
                &&& final(self).pages@.len() == old(self).pages@.len() + 1
                &&& final(self).pages@.take(old(self).pages@.len() as int) == old(self).pages@
                &&& page_matches(
                    final(self).pages@.last(),
                    normalized(url@),
                    title@,
                    content@,
                    fetched_at,
                )
            },
            !r.created ==> {
                &&& final(self).pages@.len() == old(self).pages@.len()
                &&& forall|i: int|
                    0 <= i < old(self).pages@.len() && (#[trigger] old(self).pages@[i]).url@
                        != normalized(url@) ==> final(self).pages@[i] == old(self).pages@[i]
                &&& forall|i: int|
                    0 <= i < old(self).pages@.len() && (#[trigger] old(self).pages@[i]).url@
                        == normalized(url@) ==> page_matches(
                        final(self).pages@[i],
                        normalized(url@),
                        title@,
                        content@,
                        fetched_at,
                    )
            },
    {
        let key = normalize_url(url);
        let n = self.pages.len();
        let mut i: usize = 0;
        while i < n
            invariant
                0 <= i <= n,
                n == self.pages@.len(),
                self.pages@ == old(self).pages@,
                self.chunks@ == old(self).chunks@,
                self.next_id == old(self).next_id,
                forall|t: int| 0 <= t < i ==> (#[trigger] self.pages@[t]).url@ != key@,
            decreases n - i,
        {
            if self.pages[i].url == key {
                let updated = Page {
                    url: key,
                    title: title.to_owned(),
                    fetched_at,
                    raw_content: content.to_owned(),
                };
                let returned = Page {
                    url: updated.url.clone(),
                    title: updated.title.clone(),
                    fetched_at,
                    raw_content: updated.raw_content.clone(),
                };
                self.pages[i] = updated;
                proof {
                    assert forall|jc: int| 0 <= jc < self.chunks@.len() implies contains_page(
                        self.pages@,
                        (#[trigger] self.chunks@[jc]).page_url@,
                    ) by {
                        let w = choose|w: int|
                            0 <= w < old(self).pages@.len() && (#[trigger] old(
                                self,
                            ).pages@[w]).url@ == self.chunks@[jc].page_url@;
                        assert(self.pages@[w].url@ == old(self).pages@[w].url@);
                    }
                }
                return UpsertOutcome { page: returned, created: false };
            }
            i = i + 1;
        }
        let created_page = Page {
            url: key,
            title: title.to_owned(),
            fetched_at,
            raw_content: content.to_owned(),
        };
        let returned = Page {
            url: created_page.url.clone(),
            title: created_page.title.clone(),
            fetched_at,
            raw_content: created_page.raw_content.clone(),
        };
        self.pages.push(created_page);
        proof {
            assert(self.pages@.last().url@ == normalized(url@));
            assert(self.pages@.take(old(self).pages@.len() as int) =~= old(self).pages@);
        }
        UpsertOutcome { page: returned, created: true }
    }

    /// The stored page for the key `key`, if any.
    #[verifier::loop_isolation(false)]
    pub fn find_page(&self, key: &String) -> (r: Option<&Page>)
        ensures
            r is Some <==> contains_page(self.pages@, key@),
            r matches Some(p) ==> p.url@ == key@,
            r matches Some(p) ==> exists|i: int|
                0 <= i < self.pages@.len() && *p == #[trigger] self.pages@[i],
    {
        let n = self.pages.len();
        let mut i: usize = 0;
        while i < n
            invariant
                0 <= i <= n,
                forall|t: int| 0 <= t < i ==> (#[trigger] self.pages@[t]).url@ != key@,
            decreases n - i,
        {
            if self.pages[i].url == *key {
                return Some(&self.pages[i]);
            }
            i = i + 1;
        }
        None
    }

    /// The stored chunk carrying `id`, if any.
    #[verifier::loop_isolation(false)]
    pub fn find_chunk(&self, id: u64) -> (r: Option<&Chunk>)
        ensures
            r is Some <==> contains_chunk(self.chunks@, id),
            r matches Some(c) ==> c.id == id,
            r matches Some(c) ==> exists|j: int|
                0 <= j < self.chunks@.len() && *c == #[trigger] self.chunks@[j],
    {
        let n = self.chunks.len();
        let mut j: usize = 0;
        while j < n
            invariant
                0 <= j <= n,
                forall|t: int| 0 <= t < j ==> (#[trigger] self.chunks@[t]).id != id,
            decreases n - j,
        {
            if self.chunks[j].id == id {
                return Some(&self.chunks[j]);
            }
            j = j + 1;
        }
        None
    }

    /// The identifiers of every chunk of the page `key`: exactly the ids to
    /// drop from the vector index before that page is re-chunked.
    #[verifier::loop_isolation(false)]
    pub fn chunk_ids_for(&self, key: &String) -> (r: Vec<u64>)
        ensures
            forall|j: int|
                0 <= j < self.chunks@.len() && (#[trigger] self.chunks@[j]).page_url@ == key@
                    ==> r@.contains(self.chunks@[j].id),
            forall|t: int|
                0 <= t < r@.len() ==> id_belongs_to(self.chunks@, #[trigger] r@[t], key@),
    {
        broadcast use vstd::seq_lib::lemma_seq_contains_after_push;

        let n = self.chunks.len();
        let mut out: Vec<u64> = Vec::new();
        let mut j: usize = 0;
        while j < n
            invariant
                0 <= j <= n,
                forall|t: int|
                    0 <= t < j && (#[trigger] self.chunks@[t]).page_url@ == key@ ==> out@.contains(
                        self.chunks@[t].id,
                    ),
                forall|t: int|
                    0 <= t < out@.len() ==> id_belongs_to(self.chunks@, #[trigger] out@[t], key@),
            decreases n - j,
        {
            if self.chunks[j].page_url == *key {
                out.push(self.chunks[j].id);
                proof {
                    assert(out@.last() == self.chunks@[j as int].id);
                    assert(id_belongs_to(self.chunks@, out@.last(), key@));
                }
            }
            j = j + 1;
        }
        out
    }

    /// Drops every chunk of the page `key`, keeping every chunk of every
    /// other page: the store-side half of clearing a page revision. No
    /// chunk record is invented or duplicated.
    #[verifier::loop_isolation(false)]
    pub fn remove_chunks_for(&mut self, key: &String)
        requires
            old(self).wf(),
        ensures
            final(self).wf(),
            final(self).pages@ == old(self).pages@,
            final(self).next_id == old(self).next_id,
            forall|t: int|
                0 <= t < final(self).chunks@.len()
                    ==> (#[trigger] final(self).chunks@[t]).page_url@ != key@,
            forall|t: int|
                0 <= t < final(self).chunks@.len() ==> chunk_present(
                    old(self).chunks@,
                    #[trigger] final(self).chunks@[t],
                ),
            forall|jj: int|
                0 <= jj < old(self).chunks@.len() && (#[trigger] old(self).chunks@[jj]).page_url@
                    != key@ ==> chunk_present(final(self).chunks@, old(self).chunks@[jj]),
    {
        let mut olds: Vec<Chunk> = Vec::new();
        core::mem::swap(&mut self.chunks, &mut olds);
        let ghost all = old(self).chunks@;
        let ghost mut g: int = 0;
        proof {
            assert(all.skip(0) =~= all);
        }
        while olds.len() > 0
            invariant
                0 <= g <= all.len(),
                self.pages@ == old(self).pages@,
                self.next_id == old(self).next_id,
                olds@ == all.skip(g),
                forall|t: int|
                    0 <= t < self.chunks@.len() ==> (#[trigger] self.chunks@[t]).page_url@ != key@,
                forall|t: int|
                    0 <= t < self.chunks@.len() ==> chunk_present(
                        all.take(g),
                        #[trigger] self.chunks@[t],
                    ),
                forall|jj: int|
                    0 <= jj < g && (#[trigger] all[jj]).page_url@ != key@ ==> chunk_present(
                        self.chunks@,
                        all[jj],
                    ),
                forall|t1: int, t2: int|
                    0 <= t1 < t2 < self.chunks@.len() ==> (#[trigger] self.chunks@[t1]).id != (
                    #[trigger] self.chunks@[t2]).id,
            decreases olds@.len(),
        {
            proof {
                assert(olds@[0] == all[g]);
                assert(all.skip(g).drop_first() =~= all.skip(g + 1));
                assert(all.take(g + 1) =~= all.take(g).push(all[g]));
            }
            let c = olds.remove(0);
            let ghost prev = self.chunks@;
            if c.page_url == *key {
            } else {
                self.chunks.push(c);
                proof {
                    assert(self.chunks@[prev.len() as int] == all[g]);
                    assert forall|jj: int|
                        0 <= jj < g + 1 && (#[trigger] all[jj]).page_url@ != key@ implies
                        chunk_present(self.chunks@, all[jj]) by {
                        if jj < g {
                            lemma_present_push(prev, all[jj], all[g]);
                        } else {
                            assert(self.chunks@[prev.len() as int] == all[jj]);
                        }
                    }
                    assert forall|t: int| 0 <= t < prev.len() implies (
                    #[trigger] self.chunks@[t]).id != all[g].id by {
                        let jj = choose|jj: int|
                            0 <= jj < all.take(g).len() && all.take(g)[jj] == prev[t];
                        assert(prev[t] == self.chunks@[t]);
                        assert(all[jj] == prev[t]);
                        assert(all[jj].id != all[g].id);
                    }
                }
            }
            proof {
                assert forall|t: int| 0 <= t < self.chunks@.len() implies chunk_present(
                    all.take(g + 1),
                    #[trigger] self.chunks@[t],
                ) by {
                    if t < prev.len() {
                        assert(chunk_present(all.take(g), prev[t]));
                        lemma_present_push(all.take(g), prev[t], all[g]);
                        assert(prev[t] == self.chunks@[t]);
                    } else {
                        assert(all.take(g + 1)[g] == all[g]);
                        assert(self.chunks@[t] == all[g]);
                    }
                }
                g = g + 1;
            }
        }
        proof {
            assert(g == all.len());
            assert(all.take(g) =~= all);
            assert forall|t: int| 0 <= t < self.chunks@.len() implies (
            #[trigger] self.chunks@[t]).id < self.next_id && contains_page(
                self.pages@,
                self.chunks@[t].page_url@,
            ) && chunk_present(all, self.chunks@[t]) by {
                let jj = choose|jj: int| 0 <= jj < all.len() && all[jj] == self.chunks@[t];
                assert(all[jj].id < old(self).next_id);
            }
        }
    }

    /// Commits one page revision's chunks: each text with its embedding, in
    /// order, under fresh identifiers. Fails with a `StorageError` (leaving
    /// the store untouched) only if the id counter cannot supply that many
    /// fresh ids.
    #[verifier::loop_isolation(false)]
    pub fn append_chunks(&mut self, key: &String, texts: &Vec<String>, embs: &Vec<Embedding>) -> (r:
        Result<Vec<u64>, crate::errors::PipelineError>)
        requires
            old(self).wf(),
            texts@.len() == embs@.len(),
            contains_page(old(self).pages@, key@),
        ensures
            final(self).wf(),
            final(self).pages@ == old(self).pages@,
            r is Ok <==> old(self).next_id + texts@.len() <= u64::MAX,
            r is Err ==> final(self).pages@ == old(self).pages@ && final(self).chunks@ == old(
                self,
            ).chunks@ && final(self).next_id == old(self).next_id,
            r matches Err(e) ==> e == crate::errors::PipelineError::StorageError,
            r matches Ok(ids) ==> {
                &&& ids@.len() == texts@.len()
                &&& forall|t: int| 0 <= t < ids@.len() ==> ids@[t] == old(self).next_id + t
                &&& final(self).next_id == old(self).next_id + texts@.len()
                &&& final(self).chunks@.len() == old(self).chunks@.len() + texts@.len()
                &&& final(self).chunks@.take(old(self).chunks@.len() as int) == old(self).chunks@
                &&& forall|t: int|
                    0 <= t < texts@.len() ==> {
                        let c = #[trigger] final(self).chunks@[old(self).chunks@.len() + t];
                        &&& c.id == old(self).next_id + t
                        &&& c.page_url@ == key@
                        &&& c.seq_index == t
                        &&& c.text@ == texts@[t]@
                        &&& c.embedding@ == embs@[t]@
                    }
            },
    {
        let n = texts.len();
        if self.next_id > u64::MAX - (n as u64) {
            return Err(crate::errors::PipelineError::StorageError);
        }
        let base = self.next_id;
        let mut ids: Vec<u64> = Vec::new();
        let mut t: usize = 0;
        while t < n
            invariant
                0 <= t <= n,
                self.pages@ == old(self).pages@,
                self.next_id == old(self).next_id,
                base == old(self).next_id,
                base + n <= u64::MAX,
                ids@.len() == t,
                forall|u: int| 0 <= u < t ==> ids@[u] == base + u,
                self.chunks@.len() == old(self).chunks@.len() + t,
                self.chunks@.take(old(self).chunks@.len() as int) == old(self).chunks@,
                forall|u: int|
                    0 <= u < t ==> {
                        let c = #[trigger] self.chunks@[old(self).chunks@.len() + u];
                        &&& c.id == base + u
                        &&& c.page_url@ == key@
                        &&& c.seq_index == u
                        &&& c.text@ == texts@[u]@
                        &&& c.embedding@ == embs@[u]@
                    },
                forall|j: int|
                    0 <= j < self.chunks@.len() ==> (#[trigger] self.chunks@[j]).id < base + t,
                forall|i: int, j: int|
                    0 <= i < j < self.chunks@.len() ==> (#[trigger] self.chunks@[i]).id != (
                    #[trigger] self.chunks@[j]).id,
                forall|j: int|
                    0 <= j < self.chunks@.len() ==> contains_page(
                        self.pages@,
                        (#[trigger] self.chunks@[j]).page_url@,
                    ),
            decreases n - t,
        {
            let id = base + (t as u64);
            let rec = Chunk {
                id,
                page_url: key.clone(),
                seq_index: t,
                text: texts[t].clone(),
                embedding: embs[t].duplicate(),
            };
            self.chunks.push(rec);
            ids.push(id);
            proof {
                assert(self.chunks@.take(old(self).chunks@.len() as int) =~= old(self).chunks@);
            }
            t = t + 1;
        }
        self.next_id = base + (n as u64);
        Ok(ids)
    }
}

} // verus!
