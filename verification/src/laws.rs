//! Cross-function laws of the pipeline, stated over the same spec
//! functions the operations' contracts use.

use crate::brain::page_state;
use crate::store::{contains_page, DedupStore};
use crate::urlnorm::normalized;
use vstd::prelude::*;

verus! {

/// The chunk records one committed revision of the page `key` leaves
/// behind: every earlier chunk belongs to another page, and the revision's
/// chunks stand at the end, in order, carrying exactly the given span
/// texts and embeddings. This is the store shape after `ingest_begin`
/// followed by a successful `ingest_commit`.
pub open spec fn revision_state(
    store: DedupStore,
    key: Seq<char>,
    texts: Seq<Seq<char>>,
    embs: Seq<Seq<i64>>,
) -> bool {
    let base = store.chunks@.len() - texts.len();
    &&& texts.len() == embs.len()
    &&& store.chunks@.len() >= texts.len()
    &&& forall|t: int|
        0 <= t < base ==> (#[trigger] store.chunks@[t]).page_url@ != key
    &&& forall|t: int|
        0 <= t < texts.len() ==> {
            let c = #[trigger] store.chunks@[base + t];
            &&& c.page_url@ == key
            &&& c.text@ == texts[t]
            &&& c.embedding@ == embs[t]
            &&& c.seq_index == t
        }
}

/// A URL is unseen exactly until its first save: a store holding no pages
/// answers no to every membership question. (That a save makes the answer
/// yes is the `contains_page` clause of `page_state`, ensured by upsert
/// and `ingest_begin`.)
pub proof fn lemma_dedup_fresh(store: DedupStore, url: Seq<char>)
    requires
        store.pages@.len() == 0,
    ensures
        !contains_page(store.pages@, normalized(url)),
{
}

/// Exactly one page row per key: distinct page keys make the row for a
/// key unique, so a save never duplicates a page.
pub proof fn lemma_single_page_row(store: DedupStore, key: Seq<char>)
    requires
        store.wf(),
    ensures
        forall|i: int, j: int|
            0 <= i < store.pages@.len() && 0 <= j < store.pages@.len() && (
            #[trigger] store.pages@[i]).url@ == key && (#[trigger] store.pages@[j]).url@ == key
                ==> i == j,
{
}

/// Idempotence of saving: two stores that each hold the outcome of saving
/// the same URL with the same title, content, fetch time, spans and
/// embeddings agree on everything observable about that page — its unique
/// page record carries identical fields, and its revision carries
/// identical chunk texts and embeddings in identical order.
pub proof fn lemma_save_idempotent(
    s1: DedupStore,
    s2: DedupStore,
    key: Seq<char>,
    title: Seq<char>,
    content: Seq<char>,
    fetched_at: u64,
    texts: Seq<Seq<char>>,
    embs: Seq<Seq<i64>>,
)
    requires
        s1.wf(),
        s2.wf(),
        page_state(s1.pages@, key, title, content, fetched_at),
        page_state(s2.pages@, key, title, content, fetched_at),
        revision_state(s1, key, texts, embs),
        revision_state(s2, key, texts, embs),
    ensures
        forall|i: int, j: int|
            0 <= i < s1.pages@.len() && 0 <= j < s2.pages@.len() && (
            #[trigger] s1.pages@[i]).url@ == key && (#[trigger] s2.pages@[j]).url@ == key ==> {
                &&& s1.pages@[i].title@ == s2.pages@[j].title@
                &&& s1.pages@[i].raw_content@ == s2.pages@[j].raw_content@
                &&& s1.pages@[i].fetched_at == s2.pages@[j].fetched_at
            },
        forall|t: int|
            0 <= t < texts.len() ==> {
                let c1 = #[trigger] s1.chunks@[s1.chunks@.len() - texts.len() + t];
                let c2 = #[trigger] s2.chunks@[s2.chunks@.len() - texts.len() + t];
                &&& c1.text@ == c2.text@
                &&& c1.embedding@ == c2.embedding@
                &&& c1.seq_index == c2.seq_index
            },
{
}

/// Re-ingestion replaces a page's revision wholesale: when the store holds
/// the committed revision of `key` with spans `texts`, every chunk of that
/// page carries one of those spans — nothing derived from an earlier
/// content survives.
pub proof fn lemma_reingest_replaces(
    store: DedupStore,
    key: Seq<char>,
    texts: Seq<Seq<char>>,
    embs: Seq<Seq<i64>>,
)
    requires
        store.wf(),
        revision_state(store, key, texts, embs),
    ensures
        forall|t: int|
            0 <= t < store.chunks@.len() && (#[trigger] store.chunks@[t]).page_url@ == key ==> {
                let i = t - (store.chunks@.len() - texts.len());
                &&& 0 <= i < texts.len()
                &&& store.chunks@[t].text@ == texts[i]
            },
{
    let base = store.chunks@.len() - texts.len();
    assert forall|t: int|
        0 <= t < store.chunks@.len() && (#[trigger] store.chunks@[t]).page_url@ == key implies {
        let i = t - base;
        &&& 0 <= i < texts.len()
        &&& store.chunks@[t].text@ == texts[i]
    } by {
        if t < base {
            assert(store.chunks@[t].page_url@ != key);
        } else {
            assert(store.chunks@[base + (t - base)].text@ == texts[t - base]);
        }
    }
}

} // verus!
