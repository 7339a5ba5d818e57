//! The vector index: a queryable projection from chunk identifiers to
//! embedding vectors, supporting insert (add or replace), removal, and exact
//! top-k nearest-neighbor search under the fixed-point inner-product
//! similarity, with ties broken toward the earlier-inserted entry.
//!
//! The index is a derived cache: it is fully reconstructible by re-inserting
//! every chunk held by the dedup store, so it has no durable format of its
//! own. Readers and writers take the index by reference, so a search never
//! observes a half-inserted entry.

use crate::embedding::{bounded, dot, dot_product, Embedding};
use vstd::prelude::*;

verus! {

/// One indexed chunk: its identifier and its embedding vector.
pub struct IndexEntry {
    pub chunk_id: u64,
    pub vector: Embedding,
}

/// One search result: the matched chunk, its similarity to the query, and
/// the position (insertion rank) of the matched entry inside the index.
#[derive(Clone, Copy, PartialEq, Eq, Structural, Debug)]
pub struct Hit {
    pub chunk_id: u64,
    pub score: i128,
    pub pos: usize,
}

/// The search order: higher similarity first, and between equal scores the
/// earlier-inserted entry first.
pub open spec fn hit_beats(a: Hit, b: Hit) -> bool {
    a.score > b.score || (a.score == b.score && a.pos < b.pos)
}

/// Whether some entry of `s` carries `chunk_id`.
pub open spec fn contains_id(s: Seq<IndexEntry>, chunk_id: u64) -> bool {
    exists|i: int| 0 <= i < s.len() && s[i].chunk_id == chunk_id
}

/// Whether some hit of `r` points at index position `p`.
pub open spec fn selected(r: Seq<Hit>, p: int) -> bool {
    exists|i: int| 0 <= i < r.len() && r[i].pos == p
}

/// The in-memory vector index over fixed-dimension embeddings.
pub struct VectorIndex {
    pub dim: usize,
    pub entries: Vec<IndexEntry>,
}

impl VectorIndex {
    /// Entries hold well-formed vectors of the index's dimension, in
    /// insertion order, with pairwise distinct chunk identifiers.
    pub open spec fn wf(&self) -> bool {
        &&& forall|i: int|
            0 <= i < self.entries@.len() ==> (#[trigger] self.entries@[i]).vector@.len()
                == self.dim && bounded(self.entries@[i].vector@)
        &&& forall|i: int, j: int|
            0 <= i < j < self.entries@.len() ==> (#[trigger] self.entries@[i]).chunk_id != (
            #[trigger] self.entries@[j]).chunk_id
    }

    /// Similarity of the query `q` to the entry at position `p`.
    pub open spec fn score_at(&self, q: Seq<i64>, p: int) -> int {
        dot(q, self.entries@[p].vector@)
    }

    /// Whether `h` faithfully describes the entry of this index at `h.pos`
    /// for the query `q`.
    pub open spec fn is_hit(&self, q: Seq<i64>, h: Hit) -> bool {
        &&& 0 <= h.pos < self.entries@.len()
        &&& h.chunk_id == self.entries@[h.pos as int].chunk_id
        &&& h.score == self.score_at(q, h.pos as int)
    }

    /// An empty index over vectors of dimension `dim`.
    pub fn new(dim: usize) -> (r: VectorIndex)
        ensures
            r.wf(),
            r.dim == dim,
            r.entries@.len() == 0,
    {
        VectorIndex { dim, entries: Vec::new() }
    }

    /// How many entries the index currently holds.
    pub fn len(&self) -> (n: usize)
        ensures
            n == self.entries@.len(),
    {
        self.entries.len()
    }

    /// Adds the entry for `chunk_id`, or overwrites its vector in place if
    /// the identifier is already present (re-embedding keeps the original
    /// insertion rank). Every other entry is untouched.
    #[verifier::loop_isolation(false)]
    pub fn insert(&mut self, chunk_id: u64, vector: Embedding)
        requires
            old(self).wf(),
            vector.wf(),
            vector@.len() == old(self).dim,
        ensures
            final(self).wf(),
            final(self).dim == old(self).dim,
            contains_id(final(self).entries@, chunk_id),
            !contains_id(old(self).entries@, chunk_id) ==> final(self).entries@ == old(
                self,
            ).entries@.push(IndexEntry { chunk_id, vector }),
            forall|i: int|
                0 <= i < old(self).entries@.len() && (#[trigger] old(self).entries@[i]).chunk_id
                    == chunk_id ==> final(self).entries@ == old(self).entries@.update(
                    i,
                    IndexEntry { chunk_id, vector },
                ),
    {
        let n = self.entries.len();
        let mut i: usize = 0;
        while i < n
            invariant
                0 <= i <= n,
                n == self.entries@.len(),
                self.dim == old(self).dim,
                self.entries@ == old(self).entries@,
                forall|t: int| 0 <= t < i ==> (#[trigger] self.entries@[t]).chunk_id != chunk_id,
            decreases n - i,
        {
            if self.entries[i].chunk_id == chunk_id {
                self.entries[i] = IndexEntry { chunk_id, vector };
                return ;
            }
            i = i + 1;
        }
        self.entries.push(IndexEntry { chunk_id, vector });
        proof {
            assert(self.entries@[self.entries@.len() - 1].chunk_id == chunk_id);
        }
    }

    /// Deletes the entry for `chunk_id` if present; a no-op otherwise. The
    /// remaining entries keep their relative (insertion) order.
    #[verifier::loop_isolation(false)]
    pub fn remove(&mut self, chunk_id: u64)
        requires
            old(self).wf(),
        ensures
            final(self).wf(),
            final(self).dim == old(self).dim,
            !contains_id(final(self).entries@, chunk_id),
            !contains_id(old(self).entries@, chunk_id) ==> final(self).entries@ == old(
                self,
            ).entries@,
            forall|i: int|
                0 <= i < old(self).entries@.len() && (#[trigger] old(self).entries@[i]).chunk_id
                    == chunk_id ==> final(self).entries@ == old(self).entries@.remove(i),
    {
        let n = self.entries.len();
        let mut i: usize = 0;
        while i < n
            invariant
                0 <= i <= n,
                n == self.entries@.len(),
                self.dim == old(self).dim,
                self.entries@ == old(self).entries@,
                forall|t: int| 0 <= t < i ==> (#[trigger] self.entries@[t]).chunk_id != chunk_id,
            decreases n - i,
        {
            if self.entries[i].chunk_id == chunk_id {
                self.entries.remove(i);
                return ;
            }
            i = i + 1;
        }
    }

    /// The `min(k, n)` entries most similar to `q`, ordered by descending
    /// similarity with ties broken toward the earlier-inserted entry: the
    /// result is strictly sorted under `hit_beats`, every hit describes a
    /// distinct real entry with its exact similarity, and every entry left
    /// out is beaten by every hit returned. An empty index yields an empty
    /// result, never an error.
    #[verifier::loop_isolation(false)]
    pub fn search(&self, q: &Embedding, k: usize) -> (r: Vec<Hit>)
        requires
            self.wf(),
            q.wf(),
            q@.len() == self.dim,
        ensures
            r@.len() == if k <= self.entries@.len() {
                k as int
            } else {
                self.entries@.len() as int
            },
            forall|i: int| 0 <= i < r@.len() ==> self.is_hit(q@, #[trigger] r@[i]),
            forall|i: int, j: int|
                0 <= i < j < r@.len() ==> hit_beats(#[trigger] r@[i], #[trigger] r@[j]),
            forall|p: int|
                0 <= p < self.entries@.len() && !selected(r@, p) ==> forall|i: int|
                    0 <= i < r@.len() ==> (#[trigger] r@[i]).score > self.score_at(q@, p) || (
                    r@[i].score == self.score_at(q@, p) && r@[i].pos < p),
            forall|p: int|
                0 <= p < self.entries@.len() && k >= 1 && (forall|u: int|
                    0 <= u < self.entries@.len() && u != p ==> #[trigger] self.score_at(q@, p)
                        > self.score_at(q@, u) || (self.score_at(q@, p) == self.score_at(q@, u)
                        && p < u)) ==> r@.len() >= 1 && (#[trigger] r@[0].pos) == p && r@[0].chunk_id
                    == self.entries@[p].chunk_id && r@[0].score == self.score_at(q@, p),
    {
        let n = self.entries.len();

        // Score every entry once.
        let mut scored: Vec<Hit> = Vec::new();
        let mut p: usize = 0;
        while p < n
            invariant
                0 <= p <= n,
                scored@.len() == p,
                forall|t: int| 0 <= t < p ==> (#[trigger] scored@[t]).pos == t,
                forall|t: int| 0 <= t < p ==> self.is_hit(q@, #[trigger] scored@[t]),
            decreases n - p,
        {
            let score = dot_product(&q.components, &self.entries[p].vector.components);
            scored.push(Hit { chunk_id: self.entries[p].chunk_id, score, pos: p });
            p = p + 1;
        }

        proof {
            assert forall|pp: int| 0 <= pp < n implies selected(scored@, pp) by {
                assert(scored@[pp].pos == pp);
            }
        }

        // Move the best remaining hit into the result until k are taken or
        // none remain.
        let mut out: Vec<Hit> = Vec::new();
        while out.len() < k && scored.len() > 0
            invariant
                out@.len() + scored@.len() == n,
                out@.len() <= k,
                forall|t: int| 0 <= t < scored@.len() ==> self.is_hit(q@, #[trigger] scored@[t]),
                forall|t: int| 0 <= t < out@.len() ==> self.is_hit(q@, #[trigger] out@[t]),
                forall|t1: int, t2: int|
                    0 <= t1 < t2 < scored@.len() ==> (#[trigger] scored@[t1]).pos != (
                    #[trigger] scored@[t2]).pos,
                forall|pp: int|
                    0 <= pp < n ==> selected(out@, pp) || selected(scored@, pp),
                forall|t1: int, t2: int|
                    0 <= t1 < t2 < out@.len() ==> hit_beats(
                        #[trigger] out@[t1],
                        #[trigger] out@[t2],
                    ),
                forall|t1: int, t2: int|
                    0 <= t1 < out@.len() && 0 <= t2 < scored@.len() ==> hit_beats(
                        #[trigger] out@[t1],
                        #[trigger] scored@[t2],
                    ),
            decreases scored@.len(),
        {
            let mut m: usize = 0;
            let mut b: usize = 1;
            while b < scored.len()
                invariant
                    0 <= m < b <= scored@.len(),
                    forall|t: int|
                        0 <= t < b && t != m ==> hit_beats(
                            scored@[m as int],
                            #[trigger] scored@[t],
                        ),
                decreases scored@.len() - b,
            {
                let bb = scored[b];
                let mm = scored[m];
                if bb.score > mm.score || (bb.score == mm.score && bb.pos < mm.pos) {
                    m = b;
                }
                b = b + 1;
            }
            let ghost old_scored = scored@;
            let best = scored.remove(m);
            proof {
                assert(scored@ == old_scored.remove(m as int));
                assert forall|t: int| 0 <= t < scored@.len() implies self.is_hit(
                    q@,
                    #[trigger] scored@[t],
                ) && hit_beats(best, scored@[t]) by {
                    if t < m {
                        assert(scored@[t] == old_scored[t]);
                    } else {
                        assert(scored@[t] == old_scored[t + 1]);
                    }
                }
                assert forall|pp: int|
                    0 <= pp < n && !selected(out@.push(best), pp) implies selected(
                    scored@,
                    pp,
                ) by {
                    if pp != best.pos {
                        if selected(old_scored, pp) {
                            let j = choose|j: int|
                                0 <= j < old_scored.len() && old_scored[j].pos == pp;
                            if j < m {
                                assert(scored@[j].pos == pp);
                            } else if j > m {
                                assert(scored@[j - 1].pos == pp);
                            }
                        } else {
                            assert(selected(out@, pp));
                            let j = choose|j: int| 0 <= j < out@.len() && out@[j].pos == pp;
                            assert(out@.push(best)[j].pos == pp);
                        }
                    } else {
                        assert(out@.push(best)[out@.len() as int].pos == pp);
                    }
                }
                assert forall|t1: int, t2: int|
                    0 <= t1 < t2 < scored@.len() implies (#[trigger] scored@[t1]).pos != (
                #[trigger] scored@[t2]).pos by {
                    let u1 = if t1 < m {
                        t1
                    } else {
                        t1 + 1
                    };
                    let u2 = if t2 < m {
                        t2
                    } else {
                        t2 + 1
                    };
                    assert(scored@[t1] == old_scored[u1]);
                    assert(scored@[t2] == old_scored[u2]);
                }
            }
            out.push(best);
        }
        proof {
            assert forall|p: int|
                0 <= p < self.entries@.len() && k >= 1 && (forall|u: int|
                    0 <= u < self.entries@.len() && u != p ==> #[trigger] self.score_at(q@, p)
                        > self.score_at(q@, u) || (self.score_at(q@, p) == self.score_at(q@, u)
                        && p < u)) implies out@.len() >= 1 && (#[trigger] out@[0].pos) == p
                && out@[0].chunk_id == self.entries@[p].chunk_id && out@[0].score == self.score_at(
                q@,
                p,
            ) by {
                assert(out@.len() >= 1);
                if !selected(out@, p) {
                    let u0 = out@[0].pos as int;
                    assert(hit_beats(out@[0], out@[0]) == false);
                    assert(u0 != p);
                    assert(self.score_at(q@, p) > self.score_at(q@, u0) || (self.score_at(q@, p)
                        == self.score_at(q@, u0) && p < u0));
                    assert(out@[0].score > self.score_at(q@, p) || (out@[0].score
                        == self.score_at(q@, p) && out@[0].pos < p));
                    assert(false);
                } else {
                    let w = choose|w: int| 0 <= w < out@.len() && out@[w].pos == p;
                    if w != 0 {
                        assert(hit_beats(out@[0], out@[w]));
                        let u0 = out@[0].pos as int;
                        if u0 != p {
                            assert(self.score_at(q@, p) > self.score_at(q@, u0) || (self.score_at(
                                q@,
                                p,
                            ) == self.score_at(q@, u0) && p < u0));
                            assert(false);
                        }
                    }
                }
            }
            assert forall|p: int|
                0 <= p < self.entries@.len() && !selected(out@, p) implies forall|i: int|
                0 <= i < out@.len() ==> (#[trigger] out@[i]).score > self.score_at(q@, p) || (
                out@[i].score == self.score_at(q@, p) && out@[i].pos < p) by {
                assert(selected(scored@, p));
                let j = choose|j: int| 0 <= j < scored@.len() && scored@[j].pos == p;
                assert(self.is_hit(q@, scored@[j]));
                assert forall|i: int| 0 <= i < out@.len() implies (#[trigger] out@[i]).score
                    > self.score_at(q@, p) || (out@[i].score == self.score_at(q@, p) && out@[i].pos
                    < p) by {
                    assert(hit_beats(out@[i], scored@[j]));
                }
            }
        }
        out
    }
}

} // verus!
