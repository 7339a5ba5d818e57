//! Rerank application: turning the external scoring provider's answer into
//! the final presentation order of a candidate shortlist.
//!
//! The provider is handed the query and the candidate texts and answers
//! with `(candidate index, relevance score)` entries, possibly unsorted and
//! possibly not covering every candidate; the pipeline re-sorts
//! defensively. An entry pointing outside the candidate list, or two
//! entries for one candidate, is a contract violation (`MalformedResponse`).
//! On any provider failure the caller keeps the vector index's own order
//! instead of failing the query.

use crate::errors::PipelineError;
use vstd::prelude::*;

verus! {

/// One provider answer entry: which candidate, and how relevant.
#[derive(Clone, Copy, PartialEq, Eq, Structural, Debug)]
pub struct RerankEntry {
    pub index: usize,
    pub score: i64,
}

/// One slot of the final order: which candidate stands here, and its
/// provider score if the provider scored it.
#[derive(Clone, Copy, PartialEq, Eq, Debug)]
pub struct RankedSlot {
    pub index: usize,
    pub score: Option<i64>,
}

/// The rerank order: higher score first, and between equal scores the
/// lower candidate index first.
pub open spec fn entry_beats(a: RerankEntry, b: RerankEntry) -> bool {
    a.score > b.score || (a.score == b.score && a.index < b.index)
}

/// A valid provider answer for `n` candidates: every entry points inside
/// the candidate list and no candidate is scored twice.
pub open spec fn entries_valid(n: int, es: Seq<RerankEntry>) -> bool {
    &&& forall|t: int| 0 <= t < es.len() ==> (#[trigger] es[t]).index < n
    &&& forall|t1: int, t2: int|
        0 <= t1 < t2 < es.len() ==> (#[trigger] es[t1]).index != (#[trigger] es[t2]).index
}

/// Whether `e` occurs in `es`.
pub open spec fn entry_listed(es: Seq<RerankEntry>, e: RerankEntry) -> bool {
    exists|t: int| 0 <= t < es.len() && es[t] == e
}

/// Whether the slot `s` carries some entry of `es`: its candidate index
/// and that entry's score.
pub open spec fn scored_slot_of(es: Seq<RerankEntry>, s: RankedSlot) -> bool {
    exists|t: int|
        0 <= t < es.len() && (#[trigger] es[t]).index == s.index && Some(es[t].score) == s.score
}

/// Whether the entry `e` stands in one of the first `m` slots of `v`.
pub open spec fn entry_placed(v: Seq<RankedSlot>, m: int, e: RerankEntry) -> bool {
    exists|u: int| 0 <= u < m && (#[trigger] v[u]).index == e.index && v[u].score == Some(e.score)
}

/// Whether candidate `i` stands somewhere in `v`.
pub open spec fn index_ranked(v: Seq<RankedSlot>, i: int) -> bool {
    exists|t: int| 0 <= t < v.len() && (#[trigger] v[t]).index == i
}

/// Whether some entry of `es` scores candidate `i`.
pub open spec fn index_scored(es: Seq<RerankEntry>, i: int) -> bool {
    exists|t: int| 0 <= t < es.len() && (#[trigger] es[t]).index == i
}

/// How many marks are set in `s`.
pub open spec fn count_marked(s: Seq<bool>) -> int
    decreases s.len(),
{
    if s.len() == 0 {
        0
    } else {
        count_marked(s.drop_last()) + if s.last() {
            1int
        } else {
            0int
        }
    }
}

/// Setting an unset mark raises the count by one.
proof fn lemma_count_mark(s: Seq<bool>, i: int)
    requires
        0 <= i < s.len(),
        !s[i],
    ensures
        count_marked(s.update(i, true)) == count_marked(s) + 1,
    decreases s.len(),
{
    if i == s.len() - 1 {
        assert(s.update(i, true).drop_last() =~= s.drop_last());
    } else {
        assert(s.update(i, true).drop_last() =~= s.drop_last().update(i, true));
        lemma_count_mark(s.drop_last(), i);
    }
}

/// The full reordering of `n` candidates described by a provider answer:
/// the scored candidates first, best first (ties toward the lower index),
/// then every unscored candidate in candidate order with no score. An
/// answer that breaks the provider contract yields `MalformedResponse` and
/// no order.
#[verifier::loop_isolation(false)]
#[verifier::rlimit(60)]
pub fn apply_rerank(n: usize, entries: Vec<RerankEntry>) -> (r: Result<
    Vec<RankedSlot>,
    PipelineError,
>)
    ensures
        r is Ok <==> entries_valid(n as int, entries@),
        r matches Err(e) ==> e == PipelineError::MalformedResponse,
        r matches Ok(v) ==> {
            let m = entries@.len() as int;
            &&& v@.len() == n
            &&& forall|t: int| 0 <= t < m ==> (#[trigger] v@[t]).score is Some
            &&& forall|t: int| m <= t < n ==> (#[trigger] v@[t]).score is None
            &&& forall|t: int| 0 <= t < m ==> scored_slot_of(entries@, #[trigger] v@[t])
            &&& forall|t: int| 0 <= t < m ==> entry_placed(v@, m, #[trigger] entries@[t])
            &&& forall|i: int, j: int|
                0 <= i < j < m ==> (#[trigger] v@[i]).score.unwrap() > (
                #[trigger] v@[j]).score.unwrap() || (v@[i].score.unwrap() == v@[j].score.unwrap()
                    && v@[i].index < v@[j].index)
            &&& forall|i: int, j: int|
                m <= i < j < n ==> (#[trigger] v@[i]).index < (#[trigger] v@[j]).index
            &&& forall|i: int| 0 <= i < n ==> index_ranked(v@, i)
            &&& forall|t1: int, t2: int|
                0 <= t1 < t2 < n ==> (#[trigger] v@[t1]).index != (#[trigger] v@[t2]).index
            &&& forall|j: int|
                0 <= j < m && (forall|t: int|
                    0 <= t < m && t != j ==> (#[trigger] entries@[t]).score < entries@[j].score)
                    ==> (#[trigger] v@[0].index) == entries@[j].index
        },
{
    let m = entries.len();

    // Validate the answer and mark which candidates it scores.
    let mut used: Vec<bool> = Vec::new();
    let mut i: usize = 0;
    while i < n
        invariant
            used@.len() == i <= n,
            forall|t: int| 0 <= t < i ==> !(#[trigger] used@[t]),
            count_marked(used@) == 0,
        decreases n - i,
    {
        let ghost prev = used@;
        used.push(false);
        proof {
            assert(used@.drop_last() =~= prev);
        }
        i = i + 1;
    }
    let mut p: usize = 0;
    while p < m
        invariant
            0 <= p <= m,
            used@.len() == n,
            forall|t: int| 0 <= t < p ==> (#[trigger] entries@[t]).index < n,
            forall|t1: int, t2: int|
                0 <= t1 < t2 < p ==> (#[trigger] entries@[t1]).index != (
                #[trigger] entries@[t2]).index,
            forall|idx: int|
                0 <= idx < n ==> ((#[trigger] used@[idx]) <==> exists|t: int|
                    0 <= t < p && (#[trigger] entries@[t]).index == idx),
            count_marked(used@) == p,
        decreases m - p,
    {
        let e = entries[p];
        if e.index >= n {
            return Err(PipelineError::MalformedResponse);
        }
        if used[e.index] {
            proof {
                let t = choose|t: int| 0 <= t < p && (#[trigger] entries@[t]).index == e.index;
                assert(entries@[t].index == entries@[p as int].index);
            }
            return Err(PipelineError::MalformedResponse);
        }
        let ghost prev_used = used@;
        used[e.index] = true;
        proof {
            lemma_count_mark(prev_used, e.index as int);
        }
        p = p + 1;
    }

    // Order the scored candidates: repeatedly move out the best entry.
    let ghost all = entries@;
    let mut work = entries;
    let mut out: Vec<RankedSlot> = Vec::new();
    while work.len() > 0
        invariant
            out@.len() + work@.len() == m,
            entries_valid(n as int, all),
            all.len() == m,
            forall|t: int| 0 <= t < out@.len() ==> (#[trigger] out@[t]).score is Some,
            forall|t: int| 0 <= t < out@.len() ==> scored_slot_of(all, #[trigger] out@[t]),
            forall|t: int| 0 <= t < work@.len() ==> entry_listed(all, #[trigger] work@[t]),
            forall|t1: int, t2: int|
                0 <= t1 < t2 < work@.len() ==> (#[trigger] work@[t1]).index != (
                #[trigger] work@[t2]).index,
            forall|t: int|
                0 <= t < m ==> entry_placed(out@, out@.len() as int, #[trigger] all[t])
                    || entry_listed(work@, all[t]),
            forall|i: int, j: int|
                0 <= i < j < out@.len() ==> (#[trigger] out@[i]).score.unwrap() > (
                #[trigger] out@[j]).score.unwrap() || (out@[i].score.unwrap()
                    == out@[j].score.unwrap() && out@[i].index < out@[j].index),
            forall|i: int, t: int|
                0 <= i < out@.len() && 0 <= t < work@.len() ==> (
                #[trigger] out@[i]).score.unwrap() > (#[trigger] work@[t]).score || (
                out@[i].score.unwrap() == work@[t].score && out@[i].index < work@[t].index),
        decreases work@.len(),
    {
        let mut best: usize = 0;
        let mut b: usize = 1;
        while b < work.len()
            invariant
                0 <= best < b <= work@.len(),
                forall|t: int|
                    0 <= t < b && t != best ==> entry_beats(
                        work@[best as int],
                        #[trigger] work@[t],
                    ),
            decreases work@.len() - b,
        {
            let wb = work[b];
            let wm = work[best];
            if wb.score > wm.score || (wb.score == wm.score && wb.index < wm.index) {
                best = b;
            }
            b = b + 1;
        }
        let ghost prev_work = work@;
        let ghost prev_out = out@;
        let chosen = work.remove(best);
        proof {
            assert forall|t: int| 0 <= t < work@.len() implies entry_listed(
                all,
                #[trigger] work@[t],
            ) && entry_beats(chosen, work@[t]) && chosen.index != work@[t].index by {
                let u = if t < best {
                    t
                } else {
                    t + 1
                };
                assert(work@[t] == prev_work[u]);
            }
            assert forall|t: int|
                0 <= t < m && !(entry_placed(out@.push(RankedSlot { index: chosen.index, score: Some(chosen.score) }), out@.len() as int + 1, #[trigger] all[t])) implies entry_listed(
                work@,
                all[t],
            ) by {
                let s = RankedSlot { index: chosen.index, score: Some(chosen.score) };
                if all[t] == chosen {
                    assert(out@.push(s)[out@.len() as int].index == all[t].index);
                } else {
                    if entry_placed(prev_out, prev_out.len() as int, all[t]) {
                        let u = choose|u: int|
                            0 <= u < prev_out.len() && (#[trigger] prev_out[u]).index
                                == all[t].index && prev_out[u].score == Some(all[t].score);
                        assert(out@.push(s)[u].index == all[t].index);
                    } else {
                        assert(entry_listed(prev_work, all[t]));
                        let w = choose|w: int|
                            0 <= w < prev_work.len() && prev_work[w] == all[t];
                        if w != best {
                            let ww = if w < best {
                                w
                            } else {
                                w - 1
                            };
                            assert(work@[ww] == prev_work[w]);
                        }
                    }
                }
            }
        }
        out.push(RankedSlot { index: chosen.index, score: Some(chosen.score) });
        proof {
            assert(scored_slot_of(all, out@.last())) by {
                let w = choose|w: int| 0 <= w < all.len() && all[w] == chosen;
                assert(all[w].index == out@.last().index);
            }
        }
    }

    // Append every unscored candidate in candidate order.
    let mut idx: usize = 0;
    while idx < n
        invariant
            0 <= idx <= n,
            used@.len() == n,
            count_marked(used@) == m,
            entries_valid(n as int, all),
            all.len() == m,
            forall|i: int|
                0 <= i < n ==> ((#[trigger] used@[i]) <==> index_scored(all, i)),
            out@.len() == m + idx - count_marked(used@.take(idx as int)),
            m <= out@.len(),
            forall|t: int| 0 <= t < m ==> (#[trigger] out@[t]).score is Some,
            forall|t: int| m <= t < out@.len() ==> (#[trigger] out@[t]).score is None,
            forall|t: int| 0 <= t < m ==> scored_slot_of(all, #[trigger] out@[t]),
            forall|t: int| 0 <= t < m ==> entry_placed(out@, m as int, #[trigger] all[t]),
            forall|i: int, j: int|
                0 <= i < j < m ==> (#[trigger] out@[i]).score.unwrap() > (
                #[trigger] out@[j]).score.unwrap() || (out@[i].score.unwrap()
                    == out@[j].score.unwrap() && out@[i].index < out@[j].index),
            forall|t: int| m <= t < out@.len() ==> (#[trigger] out@[t]).index < idx,
            forall|i: int, j: int|
                m <= i < j < out@.len() ==> (#[trigger] out@[i]).index < (#[trigger] out@[j]).index,
            forall|t: int|
                m <= t < out@.len() ==> !index_scored(all, (#[trigger] out@[t]).index as int),
            forall|i: int| 0 <= i < idx ==> index_ranked(out@, i),
        decreases n - idx,
    {
        proof {
            assert(used@.take(idx + 1).drop_last() =~= used@.take(idx as int));
        }
        let ghost prev_out = out@;
        if !used[idx] {
            out.push(RankedSlot { index: idx, score: None });
            proof {
                assert(out@.last().index == idx as int);
                assert forall|i2: int| 0 <= i2 < idx implies index_ranked(out@, i2) by {
                    assert(index_ranked(prev_out, i2));
                    let t = choose|t: int|
                        0 <= t < prev_out.len() && (#[trigger] prev_out[t]).index == i2;
                    assert(out@[t] == prev_out[t]);
                }
                assert(out@[out@.len() - 1].index == idx as int);
                assert forall|t: int| 0 <= t < m implies entry_placed(
                    out@,
                    m as int,
                    #[trigger] all[t],
                ) by {
                    let u = choose|u: int|
                        0 <= u < m && (#[trigger] prev_out[u]).index == all[t].index
                            && prev_out[u].score == Some(all[t].score);
                    assert(out@[u] == prev_out[u]);
                }
            }
        } else {
            proof {
                assert(index_scored(all, idx as int));
                let t = choose|t: int| 0 <= t < all.len() && (#[trigger] all[t]).index == idx;
                assert(entry_placed(out@, m as int, all[t]));
                let u = choose|u: int|
                    0 <= u < m && (#[trigger] out@[u]).index == all[t].index && out@[u].score
                        == Some(all[t].score);
                assert(index_ranked(out@, idx as int));
            }
        }
        idx = idx + 1;
    }
    proof {
        assert(used@.take(n as int) =~= used@);
        assert forall|j: int|
            0 <= j < m && (forall|t: int|
                0 <= t < m && t != j ==> (#[trigger] all[t]).score < all[j].score) implies (
        #[trigger] out@[0].index) == all[j].index by {
            assert(entry_placed(out@, m as int, all[j]));
            let u = choose|u: int|
                0 <= u < m && (#[trigger] out@[u]).index == all[j].index && out@[u].score == Some(
                    all[j].score,
                );
            if u != 0 {
                assert(scored_slot_of(all, out@[0]));
                let t0 = choose|t0: int|
                    0 <= t0 < all.len() && (#[trigger] all[t0]).index == out@[0].index && Some(
                        all[t0].score,
                    ) == out@[0].score;
                assert(out@[0].score.unwrap() > out@[u].score.unwrap() || (out@[0].score.unwrap()
                    == out@[u].score.unwrap() && out@[0].index < out@[u].index));
                if t0 != j {
                    assert(all[t0].score < all[j].score);
                    assert(false);
                } else {
                    assert(out@[0].index == out@[u].index);
                    assert(false);
                }
            }
        }
        assert forall|t1: int, t2: int| 0 <= t1 < t2 < n implies (#[trigger] out@[t1]).index != (
        #[trigger] out@[t2]).index by {
            if t1 < m && t2 >= m {
                assert(scored_slot_of(all, out@[t1]));
                let w = choose|w: int|
                    0 <= w < all.len() && (#[trigger] all[w]).index == out@[t1].index && Some(
                        all[w].score,
                    ) == out@[t1].score;
                assert(index_scored(all, all[w].index as int));
            } else if t1 < m && t2 < m {
                assert(scored_slot_of(all, out@[t1]));
                assert(scored_slot_of(all, out@[t2]));
            }
        }
    }
    Ok(out)
}

/// The final presentation order for `n` candidates, given what the rerank
/// provider answered: the provider's reordering when it kept its contract,
/// else the candidates in their original (vector index) order with no
/// rerank scores — a provider failure degrades the ordering, never the
/// query.
pub fn rerank_or_fallback(n: usize, provider: Result<Vec<RerankEntry>, PipelineError>) -> (r: Vec<
    RankedSlot,
>)
    ensures
        r@.len() == n,
        forall|t1: int, t2: int|
            0 <= t1 < t2 < n ==> (#[trigger] r@[t1]).index != (#[trigger] r@[t2]).index,
        forall|i: int| 0 <= i < n ==> index_ranked(r@, i),
        provider matches Ok(es) ==> (entries_valid(n as int, es@) ==> {
            &&& forall|t: int| 0 <= t < es@.len() ==> scored_slot_of(es@, #[trigger] r@[t])
            &&& forall|t: int|
                0 <= t < es@.len() ==> entry_placed(r@, es@.len() as int, #[trigger] es@[t])
            &&& forall|i: int, j: int|
                0 <= i < j < es@.len() ==> (#[trigger] r@[i]).score.unwrap() > (
                #[trigger] r@[j]).score.unwrap() || (r@[i].score.unwrap() == r@[j].score.unwrap()
                    && r@[i].index < r@[j].index)
        }),
        provider matches Ok(es) ==> (!entries_valid(n as int, es@) ==> forall|t: int|
            0 <= t < n ==> (#[trigger] r@[t]).index == t && r@[t].score is None),
        provider is Err ==> forall|t: int|
            0 <= t < n ==> (#[trigger] r@[t]).index == t && r@[t].score is None,
{
    match provider {
        Ok(es) => {
            let ghost es_snap = es@;
            match apply_rerank(n, es) {
                Ok(v) => v,
                Err(_) => fallback_order(n),
            }
        },
        Err(_) => fallback_order(n),
    }
}

/// The identity order: candidate `t` in slot `t`, no rerank scores.
fn fallback_order(n: usize) -> (r: Vec<RankedSlot>)
    ensures
        r@.len() == n,
        forall|t: int| 0 <= t < n ==> (#[trigger] r@[t]).index == t && r@[t].score is None,
        forall|t1: int, t2: int|
            0 <= t1 < t2 < n ==> (#[trigger] r@[t1]).index != (#[trigger] r@[t2]).index,
        forall|i: int| 0 <= i < n ==> index_ranked(r@, i),
{
    let mut out: Vec<RankedSlot> = Vec::new();
    let mut t: usize = 0;
    while t < n
        invariant
            0 <= t <= n,
            out@.len() == t,
            forall|u: int| 0 <= u < t ==> (#[trigger] out@[u]).index == u && out@[u].score is None,
        decreases n - t,
    {
        out.push(RankedSlot { index: t, score: None });
        t = t + 1;
    }
    proof {
        assert forall|i: int| 0 <= i < n implies index_ranked(out@, i) by {
            assert(out@[i].index == i);
        }
    }
    out
}

} // verus!
