//! The chunker: deterministic splitting of page content into bounded spans.
//!
//! A span never exceeds the configured maximum length and a split lands
//! preferentially right after a sentence or whitespace boundary: within each
//! window the cut is made after the last boundary character, and only a
//! window without any boundary is cut at the full width. Concatenating the
//! spans gives back the content exactly; empty content yields no spans.

use vstd::prelude::*;

verus! {

/// Characters after which a split is preferred: whitespace and the sentence
/// terminator.
pub open spec fn is_boundary(c: char) -> bool {
    c == ' ' || c == '\n' || c == '.'
}

/// The largest position `p` in `1..=w` such that `s[p - 1]` is a boundary
/// character, or `0` if the first `w` characters hold no boundary.
pub open spec fn last_break(s: Seq<char>, w: int) -> int
    decreases w,
{
    if w <= 0 || w > s.len() {
        0
    } else if is_boundary(s[w - 1]) {
        w
    } else {
        last_break(s, w - 1)
    }
}

/// Where to cut a span that is longer than `max`: after the last boundary
/// inside the window if there is one, else at the full window width.
pub open spec fn split_point(s: Seq<char>, max: int) -> int {
    let lb = last_break(s, max);
    if 1 <= lb <= max {
        lb
    } else {
        max
    }
}

/// The spans `content` splits into under span bound `max`, in order.
pub open spec fn chunks_of(s: Seq<char>, max: int) -> Seq<Seq<char>>
    decreases s.len(),
{
    if max < 1 || s.len() == 0 {
        Seq::empty()
    } else if s.len() <= max {
        seq![s]
    } else {
        seq![s.take(split_point(s, max))] + chunks_of(s.skip(split_point(s, max)), max)
    }
}

/// The concatenation of a sequence of spans.
pub open spec fn concat_all(cs: Seq<Seq<char>>) -> Seq<char>
    decreases cs.len(),
{
    if cs.len() == 0 {
        Seq::empty()
    } else {
        cs[0] + concat_all(cs.drop_first())
    }
}

/// Splitting loses nothing and respects the bound: the spans concatenate
/// back to the content, and each span holds between 1 and `max` characters.
pub proof fn lemma_chunks_sound(s: Seq<char>, max: int)
    requires
        max >= 1,
    ensures
        concat_all(chunks_of(s, max)) =~= s,
        forall|i: int|
            0 <= i < chunks_of(s, max).len() ==> 1 <= (#[trigger] chunks_of(s, max)[i]).len()
                <= max,
    decreases s.len(),
{
    if s.len() == 0 {
    } else if s.len() <= max {
        assert(chunks_of(s, max) == seq![s]);
        assert(concat_all(chunks_of(s, max).drop_first()) =~= Seq::<char>::empty());
        assert(concat_all(chunks_of(s, max)) =~= s);
    } else {
        let c = split_point(s, max);
        lemma_chunks_sound(s.skip(c), max);
        assert(chunks_of(s, max).drop_first() =~= chunks_of(s.skip(c), max));
        assert(concat_all(chunks_of(s, max)) =~= s.take(c) + concat_all(chunks_of(s.skip(c), max)));
        assert forall|i: int| 0 <= i < chunks_of(s, max).len() implies 1 <= (#[trigger] chunks_of(
            s,
            max,
        )[i]).len() <= max by {
            if i > 0 {
                assert(chunks_of(s, max)[i] == chunks_of(s.skip(c), max)[i - 1]);
            }
        }
    }
}

/// Whether the character of `s` at `i` is a preferred split boundary.
fn boundary_at(s: &str, i: usize) -> (r: bool)
    requires
        i < s@.len(),
    ensures
        r == is_boundary(s@[i as int]),
{
    let c = s.get_char(i);
    c == ' ' || c == '\n' || c == '.'
}

/// Splits `content` into its bounded spans: the executable form of
/// `chunks_of`, and deterministic with it.
#[verifier::loop_isolation(false)]
pub fn split(content: &str, max: usize) -> (r: Vec<String>)
    requires
        max >= 1,
    ensures
        r@.len() == chunks_of(content@, max as int).len(),
        forall|i: int|
            0 <= i < r@.len() ==> (#[trigger] r@[i])@ == chunks_of(content@, max as int)[i],
{
    let n = content.unicode_len();
    let mut out: Vec<String> = Vec::new();
    let mut start: usize = 0;
    proof {
        assert(content@.skip(0) =~= content@);
    }
    while start < n
        invariant
            0 <= start <= n,
            chunks_of(content@, max as int) =~= Seq::new(out@.len(), |i: int| out@[i]@)
                + chunks_of(content@.skip(start as int), max as int),
        decreases n - start,
    {
        let ghost rest = content@.skip(start as int);
        let rem = n - start;
        let cut: usize = if rem <= max {
            rem
        } else {
            // Look for the last boundary inside the window.
            let mut w: usize = max;
            while w > 0 && !boundary_at(content, start + w - 1)
                invariant
                    0 <= w <= max,
                    last_break(rest, max as int) == last_break(rest, w as int),
                decreases w,
            {
                proof {
                    assert(rest[w - 1] == content@[start + w - 1]);
                }
                w = w - 1;
            }
            proof {
                if w > 0 {
                    assert(rest[w - 1] == content@[start + w - 1]);
                    assert(last_break(rest, w as int) == w);
                }
            }
            if w > 0 {
                w
            } else {
                max
            }
        };
        proof {
            if rem > max {
                assert(cut as int == split_point(rest, max as int));
            }
        }
        let piece = content.substring_char(start, start + cut).to_owned();
        proof {
            assert(piece@ =~= rest.take(cut as int));
            assert(rest.skip(cut as int) =~= content@.skip(start as int + cut as int));
            if rem <= max {
                assert(rest.take(cut as int) =~= rest);
                assert(chunks_of(rest, max as int) =~= seq![rest]);
            }
            assert(chunks_of(rest, max as int) =~= seq![piece@] + chunks_of(
                content@.skip(start as int + cut as int),
                max as int,
            ));
        }
        out.push(piece);
        proof {
            assert(chunks_of(content@, max as int) =~= Seq::new(out@.len(), |i: int| out@[i]@)
                + chunks_of(content@.skip(start as int + cut as int), max as int));
        }
        start = start + cut;
    }
    proof {
        assert(content@.skip(n as int) =~= Seq::<char>::empty());
        assert(chunks_of(content@, max as int) =~= Seq::new(out@.len(), |i: int| out@[i]@));
    }
    out
}

} // verus!
