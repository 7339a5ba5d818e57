//! URL normalization: the dedup key of a page.
//!
//! Two textually different URL strings that point at the same resource must
//! collapse to one key before any dedup comparison, so normalization strips
//! the fragment, strips trailing slashes, and lowercases ASCII letters.

use vstd::prelude::*;

verus! {

/// The ASCII-lowercased form of one character; characters outside `A`..`Z`
/// are unchanged.
pub open spec fn lower_char(c: char) -> char {
    match c {
        'A' => 'a',
        'B' => 'b',
        'C' => 'c',
        'D' => 'd',
        'E' => 'e',
        'F' => 'f',
        'G' => 'g',
        'H' => 'h',
        'I' => 'i',
        'J' => 'j',
        'K' => 'k',
        'L' => 'l',
        'M' => 'm',
        'N' => 'n',
        'O' => 'o',
        'P' => 'p',
        'Q' => 'q',
        'R' => 'r',
        'S' => 's',
        'T' => 't',
        'U' => 'u',
        'V' => 'v',
        'W' => 'w',
        'X' => 'x',
        'Y' => 'y',
        'Z' => 'z',
        _ => c,
    }
}

/// Index of the first `#` in `s`, or `s.len()` if there is none: the
/// fragment part `#...` never reaches a dedup comparison.
pub open spec fn fragment_start(s: Seq<char>) -> int
    decreases s.len(),
{
    if s.len() == 0 {
        0
    } else if s[0] == '#' {
        0
    } else {
        1 + fragment_start(s.drop_first())
    }
}

/// Length of `s` once every trailing `/` is dropped.
pub open spec fn trimmed_len(s: Seq<char>) -> int
    decreases s.len(),
{
    if s.len() == 0 {
        0
    } else if s.last() == '/' {
        trimmed_len(s.drop_last())
    } else {
        s.len() as int
    }
}

/// The normalized form of a URL: everything from the first `#` on is
/// dropped, then trailing slashes, then ASCII letters are lowercased.
pub open spec fn normalized(s: Seq<char>) -> Seq<char> {
    s.take(fragment_start(s)).take(trimmed_len(s.take(fragment_start(s)))).map_values(
        |c: char| lower_char(c),
    )
}

proof fn lemma_fragment_start_bounds(s: Seq<char>)
    ensures
        0 <= fragment_start(s) <= s.len(),
        forall|i: int| 0 <= i < fragment_start(s) ==> s[i] != '#',
        fragment_start(s) < s.len() ==> s[fragment_start(s)] == '#',
    decreases s.len(),
{
    if s.len() != 0 && s[0] != '#' {
        lemma_fragment_start_bounds(s.drop_first());
        assert forall|i: int| 0 <= i < fragment_start(s) implies s[i] != '#' by {
            if i > 0 {
                assert(s.drop_first()[i - 1] != '#');
            }
        }
        if fragment_start(s) < s.len() {
            assert(s.drop_first()[fragment_start(s) - 1] == '#');
        }
    }
}

proof fn lemma_trimmed_len_bounds(s: Seq<char>)
    ensures
        0 <= trimmed_len(s) <= s.len(),
        forall|i: int| trimmed_len(s) <= i < s.len() ==> s[i] == '/',
        trimmed_len(s) > 0 ==> s[trimmed_len(s) - 1] != '/',
    decreases s.len(),
{
    if s.len() != 0 && s.last() == '/' {
        lemma_trimmed_len_bounds(s.drop_last());
        assert forall|i: int| trimmed_len(s) <= i < s.len() implies s[i] == '/' by {
            if i < s.len() - 1 {
                assert(s.drop_last()[i] == '/');
            }
        }
        if trimmed_len(s) > 0 {
            assert(s.drop_last()[trimmed_len(s) - 1] != '/');
        }
    }
}

/// One character appended to `out` in lowercased form, read from `s` at `i`.
fn push_lowered(out: &mut String, s: &str, i: usize)
    requires
        i < s@.len(),
        i < usize::MAX,
    ensures
        final(out)@ == old(out)@.push(lower_char(s@[i as int])),
{
    let c = s.get_char(i);
    if 'A' <= c && c <= 'Z' {
        let lit: &str = match c {
            'A' => "a",
            'B' => "b",
            'C' => "c",
            'D' => "d",
            'E' => "e",
            'F' => "f",
            'G' => "g",
            'H' => "h",
            'I' => "i",
            'J' => "j",
            'K' => "k",
            'L' => "l",
            'M' => "m",
            'N' => "n",
            'O' => "o",
            'P' => "p",
            'Q' => "q",
            'R' => "r",
            'S' => "s",
            'T' => "t",
            'U' => "u",
            'V' => "v",
            'W' => "w",
            'X' => "x",
            'Y' => "y",
            _ => "z",
        };
        proof {
            reveal_strlit("a");
            reveal_strlit("b");
            reveal_strlit("c");
            reveal_strlit("d");
            reveal_strlit("e");
            reveal_strlit("f");
            reveal_strlit("g");
            reveal_strlit("h");
            reveal_strlit("i");
            reveal_strlit("j");
            reveal_strlit("k");
            reveal_strlit("l");
            reveal_strlit("m");
            reveal_strlit("n");
            reveal_strlit("o");
            reveal_strlit("p");
            reveal_strlit("q");
            reveal_strlit("r");
            reveal_strlit("s");
            reveal_strlit("t");
            reveal_strlit("u");
            reveal_strlit("v");
            reveal_strlit("w");
            reveal_strlit("x");
            reveal_strlit("y");
            reveal_strlit("z");
            assert(lit@ =~= seq![lower_char(c)]);
        }
        out.append(lit);
        proof {
            assert(out@ =~= old(out)@.push(lower_char(c)));
        }
    } else {
        let piece = s.substring_char(i, i + 1);
        out.append(piece);
        proof {
            assert(piece@ =~= seq![s@[i as int]]);
            assert(out@ =~= old(out)@.push(lower_char(c)));
        }
    }
}

/// The normalized form of `url`, the unique key under which a page is
/// stored and deduplicated.
#[verifier::loop_isolation(false)]
pub fn normalize_url(url: &str) -> (r: String)
    ensures
        r@ == normalized(url@),
{
    proof {
        lemma_fragment_start_bounds(url@);
    }
    let n = url.unicode_len();

    // Cut at the first `#`.
    let mut frag: usize = 0;
    while frag < n && url.get_char(frag) != '#'
        invariant
            0 <= frag <= n,
            n == url@.len(),
            forall|j: int| 0 <= j < frag ==> url@[j] != '#',
        decreases n - frag,
    {
        frag = frag + 1;
    }
    proof {
        assert(frag as int == fragment_start(url@)) by {
            lemma_fragment_start_bounds(url@);
        }
    }
    let ghost cut = url@.take(frag as int);
    proof {
        assert(cut.take(frag as int) =~= cut);
    }

    // Drop trailing slashes.
    let mut end: usize = frag;
    while end > 0 && url.get_char(end - 1) == '/'
        invariant
            0 <= end <= frag <= n,
            n == url@.len(),
            trimmed_len(cut) == trimmed_len(cut.take(end as int)),
        decreases end,
    {
        proof {
            assert(cut.take(end as int).drop_last() =~= cut.take(end as int - 1));
        }
        end = end - 1;
    }
    proof {
        lemma_trimmed_len_bounds(cut.take(end as int));
        assert(cut.take(end as int).take(end as int) =~= cut.take(end as int));
        assert(trimmed_len(cut) == end as int);
    }

    // Lowercase what is left.
    let mut out = String::new();
    let mut i: usize = 0;
    while i < end
        invariant
            0 <= i <= end <= n,
            n == url@.len(),
            out@ == url@.take(end as int).map_values(|c: char| lower_char(c)).take(i as int),
        decreases end - i,
    {
        push_lowered(&mut out, url, i);
        proof {
            assert(url@.take(end as int).map_values(|c: char| lower_char(c)).take(i + 1)
                =~= url@.take(end as int).map_values(|c: char| lower_char(c)).take(
                i as int,
            ).push(lower_char(url@[i as int])));
        }
        i = i + 1;
    }
    proof {
        assert(cut.take(end as int) =~= url@.take(end as int));
        assert(out@ =~= url@.take(end as int).map_values(|c: char| lower_char(c)));
        assert(out@ =~= normalized(url@));
    }
    out
}

} // verus!
