//! Scanning translated strings for placeholder tokens.
//!
//! A translated catalog entry may embed tokens of the form `{{X}}`.  The
//! scanner splits such a string into segments: each maximal-leftmost,
//! shortest token run `{{...}}` (whose inner text holds no line break) is one
//! segment, and the text between and around such runs forms the remaining
//! segments, in order.  No empty segments are produced.

use vstd::prelude::*;

verus! {

/// The position of the first `}}` at or after `p`, scanning left to right,
/// or `None` if a line break or the end of the string comes first.
pub open spec fn close_from(s: Seq<char>, p: int) -> Option<int>
    decreases s.len() - p,
{
    if p < 0 || p + 1 >= s.len() {
        Option::None
    } else if s[p] == '}' && s[p + 1] == '}' {
        Option::Some(p)
    } else if s[p] == '\n' {
        Option::None
    } else {
        close_from(s, p + 1)
    }
}

/// If a placeholder-token run starts at `i`, the position just after its
/// closing `}}`; otherwise `None`.  A run starts with `{{` and ends at the
/// first following `}}`, with no line break between.
pub open spec fn match_at(s: Seq<char>, i: int) -> Option<int> {
    if 0 <= i && i + 1 < s.len() && s[i] == '{' && s[i + 1] == '{' {
        match close_from(s, i + 2) {
            Option::Some(j) => Option::Some(j + 2),
            Option::None => Option::None,
        }
    } else {
        Option::None
    }
}

/// The first token run at or after `i`: its start and its end (exclusive).
pub open spec fn find_match_from(s: Seq<char>, i: int) -> Option<(int, int)>
    decreases s.len() - i,
{
    if i < 0 || i >= s.len() {
        Option::None
    } else {
        match match_at(s, i) {
            Option::Some(e) => Option::Some((i, e)),
            Option::None => find_match_from(s, i + 1),
        }
    }
}

pub proof fn lemma_close_from_bounds(s: Seq<char>, p: int)
    requires
        close_from(s, p) is Some,
    ensures
        p <= close_from(s, p)->Some_0,
        close_from(s, p)->Some_0 + 2 <= s.len(),
    decreases s.len() - p,
{
    if p < 0 || p + 1 >= s.len() {
    } else if s[p] == '}' && s[p + 1] == '}' {
    } else if s[p] == '\n' {
    } else {
        lemma_close_from_bounds(s, p + 1);
    }
}

pub proof fn lemma_find_match_bounds(s: Seq<char>, i: int)
    requires
        find_match_from(s, i) is Some,
    ensures
        i <= find_match_from(s, i)->Some_0.0,
        find_match_from(s, i)->Some_0.0 + 4 <= find_match_from(s, i)->Some_0.1,
        find_match_from(s, i)->Some_0.1 <= s.len(),
    decreases s.len() - i,
{
    if i < 0 || i >= s.len() {
    } else {
        match match_at(s, i) {
            Option::Some(e) => {
                lemma_close_from_bounds(s, i + 2);
            },
            Option::None => {
                lemma_find_match_bounds(s, i + 1);
            },
        }
    }
}

/// The segments of a translated string from position `p` on: token runs and
/// the non-empty gaps around them, in order.
pub open spec fn spec_split_from(s: Seq<char>, p: int) -> Seq<Seq<char>>
    decreases s.len() - p,
    via spec_split_from_dec
{
    if p < 0 || p >= s.len() {
        Seq::empty()
    } else {
        match find_match_from(s, p) {
            Option::None => seq![s.subrange(p, s.len() as int)],
            Option::Some((a, e)) => {
                let run = seq![s.subrange(a, e)];
                let gap = if a > p {
                    seq![s.subrange(p, a)]
                } else {
                    Seq::<Seq<char>>::empty()
                };
                gap + run + spec_split_from(s, e)
            },
        }
    }
}

#[via_fn]
proof fn spec_split_from_dec(s: Seq<char>, p: int) {
    if 0 <= p < s.len() && find_match_from(s, p) is Some {
        lemma_find_match_bounds(s, p);
    }
}

/// The segments of a whole translated string.
pub open spec fn spec_split(s: Seq<char>) -> Seq<Seq<char>> {
    spec_split_from(s, 0)
}

/// Whether the string holds a placeholder-token run anywhere.
pub open spec fn spec_has_match(s: Seq<char>) -> bool {
    find_match_from(s, 0) is Some
}

// ----------------------------------------------------------------------
// Executable scanner.

/// Finds the first `}}` at or after `p`, stopping at a line break.
fn close_from_exec(s: &str, n: usize, p: usize) -> (r: Option<usize>)
    requires
        n == s@.len(),
        p <= n,
    ensures
        match r {
            Option::Some(j) => {
                &&& close_from(s@, p as int) == Option::Some(j as int)
                &&& p <= j
                &&& j + 2 <= n
            },
            Option::None => close_from(s@, p as int) is None,
        },
{
    let mut j: usize = p;
    loop
        invariant
            p <= j <= n,
            n == s@.len(),
            close_from(s@, p as int) == close_from(s@, j as int),
        decreases n - j,
    {
        if n == 0 || j >= n - 1 {
            return Option::None;
        }
        let c = s.get_char(j);
        if c == '}' && s.get_char(j + 1) == '}' {
            return Option::Some(j);
        }
        if c == '\n' {
            return Option::None;
        }
        j = j + 1;
    }
}

/// Finds the first token run at or after `i`.
fn find_match_exec(s: &str, n: usize, i: usize) -> (r: Option<(usize, usize)>)
    requires
        n == s@.len(),
        i <= n,
    ensures
        match r {
            Option::Some((a, e)) => {
                &&& find_match_from(s@, i as int) == Option::Some((a as int, e as int))
                &&& i <= a
                &&& a + 4 <= e <= n
            },
            Option::None => find_match_from(s@, i as int) is None,
        },
{
    let mut k: usize = i;
    loop
        invariant
            i <= k <= n,
            n == s@.len(),
            find_match_from(s@, i as int) == find_match_from(s@, k as int),
        decreases n - k,
    {
        if k >= n {
            return Option::None;
        }
        let is_open = k + 1 < n && s.get_char(k) == '{' && s.get_char(k + 1) == '{';
        if is_open {
            match close_from_exec(s, n, k + 2) {
                Option::Some(j) => {
                    assert(match_at(s@, k as int) == Option::Some(j + 2));
                    return Option::Some((k, j + 2));
                },
                Option::None => {
                    assert(match_at(s@, k as int) is None);
                },
            }
        } else {
            assert(match_at(s@, k as int) is None);
        }
        k = k + 1;
    }
}

/// Splits a translated string into its segments: placeholder-token runs and
/// the non-empty stretches of ordinary text between them, in order.
pub fn split_translated_str(s: &str) -> (r: Vec<String>)
    ensures
        r.deep_view() == spec_split(s@),
{
    let n: usize = s.unicode_len();
    let mut out: Vec<String> = Vec::new();
    let mut p: usize = 0;
    loop
        invariant
            0 <= p <= n,
            n == s@.len(),
            spec_split(s@) == out.deep_view() + spec_split_from(s@, p as int),
        decreases n - p,
    {
        if p >= n {
            proof {
                assert(spec_split(s@) =~= out.deep_view());
            }
            return out;
        }
        match find_match_exec(s, n, p) {
            Option::None => {
                let ghost pre = out.deep_view();
                let rest = s.substring_char(p, n).to_owned();
                out.push(rest);
                proof {
                    assert(out.deep_view() =~= pre + seq![s@.subrange(p as int, n as int)]);
                    assert(spec_split(s@) =~= out.deep_view());
                }
                return out;
            },
            Option::Some((a, e)) => {
                let ghost pre = out.deep_view();
                let ghost segs = spec_split_from(s@, p as int);
                if a > p {
                    let gap = s.substring_char(p, a).to_owned();
                    out.push(gap);
                }
                let run = s.substring_char(a, e).to_owned();
                out.push(run);
                proof {
                    if a > p {
                        assert(out.deep_view() =~= pre + seq![
                            s@.subrange(p as int, a as int),
                            s@.subrange(a as int, e as int),
                        ]);
                    } else {
                        assert(out.deep_view() =~= pre + seq![s@.subrange(a as int, e as int)]);
                    }
                    assert(spec_split(s@) =~= out.deep_view() + spec_split_from(s@, e as int));
                }
                p = e;
            },
        }
    }
}

/// Returns whether the string holds a placeholder-token run anywhere.
pub fn has_match(s: &str) -> (r: bool)
    ensures
        r == spec_has_match(s@),
{
    let n: usize = s.unicode_len();
    match find_match_exec(s, n, 0) {
        Option::Some(_) => true,
        Option::None => false,
    }
}

} // verus!
