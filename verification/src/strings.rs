//! Character and string primitives.
//!
//! Translation keys are built, compared and trimmed at the level of
//! characters.  This module holds the few primitives the engine needs:
//! whitespace trimming, lexicographic comparison, brace trimming, and the
//! placeholder letters `A`, `B`, `C`, ... assigned to dynamic content.

use vstd::prelude::*;

verus! {

/// What `char::is_whitespace` returns; a fixed property of the character.
pub uninterp spec fn is_ws(c: char) -> bool;

/// Relies on `char::is_whitespace`: whether the character has the Unicode
/// whitespace property.  The result depends on the character alone.
#[verifier::external_body]
pub fn char_is_ws(c: char) -> (r: bool)
    ensures
        r == is_ws(c),
{
    c.is_whitespace()
}

/// Relies on `String::push`: appends the character to the string.
#[verifier::external_body]
pub fn push_char(s: &mut String, c: char)
    ensures
        final(s)@ == old(s)@.push(c),
{
    s.push(c)
}

// ----------------------------------------------------------------------
// Whitespace trimming.

/// The string without its leading whitespace.
pub open spec fn spec_trim_front(s: Seq<char>) -> Seq<char>
    decreases s.len(),
{
    if s.len() > 0 && is_ws(s[0]) {
        spec_trim_front(s.drop_first())
    } else {
        s
    }
}

/// The string without its trailing whitespace.
pub open spec fn spec_trim_back(s: Seq<char>) -> Seq<char>
    decreases s.len(),
{
    if s.len() > 0 && is_ws(s[s.len() - 1]) {
        spec_trim_back(s.drop_last())
    } else {
        s
    }
}

/// The string without leading and trailing whitespace.
pub open spec fn spec_trim(s: Seq<char>) -> Seq<char> {
    spec_trim_back(spec_trim_front(s))
}

proof fn lemma_trim_front_subrange(s: Seq<char>, k: int)
    requires
        0 <= k <= s.len(),
        forall|j: int| 0 <= j < k ==> is_ws(s[j]),
        k < s.len() ==> !is_ws(s[k]),
    ensures
        spec_trim_front(s) == s.subrange(k, s.len() as int),
    decreases k,
{
    if k == 0 {
        assert(spec_trim_front(s) =~= s.subrange(0, s.len() as int)) by {
            if s.len() > 0 && is_ws(s[0]) {
                assert(!is_ws(s[0]));
            }
        }
    } else {
        assert(is_ws(s[0]));
        let t = s.drop_first();
        assert(forall|j: int| 0 <= j < k - 1 ==> is_ws(t[j]));
        lemma_trim_front_subrange(t, k - 1);
        assert(t.subrange(k - 1, t.len() as int) =~= s.subrange(k, s.len() as int));
    }
}

proof fn lemma_trim_back_subrange(s: Seq<char>, k: int)
    requires
        0 <= k <= s.len(),
        forall|j: int| k <= j < s.len() ==> is_ws(s[j]),
        k > 0 ==> !is_ws(s[k - 1]),
    ensures
        spec_trim_back(s) == s.subrange(0, k),
    decreases s.len() - k,
{
    if k == s.len() {
        assert(spec_trim_back(s) =~= s.subrange(0, k)) by {
            if s.len() > 0 && is_ws(s[s.len() - 1]) {
                assert(!is_ws(s[s.len() - 1]));
            }
        }
    } else {
        assert(is_ws(s[s.len() - 1]));
        let t = s.drop_last();
        lemma_trim_back_subrange(t, k);
        assert(t.subrange(0, k) =~= s.subrange(0, k));
    }
}

/// Returns the argument without leading and trailing whitespace.
pub fn trim_str(s: &str) -> (r: String)
    ensures
        r@ == spec_trim(s@),
{
    let n: usize = s.unicode_len();
    let mut start: usize = 0;
    while start < n && char_is_ws(s.get_char(start))
        invariant
            0 <= start <= n,
            n == s@.len(),
            forall|j: int| 0 <= j < start ==> is_ws(s@[j]),
        decreases n - start,
    {
        start = start + 1;
    }
    let mut end: usize = n;
    while end > start && char_is_ws(s.get_char(end - 1))
        invariant
            start <= end <= n,
            n == s@.len(),
            forall|j: int| end <= j < n ==> is_ws(s@[j]),
        decreases end,
    {
        end = end - 1;
    }
    proof {
        lemma_trim_front_subrange(s@, start as int);
        let t = s@.subrange(start as int, s@.len() as int);
        lemma_trim_back_subrange(t, end - start);
        assert(t.subrange(0, end - start) =~= s@.subrange(start as int, end as int));
    }
    s.substring_char(start, end).to_owned()
}

// ----------------------------------------------------------------------
// Lexicographic order on strings.

/// Strict lexicographic order on character sequences, by code point.
pub open spec fn spec_lex_lt(a: Seq<char>, b: Seq<char>) -> bool
    decreases a.len(),
{
    if b.len() == 0 {
        false
    } else if a.len() == 0 {
        true
    } else if a[0] != b[0] {
        (a[0] as int) < (b[0] as int)
    } else {
        spec_lex_lt(a.drop_first(), b.drop_first())
    }
}

/// Any two strings are ordered: one is smaller, or they are equal.
pub proof fn lemma_lex_lt_connected(a: Seq<char>, b: Seq<char>)
    ensures
        spec_lex_lt(a, b) || spec_lex_lt(b, a) || a == b,
    decreases a.len(),
{
    if b.len() == 0 {
        if a.len() == 0 {
            assert(a =~= b);
        }
    } else if a.len() == 0 {
    } else if a[0] != b[0] {
    } else {
        lemma_lex_lt_connected(a.drop_first(), b.drop_first());
        if a.drop_first() == b.drop_first() {
            assert(a.drop_first().len() == a.len() - 1);
            assert(b.drop_first().len() == b.len() - 1);
            assert(a.len() == b.len());
            assert forall|i: int| 0 <= i < a.len() implies a[i] == b[i] by {
                if i > 0 {
                    assert(a[i] == a.drop_first()[i - 1]);
                    assert(b[i] == b.drop_first()[i - 1]);
                }
            }
            assert(a =~= b);
        }
    }
}

/// The lexicographic order is transitive (in its non-strict form).
pub proof fn lemma_lex_lt_trans(a: Seq<char>, b: Seq<char>, c: Seq<char>)
    requires
        spec_lex_lt(a, b) || a == b,
        spec_lex_lt(b, c) || b == c,
    ensures
        spec_lex_lt(a, c) || a == c,
    decreases a.len(),
{
    if a == b || b == c {
    } else {
        if a.len() == 0 {
        } else {
            if a[0] == b[0] && b[0] == c[0] {
                lemma_lex_lt_trans(a.drop_first(), b.drop_first(), c.drop_first());
                if a.drop_first() == c.drop_first() {
                    assert(a.drop_first().len() == a.len() - 1);
                    assert(c.drop_first().len() == c.len() - 1);
                    assert(a.len() == c.len());
                    assert forall|i: int| 0 <= i < a.len() implies a[i] == c[i] by {
                        if i > 0 {
                            assert(a[i] == a.drop_first()[i - 1]);
                            assert(c[i] == c.drop_first()[i - 1]);
                        }
                    }
                    assert(a =~= c);
                }
            }
        }
    }
}

/// Compares two strings lexicographically by code point; returns whether
/// the first is strictly smaller.
pub fn lex_lt(a: &str, b: &str) -> (r: bool)
    ensures
        r == spec_lex_lt(a@, b@),
{
    let an: usize = a.unicode_len();
    let bn: usize = b.unicode_len();
    let mut i: usize = 0;
    proof {
        assert(a@.subrange(0, an as int) =~= a@);
        assert(b@.subrange(0, bn as int) =~= b@);
    }
    loop
        invariant
            0 <= i <= an,
            i <= bn,
            an == a@.len(),
            bn == b@.len(),
            spec_lex_lt(a@, b@) == spec_lex_lt(
                a@.subrange(i as int, an as int),
                b@.subrange(i as int, bn as int),
            ),
        decreases an - i,
    {
        if i >= bn {
            proof {
                assert(b@.subrange(i as int, bn as int).len() == 0);
            }
            return false;
        }
        if i >= an {
            proof {
                assert(a@.subrange(i as int, an as int).len() == 0);
                assert(b@.subrange(i as int, bn as int).len() > 0);
            }
            return true;
        }
        let ca = a.get_char(i);
        let cb = b.get_char(i);
        proof {
            let sa = a@.subrange(i as int, an as int);
            let sb = b@.subrange(i as int, bn as int);
            assert(sa[0] == a@[i as int]);
            assert(sb[0] == b@[i as int]);
            assert(sa.drop_first() =~= a@.subrange(i + 1, an as int));
            assert(sb.drop_first() =~= b@.subrange(i + 1, bn as int));
        }
        if ca != cb {
            return ca < cb;
        }
        i = i + 1;
    }
}

/// Whether two strings hold the same characters.
pub fn str_eq(a: &str, b: &str) -> (r: bool)
    ensures
        r == (a@ == b@),
{
    let an: usize = a.unicode_len();
    let bn: usize = b.unicode_len();
    if an != bn {
        return false;
    }
    let mut i: usize = 0;
    while i < an
        invariant
            0 <= i <= an,
            an == a@.len(),
            an == b@.len(),
            forall|j: int| 0 <= j < i ==> a@[j] == b@[j],
        decreases an - i,
    {
        if a.get_char(i) != b.get_char(i) {
            assert(a@[i as int] != b@[i as int]);
            return false;
        }
        i = i + 1;
    }
    proof {
        assert(a@ =~= b@);
    }
    true
}

// ----------------------------------------------------------------------
// Placeholder letters.

/// The letter standing for the `k`-th embedded dynamic content of a unit:
/// `A` for the first, `B` for the second, and so on through the byte range
/// (wrapping after 256 assignments, which no realistic unit reaches).
pub open spec fn letter_of(k: int) -> char {
    (((65 + (k % 256)) % 256) as u8) as char
}

/// The placeholder token `{{X}}` standing for the `k`-th embedded dynamic
/// content of a unit.
pub open spec fn ph_token(k: int) -> Seq<char> {
    seq!['{', '{', letter_of(k), '}', '}']
}

/// Returns the placeholder letter for index `k`.
pub fn letter_char(k: usize) -> (c: char)
    ensures
        c == letter_of(k as int),
{
    let code: usize = (65 + (k % 256)) % 256;
    (code as u8) as char
}

/// Appends the placeholder token `{{X}}` for index `k` to the string.
pub fn push_ph_token(s: &mut String, k: usize)
    ensures
        final(s)@ == old(s)@ + ph_token(k as int),
{
    push_char(s, '{');
    push_char(s, '{');
    push_char(s, letter_char(k));
    push_char(s, '}');
    push_char(s, '}');
    proof {
        assert(s@ =~= old(s)@ + ph_token(k as int));
    }
}

// ----------------------------------------------------------------------
// Brace trimming (for classifying translated segments).

/// Whether the character is one of the braces that delimit placeholders.
pub open spec fn is_brace(c: char) -> bool {
    c == '{' || c == '}'
}

/// Returns whether the character is a brace.
pub fn char_is_brace(c: char) -> (r: bool)
    ensures
        r == is_brace(c),
{
    c == '{' || c == '}'
}

/// The string without its leading and trailing brace characters.
pub open spec fn spec_trim_braces(s: Seq<char>) -> Seq<char>
    decreases s.len(),
{
    if s.len() > 0 && is_brace(s[0]) {
        spec_trim_braces(s.drop_first())
    } else if s.len() > 0 && is_brace(s[s.len() - 1]) {
        spec_trim_braces(s.drop_last())
    } else {
        s
    }
}

proof fn lemma_trim_braces_subrange(s: Seq<char>, i: int, j: int)
    requires
        0 <= i <= j <= s.len(),
        forall|k: int| 0 <= k < i ==> is_brace(s[k]),
        forall|k: int| j <= k < s.len() ==> is_brace(s[k]),
        i < j ==> !is_brace(s[i]),
        i < j ==> !is_brace(s[j - 1]),
    ensures
        spec_trim_braces(s) == s.subrange(i, j),
    decreases s.len(),
{
    if i > 0 {
        assert(is_brace(s[0]));
        let t = s.drop_first();
        lemma_trim_braces_subrange(t, i - 1, j - 1);
        assert(t.subrange(i - 1, j - 1) =~= s.subrange(i, j));
    } else if j < s.len() {
        assert(is_brace(s[s.len() - 1]));
        if s.len() > 0 && is_brace(s[0]) {
            assert(i < j ==> !is_brace(s[i]));
            assert(i == j);
            let t = s.drop_first();
            lemma_trim_braces_subrange(t, 0, 0);
            assert(t.subrange(0, 0) =~= s.subrange(i, j));
        } else {
            let t = s.drop_last();
            lemma_trim_braces_subrange(t, i, j);
            assert(t.subrange(i, j) =~= s.subrange(i, j));
        }
    } else {
        assert(spec_trim_braces(s) =~= s.subrange(i, j)) by {
            if s.len() > 0 && is_brace(s[0]) {
                assert(i == 0 && j == s.len() && i < j);
                assert(!is_brace(s[i]));
            } else if s.len() > 0 && is_brace(s[s.len() - 1]) {
                assert(!is_brace(s[j - 1]));
            }
        }
    }
}

/// Returns the argument without leading and trailing `{` and `}` characters.
pub fn trim_braces(s: &str) -> (r: String)
    ensures
        r@ == spec_trim_braces(s@),
{
    let n: usize = s.unicode_len();
    let mut start: usize = 0;
    while start < n && char_is_brace(s.get_char(start))
        invariant
            0 <= start <= n,
            n == s@.len(),
            forall|j: int| 0 <= j < start ==> is_brace(s@[j]),
        decreases n - start,
    {
        start = start + 1;
    }
    let mut end: usize = n;
    while end > start && char_is_brace(s.get_char(end - 1))
        invariant
            start <= end <= n,
            n == s@.len(),
            forall|j: int| end <= j < n ==> is_brace(s@[j]),
        decreases end,
    {
        end = end - 1;
    }
    proof {
        lemma_trim_braces_subrange(s@, start as int, end as int);
    }
    s.substring_char(start, end).to_owned()
}

} // verus!

