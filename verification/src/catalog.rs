//! The translation catalog.
//!
//! A catalog maps locale tags to flat key/string tables.  It is parsed from a
//! TOML document whose top-level tables are the locales.  A table named
//! `global.X` is a fallback scope: its entries are merged into locale `X`'s
//! table as defaults, filling only the keys `X` does not define itself, and
//! the scope is then discarded, so that after merging every locale tag is a
//! genuine runtime locale value.  For branch synthesis the locales are then
//! taken in ascending lexicographic order.

use vstd::prelude::*;

use crate::strings::{lex_lt, spec_lex_lt, str_eq};

verus! {

broadcast use vstd::seq_lib::group_to_multiset_ensures;

/// One locale's table, as key/value character sequences.
pub type SpecTable = Seq<(Seq<char>, Seq<char>)>;

/// A whole catalog: locale tags with their tables.
pub type SpecCatalog = Seq<(Seq<char>, SpecTable)>;

/// The per-locale translation tables as parsed, `global.*` scopes included,
/// in document order.
#[derive(Debug, PartialEq)]
pub struct TransContent {
    pub map: Vec<(String, Vec<(String, String)>)>,
}

/// The merged translation tables, sorted by locale tag.
#[derive(Debug, PartialEq)]
pub struct OrderedTransContent {
    pub map: Vec<(String, Vec<(String, String)>)>,
}

impl View for TransContent {
    type V = SpecCatalog;

    open spec fn view(&self) -> SpecCatalog {
        self.map.deep_view()
    }
}

impl View for OrderedTransContent {
    type V = SpecCatalog;

    open spec fn view(&self) -> SpecCatalog {
        self.map.deep_view()
    }
}

// ----------------------------------------------------------------------
// Well-formedness.

/// Whether a table defines each key at most once.
pub open spec fn spec_table_distinct(t: SpecTable) -> bool {
    forall|i: int, j: int| 0 <= i < j < t.len() ==> t[i].0 != t[j].0
}

/// Whether every locale tag occurs at most once and every table is distinct.
pub open spec fn spec_wf_catalog(m: SpecCatalog) -> bool {
    &&& forall|i: int, j: int| 0 <= i < j < m.len() ==> m[i].0 != m[j].0
    &&& forall|i: int| 0 <= i < m.len() ==> spec_table_distinct(#[trigger] m[i].1)
}

// ----------------------------------------------------------------------
// Parsing (trusted).

/// What parsing a catalog document yields: `None` where the document is not
/// well-formed TOML whose top-level tables map strings to strings, and
/// otherwise the locale tables in ascending order of locale tag.
pub uninterp spec fn toml_locale_tables(s: Seq<char>) -> Option<SpecCatalog>;

/// Relies on `toml::from_str`: parses the catalog document into its locale
/// tables.  TOML forbids defining the same table or key twice, so the parsed
/// catalog defines each locale tag and each key within a table at most once;
/// the result depends on the document text alone.
#[verifier::external_body]
pub fn parse_trans_content(trans_source: &str) -> (r: Result<TransContent, String>)
    ensures
        r is Ok <==> toml_locale_tables(trans_source@) is Some,
        r is Ok ==> r->Ok_0@ == toml_locale_tables(trans_source@)->Some_0,
        r is Ok ==> spec_wf_catalog(r->Ok_0@),
{
    match toml::from_str::<
        std::collections::BTreeMap<String, std::collections::BTreeMap<String, String>>,
    >(trans_source) {
        Ok(m) => Ok(TransContent {
            map: m.into_iter().map(|(l, t)| (l, t.into_iter().collect())).collect(),
        }),
        Err(e) => Err(e.to_string()),
    }
}

// ----------------------------------------------------------------------
// Table lookup.

/// The value a table holds for a key, taking the first entry where the key
/// occurs more than once.
pub open spec fn spec_lookup(t: SpecTable, key: Seq<char>) -> Option<Seq<char>>
    decreases t.len(),
{
    if t.len() == 0 {
        Option::None
    } else if t[0].0 == key {
        Option::Some(t[0].1)
    } else {
        spec_lookup(t.drop_first(), key)
    }
}

/// Looks a key up in one locale's table.
pub fn table_lookup(t: &Vec<(String, String)>, key: &str) -> (r: Option<String>)
    ensures
        match r {
            Option::Some(v) => spec_lookup(t.deep_view(), key@) == Option::Some(v@),
            Option::None => spec_lookup(t.deep_view(), key@) is None,
        },
{
    let n: usize = t.len();
    let mut i: usize = 0;
    proof {
        assert(t.deep_view().subrange(0, n as int) =~= t.deep_view());
    }
    while i < n
        invariant
            0 <= i <= n,
            n == t.deep_view().len(),
            spec_lookup(t.deep_view(), key@) == spec_lookup(
                t.deep_view().subrange(i as int, n as int),
                key@,
            ),
        decreases n - i,
    {
        let ghost rest = t.deep_view().subrange(i as int, n as int);
        proof {
            assert(rest[0] == t.deep_view()[i as int]);
            assert(rest.drop_first() =~= t.deep_view().subrange(i + 1, n as int));
        }
        if str_eq(t[i].0.as_str(), key) {
            let v = t[i].1.clone();
            return Option::Some(v);
        }
        i = i + 1;
    }
    proof {
        assert(t.deep_view().subrange(n as int, n as int).len() == 0);
    }
    Option::None
}

// ----------------------------------------------------------------------
// The global fallback scopes.

/// Whether a locale tag begins with the fallback-scope prefix `global.`.
pub open spec fn spec_is_global(s: Seq<char>) -> bool {
    s.len() >= 7 && s[0] == 'g' && s[1] == 'l' && s[2] == 'o' && s[3] == 'b' && s[4] == 'a'
        && s[5] == 'l' && s[6] == '.'
}

/// The locale tag a fallback scope targets: the tag with every leading
/// `global.` prefix removed.
pub open spec fn spec_strip_global(s: Seq<char>) -> Seq<char>
    decreases s.len(),
{
    if spec_is_global(s) {
        spec_strip_global(s.subrange(7, s.len() as int))
    } else {
        s
    }
}

/// Returns whether the locale tag begins with `global.`.
pub fn is_global_name(s: &str) -> (r: bool)
    ensures
        r == spec_is_global(s@),
{
    let n: usize = s.unicode_len();
    n >= 7 && s.get_char(0) == 'g' && s.get_char(1) == 'l' && s.get_char(2) == 'o' && s.get_char(3)
        == 'b' && s.get_char(4) == 'a' && s.get_char(5) == 'l' && s.get_char(6) == '.'
}

/// Returns the locale tag a fallback scope targets.
pub fn strip_global_name(s: &str) -> (r: String)
    ensures
        r@ == spec_strip_global(s@),
{
    let mut cur: String = s.to_owned();
    while is_global_name(cur.as_str())
        invariant
            spec_strip_global(s@) == spec_strip_global(cur@),
        decreases cur@.len(),
    {
        let n: usize = cur.unicode_len();
        cur = cur.as_str().substring_char(7, n).to_owned();
    }
    cur
}

// ----------------------------------------------------------------------
// Merging.

/// Extends a table with default entries, filling only the keys the table
/// does not already define, in the defaults' own order.
pub open spec fn spec_add_defaults(t: SpecTable, d: SpecTable) -> SpecTable
    decreases d.len(),
{
    if d.len() == 0 {
        t
    } else {
        let t1 = if spec_lookup(t, d[0].0) is Some {
            t
        } else {
            t.push(d[0])
        };
        spec_add_defaults(t1, d.drop_first())
    }
}

/// The first position of a locale tag in the catalog.
pub open spec fn spec_find_locale(m: SpecCatalog, name: Seq<char>) -> Option<int>
    decreases m.len(),
{
    if m.len() == 0 {
        Option::None
    } else if m[0].0 == name {
        Option::Some(0)
    } else {
        match spec_find_locale(m.drop_first(), name) {
            Option::Some(i) => Option::Some(i + 1),
            Option::None => Option::None,
        }
    }
}

/// Applies one fallback scope to the catalog: its entries become defaults of
/// the locale it targets, or a new locale where none exists yet.
pub open spec fn spec_apply_global(m: SpecCatalog, name: Seq<char>, tbl: SpecTable) -> SpecCatalog {
    let target = spec_strip_global(name);
    match spec_find_locale(m, target) {
        Option::Some(i) => m.update(i, (m[i].0, spec_add_defaults(m[i].1, tbl))),
        Option::None => m.push((target, tbl)),
    }
}

/// The catalog's genuine locale entries, in document order.
pub open spec fn spec_base(m: SpecCatalog) -> SpecCatalog
    decreases m.len(),
{
    if m.len() == 0 {
        Seq::empty()
    } else if spec_is_global(m[0].0) {
        spec_base(m.drop_first())
    } else {
        seq![m[0]] + spec_base(m.drop_first())
    }
}

/// The catalog's fallback scopes, in document order.
pub open spec fn spec_globals(m: SpecCatalog) -> SpecCatalog
    decreases m.len(),
{
    if m.len() == 0 {
        Seq::empty()
    } else if spec_is_global(m[0].0) {
        seq![m[0]] + spec_globals(m.drop_first())
    } else {
        spec_globals(m.drop_first())
    }
}

/// Applies a list of fallback scopes in order.
pub open spec fn spec_fold_globals(m: SpecCatalog, gs: SpecCatalog) -> SpecCatalog
    decreases gs.len(),
{
    if gs.len() == 0 {
        m
    } else {
        spec_fold_globals(spec_apply_global(m, gs[0].0, gs[0].1), gs.drop_first())
    }
}

/// The merged catalog: the genuine locales with every fallback scope folded
/// in, in document order.
pub open spec fn spec_merge(m: SpecCatalog) -> SpecCatalog {
    spec_fold_globals(spec_base(m), spec_globals(m))
}

/// Looks a key up in one locale's table.
fn table_contains(t: &Vec<(String, String)>, key: &str) -> (r: bool)
    ensures
        r == (spec_lookup(t.deep_view(), key@) is Some),
{
    match table_lookup(t, key) {
        Option::Some(_) => true,
        Option::None => false,
    }
}

/// Extends a table in place with default entries for the keys it lacks.
fn add_defaults(t: &mut Vec<(String, String)>, d: Vec<(String, String)>)
    ensures
        final(t).deep_view() == spec_add_defaults(old(t).deep_view(), d.deep_view()),
{
    let mut d = d;
    let ghost d0 = d.deep_view();
    while d.len() > 0
        invariant
            spec_add_defaults(old(t).deep_view(), d0) == spec_add_defaults(
                t.deep_view(),
                d.deep_view(),
            ),
        decreases d.len(),
    {
        let ghost dv = d.deep_view();
        let ghost tv = t.deep_view();
        let entry = d.remove(0);
        proof {
            assert(d.deep_view() =~= dv.drop_first());
            assert(dv[0] == (entry.0@, entry.1@));
        }
        if !table_contains(t, entry.0.as_str()) {
            t.push(entry);
            proof {
                assert(t.deep_view() =~= tv.push(dv[0]));
            }
        } else {
            proof {
                assert(t.deep_view() =~= tv);
            }
        }
    }
    proof {
        assert(d.deep_view().len() == 0);
    }
}

/// Finds the first entry of a locale tag in the catalog.
fn find_locale(m: &Vec<(String, Vec<(String, String)>)>, name: &str) -> (r: Option<usize>)
    ensures
        match r {
            Option::Some(i) => spec_find_locale(m.deep_view(), name@) == Option::Some(i as int)
                && i < m.len(),
            Option::None => spec_find_locale(m.deep_view(), name@) is None,
        },
{
    let n: usize = m.len();
    let mut i: usize = 0;
    proof {
        assert(m.deep_view().subrange(0, n as int) =~= m.deep_view());
    }
    while i < n
        invariant
            0 <= i <= n,
            n == m.deep_view().len(),
            spec_find_locale(m.deep_view(), name@) == (match spec_find_locale(
                m.deep_view().subrange(i as int, n as int),
                name@,
            ) {
                Option::Some(k) => Option::Some(k + i),
                Option::None => Option::None,
            }),
        decreases n - i,
    {
        let ghost rest = m.deep_view().subrange(i as int, n as int);
        proof {
            assert(rest[0] == m.deep_view()[i as int]);
            assert(rest.drop_first() =~= m.deep_view().subrange(i + 1, n as int));
        }
        if str_eq(m[i].0.as_str(), name) {
            return Option::Some(i);
        }
        i = i + 1;
    }
    proof {
        assert(m.deep_view().subrange(n as int, n as int).len() == 0);
    }
    Option::None
}

/// Merges every `global.*` fallback scope into the locale it targets and
/// discards the scope, leaving only genuine locale tags.
pub fn merge_map(content: TransContent) -> (r: TransContent)
    ensures
        r@ == spec_merge(content@),
{
    let ghost orig = content@;
    let mut src = content.map;
    let mut base: Vec<(String, Vec<(String, String)>)> = Vec::new();
    let mut globals: Vec<(String, Vec<(String, String)>)> = Vec::new();
    while src.len() > 0
        invariant
            spec_base(orig) == base.deep_view() + spec_base(src.deep_view()),
            spec_globals(orig) == globals.deep_view() + spec_globals(src.deep_view()),
        decreases src.len(),
    {
        let ghost sv = src.deep_view();
        let ghost bv = base.deep_view();
        let ghost gv = globals.deep_view();
        let entry = src.remove(0);
        proof {
            assert(src.deep_view() =~= sv.drop_first());
            assert(sv[0] == (entry.0@, entry.1.deep_view()));
        }
        if is_global_name(entry.0.as_str()) {
            globals.push(entry);
            proof {
                assert(globals.deep_view() =~= gv.push(sv[0]));
                assert(gv.push(sv[0]) + spec_globals(sv.drop_first()) =~= gv + spec_globals(sv));
            }
        } else {
            base.push(entry);
            proof {
                assert(base.deep_view() =~= bv.push(sv[0]));
                assert(bv.push(sv[0]) + spec_base(sv.drop_first()) =~= bv + spec_base(sv));
            }
        }
    }
    proof {
        assert(spec_base(src.deep_view()).len() == 0);
        assert(spec_globals(src.deep_view()).len() == 0);
        assert(spec_base(orig) =~= base.deep_view());
        assert(spec_globals(orig) =~= globals.deep_view());
    }
    while globals.len() > 0
        invariant
            spec_merge(orig) == spec_fold_globals(base.deep_view(), globals.deep_view()),
        decreases globals.len(),
    {
        let ghost gv = globals.deep_view();
        let ghost bv = base.deep_view();
        let g = globals.remove(0);
        proof {
            assert(globals.deep_view() =~= gv.drop_first());
            assert(gv[0] == (g.0@, g.1.deep_view()));
        }
        let target = strip_global_name(g.0.as_str());
        match find_locale(&base, target.as_str()) {
            Option::Some(i) => {
                let mut entry = base.remove(i);
                add_defaults(&mut entry.1, g.1);
                base.insert(i, entry);
                proof {
                    assert(base.deep_view() =~= spec_apply_global(bv, gv[0].0, gv[0].1));
                }
            },
            Option::None => {
                base.push((target, g.1));
                proof {
                    assert(base.deep_view() =~= spec_apply_global(bv, gv[0].0, gv[0].1));
                }
            },
        }
    }
    proof {
        assert(globals.deep_view().len() == 0);
    }
    TransContent { map: base }
}

// ----------------------------------------------------------------------
// Ordering.

/// Whether the catalog's locale tags come in ascending lexicographic order.
pub open spec fn spec_sorted_catalog(m: SpecCatalog) -> bool {
    forall|i: int, j: int|
        0 <= i < j < m.len() ==> spec_lex_lt(m[i].0, m[j].0) || m[i].0 == m[j].0
}

/// Sorts the merged catalog's locales into ascending lexicographic order.
/// The result holds the same entries, sorted.
pub fn order_trans_content(content: TransContent) -> (r: OrderedTransContent)
    ensures
        spec_sorted_catalog(r@),
        r@.to_multiset() == content@.to_multiset(),
{
    let ghost orig = content@;
    let mut src = content.map;
    let mut out: Vec<(String, Vec<(String, String)>)> = Vec::new();
    while src.len() > 0
        invariant
            spec_sorted_catalog(out.deep_view()),
            forall|i: int, j: int|
                #![trigger out.deep_view()[i], src.deep_view()[j]]
                0 <= i < out.deep_view().len() && 0 <= j < src.deep_view().len() ==> spec_lex_lt(
                    out.deep_view()[i].0,
                    src.deep_view()[j].0,
                ) || out.deep_view()[i].0 == src.deep_view()[j].0,
            out.deep_view().to_multiset().add(src.deep_view().to_multiset()) == orig.to_multiset(),
        decreases src.len(),
    {
        let n: usize = src.len();
        let mut mi: usize = 0;
        let mut i: usize = 1;
        while i < n
            invariant
                0 <= mi < i <= n,
                n == src.deep_view().len(),
                forall|j: int|
                    0 <= j < i ==> spec_lex_lt(
                        src.deep_view()[mi as int].0,
                        #[trigger] src.deep_view()[j].0,
                    ) || src.deep_view()[mi as int].0 == src.deep_view()[j].0,
            decreases n - i,
        {
            if lex_lt(src[i].0.as_str(), src[mi].0.as_str()) {
                proof {
                    crate::strings::lemma_lex_lt_connected(
                        src.deep_view()[i as int].0,
                        src.deep_view()[mi as int].0,
                    );
                    assert forall|j: int| 0 <= j < i + 1 implies spec_lex_lt(
                        src.deep_view()[i as int].0,
                        #[trigger] src.deep_view()[j].0,
                    ) || src.deep_view()[i as int].0 == src.deep_view()[j].0 by {
                        if j < i {
                            crate::strings::lemma_lex_lt_trans(
                                src.deep_view()[i as int].0,
                                src.deep_view()[mi as int].0,
                                src.deep_view()[j].0,
                            );
                        }
                    }
                }
                mi = i;
            } else {
                proof {
                    crate::strings::lemma_lex_lt_connected(
                        src.deep_view()[i as int].0,
                        src.deep_view()[mi as int].0,
                    );
                }
            }
            i = i + 1;
        }
        let ghost sv = src.deep_view();
        let ghost ov = out.deep_view();
        let item = src.remove(mi);
        out.push(item);
        proof {
            assert(src.deep_view() =~= sv.remove(mi as int));
            assert(out.deep_view() =~= ov.push(sv[mi as int]));
            let x = sv[mi as int];
            assert(ov.push(x).to_multiset() =~= ov.to_multiset().insert(x));
            assert(sv.remove(mi as int).to_multiset() =~= sv.to_multiset().remove(x));
            assert(sv.contains(x));
            assert(sv.to_multiset().count(x) > 0);
            assert(out.deep_view().to_multiset().add(src.deep_view().to_multiset())
                =~= orig.to_multiset());
            assert forall|a: int, b: int|
                #![trigger out.deep_view()[a], src.deep_view()[b]]
                0 <= a < out.deep_view().len() && 0 <= b < src.deep_view().len() implies
                spec_lex_lt(out.deep_view()[a].0, src.deep_view()[b].0)
                || out.deep_view()[a].0 == src.deep_view()[b].0 by {
                let x = out.deep_view()[a];
                let y = src.deep_view()[b];
                if a < ov.len() {
                    assert(x == ov[a]);
                    if b < mi {
                        assert(y == sv[b]);
                    } else {
                        assert(y == sv[b + 1]);
                    }
                } else {
                    assert(x == sv[mi as int]);
                    if b < mi {
                        assert(y == sv[b]);
                    } else {
                        assert(y == sv[b + 1]);
                    }
                }
            }
        }
    }
    proof {
        assert(src.deep_view().to_multiset().len() == 0);
        assert(out.deep_view().to_multiset().add(src.deep_view().to_multiset())
            =~= out.deep_view().to_multiset());
    }
    OrderedTransContent { map: out }
}

// ----------------------------------------------------------------------
// What merging promises.

/// The table of the first entry of a locale tag, if any.
pub open spec fn spec_locale_lookup(m: SpecCatalog, name: Seq<char>) -> Option<SpecTable> {
    match spec_find_locale(m, name) {
        Option::Some(i) => Option::Some(m[i].1),
        Option::None => Option::None,
    }
}

proof fn lemma_find_locale_bounds(m: SpecCatalog, name: Seq<char>)
    ensures
        spec_find_locale(m, name) is Some ==> {
            let i = spec_find_locale(m, name)->Some_0;
            &&& 0 <= i < m.len()
            &&& m[i].0 == name
            &&& forall|j: int| 0 <= j < i ==> (#[trigger] m[j]).0 != name
        },
        spec_find_locale(m, name) is None ==> forall|j: int|
            0 <= j < m.len() ==> (#[trigger] m[j]).0 != name,
    decreases m.len(),
{
    if m.len() == 0 {
    } else if m[0].0 == name {
    } else {
        lemma_find_locale_bounds(m.drop_first(), name);
        assert forall|j: int|
            0 <= j < m.len() && (match spec_find_locale(m, name) {
                Option::Some(i) => j < i,
                Option::None => true,
            }) implies (#[trigger] m[j]).0 != name by {
            if j > 0 {
                assert(m[j] == m.drop_first()[j - 1]);
            }
        }
    }
}

/// Looking a key up in a table extended by one entry.
proof fn lemma_lookup_push(t: SpecTable, e: (Seq<char>, Seq<char>), k: Seq<char>)
    ensures
        spec_lookup(t.push(e), k) == (if spec_lookup(t, k) is Some {
            spec_lookup(t, k)
        } else if e.0 == k {
            Option::Some(e.1)
        } else {
            Option::<Seq<char>>::None
        }),
    decreases t.len(),
{
    if t.len() == 0 {
        assert(t.push(e)[0] == e);
        assert(t.push(e).drop_first() =~= Seq::<(Seq<char>, Seq<char>)>::empty());
    } else {
        assert(t.push(e)[0] == t[0]);
        assert(t.push(e).drop_first() =~= t.drop_first().push(e));
        lemma_lookup_push(t.drop_first(), e, k);
    }
}

/// Filling a table with defaults: an existing binding wins; a key the table
/// lacks takes the defaults' value.
pub proof fn lemma_add_defaults_lookup(t: SpecTable, d: SpecTable, k: Seq<char>)
    ensures
        spec_lookup(spec_add_defaults(t, d), k) == (if spec_lookup(t, k) is Some {
            spec_lookup(t, k)
        } else {
            spec_lookup(d, k)
        }),
    decreases d.len(),
{
    if d.len() == 0 {
    } else {
        let e = d[0];
        if spec_lookup(t, e.0) is Some {
            lemma_add_defaults_lookup(t, d.drop_first(), k);
            if spec_lookup(t, k) is None && e.0 == k {
                assert(false);
            }
        } else {
            let t1 = t.push(e);
            lemma_lookup_push(t, e, k);
            lemma_add_defaults_lookup(t1, d.drop_first(), k);
        }
    }
}

/// The keys a merged table binds come from the locale's own table or from
/// the defaults, with the locale's own binding taking precedence.
///
/// Where a catalog holds one fallback scope, targeting `locale`, and a
/// genuine `locale` entry with table `T`: in the merged catalog, a key `T`
/// defines keeps `T`'s value, and a key only the fallback scope defines
/// takes the scope's value.
pub proof fn lemma_global_merge_precedence(
    m: SpecCatalog,
    gname: Seq<char>,
    gtbl: SpecTable,
    locale: Seq<char>,
    t: SpecTable,
    k: Seq<char>,
)
    requires
        spec_globals(m) == seq![(gname, gtbl)],
        spec_strip_global(gname) == locale,
        spec_locale_lookup(spec_base(m), locale) == Option::Some(t),
    ensures
        spec_lookup(t, k) is Some ==> spec_locale_lookup(spec_merge(m), locale) is Some
            && spec_lookup(spec_locale_lookup(spec_merge(m), locale)->Some_0, k) == spec_lookup(
            t,
            k,
        ),
        spec_lookup(t, k) is None ==> spec_locale_lookup(spec_merge(m), locale) is Some
            && spec_lookup(spec_locale_lookup(spec_merge(m), locale)->Some_0, k) == spec_lookup(
            gtbl,
            k,
        ),
{
    let base = spec_base(m);
    let gs = spec_globals(m);
    assert(gs.len() == 1) by {
        assert(gs == seq![(gname, gtbl)]);
        assert(seq![(gname, gtbl)].len() == 1);
    }
    assert(gs[0] == (gname, gtbl)) by {
        assert(seq![(gname, gtbl)][0] == (gname, gtbl));
    }
    assert(gs.drop_first() =~= Seq::<(Seq<char>, SpecTable)>::empty());
    assert(spec_fold_globals(base, gs) == spec_fold_globals(
        spec_apply_global(base, gs[0].0, gs[0].1),
        gs.drop_first(),
    ));
    assert(spec_fold_globals(spec_apply_global(base, gname, gtbl), gs.drop_first())
        == spec_apply_global(base, gname, gtbl));
    assert(spec_merge(m) == spec_apply_global(base, gname, gtbl));
    lemma_find_locale_bounds(base, locale);
    let i = spec_find_locale(base, locale)->Some_0;
    let merged = spec_apply_global(base, gname, gtbl);
    assert(merged == base.update(i, (base[i].0, spec_add_defaults(base[i].1, gtbl))));
    assert(merged.len() == base.len());
    assert forall|j: int| 0 <= j < merged.len() implies (#[trigger] merged[j]).0 == base[j].0 by {}
    lemma_find_locale_names(base, merged, locale);
    assert(spec_find_locale(merged, locale) == spec_find_locale(base, locale));
    assert(merged[i].1 == spec_add_defaults(t, gtbl));
    lemma_add_defaults_lookup(t, gtbl, k);
}

/// Two catalogs whose entries carry the same locale tags position every
/// tag identically.
proof fn lemma_find_locale_names(a: SpecCatalog, b: SpecCatalog, name: Seq<char>)
    requires
        a.len() == b.len(),
        forall|j: int| 0 <= j < a.len() ==> (#[trigger] a[j]).0 == b[j].0,
    ensures
        spec_find_locale(a, name) == spec_find_locale(b, name),
    decreases a.len(),
{
    if a.len() == 0 {
    } else {
        assert(a[0].0 == b[0].0);
        assert forall|j: int| 0 <= j < a.drop_first().len() implies (#[trigger] a.drop_first()[
            j]).0 == b.drop_first()[j].0 by {
            assert(a.drop_first()[j] == a[j + 1]);
            assert(b.drop_first()[j] == b[j + 1]);
        }
        lemma_find_locale_names(a.drop_first(), b.drop_first(), name);
    }
}

// ----------------------------------------------------------------------
// What ordering promises.

/// Whether every locale tag occurs at most once.
pub open spec fn spec_distinct_locales(m: SpecCatalog) -> bool {
    forall|i: int, j: int| 0 <= i < j < m.len() ==> m[i].0 != m[j].0
}

/// With distinct locale tags, looking a tag up finds exactly the entries
/// the catalog holds.
proof fn lemma_lookup_iff_contains(m: SpecCatalog, name: Seq<char>, t: SpecTable)
    requires
        spec_distinct_locales(m),
    ensures
        spec_locale_lookup(m, name) == Option::Some(t) <==> m.contains((name, t)),
{
    lemma_find_locale_bounds(m, name);
    if spec_locale_lookup(m, name) == Option::Some(t) {
        let i = spec_find_locale(m, name)->Some_0;
        assert(m[i] == (name, t));
        assert(m.contains((name, t)));
    }
    if m.contains((name, t)) {
        let k = choose|k: int| 0 <= k < m.len() && m[k] == (name, t);
        assert(m[k].0 == name);
        if spec_find_locale(m, name) is None {
            assert(m[k].0 != name);
        }
        let i = spec_find_locale(m, name)->Some_0;
        if i != k {
            if i < k {
                assert(m[i].0 != m[k].0);
            } else {
                assert(m[k].0 != m[i].0);
            }
        }
        assert(i == k);
    }
}

/// Distinct locale tags survive any rearrangement of the entries.
proof fn lemma_multiset_distinct_names(a: SpecCatalog, b: SpecCatalog)
    requires
        spec_distinct_locales(a),
        a.to_multiset() == b.to_multiset(),
    ensures
        spec_distinct_locales(b),
{
    assert(a.no_duplicates()) by {
        assert forall|i: int, j: int|
            0 <= i < a.len() && 0 <= j < a.len() && i != j implies a[i] != a[j] by {
            if i < j {
                assert(a[i].0 != a[j].0);
            } else {
                assert(a[j].0 != a[i].0);
            }
        }
    }
    a.lemma_multiset_has_no_duplicates();
    assert(forall|x: (Seq<char>, SpecTable)|
        b.to_multiset().contains(x) ==> b.to_multiset().count(x) == 1);
    b.lemma_multiset_has_no_duplicates_conv();
    assert forall|i: int, j: int| 0 <= i < j < b.len() implies b[i].0 != b[j].0 by {
        if b[i].0 == b[j].0 {
            assert(b[i] != b[j]);
            assert(b.contains(b[i]));
            assert(b.contains(b[j]));
            assert(b.to_multiset().count(b[i]) > 0);
            assert(b.to_multiset().count(b[j]) > 0);
            assert(a.contains(b[i]));
            assert(a.contains(b[j]));
            let ka = choose|ka: int| 0 <= ka < a.len() && a[ka] == b[i];
            let kb = choose|kb: int| 0 <= kb < a.len() && a[kb] == b[j];
            assert(ka != kb);
            if ka < kb {
                assert(a[ka].0 != a[kb].0);
            } else {
                assert(a[kb].0 != a[ka].0);
            }
        }
    }
}

/// Reordering the merged catalog — as sorting its locales does — keeps
/// every locale's table: the branch built for a locale uses the same table
/// before and after ordering.
pub proof fn lemma_order_preserves_tables(m: SpecCatalog, s: SpecCatalog, name: Seq<char>)
    requires
        spec_distinct_locales(m),
        s.to_multiset() == m.to_multiset(),
    ensures
        spec_locale_lookup(s, name) == spec_locale_lookup(m, name),
{
    lemma_multiset_distinct_names(m, s);
    match spec_locale_lookup(m, name) {
        Option::Some(t) => {
            lemma_lookup_iff_contains(m, name, t);
            assert(m.contains((name, t)));
            assert(m.to_multiset().count((name, t)) > 0);
            assert(s.to_multiset().count((name, t)) > 0);
            assert(s.contains((name, t)));
            lemma_lookup_iff_contains(s, name, t);
        },
        Option::None => {
            match spec_locale_lookup(s, name) {
                Option::Some(t2) => {
                    lemma_lookup_iff_contains(s, name, t2);
                    assert(s.contains((name, t2)));
                    assert(s.to_multiset().count((name, t2)) > 0);
                    assert(m.to_multiset().count((name, t2)) > 0);
                    assert(m.contains((name, t2)));
                    lemma_lookup_iff_contains(m, name, t2);
                },
                Option::None => {},
            }
        },
    }
}

/// Merging keeps the locale tags distinct: a fallback scope either fills an
/// existing locale in place or adds a tag that was not there.
pub proof fn lemma_merge_distinct(m: SpecCatalog)
    requires
        spec_distinct_locales(m),
    ensures
        spec_distinct_locales(spec_merge(m)),
{
    lemma_base_distinct(m);
    lemma_fold_globals_distinct(spec_base(m), spec_globals(m));
}

proof fn lemma_base_distinct(m: SpecCatalog)
    requires
        spec_distinct_locales(m),
    ensures
        spec_distinct_locales(spec_base(m)),
        forall|x: (Seq<char>, SpecTable)| spec_base(m).contains(x) ==> m.contains(x),
    decreases m.len(),
{
    if m.len() == 0 {
    } else {
        assert forall|i: int, j: int|
            0 <= i < j < m.drop_first().len() implies m.drop_first()[i].0 != m.drop_first()[
        j].0 by {
            assert(m.drop_first()[i] == m[i + 1]);
            assert(m.drop_first()[j] == m[j + 1]);
        }
        lemma_base_distinct(m.drop_first());
        let rest = spec_base(m.drop_first());
        assert forall|x: (Seq<char>, SpecTable)|
            m.drop_first().contains(x) implies m.contains(x) by {
            let k = choose|k: int| 0 <= k < m.drop_first().len() && m.drop_first()[k] == x;
            assert(m[k + 1] == x);
        }
        if spec_is_global(m[0].0) {
        } else {
            let b = seq![m[0]] + rest;
            assert forall|i: int, j: int| 0 <= i < j < b.len() implies b[i].0 != b[j].0 by {
                if i == 0 {
                    assert(b[j] == rest[j - 1]);
                    assert(m.drop_first().contains(rest[j - 1]));
                    let k = choose|k: int|
                        0 <= k < m.drop_first().len() && m.drop_first()[k] == rest[j - 1];
                    assert(m[k + 1] == rest[j - 1]);
                    assert(m[0].0 != m[k + 1].0);
                } else {
                    assert(b[i] == rest[i - 1]);
                    assert(b[j] == rest[j - 1]);
                }
            }
            assert forall|x: (Seq<char>, SpecTable)| b.contains(x) implies m.contains(x) by {
                let k = choose|k: int| 0 <= k < b.len() && b[k] == x;
                if k == 0 {
                    assert(m[0] == x);
                } else {
                    assert(rest.contains(x)) by {
                        assert(rest[k - 1] == x);
                    }
                }
            }
        }
    }
}

proof fn lemma_apply_global_distinct(m: SpecCatalog, name: Seq<char>, tbl: SpecTable)
    requires
        spec_distinct_locales(m),
    ensures
        spec_distinct_locales(spec_apply_global(m, name, tbl)),
{
    let target = spec_strip_global(name);
    lemma_find_locale_bounds(m, target);
    match spec_find_locale(m, target) {
        Option::Some(i) => {
            let r = m.update(i, (m[i].0, spec_add_defaults(m[i].1, tbl)));
            assert forall|a: int, b: int| 0 <= a < b < r.len() implies r[a].0 != r[b].0 by {
                assert(r[a].0 == m[a].0);
                assert(r[b].0 == m[b].0);
            }
        },
        Option::None => {
            let r = m.push((target, tbl));
            assert forall|a: int, b: int| 0 <= a < b < r.len() implies r[a].0 != r[b].0 by {
                if b == r.len() - 1 {
                    assert(r[a] == m[a]);
                    assert(m[a].0 != target);
                }
            }
        },
    }
}

proof fn lemma_fold_globals_distinct(m: SpecCatalog, gs: SpecCatalog)
    requires
        spec_distinct_locales(m),
    ensures
        spec_distinct_locales(spec_fold_globals(m, gs)),
    decreases gs.len(),
{
    if gs.len() == 0 {
    } else {
        lemma_apply_global_distinct(m, gs[0].0, gs[0].1);
        lemma_fold_globals_distinct(spec_apply_global(m, gs[0].0, gs[0].1), gs.drop_first());
    }
}

} // verus!
