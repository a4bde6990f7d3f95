//! Deriving translation keys.
//!
//! A translatable unit is turned into a canonical, language-agnostic key:
//! literal text contributes its characters, and each embedded dynamic part
//! contributes a placeholder token `{{A}}`, `{{B}}`, ... in document order.
//! The same derivation serves compilation (which also records what each
//! placeholder stands for) and extraction (which only needs the key), so the
//! keys the two produce always agree.

use vstd::prelude::*;

use crate::strings::{ph_token, push_ph_token, spec_trim, trim_str};
use crate::tree::{clone_expr, nodes_view, Expr, Node, SpecExpr, SpecNode, SpecValue, Value};

verus! {

/// Whether an expression is a key segment on its own: a string literal or a
/// stringify wrapper.  Only a concatenation with at least one such side is
/// decomposed.
pub open spec fn spec_splittable(e: SpecExpr) -> bool {
    e is LitStr || e is ToStr
}

/// Returns whether the expression is a string literal or stringify wrapper.
pub fn is_splittable(e: &Expr) -> (r: bool)
    ensures
        r == spec_splittable(e@),
{
    match e {
        Expr::LitStr { .. } => true,
        Expr::ToStr { .. } => true,
        _ => false,
    }
}

/// The key text and the recorded sub-expressions of an expression, with
/// placeholder letters starting at index `start`.
///
/// String literals contribute their text; a stringify wrapper contributes the
/// next placeholder token and records its wrapped sub-expression; a
/// concatenation is decomposed only when at least one side is itself a
/// literal or a wrapper.  Any other expression contributes nothing: in
/// particular a concatenation of two opaque sides is untranslatable for this
/// engine and is dropped from the key.
pub open spec fn spec_expr_parts(e: SpecExpr, start: int) -> (Seq<char>, Seq<SpecExpr>)
    decreases e,
{
    match e {
        SpecExpr::LitStr { value, .. } => (value, Seq::empty()),
        SpecExpr::ToStr { value, .. } => (ph_token(start), seq![*value]),
        SpecExpr::Plus { left, right, .. } => {
            if spec_splittable(*left) || spec_splittable(*right) {
                let l = spec_expr_parts(*left, start);
                let r = spec_expr_parts(*right, start + l.1.len());
                (l.0 + r.0, l.1 + r.1)
            } else {
                (Seq::empty(), Seq::empty())
            }
        },
        _ => (Seq::empty(), Seq::empty()),
    }
}

/// The derived key of a single value unit.
pub open spec fn spec_value_key(v: SpecValue) -> Seq<char> {
    match v {
        SpecValue::Static { value, .. } => spec_trim(value),
        SpecValue::Dynamic { expr, .. } => spec_expr_parts(*expr, 0).0,
    }
}

/// The recorded sub-expressions of a single value unit, in placeholder
/// order: the sub-expression at position `k` is what `{{A+k}}` stands for.
pub open spec fn spec_value_placeholders(v: SpecValue) -> Seq<SpecExpr> {
    match v {
        SpecValue::Static { .. } => Seq::empty(),
        SpecValue::Dynamic { expr, .. } => spec_expr_parts(*expr, 0).1,
    }
}

/// Decomposes an expression, appending its key text to `expr_key` and its
/// recorded sub-expressions to `placeholder_map`.
pub fn split_expression(e: &Expr, expr_key: &mut String, placeholder_map: &mut Vec<Expr>)
    ensures
        final(expr_key)@ == old(expr_key)@ + spec_expr_parts(
            e@,
            old(placeholder_map)@.len() as int,
        ).0,
        final(placeholder_map).deep_view() == old(placeholder_map).deep_view() + spec_expr_parts(
            e@,
            old(placeholder_map)@.len() as int,
        ).1,
        final(placeholder_map)@.len() == old(placeholder_map)@.len() + spec_expr_parts(
            e@,
            old(placeholder_map)@.len() as int,
        ).1.len(),
    decreases *e,
{
    let ghost start = placeholder_map@.len() as int;
    match e {
        Expr::LitStr { value, .. } => {
            expr_key.append(value.as_str());
        },
        Expr::ToStr { value, .. } => {
            push_ph_token(expr_key, placeholder_map.len());
            let ghost pm0 = placeholder_map.deep_view();
            placeholder_map.push(clone_expr(value));
            proof {
                assert(placeholder_map.deep_view() =~= pm0 + seq![value@]);
            }
        },
        Expr::Plus { left, right, .. } => {
            let split = is_splittable(left) || is_splittable(right);
            if split {
                let ghost k0 = expr_key@;
                let ghost pm0 = placeholder_map.deep_view();
                split_expression(left, expr_key, placeholder_map);
                split_expression(right, expr_key, placeholder_map);
                proof {
                    let l = spec_expr_parts(left@, start);
                    let r = spec_expr_parts(right@, start + l.1.len());
                    assert(expr_key@ =~= k0 + (l.0 + r.0));
                    assert(placeholder_map.deep_view() =~= pm0 + (l.1 + r.1));
                }
            }
        },
        _ => {},
    }
    proof {
        assert(final(expr_key)@ =~= old(expr_key)@ + spec_expr_parts(e@, start).0);
        assert(final(placeholder_map).deep_view() =~= old(placeholder_map).deep_view()
            + spec_expr_parts(e@, start).1);
    }
}

/// Derives the key and the placeholder map of a value unit.
pub fn derive_value_parts(v: &Value) -> (r: (String, Vec<Expr>))
    ensures
        r.0@ == spec_value_key(v@),
        r.1.deep_view() == spec_value_placeholders(v@),
{
    match v {
        Value::Static { value, .. } => {
            let key = trim_str(value.as_str());
            let ghost empty: Seq<SpecExpr> = Seq::empty();
            let pm: Vec<Expr> = Vec::new();
            proof {
                assert(pm.deep_view() =~= empty);
            }
            (key, pm)
        },
        Value::Dynamic { expr, .. } => {
            let mut key = String::new();
            let mut pm: Vec<Expr> = Vec::new();
            proof {
                assert(pm.deep_view() =~= Seq::<SpecExpr>::empty());
            }
            split_expression(expr, &mut key, &mut pm);
            proof {
                assert(key@ =~= spec_value_key(v@));
                assert(pm.deep_view() =~= spec_value_placeholders(v@));
            }
            (key, pm)
        },
    }
}

// ----------------------------------------------------------------------
// Whole-children blocks.

/// The scan of a whole-children block from child `i` on, with `count`
/// placeholders already assigned: the key text, the positions of the
/// children recorded as placeholders, and the position of the first
/// static-text child (the formatting anchor for rebuilt literal segments).
/// The child at position `skip` (the consumed marker) is passed over.
///
/// A static-text child contributes its trimmed text; any other child
/// contributes the next placeholder token and is recorded by position.
pub open spec fn spec_block_scan(ns: Seq<SpecNode>, skip: int, i: int, count: int) -> (
    Seq<char>,
    Seq<int>,
    Option<int>,
)
    decreases ns.len() - i,
{
    if i < 0 || i >= ns.len() {
        (Seq::<char>::empty(), Seq::<int>::empty(), Option::<int>::None)
    } else if i == skip {
        spec_block_scan(ns, skip, i + 1, count)
    } else {
        match ns[i] {
            SpecNode::Text(SpecValue::Static { value, .. }) => {
                let rest = spec_block_scan(ns, skip, i + 1, count);
                (spec_trim(value) + rest.0, rest.1, Option::Some(i))
            },
            _ => {
                let rest = spec_block_scan(ns, skip, i + 1, count + 1);
                (ph_token(count) + rest.0, seq![i] + rest.1, rest.2)
            },
        }
    }
}

/// The key of a whole-children block, its marker at position `skip`.
pub open spec fn spec_block_key(ns: Seq<SpecNode>, skip: int) -> Seq<char> {
    spec_block_scan(ns, skip, 0, 0).0
}

/// The recorded child positions of a whole-children block, in placeholder
/// order.
pub open spec fn spec_block_placeholders(ns: Seq<SpecNode>, skip: int) -> Seq<int> {
    spec_block_scan(ns, skip, 0, 0).1
}

/// The position of a block's first static-text child, if any.
pub open spec fn spec_block_anchor(ns: Seq<SpecNode>, skip: int) -> Option<int> {
    spec_block_scan(ns, skip, 0, 0).2
}

/// Every recorded child position lies within the list, away from `skip`,
/// and points at a non-static child; the anchor points at a static-text
/// child.
pub proof fn lemma_block_scan_bounds(ns: Seq<SpecNode>, skip: int, i: int, count: int)
    ensures
        forall|j: int|
            0 <= j < spec_block_scan(ns, skip, i, count).1.len() ==> i <= #[trigger] spec_block_scan(
                ns,
                skip,
                i,
                count,
            ).1[j] < ns.len() && spec_block_scan(ns, skip, i, count).1[j] != skip,
        spec_block_scan(ns, skip, i, count).2 is Some ==> i <= spec_block_scan(
            ns,
            skip,
            i,
            count,
        ).2->Some_0 < ns.len() && spec_block_scan(ns, skip, i, count).2->Some_0 != skip && (
        match ns[spec_block_scan(ns, skip, i, count).2->Some_0] {
            SpecNode::Text(SpecValue::Static { .. }) => true,
            _ => false,
        }),
    decreases ns.len() - i,
{
    if i < 0 || i >= ns.len() {
    } else if i == skip {
        lemma_block_scan_bounds(ns, skip, i + 1, count);
    } else {
        match ns[i] {
            SpecNode::Text(SpecValue::Static { .. }) => {
                lemma_block_scan_bounds(ns, skip, i + 1, count);
            },
            _ => {
                lemma_block_scan_bounds(ns, skip, i + 1, count + 1);
            },
        }
    }
}

/// The derived parts of a whole-children block: its key, the children each
/// placeholder stands for (by position), and the formatting anchor.
pub struct BlockParts {
    pub key: String,
    pub placeholders: Vec<usize>,
    pub anchor: Option<usize>,
}

/// Scans a whole-children block, passing over the consumed marker at
/// position `skip`, and derives its key, its placeholder positions and its
/// formatting anchor.
pub fn derive_block_parts(ns: &Vec<Node>, skip: usize) -> (r: BlockParts)
    ensures
        r.key@ == spec_block_key(nodes_view(ns@), skip as int),
        r.placeholders@.len() == spec_block_placeholders(nodes_view(ns@), skip as int).len(),
        forall|j: int|
            0 <= j < r.placeholders@.len() ==> #[trigger] r.placeholders@[j]
                == spec_block_placeholders(nodes_view(ns@), skip as int)[j] && r.placeholders@[j]
                < ns@.len(),
        match r.anchor {
            Option::Some(a) => spec_block_anchor(nodes_view(ns@), skip as int) == Option::Some(
                a as int,
            ) && a < ns@.len(),
            Option::None => spec_block_anchor(nodes_view(ns@), skip as int) is None,
        },
{
    let ghost nv = nodes_view(ns@);
    let ghost full = spec_block_scan(nv, skip as int, 0, 0);
    let n: usize = ns.len();
    let mut key = String::new();
    let mut placeholders: Vec<usize> = Vec::new();
    let mut anchor: Option<usize> = Option::None;
    let mut i: usize = 0;
    proof {
        lemma_block_scan_bounds(nv, skip as int, 0, 0);
    }
    while i < n
        invariant
            0 <= i <= n,
            n == ns@.len(),
            n == nv.len(),
            nv == nodes_view(ns@),
            full == spec_block_scan(nv, skip as int, 0, 0),
            placeholders@.len() <= i,
            full.0 == key@ + spec_block_scan(nv, skip as int, i as int, placeholders@.len() as int).0,
            full.1 =~= placeholders@.map_values(|x: usize| x as int) + spec_block_scan(
                nv,
                skip as int,
                i as int,
                placeholders@.len() as int,
            ).1,
            full.2 == (match anchor {
                Option::Some(a) => Option::Some(a as int),
                Option::None => spec_block_scan(
                    nv,
                    skip as int,
                    i as int,
                    placeholders@.len() as int,
                ).2,
            }),
            forall|j: int| 0 <= j < placeholders@.len() ==> #[trigger] placeholders@[j] < n,
            match anchor {
                Option::Some(a) => a < n,
                Option::None => true,
            },
        decreases n - i,
    {
        let ghost count = placeholders@.len() as int;
        let ghost cur = spec_block_scan(nv, skip as int, i as int, count);
        proof {
            assert(nv[i as int] == ns@[i as int]@);
        }
        if i != skip {
            let is_static_text = match &ns[i] {
                Node::Text(Value::Static { .. }) => true,
                _ => false,
            };
            if is_static_text {
                match &ns[i] {
                    Node::Text(Value::Static { value, .. }) => {
                        let t = trim_str(value.as_str());
                        key.append(t.as_str());
                        if anchor.is_none() {
                            anchor = Option::Some(i);
                        }
                    },
                    _ => {},
                }
                proof {
                    assert(full.0 =~= key@ + spec_block_scan(nv, skip as int, i + 1, count).0);
                }
            } else {
                push_ph_token(&mut key, placeholders.len());
                let ghost ph0 = placeholders@;
                placeholders.push(i);
                proof {
                    assert(placeholders@.map_values(|x: usize| x as int) =~= ph0.map_values(
                        |x: usize| x as int,
                    ).push(i as int));
                    assert(full.0 =~= key@ + spec_block_scan(nv, skip as int, i + 1, count + 1).0);
                    assert(full.1 =~= placeholders@.map_values(|x: usize| x as int)
                        + spec_block_scan(nv, skip as int, i + 1, count + 1).1);
                }
            }
        }
        i = i + 1;
    }
    proof {
        assert(spec_block_scan(nv, skip as int, n as int, placeholders@.len() as int).0 =~= Seq::<
            char,
        >::empty());
        assert(full.0 =~= key@);
        assert(full.1 =~= placeholders@.map_values(|x: usize| x as int));
        assert forall|j: int| 0 <= j < placeholders@.len() implies #[trigger] placeholders@[j]
            == full.1[j] by {
            assert(full.1[j] == placeholders@.map_values(|x: usize| x as int)[j]);
        }
    }
    BlockParts { key, placeholders, anchor }
}

// ----------------------------------------------------------------------
// Determinism of key derivation.

/// Deriving the key of a unit twice from the same tree yields identical key
/// strings and identical placeholder assignments: the key and the
/// placeholder map are functions of the unit alone.
pub proof fn lemma_key_derivation_deterministic(
    v: SpecValue,
    k1: Seq<char>,
    p1: Seq<SpecExpr>,
    k2: Seq<char>,
    p2: Seq<SpecExpr>,
)
    requires
        k1 == spec_value_key(v),
        p1 == spec_value_placeholders(v),
        k2 == spec_value_key(v),
        p2 == spec_value_placeholders(v),
    ensures
        k1 == k2,
        p1 == p2,
{
}

/// Deriving the key of a whole-children block twice from the same child
/// list yields identical keys and identical placeholder positions.
pub proof fn lemma_block_key_deterministic(
    ns: Seq<SpecNode>,
    skip: int,
    k1: Seq<char>,
    p1: Seq<int>,
    k2: Seq<char>,
    p2: Seq<int>,
)
    requires
        k1 == spec_block_key(ns, skip),
        p1 == spec_block_placeholders(ns, skip),
        k2 == spec_block_key(ns, skip),
        p2 == spec_block_placeholders(ns, skip),
    ensures
        k1 == k2,
        p1 == p2,
{
}

} // verus!
