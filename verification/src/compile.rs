//! The localization transform.
//!
//! Compilation rewrites a parsed template so that every locale's text is
//! baked in: each translatable region becomes a conditional element whose
//! branches, one per locale in ascending order, hold the region translated
//! through that locale's table, and whose final else branch holds the
//! original content with only the localization markers stripped.

use vstd::prelude::*;

use crate::catalog::{spec_lookup, table_lookup, OrderedTransContent, SpecCatalog, SpecTable};
use crate::key::{
    derive_block_parts, derive_value_parts, spec_block_key, spec_block_scan, spec_expr_parts,
    spec_value_key, BlockParts,
};
use crate::loc::{Loc, TagLoc};
use crate::scan::{has_match, spec_has_match, spec_split, split_translated_str};
use crate::strings::{letter_of, spec_trim, spec_trim_braces, trim_braces, trim_str};
use crate::tree::{
    attrs_view, branches_view, clone_attr, clone_expr, clone_meta, clone_node, clone_nodes,
    clone_value, nodes_view, subs_view, Attr, Comment, Element, ElementKind, ElseBranch, Expr,
    IfBranch, MetaTag, Node, SpecAttr, SpecComment, SpecElement, SpecElementKind, SpecElseBranch,
    SpecExpr, SpecIfBranch, SpecMetaTag, SpecNode, SpecTemplate, SpecValue, Template, Value,
    SYNTHETIC,
};
use crate::strings::str_eq;

verus! {

/// The compiled output: the rendered template source and its source map.
#[derive(Debug, PartialEq)]
pub struct CompiledTemplate {
    pub output: String,
    pub source_map: Vec<u8>,
}

// ----------------------------------------------------------------------
// Recognizing the localization directives.

/// Whether a meta tag is the localization directive `<!I18N ...>`.
pub open spec fn spec_is_i18n(t: SpecMetaTag) -> bool {
    t.name.len() == 1 && t.name[0] == "I18N"@
}

/// Returns whether the meta tag is the localization directive.
pub fn is_i18n_tag(tag: &MetaTag) -> (r: bool)
    ensures
        r == spec_is_i18n(tag@),
{
    tag.name.len() == 1 && str_eq(tag.name[0].as_str(), "I18N")
}

/// Whether a meta-tag argument is named `translate-children`.
pub open spec fn spec_attr_is_tc(a: crate::tree::SpecMetaAttr) -> bool {
    a.name.len() == 1 && a.name[0] == "translate-children"@
}

/// Whether a localization directive carries the `translate-children`
/// argument, marking its parent's children as one whole translation unit.
pub open spec fn spec_has_translate_children(t: SpecMetaTag) -> bool {
    spec_is_i18n(t) && exists|k: int|
        0 <= k < t.attributes.len() && spec_attr_is_tc(#[trigger] t.attributes[k])
}

/// Returns whether the meta tag is a whole-children localization marker.
pub fn has_i18n_translate_children(tag: &MetaTag) -> (r: bool)
    ensures
        r == spec_has_translate_children(tag@),
{
    if !is_i18n_tag(tag) {
        return false;
    }
    let n: usize = tag.attributes.len();
    let mut i: usize = 0;
    while i < n
        invariant
            0 <= i <= n,
            n == tag@.attributes.len(),
            spec_is_i18n(tag@),
            forall|k: int| 0 <= k < i ==> !spec_attr_is_tc(#[trigger] tag@.attributes[k]),
        decreases n - i,
    {
        proof {
            assert(tag@.attributes[i as int] == crate::tree::meta_attr_view(
                tag.attributes@[i as int],
            ));
            assert(tag@.attributes[i as int].name.len() == tag.attributes@[i as int].name@.len());
            if tag.attributes@[i as int].name@.len() == 1 {
                assert(tag@.attributes[i as int].name[0] == tag.attributes@[i as int].name@[0]@);
            }
        }
        let a = &tag.attributes[i];
        if a.name.len() == 1 && str_eq(a.name[0].as_str(), "translate-children") {
            proof {
                let k = i as int;
                assert(0 <= k < tag@.attributes.len());
                assert(spec_attr_is_tc(tag@.attributes[k]));
                assert(spec_has_translate_children(tag@));
            }
            return true;
        }
        i = i + 1;
    }
    false
}

/// The position of the first meta tag in a node list, if any.
pub open spec fn spec_first_meta(ns: Seq<SpecNode>) -> Option<int>
    decreases ns.len(),
{
    if ns.len() == 0 {
        Option::None
    } else if ns[0] is MetaTag {
        Option::Some(0)
    } else {
        match spec_first_meta(ns.drop_first()) {
            Option::Some(i) => Option::Some(i + 1),
            Option::None => Option::None,
        }
    }
}

/// Whether the first meta tag of a node list is a localization directive.
/// Only the first meta tag counts: a later directive does not enable the
/// transform.
pub open spec fn spec_contains_i18n_tag(ns: Seq<SpecNode>) -> bool {
    match spec_first_meta(ns) {
        Option::Some(i) => match ns[i] {
            SpecNode::MetaTag(t) => spec_is_i18n(t),
            _ => false,
        },
        Option::None => false,
    }
}

/// Whether the first meta tag of a node list is a whole-children marker.
pub open spec fn spec_contains_translate_children(ns: Seq<SpecNode>) -> bool {
    match spec_first_meta(ns) {
        Option::Some(i) => match ns[i] {
            SpecNode::MetaTag(t) => spec_has_translate_children(t),
            _ => false,
        },
        Option::None => false,
    }
}

pub proof fn lemma_first_meta_bounds(ns: Seq<SpecNode>)
    ensures
        spec_first_meta(ns) is Some ==> 0 <= spec_first_meta(ns)->Some_0 < ns.len() && ns[
            spec_first_meta(ns)->Some_0] is MetaTag,
    decreases ns.len(),
{
    if ns.len() == 0 {
    } else if ns[0] is MetaTag {
    } else {
        lemma_first_meta_bounds(ns.drop_first());
    }
}

/// Finds the first meta tag in a node list.
pub fn find_first_meta(ns: &Vec<Node>) -> (r: Option<usize>)
    ensures
        match r {
            Option::Some(i) => spec_first_meta(nodes_view(ns@)) == Option::Some(i as int) && i
                < ns@.len(),
            Option::None => spec_first_meta(nodes_view(ns@)) is None,
        },
{
    let n: usize = ns.len();
    let ghost nv = nodes_view(ns@);
    let mut i: usize = 0;
    proof {
        assert(nv.subrange(0, n as int) =~= nv);
    }
    while i < n
        invariant
            0 <= i <= n,
            n == nv.len(),
            nv == nodes_view(ns@),
            spec_first_meta(nv) == (match spec_first_meta(nv.subrange(i as int, n as int)) {
                Option::Some(k) => Option::Some(k + i),
                Option::None => Option::<int>::None,
            }),
        decreases n - i,
    {
        let ghost rest = nv.subrange(i as int, n as int);
        proof {
            assert(rest[0] == nv[i as int]);
            assert(rest.drop_first() =~= nv.subrange(i + 1, n as int));
            assert(nv[i as int] == ns@[i as int]@);
        }
        let is_meta = match &ns[i] {
            Node::MetaTag(..) => true,
            _ => false,
        };
        if is_meta {
            return Option::Some(i);
        }
        i = i + 1;
    }
    proof {
        assert(spec_first_meta(nv.subrange(n as int, n as int)) is None);
    }
    Option::None
}

/// Returns whether the node list's first meta tag is a whole-children
/// marker, signaling that these children form one translation unit.
pub fn contains_i18n_translate_children(node_list: &Vec<Node>) -> (r: bool)
    ensures
        r == spec_contains_translate_children(nodes_view(node_list@)),
{
    match find_first_meta(node_list) {
        Option::Some(i) => {
            proof {
                assert(nodes_view(node_list@)[i as int] == node_list@[i as int]@);
            }
            match &node_list[i] {
                Node::MetaTag(t) => has_i18n_translate_children(t),
                _ => false,
            }
        },
        Option::None => false,
    }
}

/// Returns whether the node list's first meta tag is a localization
/// directive, enabling the transform for the template that holds it.
pub fn contains_i18n_tag(node_list: &Vec<Node>) -> (r: bool)
    ensures
        r == spec_contains_i18n_tag(nodes_view(node_list@)),
{
    match find_first_meta(node_list) {
        Option::Some(i) => {
            proof {
                assert(nodes_view(node_list@)[i as int] == node_list@[i as int]@);
            }
            match &node_list[i] {
                Node::MetaTag(t) => is_i18n_tag(t),
                _ => false,
            }
        },
        Option::None => false,
    }
}

// ----------------------------------------------------------------------
// Removing the top-level directive.

/// The position of the first localization directive in a node list.
pub open spec fn spec_first_i18n(ns: Seq<SpecNode>) -> Option<int>
    decreases ns.len(),
{
    if ns.len() == 0 {
        Option::None
    } else if (match ns[0] {
        SpecNode::MetaTag(t) => spec_is_i18n(t),
        _ => false,
    }) {
        Option::Some(0)
    } else {
        match spec_first_i18n(ns.drop_first()) {
            Option::Some(i) => Option::Some(i + 1),
            Option::None => Option::None,
        }
    }
}

/// The node list with its first localization directive removed.
pub open spec fn spec_remove_i18n_tag(ns: Seq<SpecNode>) -> Seq<SpecNode> {
    match spec_first_i18n(ns) {
        Option::Some(i) => ns.remove(i),
        Option::None => ns,
    }
}

pub proof fn lemma_first_i18n_bounds(ns: Seq<SpecNode>)
    ensures
        spec_first_i18n(ns) is Some ==> 0 <= spec_first_i18n(ns)->Some_0 < ns.len(),
    decreases ns.len(),
{
    if ns.len() == 0 {
    } else if (match ns[0] {
        SpecNode::MetaTag(t) => spec_is_i18n(t),
        _ => false,
    }) {
    } else {
        lemma_first_i18n_bounds(ns.drop_first());
    }
}

/// Finds the first localization directive in a node list.
fn find_first_i18n(ns: &Vec<Node>) -> (r: Option<usize>)
    ensures
        match r {
            Option::Some(i) => spec_first_i18n(nodes_view(ns@)) == Option::Some(i as int) && i
                < ns@.len(),
            Option::None => spec_first_i18n(nodes_view(ns@)) is None,
        },
{
    let n: usize = ns.len();
    let ghost nv = nodes_view(ns@);
    let mut i: usize = 0;
    proof {
        assert(nv.subrange(0, n as int) =~= nv);
    }
    while i < n
        invariant
            0 <= i <= n,
            n == nv.len(),
            nv == nodes_view(ns@),
            spec_first_i18n(nv) == (match spec_first_i18n(nv.subrange(i as int, n as int)) {
                Option::Some(k) => Option::Some(k + i),
                Option::None => Option::<int>::None,
            }),
        decreases n - i,
    {
        let ghost rest = nv.subrange(i as int, n as int);
        proof {
            assert(rest[0] == nv[i as int]);
            assert(rest.drop_first() =~= nv.subrange(i + 1, n as int));
            assert(nv[i as int] == ns@[i as int]@);
        }
        let found = match &ns[i] {
            Node::MetaTag(t) => is_i18n_tag(t),
            _ => false,
        };
        if found {
            return Option::Some(i);
        }
        i = i + 1;
    }
    proof {
        assert(spec_first_i18n(nv.subrange(n as int, n as int)) is None);
    }
    Option::None
}

/// Returns a copy of the node list with its first localization directive
/// removed.
pub fn remove_i18n_tag(node_list: &Vec<Node>) -> (r: Vec<Node>)
    ensures
        nodes_view(r@) == spec_remove_i18n_tag(nodes_view(node_list@)),
{
    let n: usize = node_list.len();
    let ghost nv = nodes_view(node_list@);
    match find_first_i18n(node_list) {
        Option::Some(p) => {
            let mut r: Vec<Node> = Vec::new();
            let mut j: usize = 0;
            while j < n
                invariant
                    0 <= j <= n,
                    n == node_list@.len(),
                    n == nv.len(),
                    nv == nodes_view(node_list@),
                    p < n,
                    r@.len() == (if j <= p {
                        j as int
                    } else {
                        j - 1
                    }),
                    forall|k: int|
                        0 <= k < r@.len() ==> (#[trigger] r@[k])@ == (if k < p {
                            nv[k]
                        } else {
                            nv[k + 1]
                        }),
                decreases n - j,
            {
                proof {
                    assert(nv[j as int] == node_list@[j as int]@);
                }
                if j != p {
                    r.push(clone_node(&node_list[j]));
                }
                j = j + 1;
            }
            proof {
                assert(nodes_view(r@) =~= nv.remove(p as int));
            }
            r
        },
        Option::None => {
            let r = clone_nodes(node_list);
            proof {
                assert(nodes_view(r@) =~= nv);
            }
            r
        },
    }
}

// ----------------------------------------------------------------------
// Stripping whole-children markers (for the untranslated else branch).

/// A node with every whole-children marker in it replaced by an empty
/// comment carrying the marker's position.
pub open spec fn spec_strip_node(n: SpecNode) -> SpecNode
    decreases n, 1int,
{
    match n {
        SpecNode::MetaTag(t) => {
            if spec_has_translate_children(t) {
                SpecNode::Comment(SpecComment { text: Seq::empty(), loc: t.loc })
            } else {
                n
            }
        },
        SpecNode::Element(e) => SpecNode::Element(
            SpecElement { kind: spec_strip_kind(e.kind), tag_loc: e.tag_loc, orig: e.orig },
        ),
        _ => n,
    }
}

pub open spec fn spec_strip_nodes(ns: Seq<SpecNode>) -> Seq<SpecNode>
    decreases ns, 2int,
{
    Seq::new(
        ns.len(),
        |i: int|
            if 0 <= i < ns.len() {
                spec_strip_node(ns[i])
            } else {
                SpecNode::Opaque { id: 0, loc: Loc::spec_zero() }
            },
    )
}

pub open spec fn spec_strip_kind(k: SpecElementKind) -> SpecElementKind
    decreases k, 3int,
{
    match k {
        SpecElementKind::Normal { attributes, children } => SpecElementKind::Normal {
            attributes,
            children: spec_strip_nodes(children),
        },
        SpecElementKind::If { branches, else_branch } => SpecElementKind::If {
            branches: Seq::new(
                branches.len(),
                |i: int|
                    if 0 <= i < branches.len() {
                        SpecIfBranch {
                            loc: branches[i].loc,
                            cond: branches[i].cond,
                            children: spec_strip_nodes(branches[i].children),
                        }
                    } else {
                        SpecIfBranch {
                            loc: Loc::spec_zero(),
                            cond: SpecValue::Static { value: Seq::empty(), loc: Loc::spec_zero() },
                            children: Seq::empty(),
                        }
                    },
            ),
            else_branch: match else_branch {
                Option::Some(b) => Option::Some(
                    SpecElseBranch { loc: b.loc, children: spec_strip_nodes(b.children) },
                ),
                Option::None => Option::None,
            },
        },
        SpecElementKind::For { children } => SpecElementKind::For {
            children: spec_strip_nodes(children),
        },
        SpecElementKind::Pure { children } => SpecElementKind::Pure {
            children: spec_strip_nodes(children),
        },
        SpecElementKind::Other => SpecElementKind::Other,
    }
}

/// Returns a copy of the node with every whole-children marker replaced by
/// an empty comment.
fn strip_node(n: &Node) -> (r: Node)
    ensures
        r@ == spec_strip_node(n@),
    decreases *n, 6int,
{
    match n {
        Node::MetaTag(t) => {
            if has_i18n_translate_children(t) {
                Node::Comment(Comment { text: String::new(), loc: t.loc })
            } else {
                Node::MetaTag(clone_meta(t))
            }
        },
        Node::Element(e) => Node::Element(
            Element { kind: strip_kind(&e.kind), tag_loc: e.tag_loc, orig: e.orig },
        ),
        _ => clone_node(n),
    }
}

/// Returns a copy of the node list with every whole-children marker, at any
/// depth, replaced by an empty comment.
pub fn remove_i18n_translate_children(node_list: &Vec<Node>) -> (r: Vec<Node>)
    ensures
        nodes_view(r@) == spec_strip_nodes(nodes_view(node_list@)),
    decreases *node_list, 2int,
{
    let n: usize = node_list.len();
    let mut r: Vec<Node> = Vec::new();
    let mut i: usize = 0;
    while i < n
        invariant
            0 <= i <= n,
            n == node_list@.len(),
            r@.len() == i,
            forall|k: int|
                0 <= k < i ==> (#[trigger] r@[k])@ == spec_strip_node(node_list@[k]@),
        decreases n - i,
    {
        r.push(strip_node(&node_list[i]));
        i = i + 1;
    }
    proof {
        assert(nodes_view(r@) =~= spec_strip_nodes(nodes_view(node_list@)));
    }
    r
}

/// Returns a copy of one conditional branch with its children stripped.
fn strip_branch(b: &IfBranch) -> (r: IfBranch)
    ensures
        crate::tree::branch_view(r) == (SpecIfBranch {
            loc: crate::tree::branch_view(*b).loc,
            cond: crate::tree::branch_view(*b).cond,
            children: spec_strip_nodes(crate::tree::branch_view(*b).children),
        }),
    decreases *b, 3int,
{
    IfBranch {
        loc: b.loc,
        cond: clone_value(&b.cond),
        children: remove_i18n_translate_children(&b.children),
    }
}

/// Returns a copy of a branch list with every branch's children stripped.
fn strip_branches(bs: &Vec<IfBranch>) -> (r: Vec<IfBranch>)
    ensures
        branches_view(r@).len() == branches_view(bs@).len(),
        forall|j: int|
            0 <= j < bs@.len() ==> #[trigger] branches_view(r@)[j] == (SpecIfBranch {
                loc: branches_view(bs@)[j].loc,
                cond: branches_view(bs@)[j].cond,
                children: spec_strip_nodes(branches_view(bs@)[j].children),
            }),
    decreases *bs, 4int,
{
    let bn: usize = bs.len();
    let mut r: Vec<IfBranch> = Vec::new();
    let mut i: usize = 0;
    while i < bn
        invariant
            0 <= i <= bn,
            bn == bs@.len(),
            r@.len() == i,
            forall|j: int|
                0 <= j < i ==> crate::tree::branch_view(#[trigger] r@[j]) == (SpecIfBranch {
                    loc: crate::tree::branch_view(bs@[j]).loc,
                    cond: crate::tree::branch_view(bs@[j]).cond,
                    children: spec_strip_nodes(crate::tree::branch_view(bs@[j]).children),
                }),
        decreases bn - i,
    {
        r.push(strip_branch(&bs[i]));
        i = i + 1;
    }
    r
}

fn strip_kind(k: &ElementKind) -> (r: ElementKind)
    ensures
        kind_strip_ok(*k, r),
    decreases *k, 5int,
{
    match k {
        ElementKind::Normal { attributes, children } => {
            let r = ElementKind::Normal {
                attributes: crate::tree::clone_attrs(attributes),
                children: remove_i18n_translate_children(children),
            };
            proof {
                assert(crate::tree::kind_view(r) =~= spec_strip_kind(crate::tree::kind_view(*k)));
            }
            r
        },
        ElementKind::If { branches, else_branch } => {
            let eb = match else_branch {
                Option::Some(b) => Option::Some(
                    ElseBranch {
                        loc: b.loc,
                        children: remove_i18n_translate_children(&b.children),
                    },
                ),
                Option::None => Option::None,
            };
            let r = ElementKind::If { branches: strip_branches(branches), else_branch: eb };
            proof {
                assert(crate::tree::kind_view(r)->If_branches =~= spec_strip_kind(
                    crate::tree::kind_view(*k),
                )->If_branches);
                assert(crate::tree::kind_view(r) =~= spec_strip_kind(crate::tree::kind_view(*k)));
            }
            r
        },
        ElementKind::For { children } => {
            let r = ElementKind::For { children: remove_i18n_translate_children(children) };
            proof {
                assert(crate::tree::kind_view(r) =~= spec_strip_kind(crate::tree::kind_view(*k)));
            }
            r
        },
        ElementKind::Pure { children } => {
            let r = ElementKind::Pure { children: remove_i18n_translate_children(children) };
            proof {
                assert(crate::tree::kind_view(r) =~= spec_strip_kind(crate::tree::kind_view(*k)));
            }
            r
        },
        ElementKind::Other => ElementKind::Other,
    }
}

/// Whether the stripped copy of an element kind has the stripped view.
pub open spec fn kind_strip_ok(k: ElementKind, r: ElementKind) -> bool {
    crate::tree::kind_view(r) == spec_strip_kind(crate::tree::kind_view(k))
}

// ----------------------------------------------------------------------
// The position anchor for synthesized nodes.

/// The source position of a region's first node, used as the anchor for
/// every node the transform synthesizes for that region.
pub open spec fn spec_first_child_position(ns: Seq<SpecNode>) -> Option<Loc> {
    if ns.len() == 0 {
        Option::None
    } else {
        match ns[0] {
            SpecNode::Element(e) => Option::Some(e.tag_loc.close),
            SpecNode::Text(SpecValue::Dynamic { open, .. }) => Option::Some(open),
            SpecNode::Text(SpecValue::Static { loc, .. }) => Option::Some(loc),
            SpecNode::Comment(c) => Option::Some(c.loc),
            SpecNode::MetaTag(t) => Option::Some(t.loc),
            SpecNode::Opaque { .. } => Option::None,
        }
    }
}

/// Returns the position of the region's first node, if it has one.
pub fn get_first_child_position(template: &Vec<Node>) -> (r: Option<Loc>)
    ensures
        r == spec_first_child_position(nodes_view(template@)),
{
    if template.len() == 0 {
        return Option::None;
    }
    proof {
        assert(nodes_view(template@)[0] == template@[0]@);
    }
    match &template[0] {
        Node::Element(e) => Option::Some(e.tag_loc.close),
        Node::Text(Value::Dynamic { open, .. }) => Option::Some(*open),
        Node::Text(Value::Static { loc, .. }) => Option::Some(*loc),
        Node::Comment(c) => Option::Some(c.loc),
        Node::MetaTag(t) => Option::Some(t.loc),
        Node::Opaque { .. } => Option::None,
    }
}

// ----------------------------------------------------------------------
// Classifying translated segments.

/// The highest placeholder index below `count` whose letter is `c`: when
/// two indices share a letter (after the letters wrap), the later
/// assignment wins.
pub open spec fn spec_letter_index(count: int, c: char) -> Option<int>
    decreases count,
{
    if count <= 0 {
        Option::None
    } else if letter_of(count - 1) == c {
        Option::Some(count - 1)
    } else {
        spec_letter_index(count - 1, c)
    }
}

/// Finds the placeholder index a letter stands for.
fn letter_index(count: usize, c: char) -> (r: Option<usize>)
    ensures
        match r {
            Option::Some(k) => spec_letter_index(count as int, c) == Option::Some(k as int) && k
                < count,
            Option::None => spec_letter_index(count as int, c) is None,
        },
{
    let mut k: usize = count;
    while k > 0
        invariant
            0 <= k <= count,
            spec_letter_index(count as int, c) == spec_letter_index(k as int, c),
        decreases k,
    {
        if crate::strings::letter_char(k - 1) == c {
            return Option::Some(k - 1);
        }
        k = k - 1;
    }
    Option::None
}

/// The placeholder index a translated segment stands for, if it is a
/// placeholder token whose letter was assigned: the segment must hold a
/// token run, and its text without surrounding braces must be exactly one
/// assigned letter.
pub open spec fn spec_seg_is_ph(seg: Seq<char>, count: int) -> Option<int> {
    if spec_has_match(seg) && spec_trim_braces(seg).len() == 1 {
        spec_letter_index(count, spec_trim_braces(seg)[0])
    } else {
        Option::None
    }
}

/// Classifies a translated segment against `count` assigned placeholders.
fn seg_placeholder(seg: &str, count: usize) -> (r: Option<usize>)
    ensures
        match r {
            Option::Some(k) => spec_seg_is_ph(seg@, count as int) == Option::Some(k as int) && k
                < count,
            Option::None => spec_seg_is_ph(seg@, count as int) is None,
        },
{
    if !has_match(seg) {
        return Option::None;
    }
    let t = trim_braces(seg);
    if t.unicode_len() != 1 {
        return Option::None;
    }
    letter_index(count, t.as_str().get_char(0))
}

// ----------------------------------------------------------------------
// Rewriting one value unit.

/// The expression a translated segment is rebuilt into: an assigned
/// placeholder becomes a stringify wrapper around the recorded
/// sub-expression; any other segment becomes a string literal.  Both carry
/// the unit's opening position.
pub open spec fn spec_seg_expr(seg: Seq<char>, ph: Seq<SpecExpr>, pos: Loc) -> SpecExpr {
    match spec_seg_is_ph(seg, ph.len() as int) {
        Option::Some(k) => SpecExpr::ToStr { value: Box::new(ph[k]), loc: pos },
        Option::None => SpecExpr::LitStr { value: seg, loc: pos },
    }
}

/// A list of expressions joined by left-nested concatenation.
pub open spec fn spec_join_exprs(es: Seq<SpecExpr>, pos: Loc) -> SpecExpr
    decreases es.len(),
{
    if es.len() <= 1 {
        es[0]
    } else {
        SpecExpr::Plus {
            left: Box::new(spec_join_exprs(es.drop_last(), pos)),
            right: Box::new(es.last()),
            loc: pos,
        }
    }
}

/// The expression a translated string is rebuilt into, segment by segment.
pub open spec fn spec_translated_expr(segs: Seq<Seq<char>>, ph: Seq<SpecExpr>, pos: Loc) -> SpecExpr {
    spec_join_exprs(
        Seq::new(
            segs.len(),
            |i: int|
                if 0 <= i < segs.len() {
                    spec_seg_expr(segs[i], ph, pos)
                } else {
                    SpecExpr::LitStr { value: Seq::empty(), loc: pos }
                },
        ),
        pos,
    )
}

/// One value unit translated through one locale's table.
///
/// A static value whose trimmed text is a key of the table becomes the
/// translated text; a dynamic value whose derived key is in the table has
/// its expression rebuilt from the translated string, reinserting each
/// recorded sub-expression at the position the translation dictates.  A
/// unit whose key the table lacks is returned unchanged, as is a dynamic
/// unit whose translation is empty.
pub open spec fn spec_translate_value(v: SpecValue, t: SpecTable) -> SpecValue {
    match v {
        SpecValue::Static { value, loc } => match spec_lookup(t, spec_trim(value)) {
            Option::Some(tr) => SpecValue::Static { value: tr, loc },
            Option::None => v,
        },
        SpecValue::Dynamic { expr, open, close, orig } => {
            let key = spec_expr_parts(*expr, 0).0;
            let ph = spec_expr_parts(*expr, 0).1;
            match spec_lookup(t, key) {
                Option::None => v,
                Option::Some(tr) => {
                    let segs = spec_split(tr);
                    if segs.len() == 0 {
                        v
                    } else {
                        SpecValue::Dynamic {
                            expr: Box::new(spec_translated_expr(segs, ph, open)),
                            open,
                            close,
                            orig,
                        }
                    }
                },
            }
        },
    }
}

proof fn lemma_join_exprs_step(es: Seq<SpecExpr>, pos: Loc, j: int)
    requires
        1 <= j < es.len(),
    ensures
        spec_join_exprs(es.subrange(0, j + 1), pos) == (SpecExpr::Plus {
            left: Box::new(spec_join_exprs(es.subrange(0, j), pos)),
            right: Box::new(es[j]),
            loc: pos,
        }),
{
    let pre = es.subrange(0, j + 1);
    assert(pre.len() == j + 1);
    assert(pre.drop_last() =~= es.subrange(0, j));
    assert(pre.last() == es[j]);
}

/// Translates one value unit through one locale's table.
pub fn translate_value(value: &Value, trans_content_map: &Vec<(String, String)>) -> (r: Value)
    ensures
        r@ == spec_translate_value(value@, trans_content_map.deep_view()),
{
    let ghost tv = trans_content_map.deep_view();
    match value {
        Value::Static { value: s, loc } => {
            let k = trim_str(s.as_str());
            match table_lookup(trans_content_map, k.as_str()) {
                Option::Some(tr) => Value::Static { value: tr, loc: *loc },
                Option::None => clone_value(value),
            }
        },
        Value::Dynamic { expr, open, close, orig } => {
            let parts = derive_value_parts(value);
            let key = parts.0;
            let pm = parts.1;
            match table_lookup(trans_content_map, key.as_str()) {
                Option::None => clone_value(value),
                Option::Some(tr) => {
                    let segs = split_translated_str(tr.as_str());
                    let sn: usize = segs.len();
                    if sn == 0 {
                        clone_value(value)
                    } else {
                        let ghost segv = spec_split(tr@);
                        let ghost phv = spec_expr_parts(expr@, 0).1;
                        let ghost esv = Seq::new(
                            segv.len(),
                            |i: int|
                                if 0 <= i < segv.len() {
                                    spec_seg_expr(segv[i], phv, *open)
                                } else {
                                    SpecExpr::LitStr { value: Seq::empty(), loc: *open }
                                },
                        );
                        let mut es: Vec<Expr> = Vec::new();
                        let mut i: usize = 0;
                        while i < sn
                            invariant
                                0 <= i <= sn,
                                sn == segv.len(),
                                segs.deep_view() == segv,
                                pm.deep_view() == phv,
                                esv == Seq::new(
                                    segv.len(),
                                    |k: int|
                                        if 0 <= k < segv.len() {
                                            spec_seg_expr(segv[k], phv, *open)
                                        } else {
                                            SpecExpr::LitStr { value: Seq::empty(), loc: *open }
                                        },
                                ),
                                es@.len() == i,
                                forall|k: int| 0 <= k < i ==> (#[trigger] es@[k])@ == esv[k],
                            decreases sn - i,
                        {
                            proof {
                                assert(segs.deep_view()[i as int] == segs@[i as int]@);
                            }
                            match seg_placeholder(segs[i].as_str(), pm.len()) {
                                Option::Some(k) => {
                                    es.push(
                                        Expr::ToStr {
                                            value: Box::new(clone_expr(&pm[k])),
                                            loc: *open,
                                        },
                                    );
                                    proof {
                                        assert(pm.deep_view()[k as int] == pm@[k as int]@);
                                        assert(es@[i as int]@ == esv[i as int]);
                                    }
                                },
                                Option::None => {
                                    es.push(
                                        Expr::LitStr { value: segs[i].clone(), loc: *open },
                                    );
                                    proof {
                                        assert(es@[i as int]@ == esv[i as int]);
                                    }
                                },
                            }
                            i = i + 1;
                        }
                        let mut acc = clone_expr(&es[0]);
                        proof {
                            assert(esv.subrange(0, 1)[0] == esv[0]);
                            assert(acc@ == spec_join_exprs(esv.subrange(0, 1), *open));
                        }
                        let mut j: usize = 1;
                        while j < sn
                            invariant
                                1 <= j <= sn,
                                sn == segv.len(),
                                sn == esv.len(),
                                es@.len() == sn,
                                forall|k: int| 0 <= k < sn ==> (#[trigger] es@[k])@ == esv[k],
                                acc@ == spec_join_exprs(esv.subrange(0, j as int), *open),
                            decreases sn - j,
                        {
                            let next = clone_expr(&es[j]);
                            acc = Expr::Plus {
                                left: Box::new(acc),
                                right: Box::new(next),
                                loc: *open,
                            };
                            proof {
                                lemma_join_exprs_step(esv, *open, j as int);
                            }
                            j = j + 1;
                        }
                        proof {
                            assert(esv.subrange(0, sn as int) =~= esv);
                            assert(acc@ == spec_translated_expr(segv, phv, *open));
                        }
                        Value::Dynamic {
                            expr: Box::new(acc),
                            open: *open,
                            close: *close,
                            orig: *orig,
                        }
                    }
                },
            }
        },
    }
}

/// Translates an optional value unit.
pub fn translate_option_value(
    value: &Option<Value>,
    trans_content_map: &Vec<(String, String)>,
) -> (r: Option<Value>)
    ensures
        match value {
            Option::Some(v) => r is Some && r->0@ == spec_translate_value(
                v@,
                trans_content_map.deep_view(),
            ),
            Option::None => r is None,
        },
{
    match value {
        Option::Some(v) => Option::Some(translate_value(v, trans_content_map)),
        Option::None => Option::None,
    }
}

// ----------------------------------------------------------------------
// Attributes.

/// Whether a list of strings holds the given one.
pub open spec fn spec_contains_str(included: Seq<Seq<char>>, s: Seq<char>) -> bool {
    exists|k: int| 0 <= k < included.len() && #[trigger] included[k] == s
}

/// Returns whether the list holds the given string.
pub fn contains_str(included: &Vec<String>, s: &str) -> (r: bool)
    ensures
        r == spec_contains_str(included.deep_view(), s@),
{
    let n: usize = included.len();
    let mut i: usize = 0;
    while i < n
        invariant
            0 <= i <= n,
            n == included@.len(),
            forall|k: int| 0 <= k < i ==> #[trigger] included.deep_view()[k] != s@,
        decreases n - i,
    {
        proof {
            assert(included.deep_view()[i as int] == included@[i as int]@);
        }
        if str_eq(included[i].as_str(), s) {
            return true;
        }
        i = i + 1;
    }
    false
}

/// One attribute translated: its value is rewritten only when its name is
/// on the caller's include list.
pub open spec fn spec_translate_attr(a: SpecAttr, t: SpecTable, inc: Seq<Seq<char>>) -> SpecAttr {
    if spec_contains_str(inc, a.name) {
        SpecAttr {
            name: a.name,
            value: match a.value {
                Option::Some(v) => Option::Some(spec_translate_value(v, t)),
                Option::None => Option::None,
            },
        }
    } else {
        a
    }
}

pub open spec fn spec_translate_attrs(
    ats: Seq<SpecAttr>,
    t: SpecTable,
    inc: Seq<Seq<char>>,
) -> Seq<SpecAttr> {
    Seq::new(
        ats.len(),
        |i: int|
            if 0 <= i < ats.len() {
                spec_translate_attr(ats[i], t, inc)
            } else {
                SpecAttr { name: Seq::empty(), value: Option::None }
            },
    )
}

/// Translates the values of the attributes on the include list.
pub fn translate_attribute(
    attributes: &Vec<Attr>,
    trans_content_map: &Vec<(String, String)>,
    included_attributes: &Vec<String>,
) -> (r: Vec<Attr>)
    ensures
        attrs_view(r@) == spec_translate_attrs(
            attrs_view(attributes@),
            trans_content_map.deep_view(),
            included_attributes.deep_view(),
        ),
{
    let n: usize = attributes.len();
    let mut r: Vec<Attr> = Vec::new();
    let mut i: usize = 0;
    while i < n
        invariant
            0 <= i <= n,
            n == attributes@.len(),
            r@.len() == i,
            forall|k: int|
                0 <= k < i ==> crate::tree::attr_view(#[trigger] r@[k]) == spec_translate_attr(
                    crate::tree::attr_view(attributes@[k]),
                    trans_content_map.deep_view(),
                    included_attributes.deep_view(),
                ),
        decreases n - i,
    {
        let a = &attributes[i];
        if contains_str(included_attributes, a.name.as_str()) {
            r.push(
                Attr {
                    name: a.name.clone(),
                    value: translate_option_value(&a.value, trans_content_map),
                },
            );
        } else {
            r.push(clone_attr(a));
        }
        i = i + 1;
    }
    proof {
        assert(attrs_view(r@) =~= spec_translate_attrs(
            attrs_view(attributes@),
            trans_content_map.deep_view(),
            included_attributes.deep_view(),
        ));
    }
    r
}

// ----------------------------------------------------------------------
// The tree walk.

/// One node translated through one locale's table.
pub open spec fn spec_translate_node(n: SpecNode, t: SpecTable, inc: Seq<Seq<char>>) -> SpecNode
    decreases n, 0int,
{
    match n {
        SpecNode::Text(v) => SpecNode::Text(spec_translate_value(v, t)),
        SpecNode::Element(e) => SpecNode::Element(
            SpecElement { kind: spec_translate_kind(e.kind, t, inc), tag_loc: e.tag_loc, orig: e.orig },
        ),
        _ => n,
    }
}

/// A node list translated elementwise.
pub open spec fn spec_translate_nodes(
    ns: Seq<SpecNode>,
    t: SpecTable,
    inc: Seq<Seq<char>>,
) -> Seq<SpecNode>
    decreases ns, 1int,
{
    Seq::new(
        ns.len(),
        |i: int|
            if 0 <= i < ns.len() {
                spec_translate_node(ns[i], t, inc)
            } else {
                SpecNode::Opaque { id: 0, loc: Loc::spec_zero() }
            },
    )
}

/// The node a translated block segment is rebuilt into: an assigned
/// placeholder becomes the recorded child, itself translated; any other
/// segment becomes a static text node carrying the anchor's position.
pub open spec fn spec_block_seg_node(
    children: Seq<SpecNode>,
    phidx: Seq<int>,
    seg: Seq<char>,
    aloc: Loc,
    t: SpecTable,
    inc: Seq<Seq<char>>,
) -> SpecNode
    decreases children, 2int,
{
    match spec_seg_is_ph(seg, phidx.len() as int) {
        Option::Some(k) => {
            if 0 <= phidx[k] < children.len() {
                spec_translate_node(children[phidx[k]], t, inc)
            } else {
                SpecNode::Text(
                    spec_translate_value(SpecValue::Static { value: seg, loc: aloc }, t),
                )
            }
        },
        Option::None => SpecNode::Text(
            spec_translate_value(SpecValue::Static { value: seg, loc: aloc }, t),
        ),
    }
}

/// A whole-children block translated through one locale's table, its
/// marker at position `mi`.
///
/// The marker is consumed.  When the block's key is in the table, the
/// children are replaced by the translated string's segments, each rebuilt
/// by `spec_block_seg_node`; every reinserted child, and every new text
/// segment, is then translated on its own, so nested units keep their
/// independent translations.  When the key is absent, or the block has no
/// static-text anchor, the children are kept (marker-free) and translated
/// one by one.
pub open spec fn spec_block_result(
    children: Seq<SpecNode>,
    mi: int,
    t: SpecTable,
    inc: Seq<Seq<char>>,
) -> Seq<SpecNode>
    decreases children, 3int,
{
    let scan = spec_block_scan(children, mi, 0, 0);
    let fallback = spec_translate_nodes(children, t, inc).remove(mi);
    match scan.2 {
        Option::None => fallback,
        Option::Some(a) => match spec_lookup(t, scan.0) {
            Option::None => fallback,
            Option::Some(tr) => {
                let aloc = (match children[a] {
                    SpecNode::Text(SpecValue::Static { loc, .. }) => loc,
                    _ => Loc::spec_zero(),
                });
                let segs = spec_split(tr);
                Seq::new(
                    segs.len(),
                    |si: int|
                        spec_block_seg_node(
                            children,
                            scan.1,
                            if 0 <= si < segs.len() {
                                segs[si]
                            } else {
                                Seq::empty()
                            },
                            aloc,
                            t,
                            inc,
                        ),
                )
            },
        },
    }
}

/// An element kind translated through one locale's table.
pub open spec fn spec_translate_kind(
    k: SpecElementKind,
    t: SpecTable,
    inc: Seq<Seq<char>>,
) -> SpecElementKind
    decreases k, 5int,
{
    match k {
        SpecElementKind::Normal { attributes, children } => SpecElementKind::Normal {
            attributes: spec_translate_attrs(attributes, t, inc),
            children: (match spec_first_meta(children) {
                Option::Some(mi) => {
                    if (match children[mi] {
                        SpecNode::MetaTag(tag) => spec_has_translate_children(tag),
                        _ => false,
                    }) {
                        spec_block_result(children, mi, t, inc)
                    } else {
                        spec_translate_nodes(children, t, inc)
                    }
                },
                Option::None => spec_translate_nodes(children, t, inc),
            }),
        },
        SpecElementKind::If { branches, else_branch } => SpecElementKind::If {
            branches: spec_translate_branches(branches, t, inc),
            else_branch: match else_branch {
                Option::Some(b) => Option::Some(
                    SpecElseBranch { loc: b.loc, children: spec_translate_nodes(b.children, t, inc) },
                ),
                Option::None => Option::None,
            },
        },
        SpecElementKind::For { children } => SpecElementKind::For {
            children: spec_translate_nodes(children, t, inc),
        },
        SpecElementKind::Pure { children } => SpecElementKind::Pure {
            children: spec_translate_nodes(children, t, inc),
        },
        SpecElementKind::Other => SpecElementKind::Other,
    }
}

/// Conditional branches translated: each branch's children are rewritten,
/// its guard untouched.
pub open spec fn spec_translate_branches(
    bs: Seq<SpecIfBranch>,
    t: SpecTable,
    inc: Seq<Seq<char>>,
) -> Seq<SpecIfBranch>
    decreases bs, 4int,
{
    Seq::new(
        bs.len(),
        |i: int|
            if 0 <= i < bs.len() {
                SpecIfBranch {
                    loc: bs[i].loc,
                    cond: bs[i].cond,
                    children: spec_translate_nodes(bs[i].children, t, inc),
                }
            } else {
                SpecIfBranch {
                    loc: Loc::spec_zero(),
                    cond: SpecValue::Static { value: Seq::empty(), loc: Loc::spec_zero() },
                    children: Seq::empty(),
                }
            },
    )
}

/// Translates one node.
fn translate_node(n: &Node, trans_content_map: &Vec<(String, String)>, included: &Vec<String>) -> (r:
    Node)
    ensures
        r@ == spec_translate_node(n@, trans_content_map.deep_view(), included.deep_view()),
    decreases *n, 0int,
{
    match n {
        Node::Text(v) => Node::Text(translate_value(v, trans_content_map)),
        Node::Element(e) => Node::Element(
            Element {
                kind: translate_kind(&e.kind, trans_content_map, included),
                tag_loc: e.tag_loc,
                orig: e.orig,
            },
        ),
        _ => clone_node(n),
    }
}

/// Translates every node of a list through one locale's table.
pub fn translate(
    node_list: &Vec<Node>,
    trans_content_map: &Vec<(String, String)>,
    included_attributes: &Vec<String>,
) -> (r: Vec<Node>)
    ensures
        nodes_view(r@) == spec_translate_nodes(
            nodes_view(node_list@),
            trans_content_map.deep_view(),
            included_attributes.deep_view(),
        ),
    decreases *node_list, 1int,
{
    let n: usize = node_list.len();
    let mut r: Vec<Node> = Vec::new();
    let mut i: usize = 0;
    while i < n
        invariant
            0 <= i <= n,
            n == node_list@.len(),
            r@.len() == i,
            forall|k: int|
                0 <= k < i ==> (#[trigger] r@[k])@ == spec_translate_node(
                    node_list@[k]@,
                    trans_content_map.deep_view(),
                    included_attributes.deep_view(),
                ),
        decreases n - i,
    {
        r.push(translate_node(&node_list[i], trans_content_map, included_attributes));
        i = i + 1;
    }
    proof {
        assert(nodes_view(r@) =~= spec_translate_nodes(
            nodes_view(node_list@),
            trans_content_map.deep_view(),
            included_attributes.deep_view(),
        ));
    }
    r
}

/// Translates a whole-children block: consumes the marker at `mi`, rewrites
/// the children through the block's catalog entry where there is one, and
/// translates every resulting child on its own.
pub fn translate_entire_children(
    node_list: &Vec<Node>,
    mi: usize,
    trans_content_map: &Vec<(String, String)>,
    included_attributes: &Vec<String>,
) -> (r: Vec<Node>)
    requires
        mi < node_list@.len(),
    ensures
        nodes_view(r@) == spec_block_result(
            nodes_view(node_list@),
            mi as int,
            trans_content_map.deep_view(),
            included_attributes.deep_view(),
        ),
    decreases *node_list, 3int,
{
    let ghost nv = nodes_view(node_list@);
    let ghost tv = trans_content_map.deep_view();
    let ghost iv = included_attributes.deep_view();
    let ghost scan = spec_block_scan(nv, mi as int, 0, 0);
    let n: usize = node_list.len();
    let parts: BlockParts = derive_block_parts(node_list, mi);
    let mut hit: Option<String> = Option::None;
    let mut aloc: Loc = Loc::zero();
    let mut anchored = false;
    match parts.anchor {
        Option::Some(a) => {
            anchored = true;
            proof {
                crate::key::lemma_block_scan_bounds(nv, mi as int, 0, 0);
                assert(nv[a as int] == node_list@[a as int]@);
            }
            match &node_list[a] {
                Node::Text(Value::Static { loc, .. }) => {
                    aloc = *loc;
                },
                _ => {},
            }
            hit = table_lookup(trans_content_map, parts.key.as_str());
        },
        Option::None => {},
    }
    match hit {
        Option::Some(tr) => {
            let ghost segv = spec_split(tr@);
            let segs = split_translated_str(tr.as_str());
            let sn: usize = segs.len();
            let mut r: Vec<Node> = Vec::new();
            let mut si: usize = 0;
            while si < sn
                invariant
                    0 <= si <= sn,
                    sn == segv.len(),
                    segs.deep_view() == segv,
                    nv == nodes_view(node_list@),
                    tv == trans_content_map.deep_view(),
                    iv == included_attributes.deep_view(),
                    scan == spec_block_scan(nv, mi as int, 0, 0),
                    n == node_list@.len(),
                    parts.placeholders@.len() == scan.1.len(),
                    forall|j: int|
                        0 <= j < parts.placeholders@.len() ==> #[trigger] parts.placeholders@[j]
                            == scan.1[j] && parts.placeholders@[j] < n,
                    r@.len() == si,
                    forall|k: int|
                        0 <= k < si ==> (#[trigger] r@[k])@ == spec_block_seg_node(
                            nv,
                            scan.1,
                            segv[k],
                            aloc,
                            tv,
                            iv,
                        ),
                decreases sn - si,
            {
                proof {
                    assert(segs.deep_view()[si as int] == segs@[si as int]@);
                }
                match seg_placeholder(segs[si].as_str(), parts.placeholders.len()) {
                    Option::Some(k) => {
                        let j = parts.placeholders[k];
                        proof {
                            assert(nv[j as int] == node_list@[j as int]@);
                        }
                        r.push(translate_node(&node_list[j], trans_content_map, included_attributes));
                    },
                    Option::None => {
                        let tmp = Value::Static { value: segs[si].clone(), loc: aloc };
                        r.push(Node::Text(translate_value(&tmp, trans_content_map)));
                    },
                }
                si = si + 1;
            }
            proof {
                assert(nodes_view(r@) =~= spec_block_result(nv, mi as int, tv, iv));
            }
            r
        },
        Option::None => {
            let mut r: Vec<Node> = Vec::new();
            let mut j: usize = 0;
            while j < n
                invariant
                    0 <= j <= n,
                    n == node_list@.len(),
                    nv == nodes_view(node_list@),
                    tv == trans_content_map.deep_view(),
                    iv == included_attributes.deep_view(),
                    mi < n,
                    r@.len() == (if j <= mi {
                        j as int
                    } else {
                        j - 1
                    }),
                    forall|k: int|
                        0 <= k < r@.len() ==> (#[trigger] r@[k])@ == (if k < mi {
                            spec_translate_node(nv[k], tv, iv)
                        } else {
                            spec_translate_node(nv[k + 1], tv, iv)
                        }),
                decreases n - j,
            {
                proof {
                    assert(nv[j as int] == node_list@[j as int]@);
                }
                if j != mi {
                    r.push(translate_node(&node_list[j], trans_content_map, included_attributes));
                }
                j = j + 1;
            }
            proof {
                assert(nodes_view(r@) =~= spec_translate_nodes(nv, tv, iv).remove(mi as int));
                assert(nodes_view(r@) =~= spec_block_result(nv, mi as int, tv, iv));
            }
            r
        },
    }
}

/// Translates one conditional branch's children.
fn translate_branch(
    b: &IfBranch,
    trans_content_map: &Vec<(String, String)>,
    included: &Vec<String>,
) -> (r: IfBranch)
    ensures
        crate::tree::branch_view(r) == (SpecIfBranch {
            loc: crate::tree::branch_view(*b).loc,
            cond: crate::tree::branch_view(*b).cond,
            children: spec_translate_nodes(
                crate::tree::branch_view(*b).children,
                trans_content_map.deep_view(),
                included.deep_view(),
            ),
        }),
    decreases *b, 2int,
{
    IfBranch {
        loc: b.loc,
        cond: clone_value(&b.cond),
        children: translate(&b.children, trans_content_map, included),
    }
}

/// Translates a branch list.
fn translate_branches(
    bs: &Vec<IfBranch>,
    trans_content_map: &Vec<(String, String)>,
    included: &Vec<String>,
) -> (r: Vec<IfBranch>)
    ensures
        branches_view(r@) == spec_translate_branches(
            branches_view(bs@),
            trans_content_map.deep_view(),
            included.deep_view(),
        ),
    decreases *bs, 3int,
{
    let bn: usize = bs.len();
    let mut r: Vec<IfBranch> = Vec::new();
    let mut i: usize = 0;
    while i < bn
        invariant
            0 <= i <= bn,
            bn == bs@.len(),
            r@.len() == i,
            forall|j: int|
                0 <= j < i ==> crate::tree::branch_view(#[trigger] r@[j]) == (SpecIfBranch {
                    loc: crate::tree::branch_view(bs@[j]).loc,
                    cond: crate::tree::branch_view(bs@[j]).cond,
                    children: spec_translate_nodes(
                        crate::tree::branch_view(bs@[j]).children,
                        trans_content_map.deep_view(),
                        included.deep_view(),
                    ),
                }),
        decreases bn - i,
    {
        r.push(translate_branch(&bs[i], trans_content_map, included));
        i = i + 1;
    }
    proof {
        assert(branches_view(r@) =~= spec_translate_branches(
            branches_view(bs@),
            trans_content_map.deep_view(),
            included.deep_view(),
        ));
    }
    r
}

/// Translates an element kind.
fn translate_kind(
    k: &ElementKind,
    trans_content_map: &Vec<(String, String)>,
    included: &Vec<String>,
) -> (r: ElementKind)
    ensures
        crate::tree::kind_view(r) == spec_translate_kind(
            crate::tree::kind_view(*k),
            trans_content_map.deep_view(),
            included.deep_view(),
        ),
    decreases *k, 5int,
{
    let ghost tv = trans_content_map.deep_view();
    let ghost iv = included.deep_view();
    match k {
        ElementKind::Normal { attributes, children } => {
            let ats = translate_attribute(attributes, trans_content_map, included);
            let mut block_mi: Option<usize> = Option::None;
            match find_first_meta(children) {
                Option::Some(mi) => {
                    proof {
                        assert(nodes_view(children@)[mi as int] == children@[mi as int]@);
                    }
                    match &children[mi] {
                        Node::MetaTag(t) => {
                            if has_i18n_translate_children(t) {
                                block_mi = Option::Some(mi);
                            }
                        },
                        _ => {},
                    }
                },
                Option::None => {},
            }
            let cs = match block_mi {
                Option::Some(mi) => translate_entire_children(
                    children,
                    mi,
                    trans_content_map,
                    included,
                ),
                Option::None => translate(children, trans_content_map, included),
            };
            let r = ElementKind::Normal { attributes: ats, children: cs };
            proof {
                assert(crate::tree::kind_view(r) =~= spec_translate_kind(
                    crate::tree::kind_view(*k),
                    tv,
                    iv,
                ));
            }
            r
        },
        ElementKind::If { branches, else_branch } => {
            let eb = match else_branch {
                Option::Some(b) => Option::Some(
                    ElseBranch {
                        loc: b.loc,
                        children: translate(&b.children, trans_content_map, included),
                    },
                ),
                Option::None => Option::None,
            };
            let r = ElementKind::If {
                branches: translate_branches(branches, trans_content_map, included),
                else_branch: eb,
            };
            proof {
                assert(crate::tree::kind_view(r) =~= spec_translate_kind(
                    crate::tree::kind_view(*k),
                    tv,
                    iv,
                ));
            }
            r
        },
        ElementKind::For { children } => {
            let r = ElementKind::For {
                children: translate(children, trans_content_map, included),
            };
            proof {
                assert(crate::tree::kind_view(r) =~= spec_translate_kind(
                    crate::tree::kind_view(*k),
                    tv,
                    iv,
                ));
            }
            r
        },
        ElementKind::Pure { children } => {
            let r = ElementKind::Pure {
                children: translate(children, trans_content_map, included),
            };
            proof {
                assert(crate::tree::kind_view(r) =~= spec_translate_kind(
                    crate::tree::kind_view(*k),
                    tv,
                    iv,
                ));
            }
            r
        },
        ElementKind::Other => ElementKind::Other,
    }
}

// ----------------------------------------------------------------------
// Branch synthesis.

/// The guard of one locale's branch: `locale === "<tag>"`, every piece
/// anchored at the region's position.
pub open spec fn spec_branch_cond(lang: Seq<char>, bp: Loc) -> SpecValue {
    SpecValue::Dynamic {
        expr: Box::new(
            SpecExpr::EqFull {
                left: Box::new(SpecExpr::DataField { name: "locale"@, loc: bp }),
                right: Box::new(SpecExpr::LitStr { value: lang, loc: bp }),
                loc: bp,
            },
        ),
        open: bp,
        close: bp,
        orig: SYNTHETIC as u64,
    }
}

/// The conditional element that replaces one translatable region: one
/// branch per locale, in the catalog's (ascending) order, each holding the
/// region translated through that locale's table and guarded by a
/// comparison of the runtime `locale` field with the locale's tag; and an
/// else branch holding the region untranslated, markers stripped.  Every
/// synthesized position is the region's first node's position, or the zero
/// position for an empty region.
pub open spec fn spec_translate_template(
    ns: Seq<SpecNode>,
    cat: SpecCatalog,
    inc: Seq<Seq<char>>,
) -> SpecElement {
    let bp = (match spec_first_child_position(ns) {
        Option::Some(l) => l,
        Option::None => Loc::spec_zero(),
    });
    SpecElement {
        kind: SpecElementKind::If {
            branches: Seq::new(
                cat.len(),
                |i: int|
                    if 0 <= i < cat.len() {
                        SpecIfBranch {
                            loc: bp,
                            cond: spec_branch_cond(cat[i].0, bp),
                            children: spec_translate_nodes(ns, cat[i].1, inc),
                        }
                    } else {
                        SpecIfBranch {
                            loc: Loc::spec_zero(),
                            cond: SpecValue::Static { value: Seq::empty(), loc: Loc::spec_zero() },
                            children: Seq::empty(),
                        }
                    },
            ),
            else_branch: Option::Some(
                SpecElseBranch { loc: bp, children: spec_strip_nodes(ns) },
            ),
        },
        tag_loc: TagLoc { start_open: bp, start_close: bp, close: bp, end: Option::Some((bp, bp)) },
        orig: SYNTHETIC as u64,
    }
}

/// Builds the conditional element replacing one translatable region.
///
/// The element always holds one branch per locale of the catalog plus the
/// final else branch, so the number of conditional branches is the number
/// of locales plus one.
pub fn translate_template(
    template: &Vec<Node>,
    trans_content: &OrderedTransContent,
    included_attributes: &Vec<String>,
) -> (r: Element)
    ensures
        crate::tree::element_view(r) == spec_translate_template(
            nodes_view(template@),
            trans_content@,
            included_attributes.deep_view(),
        ),
        r.kind is If,
        crate::tree::element_view(r).kind->If_branches.len() == trans_content@.len(),
        crate::tree::element_view(r).kind->If_else_branch is Some,
{
    let ghost nv = nodes_view(template@);
    let ghost cv = trans_content@;
    let ghost iv = included_attributes.deep_view();
    let bp = match get_first_child_position(template) {
        Option::Some(l) => l,
        Option::None => Loc::zero(),
    };
    let cn: usize = trans_content.map.len();
    let mut branches: Vec<IfBranch> = Vec::new();
    let mut i: usize = 0;
    while i < cn
        invariant
            0 <= i <= cn,
            cn == cv.len(),
            nv == nodes_view(template@),
            cv == trans_content@,
            iv == included_attributes.deep_view(),
            branches@.len() == i,
            forall|j: int|
                0 <= j < i ==> crate::tree::branch_view(#[trigger] branches@[j])
                    == (SpecIfBranch {
                    loc: bp,
                    cond: spec_branch_cond(cv[j].0, bp),
                    children: spec_translate_nodes(nv, cv[j].1, iv),
                }),
        decreases cn - i,
    {
        proof {
            let ghost entry = trans_content.map@[i as int];
            assert(cv[i as int] == (entry.0@, entry.1.deep_view()));
        }
        let lang = trans_content.map[i].0.clone();
        proof {
            assert(lang@ == cv[i as int].0);
        }
        let locale_name = String::from_str("locale");
        proof {
            assert(locale_name@ == "locale"@);
        }
        let left_field = Expr::DataField { name: locale_name, loc: bp };
        let right_lit = Expr::LitStr { value: lang, loc: bp };
        proof {
            assert(crate::tree::expr_view(left_field) == (SpecExpr::DataField {
                name: "locale"@,
                loc: bp,
            }));
            assert(crate::tree::expr_view(right_lit) == (SpecExpr::LitStr {
                value: cv[i as int].0,
                loc: bp,
            }));
        }
        let cond = Value::Dynamic {
            expr: Box::new(
                Expr::EqFull { left: Box::new(left_field), right: Box::new(right_lit), loc: bp },
            ),
            open: bp,
            close: bp,
            orig: SYNTHETIC,
        };
        proof {
            let a1 = *crate::tree::value_view(cond)->Dynamic_expr;
            let a2 = *spec_branch_cond(cv[i as int].0, bp)->Dynamic_expr;
            assert(lang@ == cv[i as int].0);
            assert(a1->EqFull_left == a2->EqFull_left);
            assert(a1->EqFull_right == a2->EqFull_right);
            assert(a1 == a2);
            assert(crate::tree::value_view(cond) == spec_branch_cond(cv[i as int].0, bp));
        }
        let children = translate(template, &trans_content.map[i].1, included_attributes);
        let b = IfBranch { loc: bp, cond, children };
        proof {
            assert(crate::tree::branch_view(b) == (SpecIfBranch {
                loc: bp,
                cond: spec_branch_cond(cv[i as int].0, bp),
                children: spec_translate_nodes(nv, cv[i as int].1, iv),
            }));
        }
        branches.push(b);
        i = i + 1;
    }
    let else_children = remove_i18n_translate_children(template);
    let r = Element {
        kind: ElementKind::If {
            branches,
            else_branch: Option::Some(ElseBranch { loc: bp, children: else_children }),
        },
        tag_loc: TagLoc {
            start_open: bp,
            start_close: bp,
            close: bp,
            end: Option::Some((bp, bp)),
        },
        orig: SYNTHETIC,
    };
    proof {
        assert(crate::tree::element_view(r).kind->If_branches =~= spec_translate_template(
            nv,
            cv,
            iv,
        ).kind->If_branches);
        assert(crate::tree::element_view(r) =~= spec_translate_template(nv, cv, iv));
    }
    r
}

/// A whole template compiled against a catalog: when its main content opens
/// with the localization directive, the directive is removed and the main
/// content, and each named sub-template, is replaced by its synthesized
/// conditional element; otherwise the template is returned unchanged.
pub open spec fn spec_compile_template(
    t: SpecTemplate,
    cat: SpecCatalog,
    inc: Seq<Seq<char>>,
) -> SpecTemplate {
    if spec_contains_i18n_tag(t.content) {
        SpecTemplate {
            content: seq![
                SpecNode::Element(
                    spec_translate_template(spec_remove_i18n_tag(t.content), cat, inc),
                ),
            ],
            sub_templates: Seq::new(
                t.sub_templates.len(),
                |i: int|
                    if 0 <= i < t.sub_templates.len() {
                        seq![
                            SpecNode::Element(
                                spec_translate_template(t.sub_templates[i], cat, inc),
                            ),
                        ]
                    } else {
                        Seq::<SpecNode>::empty()
                    },
            ),
        }
    } else {
        t
    }
}

/// Compiles a whole template against a merged, ordered catalog.
pub fn compile_template(
    template: &Template,
    trans_content: &OrderedTransContent,
    included_attributes: &Vec<String>,
) -> (r: Template)
    ensures
        r@ == spec_compile_template(
            template@,
            trans_content@,
            included_attributes.deep_view(),
        ),
{
    let ghost tv = template@;
    let ghost cv = trans_content@;
    let ghost iv = included_attributes.deep_view();
    if contains_i18n_tag(&template.content) {
        let branch_template = remove_i18n_tag(&template.content);
        let main = translate_template(&branch_template, trans_content, included_attributes);
        let mut content: Vec<Node> = Vec::new();
        content.push(Node::Element(main));
        let sn: usize = template.sub_templates.len();
        let mut subs: Vec<Vec<Node>> = Vec::new();
        let mut i: usize = 0;
        while i < sn
            invariant
                0 <= i <= sn,
                sn == template.sub_templates@.len(),
                tv == template@,
                cv == trans_content@,
                iv == included_attributes.deep_view(),
                subs@.len() == i,
                forall|j: int|
                    0 <= j < i ==> nodes_view((#[trigger] subs@[j])@) == seq![
                        SpecNode::Element(
                            spec_translate_template(tv.sub_templates[j], cv, iv),
                        ),
                    ],
            decreases sn - i,
        {
            proof {
                let ghost sv = template.sub_templates@[i as int];
                assert(tv.sub_templates[i as int] == nodes_view(sv@));
            }
            let sub = translate_template(
                &template.sub_templates[i],
                trans_content,
                included_attributes,
            );
            let mut sub_content: Vec<Node> = Vec::new();
            sub_content.push(Node::Element(sub));
            proof {
                assert(nodes_view(sub_content@) =~= seq![
                    SpecNode::Element(
                        spec_translate_template(tv.sub_templates[i as int], cv, iv),
                    ),
                ]);
            }
            subs.push(sub_content);
            i = i + 1;
        }
        let r = Template { content, sub_templates: subs };
        proof {
            assert(nodes_view(r.content@) =~= spec_compile_template(tv, cv, iv).content);
            assert(subs_view(r.sub_templates@) =~= spec_compile_template(tv, cv, iv).sub_templates);
            assert(r@ =~= spec_compile_template(tv, cv, iv));
        }
        r
    } else {
        let sn: usize = template.sub_templates.len();
        let mut subs: Vec<Vec<Node>> = Vec::new();
        let mut i: usize = 0;
        while i < sn
            invariant
                0 <= i <= sn,
                sn == template.sub_templates@.len(),
                tv == template@,
                subs@.len() == i,
                forall|j: int|
                    0 <= j < i ==> nodes_view((#[trigger] subs@[j])@) == nodes_view(
                        template.sub_templates@[j]@,
                    ),
            decreases sn - i,
        {
            subs.push(clone_nodes(&template.sub_templates[i]));
            i = i + 1;
        }
        let r = Template { content: clone_nodes(&template.content), sub_templates: subs };
        proof {
            assert(subs_view(r.sub_templates@) =~= subs_view(template.sub_templates@));
            assert(r@ =~= spec_compile_template(tv, cv, iv));
        }
        r
    }
}

// ----------------------------------------------------------------------
// What rewriting promises.

/// The string an expression evaluates to at render time, given a valuation
/// `val` for the expressions the engine treats as opaque content: a
/// literal is its text, a stringify wrapper is its wrapped expression's
/// value, and concatenation concatenates.
pub open spec fn spec_eval(e: SpecExpr, val: spec_fn(SpecExpr) -> Seq<char>) -> Seq<char>
    decreases e,
{
    match e {
        SpecExpr::LitStr { value, .. } => value,
        SpecExpr::ToStr { value, .. } => val(*value),
        SpecExpr::Plus { left, right, .. } => spec_eval(*left, val) + spec_eval(*right, val),
        _ => val(e),
    }
}

/// The string literal substitution into the translated segments would
/// produce: each assigned placeholder becomes its recorded expression's
/// value, every other segment stays as text, concatenated in order.
pub open spec fn spec_subst_segs(
    segs: Seq<Seq<char>>,
    ph: Seq<SpecExpr>,
    val: spec_fn(SpecExpr) -> Seq<char>,
) -> Seq<char>
    decreases segs.len(),
{
    if segs.len() == 0 {
        Seq::empty()
    } else {
        spec_subst_segs(segs.drop_last(), ph, val) + (match spec_seg_is_ph(
            segs.last(),
            ph.len() as int,
        ) {
            Option::Some(k) => val(ph[k]),
            Option::None => segs.last(),
        })
    }
}

/// Round trip through placeholders: for any translated string's segments
/// and any runtime values of the recorded sub-expressions, the rebuilt
/// expression evaluates to exactly what literal substitution into the
/// translated string would produce — the translation's ordering of the
/// dynamic parts is preserved.
pub proof fn lemma_round_trip_via_placeholders(
    segs: Seq<Seq<char>>,
    ph: Seq<SpecExpr>,
    pos: Loc,
    val: spec_fn(SpecExpr) -> Seq<char>,
)
    requires
        segs.len() > 0,
    ensures
        spec_eval(spec_translated_expr(segs, ph, pos), val) == spec_subst_segs(segs, ph, val),
    decreases segs.len(),
{
    let es = Seq::new(
        segs.len(),
        |i: int|
            if 0 <= i < segs.len() {
                spec_seg_expr(segs[i], ph, pos)
            } else {
                SpecExpr::LitStr { value: Seq::empty(), loc: pos }
            },
    );
    if segs.len() == 1 {
        assert(spec_translated_expr(segs, ph, pos) == es[0]);
        assert(spec_subst_segs(segs.drop_last(), ph, val) + (match spec_seg_is_ph(
            segs.last(),
            ph.len() as int,
        ) {
            Option::Some(k) => val(ph[k]),
            Option::None => segs.last(),
        }) =~= spec_eval(es[0], val)) by {
            assert(segs.last() == segs[0]);
            assert(spec_subst_segs(segs.drop_last(), ph, val) =~= Seq::<char>::empty());
        }
    } else {
        let pre = segs.drop_last();
        lemma_round_trip_via_placeholders(pre, ph, pos, val);
        let es_pre = Seq::new(
            pre.len(),
            |i: int|
                if 0 <= i < pre.len() {
                    spec_seg_expr(pre[i], ph, pos)
                } else {
                    SpecExpr::LitStr { value: Seq::empty(), loc: pos }
                },
        );
        assert(es.drop_last() =~= es_pre);
        assert(spec_translated_expr(segs, ph, pos) == (SpecExpr::Plus {
            left: Box::new(spec_join_exprs(es.drop_last(), pos)),
            right: Box::new(es.last()),
            loc: pos,
        }));
        assert(es.last() == spec_seg_expr(segs.last(), ph, pos));
        assert(spec_eval(es.last(), val) == (match spec_seg_is_ph(segs.last(), ph.len() as int) {
            Option::Some(k) => val(ph[k]),
            Option::None => segs.last(),
        }));
    }
}

/// Fallback for a value unit: a unit whose key a locale's table lacks is
/// left exactly as it stands in the untranslated else branch.
pub proof fn lemma_fallback_value(v: SpecValue, t: SpecTable)
    requires
        spec_lookup(t, spec_value_key(v)) is None,
    ensures
        spec_translate_value(v, t) == v,
{
}

/// Fallback for a whole-children block: when a locale's table lacks the
/// block's key, the block's children are kept — only the marker is
/// consumed — and each child is translated on its own, exactly as outside
/// a block.
pub proof fn lemma_fallback_block(
    children: Seq<SpecNode>,
    mi: int,
    t: SpecTable,
    inc: Seq<Seq<char>>,
)
    requires
        spec_lookup(t, spec_block_key(children, mi)) is None,
    ensures
        spec_block_result(children, mi, t, inc) == spec_translate_nodes(children, t, inc).remove(
            mi,
        ),
{
}

/// The untranslated else branch keeps every text unit byte for byte: the
/// marker stripping touches only markers and element structure.
pub proof fn lemma_strip_keeps_text(v: SpecValue)
    ensures
        spec_strip_node(SpecNode::Text(v)) == SpecNode::Text(v),
{
}

} // verus!
