//! Extracting translation keys.
//!
//! The extractor walks a template the same way the compiler does, but
//! instead of rewriting it collects the key of every eligible unit — text
//! nodes, attributes on the include list, and whole-children blocks as
//! single units — in document order, suppressing duplicates.  Keys that are
//! blank after trimming are dropped at the end.  The result is a scaffold
//! for a new translation catalog.

use vstd::prelude::*;

use crate::compile::{spec_contains_str, spec_first_meta, spec_has_translate_children};
use crate::key::{derive_value_parts, spec_block_key, spec_value_key, BlockParts};
use crate::strings::{spec_trim, str_eq, trim_str};
use crate::tree::{
    nodes_view, Attr, ElementKind, IfBranch, Node, SpecAttr, SpecElementKind, SpecIfBranch,
    SpecNode, SpecTemplate, Template, Value,
};

verus! {

/// The extracted keys of a template, in order of first appearance.
#[derive(Debug, PartialEq)]
pub struct UntranslatedTerms {
    pub output: Vec<String>,
}

/// A term appended to the list unless the list already holds it.
pub open spec fn spec_add_term(acc: Seq<Seq<char>>, term: Seq<char>) -> Seq<Seq<char>> {
    if acc.contains(term) {
        acc
    } else {
        acc.push(term)
    }
}

/// The terms of the attributes on the include list, in attribute order.
pub open spec fn spec_search_attrs(
    ats: Seq<SpecAttr>,
    inc: Seq<Seq<char>>,
    acc: Seq<Seq<char>>,
    i: int,
) -> Seq<Seq<char>>
    decreases ats.len() - i,
{
    if i < 0 || i >= ats.len() {
        acc
    } else {
        let acc2 = if spec_contains_str(inc, ats[i].name) {
            match ats[i].value {
                Option::Some(v) => spec_add_term(acc, spec_value_key(v)),
                Option::None => acc,
            }
        } else {
            acc
        };
        spec_search_attrs(ats, inc, acc2, i + 1)
    }
}

/// The terms of one node, appended to `acc`.
pub open spec fn spec_search_node(n: SpecNode, inc: Seq<Seq<char>>, acc: Seq<Seq<char>>) -> Seq<
    Seq<char>,
>
    decreases n, 0int, 0int,
{
    match n {
        SpecNode::Text(v) => spec_add_term(acc, spec_value_key(v)),
        SpecNode::Element(e) => match e.kind {
            SpecElementKind::Normal { attributes, children } => {
                let acc1 = spec_search_attrs(attributes, inc, acc, 0);
                match spec_first_meta(children) {
                    Option::Some(mi) => {
                        if (match children[mi] {
                            SpecNode::MetaTag(tag) => spec_has_translate_children(tag),
                            _ => false,
                        }) {
                            spec_search_block(children, mi, inc, acc1)
                        } else {
                            spec_search_nodes(children, inc, acc1, 0)
                        }
                    },
                    Option::None => spec_search_nodes(children, inc, acc1, 0),
                }
            },
            SpecElementKind::If { branches, else_branch } => {
                let acc1 = spec_search_branches(branches, inc, acc, 0);
                match else_branch {
                    Option::Some(b) => spec_search_nodes(b.children, inc, acc1, 0),
                    Option::None => acc1,
                }
            },
            SpecElementKind::For { children } => spec_search_nodes(children, inc, acc, 0),
            SpecElementKind::Pure { children } => spec_search_nodes(children, inc, acc, 0),
            SpecElementKind::Other => acc,
        },
        _ => acc,
    }
}

/// The terms of a node list from position `i` on.
pub open spec fn spec_search_nodes(
    ns: Seq<SpecNode>,
    inc: Seq<Seq<char>>,
    acc: Seq<Seq<char>>,
    i: int,
) -> Seq<Seq<char>>
    decreases ns, ns.len() - i, 1int,
{
    if i < 0 || i >= ns.len() {
        acc
    } else {
        spec_search_nodes(ns, inc, spec_search_node(ns[i], inc, acc), i + 1)
    }
}

/// The terms of a branch list from position `i` on.
pub open spec fn spec_search_branches(
    bs: Seq<SpecIfBranch>,
    inc: Seq<Seq<char>>,
    acc: Seq<Seq<char>>,
    i: int,
) -> Seq<Seq<char>>
    decreases bs, bs.len() - i, 1int,
{
    if i < 0 || i >= bs.len() {
        acc
    } else {
        spec_search_branches(bs, inc, spec_search_nodes(bs[i].children, inc, acc, 0), i + 1)
    }
}

/// The terms of the nested elements inside a whole-children block: each
/// plain nested element's children are searched on their own, so nested
/// units stay independently translatable.
pub open spec fn spec_search_block_nested(
    children: Seq<SpecNode>,
    mi: int,
    inc: Seq<Seq<char>>,
    acc: Seq<Seq<char>>,
    i: int,
) -> Seq<Seq<char>>
    decreases children, children.len() - i, 2int,
{
    if i < 0 || i >= children.len() {
        acc
    } else {
        let acc2 = if i != mi {
            match children[i] {
                SpecNode::Element(e) => match e.kind {
                    SpecElementKind::Normal { children: nested, .. } => spec_search_nodes(
                        nested,
                        inc,
                        acc,
                        0,
                    ),
                    _ => acc,
                },
                _ => acc,
            }
        } else {
            acc
        };
        spec_search_block_nested(children, mi, inc, acc2, i + 1)
    }
}

/// The terms of a whole-children block: the nested elements' own terms
/// first, then the block's single key.
pub open spec fn spec_search_block(
    children: Seq<SpecNode>,
    mi: int,
    inc: Seq<Seq<char>>,
    acc: Seq<Seq<char>>,
) -> Seq<Seq<char>>
    decreases children, children.len() + 1, 3int,
{
    spec_add_term(
        spec_search_block_nested(children, mi, inc, acc, 0),
        spec_block_key(children, mi),
    )
}

/// The list with every term that is blank after trimming dropped.
pub open spec fn spec_drop_blank(ts: Seq<Seq<char>>) -> Seq<Seq<char>>
    decreases ts.len(),
{
    if ts.len() == 0 {
        Seq::empty()
    } else if spec_trim(ts[0]).len() == 0 {
        spec_drop_blank(ts.drop_first())
    } else {
        seq![ts[0]] + spec_drop_blank(ts.drop_first())
    }
}

/// The distinct translation keys of a whole template, in order of first
/// appearance: the main content's terms, then each named sub-template's,
/// with blank keys dropped.
pub open spec fn spec_search_template(t: SpecTemplate, inc: Seq<Seq<char>>) -> Seq<Seq<char>> {
    spec_drop_blank(spec_search_subs(t.sub_templates, inc, spec_search_nodes(t.content, inc, Seq::empty(), 0), 0))
}

/// The terms of the sub-templates from position `i` on.
pub open spec fn spec_search_subs(
    subs: Seq<Seq<SpecNode>>,
    inc: Seq<Seq<char>>,
    acc: Seq<Seq<char>>,
    i: int,
) -> Seq<Seq<char>>
    decreases subs.len() - i,
{
    if i < 0 || i >= subs.len() {
        acc
    } else {
        spec_search_subs(subs, inc, spec_search_nodes(subs[i], inc, acc, 0), i + 1)
    }
}

// ----------------------------------------------------------------------
// Executable walk.

/// Returns whether the list already holds the term.
fn terms_contain(terms_vec: &Vec<String>, term: &str) -> (r: bool)
    ensures
        r == terms_vec.deep_view().contains(term@),
{
    let n: usize = terms_vec.len();
    let mut i: usize = 0;
    while i < n
        invariant
            0 <= i <= n,
            n == terms_vec@.len(),
            forall|k: int| 0 <= k < i ==> #[trigger] terms_vec.deep_view()[k] != term@,
        decreases n - i,
    {
        proof {
            assert(terms_vec.deep_view()[i as int] == terms_vec@[i as int]@);
        }
        if str_eq(terms_vec[i].as_str(), term) {
            proof {
                assert(terms_vec.deep_view().contains(term@));
            }
            return true;
        }
        i = i + 1;
    }
    proof {
        if terms_vec.deep_view().contains(term@) {
            let k = choose|k: int|
                0 <= k < terms_vec.deep_view().len() && terms_vec.deep_view()[k] == term@;
            assert(terms_vec.deep_view()[k] == term@);
        }
    }
    false
}

/// Appends a term unless the list already holds it.
fn add_term(terms_vec: &mut Vec<String>, term: String)
    ensures
        final(terms_vec).deep_view() == spec_add_term(old(terms_vec).deep_view(), term@),
{
    let ghost pre = terms_vec.deep_view();
    if !terms_contain(terms_vec, term.as_str()) {
        terms_vec.push(term);
        proof {
            assert(terms_vec.deep_view() =~= pre.push(term@));
        }
    }
}

/// Collects the key of one value unit.
pub fn collect_terms(value: &Value, terms_vec: &mut Vec<String>)
    ensures
        final(terms_vec).deep_view() == spec_add_term(
            old(terms_vec).deep_view(),
            spec_value_key(value@),
        ),
{
    let parts = derive_value_parts(value);
    add_term(terms_vec, parts.0);
}

/// Collects the keys of the attributes on the include list.
pub fn collect_attribute_terms(
    attributes: &Vec<Attr>,
    terms_vec: &mut Vec<String>,
    included_attributes: &Vec<String>,
)
    ensures
        final(terms_vec).deep_view() == spec_search_attrs(
            crate::tree::attrs_view(attributes@),
            included_attributes.deep_view(),
            old(terms_vec).deep_view(),
            0,
        ),
{
    let ghost av = crate::tree::attrs_view(attributes@);
    let ghost iv = included_attributes.deep_view();
    let n: usize = attributes.len();
    let mut i: usize = 0;
    while i < n
        invariant
            0 <= i <= n,
            n == attributes@.len(),
            n == av.len(),
            av == crate::tree::attrs_view(attributes@),
            iv == included_attributes.deep_view(),
            spec_search_attrs(av, iv, old(terms_vec).deep_view(), 0) == spec_search_attrs(
                av,
                iv,
                terms_vec.deep_view(),
                i as int,
            ),
        decreases n - i,
    {
        proof {
            assert(av[i as int] == crate::tree::attr_view(attributes@[i as int]));
        }
        let a = &attributes[i];
        if crate::compile::contains_str(included_attributes, a.name.as_str()) {
            match &a.value {
                Option::Some(v) => {
                    collect_terms(v, terms_vec);
                },
                Option::None => {},
            }
        }
        i = i + 1;
    }
}

/// Collects the keys of a whole-children block, its marker at `mi`: the
/// nested elements' terms, then the block's single key.
pub fn collect_entire_children(
    node_list: &Vec<Node>,
    mi: usize,
    terms_vec: &mut Vec<String>,
    included_attributes: &Vec<String>,
)
    requires
        mi < node_list@.len(),
    ensures
        final(terms_vec).deep_view() == spec_search_block(
            nodes_view(node_list@),
            mi as int,
            included_attributes.deep_view(),
            old(terms_vec).deep_view(),
        ),
    decreases *node_list, node_list@.len() + 1, 3int,
{
    let ghost nv = nodes_view(node_list@);
    let ghost iv = included_attributes.deep_view();
    let n: usize = node_list.len();
    let mut i: usize = 0;
    while i < n
        invariant
            0 <= i <= n,
            n == node_list@.len(),
            n == nv.len(),
            nv == nodes_view(node_list@),
            iv == included_attributes.deep_view(),
            mi < n,
            spec_search_block_nested(nv, mi as int, iv, old(terms_vec).deep_view(), 0)
                == spec_search_block_nested(nv, mi as int, iv, terms_vec.deep_view(), i as int),
        decreases n - i,
    {
        proof {
            assert(nv[i as int] == node_list@[i as int]@);
        }
        if i != mi {
            match &node_list[i] {
                Node::Element(e) => {
                    match &e.kind {
                        ElementKind::Normal { children, .. } => {
                            search_terms(children, terms_vec, included_attributes);
                        },
                        _ => {},
                    }
                },
                _ => {},
            }
        }
        i = i + 1;
    }
    let parts: BlockParts = crate::key::derive_block_parts(node_list, mi);
    add_term(terms_vec, parts.key);
}

/// Walks a node list, collecting the key of every eligible unit in
/// document order.
pub fn search_terms(
    node_list: &Vec<Node>,
    terms_vec: &mut Vec<String>,
    included_attributes: &Vec<String>,
)
    ensures
        final(terms_vec).deep_view() == spec_search_nodes(
            nodes_view(node_list@),
            included_attributes.deep_view(),
            old(terms_vec).deep_view(),
            0,
        ),
    decreases *node_list, node_list@.len(), 1int,
{
    let ghost nv = nodes_view(node_list@);
    let ghost iv = included_attributes.deep_view();
    let n: usize = node_list.len();
    let mut i: usize = 0;
    while i < n
        invariant
            0 <= i <= n,
            n == node_list@.len(),
            n == nv.len(),
            nv == nodes_view(node_list@),
            iv == included_attributes.deep_view(),
            spec_search_nodes(nv, iv, old(terms_vec).deep_view(), 0) == spec_search_nodes(
                nv,
                iv,
                terms_vec.deep_view(),
                i as int,
            ),
        decreases n - i,
    {
        proof {
            assert(nv[i as int] == node_list@[i as int]@);
        }
        search_one_node(&node_list[i], terms_vec, included_attributes);
        i = i + 1;
    }
}

/// Collects the terms of a branch list, branch by branch.
fn search_branch_terms(
    branches: &Vec<IfBranch>,
    terms_vec: &mut Vec<String>,
    included_attributes: &Vec<String>,
)
    ensures
        final(terms_vec).deep_view() == spec_search_branches(
            crate::tree::branches_view(branches@),
            included_attributes.deep_view(),
            old(terms_vec).deep_view(),
            0,
        ),
    decreases *branches, branches@.len(), 1int,
{
    let ghost bv = crate::tree::branches_view(branches@);
    let ghost iv = included_attributes.deep_view();
    let bn: usize = branches.len();
    let mut bi: usize = 0;
    while bi < bn
        invariant
            0 <= bi <= bn,
            bn == branches@.len(),
            bn == bv.len(),
            bv == crate::tree::branches_view(branches@),
            iv == included_attributes.deep_view(),
            spec_search_branches(bv, iv, old(terms_vec).deep_view(), 0) == spec_search_branches(
                bv,
                iv,
                terms_vec.deep_view(),
                bi as int,
            ),
        decreases bn - bi,
    {
        proof {
            assert(bv[bi as int] == crate::tree::branch_view(branches@[bi as int]));
        }
        search_terms(&branches[bi].children, terms_vec, included_attributes);
        bi = bi + 1;
    }
}

/// Collects the terms of one node.
fn search_one_node(n: &Node, terms_vec: &mut Vec<String>, included_attributes: &Vec<String>)
    ensures
        final(terms_vec).deep_view() == spec_search_node(
            n@,
            included_attributes.deep_view(),
            old(terms_vec).deep_view(),
        ),
    decreases *n, 0int, 0int,
{
    let ghost iv = included_attributes.deep_view();
    match n {
        Node::Text(v) => {
            collect_terms(v, terms_vec);
        },
        Node::Element(e) => {
            match &e.kind {
                ElementKind::Normal { attributes, children } => {
                    collect_attribute_terms(attributes, terms_vec, included_attributes);
                    let mut block_mi: Option<usize> = Option::None;
                    match crate::compile::find_first_meta(children) {
                        Option::Some(mi) => {
                            proof {
                                assert(nodes_view(children@)[mi as int] == children@[mi as int]@);
                            }
                            match &children[mi] {
                                Node::MetaTag(t) => {
                                    if crate::compile::has_i18n_translate_children(t) {
                                        block_mi = Option::Some(mi);
                                    }
                                },
                                _ => {},
                            }
                        },
                        Option::None => {},
                    }
                    match block_mi {
                        Option::Some(mi) => {
                            collect_entire_children(children, mi, terms_vec, included_attributes);
                        },
                        Option::None => {
                            search_terms(children, terms_vec, included_attributes);
                        },
                    }
                },
                ElementKind::If { branches, else_branch } => {
                    search_branch_terms(branches, terms_vec, included_attributes);
                    match else_branch {
                        Option::Some(b) => {
                            search_terms(&b.children, terms_vec, included_attributes);
                        },
                        Option::None => {},
                    }
                },
                ElementKind::For { children } => {
                    search_terms(children, terms_vec, included_attributes);
                },
                ElementKind::Pure { children } => {
                    search_terms(children, terms_vec, included_attributes);
                },
                ElementKind::Other => {},
            }
        },
        _ => {},
    }
}

/// Extracts the distinct translation keys of a whole template: the main
/// content's, then each named sub-template's, in order of first
/// appearance, dropping keys that are blank after trimming.
pub fn search_template(template: &Template, included_attributes: &Vec<String>) -> (r:
    UntranslatedTerms)
    ensures
        r.output.deep_view() == spec_search_template(template@, included_attributes.deep_view()),
{
    let ghost tv = template@;
    let ghost iv = included_attributes.deep_view();
    let mut terms: Vec<String> = Vec::new();
    proof {
        assert(terms.deep_view() =~= Seq::<Seq<char>>::empty());
    }
    search_terms(&template.content, &mut terms, included_attributes);
    let sn: usize = template.sub_templates.len();
    let mut si: usize = 0;
    while si < sn
        invariant
            0 <= si <= sn,
            sn == template.sub_templates@.len(),
            sn == tv.sub_templates.len(),
            tv == template@,
            iv == included_attributes.deep_view(),
            spec_search_subs(
                tv.sub_templates,
                iv,
                spec_search_nodes(tv.content, iv, Seq::empty(), 0),
                0,
            ) == spec_search_subs(tv.sub_templates, iv, terms.deep_view(), si as int),
        decreases sn - si,
    {
        proof {
            assert(tv.sub_templates[si as int] == nodes_view(template.sub_templates@[si as int]@));
        }
        search_terms(&template.sub_templates[si], &mut terms, included_attributes);
        si = si + 1;
    }
    let tn: usize = terms.len();
    let mut output: Vec<String> = Vec::new();
    let ghost all = terms.deep_view();
    let mut ti: usize = 0;
    proof {
        assert(all.subrange(0, tn as int) =~= all);
    }
    while ti < tn
        invariant
            0 <= ti <= tn,
            tn == terms@.len(),
            tn == all.len(),
            all == terms.deep_view(),
            spec_drop_blank(all) == output.deep_view() + spec_drop_blank(
                all.subrange(ti as int, tn as int),
            ),
        decreases tn - ti,
    {
        let ghost rest = all.subrange(ti as int, tn as int);
        proof {
            assert(rest[0] == all[ti as int]);
            assert(rest.drop_first() =~= all.subrange(ti + 1, tn as int));
            assert(all[ti as int] == terms@[ti as int]@);
        }
        let t = trim_str(terms[ti].as_str());
        if t.unicode_len() > 0 {
            let ghost pre = output.deep_view();
            output.push(terms[ti].clone());
            proof {
                assert(output.deep_view() =~= pre.push(all[ti as int]));
                assert(pre.push(all[ti as int]) + spec_drop_blank(rest.drop_first()) =~= pre + (
                seq![rest[0]] + spec_drop_blank(rest.drop_first())));
            }
        }
        ti = ti + 1;
    }
    proof {
        assert(spec_drop_blank(all.subrange(tn as int, tn as int)).len() == 0);
        assert(spec_drop_blank(all) =~= output.deep_view());
    }
    UntranslatedTerms { output }
}

// ----------------------------------------------------------------------
// What extraction promises.

/// Whether a list holds no term twice.
pub open spec fn spec_terms_distinct(ts: Seq<Seq<char>>) -> bool {
    forall|i: int, j: int| 0 <= i < j < ts.len() ==> ts[i] != ts[j]
}

proof fn lemma_add_term_distinct(acc: Seq<Seq<char>>, term: Seq<char>)
    requires
        spec_terms_distinct(acc),
    ensures
        spec_terms_distinct(spec_add_term(acc, term)),
{
    if !acc.contains(term) {
        let r = acc.push(term);
        assert forall|i: int, j: int| 0 <= i < j < r.len() implies r[i] != r[j] by {
            if j == r.len() - 1 {
                assert(r[i] == acc[i]);
                if acc[i] == term {
                    assert(acc.contains(term));
                }
            }
        }
    }
}

proof fn lemma_search_attrs_distinct(
    ats: Seq<SpecAttr>,
    inc: Seq<Seq<char>>,
    acc: Seq<Seq<char>>,
    i: int,
)
    requires
        spec_terms_distinct(acc),
    ensures
        spec_terms_distinct(spec_search_attrs(ats, inc, acc, i)),
    decreases ats.len() - i,
{
    if i < 0 || i >= ats.len() {
    } else {
        let acc2 = if spec_contains_str(inc, ats[i].name) {
            match ats[i].value {
                Option::Some(v) => spec_add_term(acc, spec_value_key(v)),
                Option::None => acc,
            }
        } else {
            acc
        };
        if spec_contains_str(inc, ats[i].name) {
            match ats[i].value {
                Option::Some(v) => {
                    lemma_add_term_distinct(acc, spec_value_key(v));
                },
                Option::None => {},
            }
        }
        lemma_search_attrs_distinct(ats, inc, acc2, i + 1);
    }
}

proof fn lemma_search_node_distinct(n: SpecNode, inc: Seq<Seq<char>>, acc: Seq<Seq<char>>)
    requires
        spec_terms_distinct(acc),
    ensures
        spec_terms_distinct(spec_search_node(n, inc, acc)),
    decreases n, 0int, 0int,
{
    match n {
        SpecNode::Text(v) => {
            lemma_add_term_distinct(acc, spec_value_key(v));
        },
        SpecNode::Element(e) => match e.kind {
            SpecElementKind::Normal { attributes, children } => {
                lemma_search_attrs_distinct(attributes, inc, acc, 0);
                let acc1 = spec_search_attrs(attributes, inc, acc, 0);
                match spec_first_meta(children) {
                    Option::Some(mi) => {
                        if (match children[mi] {
                            SpecNode::MetaTag(tag) => spec_has_translate_children(tag),
                            _ => false,
                        }) {
                            lemma_search_block_distinct(children, mi, inc, acc1);
                        } else {
                            lemma_search_nodes_distinct(children, inc, acc1, 0);
                        }
                    },
                    Option::None => {
                        lemma_search_nodes_distinct(children, inc, acc1, 0);
                    },
                }
            },
            SpecElementKind::If { branches, else_branch } => {
                lemma_search_branches_distinct(branches, inc, acc, 0);
                let acc1 = spec_search_branches(branches, inc, acc, 0);
                match else_branch {
                    Option::Some(b) => {
                        lemma_search_nodes_distinct(b.children, inc, acc1, 0);
                    },
                    Option::None => {},
                }
            },
            SpecElementKind::For { children } => {
                lemma_search_nodes_distinct(children, inc, acc, 0);
            },
            SpecElementKind::Pure { children } => {
                lemma_search_nodes_distinct(children, inc, acc, 0);
            },
            SpecElementKind::Other => {},
        },
        _ => {},
    }
}

proof fn lemma_search_nodes_distinct(
    ns: Seq<SpecNode>,
    inc: Seq<Seq<char>>,
    acc: Seq<Seq<char>>,
    i: int,
)
    requires
        spec_terms_distinct(acc),
    ensures
        spec_terms_distinct(spec_search_nodes(ns, inc, acc, i)),
    decreases ns, ns.len() - i, 1int,
{
    if i < 0 || i >= ns.len() {
    } else {
        lemma_search_node_distinct(ns[i], inc, acc);
        lemma_search_nodes_distinct(ns, inc, spec_search_node(ns[i], inc, acc), i + 1);
    }
}

proof fn lemma_search_branches_distinct(
    bs: Seq<SpecIfBranch>,
    inc: Seq<Seq<char>>,
    acc: Seq<Seq<char>>,
    i: int,
)
    requires
        spec_terms_distinct(acc),
    ensures
        spec_terms_distinct(spec_search_branches(bs, inc, acc, i)),
    decreases bs, bs.len() - i, 1int,
{
    if i < 0 || i >= bs.len() {
    } else {
        lemma_search_nodes_distinct(bs[i].children, inc, acc, 0);
        lemma_search_branches_distinct(bs, inc, spec_search_nodes(bs[i].children, inc, acc, 0), i + 1);
    }
}

proof fn lemma_search_block_nested_distinct(
    children: Seq<SpecNode>,
    mi: int,
    inc: Seq<Seq<char>>,
    acc: Seq<Seq<char>>,
    i: int,
)
    requires
        spec_terms_distinct(acc),
    ensures
        spec_terms_distinct(spec_search_block_nested(children, mi, inc, acc, i)),
    decreases children, children.len() - i, 2int,
{
    if i < 0 || i >= children.len() {
    } else {
        let acc2 = if i != mi {
            match children[i] {
                SpecNode::Element(e) => match e.kind {
                    SpecElementKind::Normal { children: nested, .. } => spec_search_nodes(
                        nested,
                        inc,
                        acc,
                        0,
                    ),
                    _ => acc,
                },
                _ => acc,
            }
        } else {
            acc
        };
        if i != mi {
            match children[i] {
                SpecNode::Element(e) => match e.kind {
                    SpecElementKind::Normal { children: nested, .. } => {
                        lemma_search_nodes_distinct(nested, inc, acc, 0);
                    },
                    _ => {},
                },
                _ => {},
            }
        }
        lemma_search_block_nested_distinct(children, mi, inc, acc2, i + 1);
    }
}

proof fn lemma_search_block_distinct(
    children: Seq<SpecNode>,
    mi: int,
    inc: Seq<Seq<char>>,
    acc: Seq<Seq<char>>,
)
    requires
        spec_terms_distinct(acc),
    ensures
        spec_terms_distinct(spec_search_block(children, mi, inc, acc)),
    decreases children, children.len() + 1, 3int,
{
    lemma_search_block_nested_distinct(children, mi, inc, acc, 0);
    lemma_add_term_distinct(
        spec_search_block_nested(children, mi, inc, acc, 0),
        spec_block_key(children, mi),
    );
}

proof fn lemma_search_subs_distinct(
    subs: Seq<Seq<SpecNode>>,
    inc: Seq<Seq<char>>,
    acc: Seq<Seq<char>>,
    i: int,
)
    requires
        spec_terms_distinct(acc),
    ensures
        spec_terms_distinct(spec_search_subs(subs, inc, acc, i)),
    decreases subs.len() - i,
{
    if i < 0 || i >= subs.len() {
    } else {
        lemma_search_nodes_distinct(subs[i], inc, acc, 0);
        lemma_search_subs_distinct(subs, inc, spec_search_nodes(subs[i], inc, acc, 0), i + 1);
    }
}

/// Every term the blank filter keeps comes from the unfiltered list.
proof fn lemma_drop_blank_subset(ts: Seq<Seq<char>>, x: Seq<char>)
    requires
        spec_drop_blank(ts).contains(x),
    ensures
        ts.contains(x),
    decreases ts.len(),
{
    if ts.len() == 0 {
    } else if spec_trim(ts[0]).len() == 0 {
        lemma_drop_blank_subset(ts.drop_first(), x);
        let j = choose|j: int|
            0 <= j < ts.drop_first().len() && ts.drop_first()[j] == x;
        assert(ts[j + 1] == x);
    } else {
        let r = seq![ts[0]] + spec_drop_blank(ts.drop_first());
        let j = choose|j: int| 0 <= j < r.len() && r[j] == x;
        if j == 0 {
            assert(ts[0] == x);
        } else {
            assert(spec_drop_blank(ts.drop_first()).contains(x)) by {
                assert(spec_drop_blank(ts.drop_first())[j - 1] == x);
            }
            lemma_drop_blank_subset(ts.drop_first(), x);
            let j2 = choose|j2: int|
                0 <= j2 < ts.drop_first().len() && ts.drop_first()[j2] == x;
            assert(ts[j2 + 1] == x);
        }
    }
}

proof fn lemma_drop_blank_distinct(ts: Seq<Seq<char>>)
    requires
        spec_terms_distinct(ts),
    ensures
        spec_terms_distinct(spec_drop_blank(ts)),
    decreases ts.len(),
{
    if ts.len() == 0 {
    } else {
        assert forall|i: int, j: int|
            0 <= i < j < ts.drop_first().len() implies ts.drop_first()[i] != ts.drop_first()[
            j] by {
            assert(ts.drop_first()[i] == ts[i + 1]);
            assert(ts.drop_first()[j] == ts[j + 1]);
        }
        lemma_drop_blank_distinct(ts.drop_first());
        if spec_trim(ts[0]).len() == 0 {
        } else {
            let tail = spec_drop_blank(ts.drop_first());
            let r = seq![ts[0]] + tail;
            assert forall|i: int, j: int| 0 <= i < j < r.len() implies r[i] != r[j] by {
                if i == 0 {
                    assert(r[j] == tail[j - 1]);
                    if ts[0] == tail[j - 1] {
                        assert(tail.contains(ts[0]));
                        lemma_drop_blank_subset(ts.drop_first(), ts[0]);
                        let k = choose|k: int|
                            0 <= k < ts.drop_first().len() && ts.drop_first()[k] == ts[0];
                        assert(ts[k + 1] == ts[0]);
                    }
                } else {
                    assert(r[i] == tail[i - 1]);
                    assert(r[j] == tail[j - 1]);
                }
            }
        }
    }
}

/// Extraction never lists a key twice: a template holding the same literal
/// text in two places yields that key once, at its first appearance.
pub proof fn lemma_search_output_distinct(t: SpecTemplate, inc: Seq<Seq<char>>)
    ensures
        spec_terms_distinct(spec_search_template(t, inc)),
{
    let empty: Seq<Seq<char>> = Seq::empty();
    assert(spec_terms_distinct(empty));
    lemma_search_nodes_distinct(t.content, inc, empty, 0);
    lemma_search_subs_distinct(
        t.sub_templates,
        inc,
        spec_search_nodes(t.content, inc, empty, 0),
        0,
    );
    lemma_drop_blank_distinct(
        spec_search_subs(t.sub_templates, inc, spec_search_nodes(t.content, inc, empty, 0), 0),
    );
}

} // verus!
