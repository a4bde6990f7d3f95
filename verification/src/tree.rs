//! The template tree model.
//!
//! The engine works on a tree of its own: each node holds, as plain values,
//! exactly what the transform reads or rewrites (text, expressions it can
//! decompose, attribute values, children, positions).  Everything else that a
//! full template syntax tree carries is referred to by an opaque identifier
//! (`orig`), which an outside converter uses to restore the parts the engine
//! never touches.  Identifier `SYNTHETIC` marks values created by the engine
//! itself, for which no original exists.
//!
//! Every executable type has a spec-level mirror (`Spec*`) holding `Seq`s in
//! place of `Vec`s and `String`s; the `View` impls connect the two, and all
//! contracts are stated over the mirrors.

use vstd::prelude::*;

use crate::loc::{Loc, TagLoc};

verus! {

/// The identifier carried by nodes and values the engine synthesized itself.
pub const SYNTHETIC: u64 = 0;

/// An interpolation expression, as far as the engine can read it.
///
/// The engine decomposes string concatenation (`Plus`) whose sides are string
/// literals or stringify wrappers (`ToStr`), and it builds equality tests on a
/// data field for branch conditions.  Every other expression kind is `Opaque`
/// and is carried through unchanged.
#[derive(Debug, PartialEq)]
pub enum Expr {
    LitStr { value: String, loc: Loc },
    ToStr { value: Box<Expr>, loc: Loc },
    Plus { left: Box<Expr>, right: Box<Expr>, loc: Loc },
    DataField { name: String, loc: Loc },
    EqFull { left: Box<Expr>, right: Box<Expr>, loc: Loc },
    Opaque { id: u64 },
}

/// A text value: either static text or an interpolation `{{ ... }}`.
#[derive(Debug, PartialEq)]
pub enum Value {
    Static { value: String, loc: Loc },
    Dynamic { expr: Box<Expr>, open: Loc, close: Loc, orig: u64 },
}

/// A plain attribute of a normal element.
#[derive(Debug, PartialEq)]
pub struct Attr {
    pub name: String,
    pub value: Option<Value>,
}

/// An attribute of a meta tag, with its colon-separated name segments.
#[derive(Debug, PartialEq)]
pub struct MetaAttr {
    pub name: Vec<String>,
}

/// A meta tag `<!NAME ...>`, with its colon-separated name segments.
/// The localization directives are meta tags named `I18N`.
#[derive(Debug, PartialEq)]
pub struct MetaTag {
    pub name: Vec<String>,
    pub attributes: Vec<MetaAttr>,
    pub loc: Loc,
    pub orig: u64,
}

/// A comment node.
#[derive(Debug, PartialEq)]
pub struct Comment {
    pub text: String,
    pub loc: Loc,
}

/// One conditional branch: its location, its guard value, and its children.
#[derive(Debug, PartialEq)]
pub struct IfBranch {
    pub loc: Loc,
    pub cond: Value,
    pub children: Vec<Node>,
}

/// The else branch of a conditional: its location and its children.
#[derive(Debug, PartialEq)]
pub struct ElseBranch {
    pub loc: Loc,
    pub children: Vec<Node>,
}

/// The kinds of element the engine distinguishes.
///
/// `Other` stands for element kinds with no translatable children (template
/// references, includes, slots); they are carried through by `orig` alone.
#[derive(Debug, PartialEq)]
pub enum ElementKind {
    Normal { attributes: Vec<Attr>, children: Vec<Node> },
    If { branches: Vec<IfBranch>, else_branch: Option<ElseBranch> },
    For { children: Vec<Node> },
    Pure { children: Vec<Node> },
    Other,
}

/// An element node.
#[derive(Debug, PartialEq)]
pub struct Element {
    pub kind: ElementKind,
    pub tag_loc: TagLoc,
    pub orig: u64,
}

/// A node of the template tree.
///
/// `Opaque` stands for any node kind the engine does not read; it is carried
/// through by identifier.
#[derive(Debug, PartialEq)]
pub enum Node {
    Text(Value),
    Element(Element),
    Comment(Comment),
    MetaTag(MetaTag),
    Opaque { id: u64, loc: Loc },
}

/// A whole template: its main content and the content of each of its named
/// sub-templates, in source order.
#[derive(Debug, PartialEq)]
pub struct Template {
    pub content: Vec<Node>,
    pub sub_templates: Vec<Vec<Node>>,
}

// ----------------------------------------------------------------------
// Spec mirrors.

pub enum SpecExpr {
    LitStr { value: Seq<char>, loc: Loc },
    ToStr { value: Box<SpecExpr>, loc: Loc },
    Plus { left: Box<SpecExpr>, right: Box<SpecExpr>, loc: Loc },
    DataField { name: Seq<char>, loc: Loc },
    EqFull { left: Box<SpecExpr>, right: Box<SpecExpr>, loc: Loc },
    Opaque { id: u64 },
}

pub enum SpecValue {
    Static { value: Seq<char>, loc: Loc },
    Dynamic { expr: Box<SpecExpr>, open: Loc, close: Loc, orig: u64 },
}

pub struct SpecAttr {
    pub name: Seq<char>,
    pub value: Option<SpecValue>,
}

pub struct SpecMetaAttr {
    pub name: Seq<Seq<char>>,
}

pub struct SpecMetaTag {
    pub name: Seq<Seq<char>>,
    pub attributes: Seq<SpecMetaAttr>,
    pub loc: Loc,
    pub orig: u64,
}

pub struct SpecComment {
    pub text: Seq<char>,
    pub loc: Loc,
}

pub struct SpecIfBranch {
    pub loc: Loc,
    pub cond: SpecValue,
    pub children: Seq<SpecNode>,
}

pub struct SpecElseBranch {
    pub loc: Loc,
    pub children: Seq<SpecNode>,
}

pub enum SpecElementKind {
    Normal { attributes: Seq<SpecAttr>, children: Seq<SpecNode> },
    If { branches: Seq<SpecIfBranch>, else_branch: Option<SpecElseBranch> },
    For { children: Seq<SpecNode> },
    Pure { children: Seq<SpecNode> },
    Other,
}

pub struct SpecElement {
    pub kind: SpecElementKind,
    pub tag_loc: TagLoc,
    pub orig: u64,
}

pub enum SpecNode {
    Text(SpecValue),
    Element(SpecElement),
    Comment(SpecComment),
    MetaTag(SpecMetaTag),
    Opaque { id: u64, loc: Loc },
}

pub struct SpecTemplate {
    pub content: Seq<SpecNode>,
    pub sub_templates: Seq<Seq<SpecNode>>,
}

// ----------------------------------------------------------------------
// Views.

pub open spec fn expr_view(e: Expr) -> SpecExpr
    decreases e,
{
    match e {
        Expr::LitStr { value, loc } => SpecExpr::LitStr { value: value@, loc },
        Expr::ToStr { value, loc } => SpecExpr::ToStr { value: Box::new(expr_view(*value)), loc },
        Expr::Plus { left, right, loc } => SpecExpr::Plus {
            left: Box::new(expr_view(*left)),
            right: Box::new(expr_view(*right)),
            loc,
        },
        Expr::DataField { name, loc } => SpecExpr::DataField { name: name@, loc },
        Expr::EqFull { left, right, loc } => SpecExpr::EqFull {
            left: Box::new(expr_view(*left)),
            right: Box::new(expr_view(*right)),
            loc,
        },
        Expr::Opaque { id } => SpecExpr::Opaque { id },
    }
}

pub open spec fn value_view(v: Value) -> SpecValue {
    match v {
        Value::Static { value, loc } => SpecValue::Static { value: value@, loc },
        Value::Dynamic { expr, open, close, orig } => SpecValue::Dynamic {
            expr: Box::new(expr_view(*expr)),
            open,
            close,
            orig,
        },
    }
}

pub open spec fn attr_view(a: Attr) -> SpecAttr {
    SpecAttr {
        name: a.name@,
        value: match a.value {
            Option::Some(v) => Option::Some(value_view(v)),
            Option::None => Option::None,
        },
    }
}

pub open spec fn meta_attr_view(a: MetaAttr) -> SpecMetaAttr {
    SpecMetaAttr { name: a.name.deep_view() }
}

pub open spec fn meta_attrs_view(s: Seq<MetaAttr>) -> Seq<SpecMetaAttr> {
    Seq::new(
        s.len(),
        |i: int|
            if 0 <= i < s.len() {
                meta_attr_view(s[i])
            } else {
                SpecMetaAttr { name: Seq::empty() }
            },
    )
}

pub open spec fn meta_tag_view(t: MetaTag) -> SpecMetaTag {
    SpecMetaTag {
        name: t.name.deep_view(),
        attributes: meta_attrs_view(t.attributes@),
        loc: t.loc,
        orig: t.orig,
    }
}

pub open spec fn node_view(n: Node) -> SpecNode
    decreases n,
{
    match n {
        Node::Text(v) => SpecNode::Text(value_view(v)),
        Node::Element(e) => SpecNode::Element(element_view(e)),
        Node::Comment(c) => SpecNode::Comment(SpecComment { text: c.text@, loc: c.loc }),
        Node::MetaTag(t) => SpecNode::MetaTag(meta_tag_view(t)),
        Node::Opaque { id, loc } => SpecNode::Opaque { id, loc },
    }
}

pub open spec fn nodes_view(ns: Seq<Node>) -> Seq<SpecNode>
    decreases ns,
{
    Seq::new(
        ns.len(),
        |i: int|
            if 0 <= i < ns.len() {
                node_view(ns[i])
            } else {
                SpecNode::Opaque { id: 0, loc: Loc::spec_zero() }
            },
    )
}

pub open spec fn element_view(e: Element) -> SpecElement
    decreases e,
{
    SpecElement { kind: kind_view(e.kind), tag_loc: e.tag_loc, orig: e.orig }
}

pub open spec fn attrs_view(s: Seq<Attr>) -> Seq<SpecAttr> {
    Seq::new(
        s.len(),
        |i: int|
            if 0 <= i < s.len() {
                attr_view(s[i])
            } else {
                SpecAttr { name: Seq::empty(), value: Option::None }
            },
    )
}

pub open spec fn branches_view(s: Seq<IfBranch>) -> Seq<SpecIfBranch>
    decreases s,
{
    Seq::new(
        s.len(),
        |i: int|
            if 0 <= i < s.len() {
                branch_view(s[i])
            } else {
                SpecIfBranch {
                    loc: Loc::spec_zero(),
                    cond: SpecValue::Static { value: Seq::empty(), loc: Loc::spec_zero() },
                    children: Seq::empty(),
                }
            },
    )
}

pub open spec fn kind_view(k: ElementKind) -> SpecElementKind
    decreases k,
{
    match k {
        ElementKind::Normal { attributes, children } => SpecElementKind::Normal {
            attributes: attrs_view(attributes@),
            children: nodes_view(children@),
        },
        ElementKind::If { branches, else_branch } => SpecElementKind::If {
            branches: branches_view(branches@),
            else_branch: match else_branch {
                Option::Some(b) => Option::Some(
                    SpecElseBranch { loc: b.loc, children: nodes_view(b.children@) },
                ),
                Option::None => Option::None,
            },
        },
        ElementKind::For { children } => SpecElementKind::For { children: nodes_view(children@) },
        ElementKind::Pure { children } => SpecElementKind::Pure {
            children: nodes_view(children@),
        },
        ElementKind::Other => SpecElementKind::Other,
    }
}

pub open spec fn branch_view(b: IfBranch) -> SpecIfBranch
    decreases b,
{
    SpecIfBranch { loc: b.loc, cond: value_view(b.cond), children: nodes_view(b.children@) }
}

impl View for Expr {
    type V = SpecExpr;

    open spec fn view(&self) -> SpecExpr {
        expr_view(*self)
    }
}

impl View for Value {
    type V = SpecValue;

    open spec fn view(&self) -> SpecValue {
        value_view(*self)
    }
}

impl View for Attr {
    type V = SpecAttr;

    open spec fn view(&self) -> SpecAttr {
        attr_view(*self)
    }
}

impl View for MetaTag {
    type V = SpecMetaTag;

    open spec fn view(&self) -> SpecMetaTag {
        meta_tag_view(*self)
    }
}

impl View for Element {
    type V = SpecElement;

    open spec fn view(&self) -> SpecElement {
        element_view(*self)
    }
}

impl View for Node {
    type V = SpecNode;

    open spec fn view(&self) -> SpecNode {
        node_view(*self)
    }
}

pub open spec fn subs_view(s: Seq<Vec<Node>>) -> Seq<Seq<SpecNode>> {
    Seq::new(
        s.len(),
        |i: int|
            if 0 <= i < s.len() {
                nodes_view(s[i]@)
            } else {
                Seq::empty()
            },
    )
}

impl View for Template {
    type V = SpecTemplate;

    open spec fn view(&self) -> SpecTemplate {
        SpecTemplate {
            content: nodes_view(self.content@),
            sub_templates: subs_view(self.sub_templates@),
        }
    }
}

// ----------------------------------------------------------------------
// Deep views for vectors of tree values.

impl DeepView for Expr {
    type V = SpecExpr;

    open spec fn deep_view(&self) -> SpecExpr {
        expr_view(*self)
    }
}

impl DeepView for Value {
    type V = SpecValue;

    open spec fn deep_view(&self) -> SpecValue {
        value_view(*self)
    }
}

impl DeepView for Node {
    type V = SpecNode;

    open spec fn deep_view(&self) -> SpecNode {
        node_view(*self)
    }
}

impl DeepView for Attr {
    type V = SpecAttr;

    open spec fn deep_view(&self) -> SpecAttr {
        attr_view(*self)
    }
}

// ----------------------------------------------------------------------
// Deep clones.
//
// The engine clones the content template once per locale branch, and clones
// recorded child nodes when a translation reinserts them.  Each clone is
// verified to have the same view as its original.

/// Returns a deep copy of the expression.
pub fn clone_expr(e: &Expr) -> (r: Expr)
    ensures
        r@ == e@,
    decreases *e,
{
    match e {
        Expr::LitStr { value, loc } => Expr::LitStr { value: value.clone(), loc: *loc },
        Expr::ToStr { value, loc } => Expr::ToStr {
            value: Box::new(clone_expr(value)),
            loc: *loc,
        },
        Expr::Plus { left, right, loc } => Expr::Plus {
            left: Box::new(clone_expr(left)),
            right: Box::new(clone_expr(right)),
            loc: *loc,
        },
        Expr::DataField { name, loc } => Expr::DataField { name: name.clone(), loc: *loc },
        Expr::EqFull { left, right, loc } => Expr::EqFull {
            left: Box::new(clone_expr(left)),
            right: Box::new(clone_expr(right)),
            loc: *loc,
        },
        Expr::Opaque { id } => Expr::Opaque { id: *id },
    }
}

/// Returns a deep copy of the value.
pub fn clone_value(v: &Value) -> (r: Value)
    ensures
        r@ == v@,
{
    match v {
        Value::Static { value, loc } => Value::Static { value: value.clone(), loc: *loc },
        Value::Dynamic { expr, open, close, orig } => Value::Dynamic {
            expr: Box::new(clone_expr(expr)),
            open: *open,
            close: *close,
            orig: *orig,
        },
    }
}

/// Returns a deep copy of the attribute.
pub fn clone_attr(a: &Attr) -> (r: Attr)
    ensures
        r@ == a@,
{
    Attr {
        name: a.name.clone(),
        value: match &a.value {
            Option::Some(v) => Option::Some(clone_value(v)),
            Option::None => Option::None,
        },
    }
}

/// Returns a deep copy of a list of strings.
pub fn clone_strings(v: &Vec<String>) -> (r: Vec<String>)
    ensures
        r.deep_view() == v.deep_view(),
        r@.len() == v@.len(),
{
    let mut r: Vec<String> = Vec::new();
    let n: usize = v.len();
    let mut i: usize = 0;
    while i < n
        invariant
            0 <= i <= n,
            n == v@.len(),
            r@.len() == i,
            forall|j: int| 0 <= j < i ==> r@[j]@ == v@[j]@,
        decreases n - i,
    {
        r.push(v[i].clone());
        i = i + 1;
    }
    proof {
        assert(r.deep_view() =~= v.deep_view());
    }
    r
}

/// Returns a deep copy of the meta tag.
pub fn clone_meta(t: &MetaTag) -> (r: MetaTag)
    ensures
        r@ == t@,
{
    let mut attributes: Vec<MetaAttr> = Vec::new();
    let n: usize = t.attributes.len();
    let mut i: usize = 0;
    while i < n
        invariant
            0 <= i <= n,
            n == t.attributes@.len(),
            attributes@.len() == i,
            forall|j: int|
                0 <= j < i ==> meta_attr_view(#[trigger] attributes@[j]) == meta_attr_view(
                    t.attributes@[j],
                ),
        decreases n - i,
    {
        attributes.push(MetaAttr { name: clone_strings(&t.attributes[i].name) });
        i = i + 1;
    }
    let r = MetaTag { name: clone_strings(&t.name), attributes, loc: t.loc, orig: t.orig };
    proof {
        assert(r@.attributes =~= t@.attributes);
        assert(r@ =~= t@);
    }
    r
}

/// Returns a deep copy of a list of attributes.
pub fn clone_attrs(attributes: &Vec<Attr>) -> (r: Vec<Attr>)
    ensures
        attrs_view(r@) == attrs_view(attributes@),
{
    let mut r: Vec<Attr> = Vec::new();
    let n: usize = attributes.len();
    let mut i: usize = 0;
    while i < n
        invariant
            0 <= i <= n,
            n == attributes@.len(),
            r@.len() == i,
            forall|j: int| 0 <= j < i ==> (#[trigger] r@[j])@ == attributes@[j]@,
        decreases n - i,
    {
        r.push(clone_attr(&attributes[i]));
        i = i + 1;
    }
    proof {
        assert(attrs_view(r@) =~= attrs_view(attributes@));
    }
    r
}

/// Returns a deep copy of the node.
pub fn clone_node(n: &Node) -> (r: Node)
    ensures
        r@ == n@,
    decreases *n,
{
    match n {
        Node::Text(v) => Node::Text(clone_value(v)),
        Node::Element(e) => Node::Element(clone_element(e)),
        Node::Comment(c) => Node::Comment(Comment { text: c.text.clone(), loc: c.loc }),
        Node::MetaTag(t) => Node::MetaTag(clone_meta(t)),
        Node::Opaque { id, loc } => Node::Opaque { id: *id, loc: *loc },
    }
}

/// Returns a deep copy of a node list.
pub fn clone_nodes(ns: &Vec<Node>) -> (r: Vec<Node>)
    ensures
        nodes_view(r@) == nodes_view(ns@),
        r@.len() == ns@.len(),
    decreases *ns,
{
    let mut r: Vec<Node> = Vec::new();
    let n: usize = ns.len();
    let mut i: usize = 0;
    while i < n
        invariant
            0 <= i <= n,
            n == ns@.len(),
            r@.len() == i,
            forall|j: int| 0 <= j < i ==> (#[trigger] r@[j])@ == ns@[j]@,
        decreases n - i,
    {
        r.push(clone_node(&ns[i]));
        i = i + 1;
    }
    proof {
        assert(nodes_view(r@) =~= nodes_view(ns@));
    }
    r
}

/// Returns a deep copy of one conditional branch.
pub fn clone_branch(b: &IfBranch) -> (r: IfBranch)
    ensures
        branch_view(r) == branch_view(*b),
    decreases *b,
{
    let r = IfBranch {
        loc: b.loc,
        cond: clone_value(&b.cond),
        children: clone_nodes(&b.children),
    };
    proof {
        assert(branch_view(r) =~= branch_view(*b));
    }
    r
}

/// Returns a deep copy of a list of conditional branches.
pub fn clone_branches(bs: &Vec<IfBranch>) -> (r: Vec<IfBranch>)
    ensures
        branches_view(r@) == branches_view(bs@),
    decreases *bs,
{
    let mut r: Vec<IfBranch> = Vec::new();
    let n: usize = bs.len();
    let mut i: usize = 0;
    while i < n
        invariant
            0 <= i <= n,
            n == bs@.len(),
            r@.len() == i,
            forall|j: int|
                0 <= j < i ==> branch_view(#[trigger] r@[j]) == branch_view(bs@[j]),
        decreases n - i,
    {
        r.push(clone_branch(&bs[i]));
        i = i + 1;
    }
    proof {
        assert(branches_view(r@) =~= branches_view(bs@));
    }
    r
}

/// Returns a deep copy of the element.
pub fn clone_element(e: &Element) -> (r: Element)
    ensures
        r@ == e@,
    decreases *e,
{
    let kind = match &e.kind {
        ElementKind::Normal { attributes, children } => ElementKind::Normal {
            attributes: clone_attrs(attributes),
            children: clone_nodes(children),
        },
        ElementKind::If { branches, else_branch } => {
            let eb = match else_branch {
                Option::Some(b) => Option::Some(
                    ElseBranch { loc: b.loc, children: clone_nodes(&b.children) },
                ),
                Option::None => Option::None,
            };
            ElementKind::If { branches: clone_branches(branches), else_branch: eb }
        },
        ElementKind::For { children } => ElementKind::For { children: clone_nodes(children) },
        ElementKind::Pure { children } => ElementKind::Pure { children: clone_nodes(children) },
        ElementKind::Other => ElementKind::Other,
    };
    let r = Element { kind, tag_loc: e.tag_loc, orig: e.orig };
    proof {
        match &e.kind {
            ElementKind::Normal { .. } => {
                assert(kind_view(r.kind)->Normal_attributes =~= kind_view(
                    e.kind,
                )->Normal_attributes);
                assert(kind_view(r.kind) =~= kind_view(e.kind));
            },
            ElementKind::If { .. } => {
                assert(kind_view(r.kind)->If_branches =~= kind_view(e.kind)->If_branches);
                assert(kind_view(r.kind) =~= kind_view(e.kind));
            },
            _ => {
                assert(kind_view(r.kind) =~= kind_view(e.kind));
            },
        }
    }
    r
}

} // verus!
