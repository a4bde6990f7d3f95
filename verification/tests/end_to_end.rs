//! End-to-end checks: template source in, rendered source out.
//!
//! The external parser turns template source into its own syntax tree; the
//! helpers here convert that tree into the library's model, run the verified
//! engine, convert the result back, and hand it to the external serializer.

use std::ops::Range;

use glass_easel_template_compiler::parse::expr::Expression;
use glass_easel_template_compiler::parse::tag as outer;
use glass_easel_template_compiler::parse::{parse, Position, TemplateStructure};
use glass_easel_template_compiler::stringify::{Stringifier, Stringify};

use glass_easel_i18n::loc::{Loc, Pos, TagLoc};
use glass_easel_i18n::tree::{
    Attr, Comment, Element, ElementKind, ElseBranch, Expr, IfBranch, MetaAttr, MetaTag, Node,
    Template, Value,
};

/// Everything the library model refers to by identifier: nodes, values and
/// expressions the engine carries through without reading them.
struct Keep {
    nodes: Vec<outer::Node>,
    elements: Vec<outer::Element>,
    values: Vec<outer::Value>,
    exprs: Vec<Expression>,
}

impl Keep {
    fn new() -> Keep {
        Keep { nodes: Vec::new(), elements: Vec::new(), values: Vec::new(), exprs: Vec::new() }
    }
    fn add_node(&mut self, n: outer::Node) -> u64 {
        self.nodes.push(n);
        self.nodes.len() as u64
    }
    fn add_element(&mut self, e: outer::Element) -> u64 {
        self.elements.push(e);
        self.elements.len() as u64
    }
    fn add_value(&mut self, v: outer::Value) -> u64 {
        self.values.push(v);
        self.values.len() as u64
    }
    fn add_expr(&mut self, e: Expression) -> u64 {
        self.exprs.push(e);
        self.exprs.len() as u64
    }
}

fn conv_pos(p: Position) -> Pos {
    Pos { line: p.line, utf16_col: p.utf16_col }
}

fn conv_loc(r: &Range<Position>) -> Loc {
    Loc { start: conv_pos(r.start), end: conv_pos(r.end) }
}

fn back_pos(p: Pos) -> Position {
    Position { line: p.line, utf16_col: p.utf16_col }
}

fn back_loc(l: Loc) -> Range<Position> {
    back_pos(l.start)..back_pos(l.end)
}

fn conv_expr(e: &Expression, keep: &mut Keep) -> Expr {
    match e {
        Expression::LitStr { value, location } => {
            Expr::LitStr { value: value.to_string(), loc: conv_loc(location) }
        }
        Expression::ToStringWithoutUndefined { value, location } => Expr::ToStr {
            value: Box::new(conv_expr(value, keep)),
            loc: conv_loc(location),
        },
        Expression::Plus { left, right, location } => Expr::Plus {
            left: Box::new(conv_expr(left, keep)),
            right: Box::new(conv_expr(right, keep)),
            loc: conv_loc(location),
        },
        other => Expr::Opaque { id: keep.add_expr(other.clone()) },
    }
}

fn conv_value(v: &outer::Value, keep: &mut Keep) -> Value {
    match v {
        outer::Value::Static { value, location, .. } => {
            Value::Static { value: value.to_string(), loc: conv_loc(location) }
        }
        outer::Value::Dynamic { expression, double_brace_location, .. } => Value::Dynamic {
            expr: Box::new(conv_expr(expression, keep)),
            open: conv_loc(&double_brace_location.0),
            close: conv_loc(&double_brace_location.1),
            orig: keep.add_value(v.clone()),
        },
        _ => unreachable!(),
    }
}

fn conv_attr(a: &outer::NormalAttribute, keep: &mut Keep) -> Attr {
    Attr {
        name: a.name.name.to_string(),
        value: a.value.as_ref().map(|v| conv_value(v, keep)),
    }
}

fn conv_tag_loc(t: &outer::TagLocation) -> TagLoc {
    TagLoc {
        start_open: conv_loc(&t.start.0),
        start_close: conv_loc(&t.start.1),
        close: conv_loc(&t.close),
        end: t.end.as_ref().map(|(a, b)| (conv_loc(a), conv_loc(b))),
    }
}

fn conv_nodes(ns: &[outer::Node], keep: &mut Keep) -> Vec<Node> {
    ns.iter().map(|n| conv_node(n, keep)).collect()
}

fn conv_node(n: &outer::Node, keep: &mut Keep) -> Node {
    match n {
        outer::Node::Text(v) => Node::Text(conv_value(v, keep)),
        outer::Node::Element(e) => Node::Element(conv_element(e, keep)),
        outer::Node::Comment(c) => {
            Node::Comment(Comment { text: c.content.clone(), loc: conv_loc(&c.location) })
        }
        outer::Node::UnknownMetaTag(m) => Node::MetaTag(MetaTag {
            name: m.tag_name.iter().map(|i| i.name.to_string()).collect(),
            attributes: m
                .attributes
                .iter()
                .map(|a| MetaAttr {
                    name: a.colon_separated_name.iter().map(|i| i.name.to_string()).collect(),
                })
                .collect(),
            loc: conv_loc(&m.location),
            orig: keep.add_node(n.clone()),
        }),
        other => Node::Opaque {
            id: keep.add_node(other.clone()),
            loc: conv_loc(&other.location()),
        },
    }
}

fn conv_element(e: &outer::Element, keep: &mut Keep) -> Element {
    let orig = keep.add_element(e.clone());
    let kind = match &e.kind {
        outer::ElementKind::Normal { attributes, children, .. } => ElementKind::Normal {
            attributes: attributes.iter().map(|a| conv_attr(a, keep)).collect(),
            children: conv_nodes(children, keep),
        },
        outer::ElementKind::If { branches, else_branch, .. } => ElementKind::If {
            branches: branches
                .iter()
                .map(|(l, v, ns)| IfBranch {
                    loc: conv_loc(l),
                    cond: conv_value(v, keep),
                    children: conv_nodes(ns, keep),
                })
                .collect(),
            else_branch: else_branch.as_ref().map(|(l, ns)| ElseBranch {
                loc: conv_loc(l),
                children: conv_nodes(ns, keep),
            }),
        },
        outer::ElementKind::For { children, .. } => {
            ElementKind::For { children: conv_nodes(children, keep) }
        }
        outer::ElementKind::Pure { children, .. } => {
            ElementKind::Pure { children: conv_nodes(children, keep) }
        }
        _ => ElementKind::Other,
    };
    Element { kind, tag_loc: conv_tag_loc(&e.tag_location), orig }
}

fn conv_template(t: &outer::Template, keep: &mut Keep) -> Template {
    Template {
        content: conv_nodes(&t.content, keep),
        sub_templates: t
            .globals
            .sub_templates
            .iter()
            .map(|d| conv_nodes(&d.content, keep))
            .collect(),
    }
}

fn back_expr(e: &Expr, keep: &Keep) -> Expression {
    match e {
        Expr::LitStr { value, loc } => Expression::LitStr {
            value: value.as_str().into(),
            location: back_loc(*loc),
        },
        Expr::ToStr { value, loc } => Expression::ToStringWithoutUndefined {
            value: Box::new(back_expr(value, keep)),
            location: back_loc(*loc),
        },
        Expr::Plus { left, right, loc } => Expression::Plus {
            left: Box::new(back_expr(left, keep)),
            right: Box::new(back_expr(right, keep)),
            location: back_loc(*loc),
        },
        Expr::DataField { name, loc } => Expression::DataField {
            name: name.as_str().into(),
            location: back_loc(*loc),
        },
        Expr::EqFull { left, right, loc } => Expression::EqFull {
            left: Box::new(back_expr(left, keep)),
            right: Box::new(back_expr(right, keep)),
            location: back_loc(*loc),
        },
        Expr::Opaque { id } => keep.exprs[(*id - 1) as usize].clone(),
    }
}

fn back_value(v: &Value, keep: &Keep) -> outer::Value {
    match v {
        Value::Static { value, loc } => {
            let mut s = outer::Value::new_empty(back_pos(loc.start));
            if let outer::Value::Static { value: ref mut cv, ref mut location, .. } = s {
                *cv = value.as_str().into();
                *location = back_loc(*loc);
            }
            s
        }
        Value::Dynamic { expr, open, close, orig } => {
            if *orig != 0 {
                let mut s = keep.values[(*orig - 1) as usize].clone();
                if let outer::Value::Dynamic {
                    ref mut expression,
                    ref mut double_brace_location,
                    ..
                } = s
                {
                    *expression = Box::new(back_expr(expr, keep));
                    *double_brace_location = (back_loc(*open), back_loc(*close));
                }
                s
            } else {
                outer::Value::new_expression(
                    Box::new(back_expr(expr, keep)),
                    (back_loc(*open), back_loc(*close)),
                )
            }
        }
    }
}

fn back_nodes(ns: &[Node], keep: &Keep) -> Vec<outer::Node> {
    ns.iter().map(|n| back_node(n, keep)).collect()
}

fn back_node(n: &Node, keep: &Keep) -> outer::Node {
    match n {
        Node::Text(v) => outer::Node::Text(back_value(v, keep)),
        Node::Element(e) => outer::Node::Element(back_element(e, keep)),
        Node::Comment(c) => {
            outer::Node::Comment(outer::Comment::new(c.text.as_str(), back_loc(c.loc)))
        }
        Node::MetaTag(m) => keep.nodes[(m.orig - 1) as usize].clone(),
        Node::Opaque { id, .. } => keep.nodes[(*id - 1) as usize].clone(),
    }
}

fn back_element(e: &Element, keep: &Keep) -> outer::Element {
    if e.orig != 0 {
        let mut out = keep.elements[(e.orig - 1) as usize].clone();
        match (&mut out.kind, &e.kind) {
            (
                outer::ElementKind::Normal { attributes, children, .. },
                ElementKind::Normal { attributes: la, children: lc },
            ) => {
                for (i, a) in la.iter().enumerate() {
                    attributes[i].value = a.value.as_ref().map(|v| back_value(v, keep));
                }
                *children = back_nodes(lc, keep);
            }
            (
                outer::ElementKind::If { branches, else_branch, .. },
                ElementKind::If { branches: lb, else_branch: le },
            ) => {
                for (i, b) in lb.iter().enumerate() {
                    branches[i].1 = back_value(&b.cond, keep);
                    branches[i].2 = back_nodes(&b.children, keep);
                }
                if let (Some(slot), Some(lbranch)) = (else_branch.as_mut(), le.as_ref()) {
                    slot.1 = back_nodes(&lbranch.children, keep);
                }
            }
            (outer::ElementKind::For { children, .. }, ElementKind::For { children: lc }) => {
                *children = back_nodes(lc, keep);
            }
            (outer::ElementKind::Pure { children, .. }, ElementKind::Pure { children: lc }) => {
                *children = back_nodes(lc, keep);
            }
            _ => {}
        }
        out
    } else {
        // A synthesized conditional: fabricate an if/else skeleton by
        // parsing, then fill in the branches.
        let (mut skeleton, _) =
            parse("", r#"<block wx:if="" /><block wx:else="" />"#);
        let outer::Node::Element(mut if_block) = skeleton.content.pop().unwrap() else {
            panic!();
        };
        if_block.tag_location.start =
            (back_loc(e.tag_loc.start_open), back_loc(e.tag_loc.start_close));
        if_block.tag_location.close = back_loc(e.tag_loc.close);
        if_block.tag_location.end = e.tag_loc.end.map(|(a, b)| (back_loc(a), back_loc(b)));
        let ElementKind::If { branches: lb, else_branch: le } = &e.kind else {
            panic!();
        };
        let outer::ElementKind::If { branches, else_branch, .. } = &mut if_block.kind else {
            panic!();
        };
        *branches = lb
            .iter()
            .map(|b| (back_loc(b.loc), back_value(&b.cond, keep), back_nodes(&b.children, keep)))
            .collect();
        *else_branch = le
            .as_ref()
            .map(|b| (back_loc(b.loc), back_nodes(&b.children, keep)));
        if_block
    }
}

/// Parses, compiles against the catalog document, and serializes.
fn compile(
    path: &str,
    source: &str,
    trans_source: &str,
    included_attributes: &[String],
) -> Result<(String, Vec<u8>), String> {
    let (mut template, parse_state) = parse(path, source);
    for warning in parse_state.warnings() {
        if warning.prevent_success() {
            return Err(format!("Failed to compile template: {}", warning));
        }
    }
    let content = glass_easel_i18n::parse_trans_content(trans_source)?;
    let ordered = glass_easel_i18n::order_trans_content(glass_easel_i18n::merge_map(content));
    let mut keep = Keep::new();
    let lib_template = conv_template(&template, &mut keep);
    let included: Vec<String> = included_attributes.to_vec();
    let compiled = glass_easel_i18n::compile_template(&lib_template, &ordered, &included);
    template.content = back_nodes(&compiled.content, &keep);
    for (i, sub) in compiled.sub_templates.iter().enumerate() {
        template.globals.sub_templates[i].content = back_nodes(sub, &keep);
    }
    let mut stringifier = Stringifier::new(String::new(), path, source);
    template.stringify_write(&mut stringifier).map_err(|_| "Failed to write output")?;
    let (output, sm) = stringifier.finish();
    let mut source_map = vec![];
    sm.to_writer(&mut source_map).map_err(|_| "Failed to write output")?;
    Ok((output, source_map))
}

/// Parses and extracts the untranslated terms.
fn search(
    path: &str,
    source: &str,
    included_attributes: &[String],
) -> Result<Vec<String>, String> {
    let (template, parse_state) = parse(path, source);
    for warning in parse_state.warnings() {
        if warning.prevent_success() {
            return Err(format!("Failed to compile template: {}", warning));
        }
    }
    let mut keep = Keep::new();
    let lib_template = conv_template(&template, &mut keep);
    let included: Vec<String> = included_attributes.to_vec();
    let terms = glass_easel_i18n::search_template(&lib_template, &included);
    Ok(terms.output)
}

const TRANSLATE_FILE: &'static str = r#"

[en-us]
"一些文字" = "Some words"
"含属性的节点" = "Node with attributes"
"说明" = "explanation"
"我{{A}}你" = "I {{A}} You"
"爱" = "Love"
"{{A}} 加 {{B}} 得到 {{C}}" = "Add {{A}} to {{B}} to get {{C}}"

[ja]
"一些文字" = "いくつかのテキスト"
"含属性的节点" = "属性を持つノード"
"说明" = "説明する"
"我{{A}}你" = "愛してます"
"{{A}} 加 {{B}} 得到 {{C}}" = "{{A}} を {{B}} に追加すると、{{C}} が得られます"

["global.en-us"]
"全局的翻译" = "Global translation"

"#;

#[test]
fn transpile_basic() {
    const SRC: &'static str = r#"
        <!I18N>
        <block><view>一些文字</view></block>
    "#;
    const OUT: &'static str = "<block wx:if=\"{{locale===\"en-us\"}}\"><block><view>Some words</view></block></block><block wx:elif=\"{{locale===\"ja\"}}\"><block><view>いくつかのテキスト</view></block></block><block wx:else><block><view>一些文字</view></block></block>";
    let out = compile("TEST", SRC, TRANSLATE_FILE, &[]).unwrap();
    assert_eq!(out.0, OUT);
}

#[test]
fn transpile_missing() {
    const SRC: &'static str = r#"
        <!I18N>
        <view>全局的翻译</view>
    "#;
    const OUT: &'static str = "<block wx:if=\"{{locale===\"en-us\"}}\"><view>Global translation</view></block><block wx:elif=\"{{locale===\"ja\"}}\"><view>全局的翻译</view></block><block wx:else><view>全局的翻译</view></block>";
    let out = compile("TEST", SRC, TRANSLATE_FILE, &[]).unwrap();
    assert_eq!(out.0, OUT);
}

#[test]
fn transpile_sub_template() {
    const SRC: &'static str = r#"
        <!I18N>
        <template name="a">
            <view>一些文字</view>
        </template>
    "#;
    const OUT: &'static str = "<template name=\"a\"><block wx:if=\"{{locale===\"en-us\"}}\"><view>Some words</view></block><block wx:elif=\"{{locale===\"ja\"}}\"><view>いくつかのテキスト</view></block><block wx:else><view>一些文字</view></block></template><block wx:if=\"{{locale===\"en-us\"}}\"/><block wx:elif=\"{{locale===\"ja\"}}\"/><block wx:else/>";
    let out = compile("TEST", SRC, TRANSLATE_FILE, &[]).unwrap();
    assert_eq!(out.0, OUT);
}

#[test]
fn transpile_attributes() {
    const SRC: &'static str = r#"
        <!I18N>
        <view title="说明" other="说明"></view>
    "#;
    const OUT: &'static str = "<block wx:if=\"{{locale===\"en-us\"}}\"><view title=\"explanation\" other=\"说明\"/></block><block wx:elif=\"{{locale===\"ja\"}}\"><view title=\"説明する\" other=\"说明\"/></block><block wx:else><view title=\"说明\" other=\"说明\"/></block>";
    let out = compile("TEST", SRC, TRANSLATE_FILE, &["title".into()]).unwrap();
    assert_eq!(out.0, OUT);
}

#[test]
fn transpile_children() {
    const SRC: &'static str = r#"
        <!I18N>
        <div><!I18N translate-children>我<span style="color: red">爱</span>你</div>
    "#;
    const OUT: &'static str = "<block wx:if=\"{{locale===\"en-us\"}}\"><div>I <span style=\"color: red\">Love</span> You</div></block><block wx:elif=\"{{locale===\"ja\"}}\"><div>愛してます</div></block><block wx:else><div>我<span style=\"color: red\">爱</span>你</div></block>";
    let out = compile("TEST", SRC, TRANSLATE_FILE, &[]).unwrap();
    assert_eq!(out.0, OUT);
}

#[test]
fn transpile_placeholders() {
    const SRC: &'static str = r#"
        <!I18N>
        <view>{{ a }} 加 {{ b }} 得到 {{ a+b }}</view>
    "#;
    const OUT: &'static str = "<block wx:if=\"{{locale===\"en-us\"}}\"><view>Add {{a}} to {{b}} to get {{a+b}}</view></block><block wx:elif=\"{{locale===\"ja\"}}\"><view>{{a}} を {{b}} に追加すると、{{a+b}} が得られます</view></block><block wx:else><view>{{a}} 加 {{b}} 得到 {{a+b}}</view></block>";
    let out = compile("TEST", SRC, TRANSLATE_FILE, &[]).unwrap();
    assert_eq!(out.0, OUT);
}

#[test]
fn transpile_if_block() {
    const SRC: &'static str = r#"
        <!I18N>
        <view wx:if="{{item.status === 2}}">一些文字</view>
    "#;
    const OUT: &'static str = "<block wx:if=\"{{locale===\"en-us\"}}\"><block wx:if=\"{{item.status===2}}\"><view>Some words</view></block></block><block wx:elif=\"{{locale===\"ja\"}}\"><block wx:if=\"{{item.status===2}}\"><view>いくつかのテキスト</view></block></block><block wx:else><block wx:if=\"{{item.status===2}}\"><view>一些文字</view></block></block>";
    let out = compile("TEST", SRC, TRANSLATE_FILE, &[]).unwrap();
    assert_eq!(out.0, OUT);
}

#[test]
fn transpile_for_block() {
    const SRC: &'static str = r#"
        <!I18N>
        <view wx:for="{{ arr }}">一些文字</view>
    "#;
    const OUT: &'static str = "<block wx:if=\"{{locale===\"en-us\"}}\"><block wx:for=\"{{arr}}\"><view>Some words</view></block></block><block wx:elif=\"{{locale===\"ja\"}}\"><block wx:for=\"{{arr}}\"><view>いくつかのテキスト</view></block></block><block wx:else><block wx:for=\"{{arr}}\"><view>一些文字</view></block></block>";
    let out = compile("TEST", SRC, TRANSLATE_FILE, &[]).unwrap();
    assert_eq!(out.0, OUT);
}

#[test]
fn search_basic() {
    const SRC: &'static str = r#"
        <!I18N>
        <block><view>一些文字</view></block>
    "#;
    let res = search("TEST", SRC, &[]).unwrap();
    assert_eq!(res.join("|"), "一些文字");
}

#[test]
fn search_missing() {
    const SRC: &'static str = r#"
        <!I18N>
        <view>全局的翻译</view>
    "#;
    let res = search("TEST", SRC, &[]).unwrap();
    assert_eq!(res.join("|"), "全局的翻译");
}

#[test]
fn search_sub_template() {
    const SRC: &'static str = r#"
        <!I18N>
        <template name="a">
            <view>一些文字</view>
        </template>
    "#;
    let res = search("TEST", SRC, &[]).unwrap();
    assert_eq!(res.join("|"), "一些文字");
}

#[test]
fn search_attributes() {
    const SRC: &'static str = r#"
        <!I18N>
        <view title="说明" other="其他"></view>
    "#;
    let res = search("TEST", SRC, &["title".into()]).unwrap();
    assert_eq!(res.join("|"), "说明");
}

#[test]
fn search_children() {
    const SRC: &'static str = r#"
        <!I18N>
        <div><!I18N translate-children>我<span style="color: red">爱</span>你</div>
    "#;
    let res = search("TEST", SRC, &[]).unwrap();
    assert_eq!(res.join("|"), "爱|我{{A}}你");
}

#[test]
fn search_placeholders() {
    const SRC: &'static str = r#"
        <!I18N>
        <view>{{ a }} 加 {{ b }} 得到 {{ a+b }}</view>
    "#;
    let res = search("TEST", SRC, &[]).unwrap();
    assert_eq!(res.join("|"), "{{A}} 加 {{B}} 得到 {{C}}");
}

#[test]
fn search_if_block() {
    const SRC: &'static str = r#"
        <!I18N>
        <view wx:if="{{item.status === 2}}">一些文字</view>
    "#;
    let res = search("TEST", SRC, &[]).unwrap();
    assert_eq!(res.join("|"), "一些文字");
}

#[test]
fn search_for_block() {
    const SRC: &'static str = r#"
        <!I18N>
        <view wx:for="{{ arr }}">一些文字</view>
    "#;
    let res = search("TEST", SRC, &[]).unwrap();
    assert_eq!(res.join("|"), "一些文字");
}
