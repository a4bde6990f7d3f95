//! Unit checks of the engine over its own tree model: key derivation,
//! catalog merging and ordering, segment scanning, unit rewriting, branch
//! synthesis and extraction, each on concrete values.

use glass_easel_i18n::catalog::table_lookup;
use glass_easel_i18n::loc::{Loc, Pos};
use glass_easel_i18n::scan::{has_match, split_translated_str};
use glass_easel_i18n::strings::{letter_char, lex_lt, str_eq, trim_braces, trim_str};
use glass_easel_i18n::tree::{
    Attr, Element, ElementKind, ElseBranch, Expr, IfBranch, MetaAttr, MetaTag, Node, Template,
    Value,
};
use glass_easel_i18n::{
    compile_template, contains_i18n_translate_children, merge_map, order_trans_content,
    parse_trans_content, search_template, translate_value, TransContent,
};

fn zero() -> Loc {
    Loc { start: Pos { line: 0, utf16_col: 0 }, end: Pos { line: 0, utf16_col: 0 } }
}

fn text(s: &str) -> Node {
    Node::Text(Value::Static { value: String::from(s), loc: zero() })
}

fn marker() -> Node {
    Node::MetaTag(MetaTag {
        name: vec![String::from("I18N")],
        attributes: vec![MetaAttr { name: vec![String::from("translate-children")] }],
        loc: zero(),
        orig: 1,
    })
}

fn span(children: Vec<Node>) -> Node {
    Node::Element(Element {
        kind: ElementKind::Normal { attributes: vec![], children },
        tag_loc: glass_easel_i18n::loc::TagLoc {
            start_open: zero(),
            start_close: zero(),
            close: zero(),
            end: None,
        },
        orig: 2,
    })
}

fn table(entries: &[(&str, &str)]) -> Vec<(String, String)> {
    entries.iter().map(|(k, v)| (String::from(*k), String::from(*v))).collect()
}

// ----------------------------------------------------------------------
// String primitives.

#[test]
fn trims_whitespace_on_both_sides() {
    assert_eq!(trim_str("  \u{3000}一些文字\n\t "), "一些文字");
    assert_eq!(trim_str("x"), "x");
    assert_eq!(trim_str("   "), "");
}

#[test]
fn trims_braces_on_both_sides() {
    assert_eq!(trim_braces("{{A}}"), "A");
    assert_eq!(trim_braces("{{}}"), "");
    assert_eq!(trim_braces("{{a+b}}"), "a+b");
    assert_eq!(trim_braces("plain"), "plain");
}

#[test]
fn orders_locale_tags() {
    assert!(lex_lt("en-us", "ja"));
    assert!(!lex_lt("ja", "en-us"));
    assert!(!lex_lt("ja", "ja"));
    assert!(lex_lt("", "a"));
}

#[test]
fn compares_strings_by_content() {
    assert!(str_eq("一些", "一些"));
    assert!(!str_eq("一些", "一点"));
    assert!(!str_eq("ab", "abc"));
}

#[test]
fn assigns_placeholder_letters_in_order() {
    assert_eq!(letter_char(0), 'A');
    assert_eq!(letter_char(1), 'B');
    assert_eq!(letter_char(25), 'Z');
}

// ----------------------------------------------------------------------
// The segment scanner.

#[test]
fn splits_around_placeholder_runs() {
    let segs = split_translated_str("Add {{A}} to {{B}} to get {{C}}");
    assert_eq!(segs, vec!["Add ", "{{A}}", " to ", "{{B}}", " to get ", "{{C}}"]);
}

#[test]
fn splits_adjacent_and_edge_runs() {
    assert_eq!(split_translated_str("{{A}}{{B}}"), vec!["{{A}}", "{{B}}"]);
    assert_eq!(split_translated_str("x"), vec!["x"]);
    assert_eq!(split_translated_str(""), Vec::<String>::new());
    // a lone closing brace does not end the run; the first brace pair does
    assert_eq!(split_translated_str("{{a}b}}"), vec!["{{a}b}}"]);
    assert_eq!(split_translated_str("{{a}}}"), vec!["{{a}}", "}"]);
}

#[test]
fn run_must_not_span_a_line_break() {
    assert_eq!(split_translated_str("{{a\nb}} {{c}}"), vec!["{{a\nb}} ", "{{c}}"]);
    assert!(!has_match("{{a\nb}}"));
    assert!(has_match("x{{y}}z"));
}

// ----------------------------------------------------------------------
// The catalog.

#[test]
fn parses_a_catalog_document() {
    let content = parse_trans_content("[en]\n\"k\" = \"v\"\n\n[ja]\n\"k\" = \"w\"\n").unwrap();
    assert_eq!(content.map.len(), 2);
    let en = content.map.iter().find(|e| e.0 == "en").unwrap();
    assert_eq!(table_lookup(&en.1, "k"), Some(String::from("v")));
    let ja = content.map.iter().find(|e| e.0 == "ja").unwrap();
    assert_eq!(table_lookup(&ja.1, "k"), Some(String::from("w")));
}

#[test]
fn rejects_a_malformed_catalog_document() {
    assert!(parse_trans_content("= not toml =").is_err());
    assert!(parse_trans_content("[en]\nk = 3\n").is_err());
}

#[test]
fn merges_global_scope_as_defaults() {
    let content = TransContent {
        map: vec![
            (String::from("en"), table(&[("a", "local")])),
            (String::from("global.en"), table(&[("a", "global"), ("b", "filled")])),
        ],
    };
    let merged = merge_map(content);
    assert_eq!(merged.map.len(), 1);
    assert_eq!(merged.map[0].0, "en");
    assert_eq!(table_lookup(&merged.map[0].1, "a"), Some(String::from("local")));
    assert_eq!(table_lookup(&merged.map[0].1, "b"), Some(String::from("filled")));
}

#[test]
fn merges_global_scope_into_a_new_locale() {
    let content = TransContent {
        map: vec![(String::from("global.fr"), table(&[("a", "g")]))],
    };
    let merged = merge_map(content);
    assert_eq!(merged.map.len(), 1);
    assert_eq!(merged.map[0].0, "fr");
    assert_eq!(table_lookup(&merged.map[0].1, "a"), Some(String::from("g")));
}

#[test]
fn orders_locales_ascending() {
    let content = TransContent {
        map: vec![
            (String::from("zh"), table(&[])),
            (String::from("en-us"), table(&[])),
            (String::from("ja"), table(&[])),
        ],
    };
    let ordered = order_trans_content(content);
    let names: Vec<&str> = ordered.map.iter().map(|e| e.0.as_str()).collect();
    assert_eq!(names, vec!["en-us", "ja", "zh"]);
}

// ----------------------------------------------------------------------
// Rewriting one unit.

#[test]
fn translates_a_static_unit_by_trimmed_key() {
    let v = Value::Static { value: String::from("  说明 "), loc: zero() };
    let t = table(&[("说明", "explanation")]);
    let out = translate_value(&v, &t);
    assert_eq!(out, Value::Static { value: String::from("explanation"), loc: zero() });
}

#[test]
fn missing_key_leaves_the_unit_unchanged() {
    let v = Value::Static { value: String::from("说明"), loc: zero() };
    let out = translate_value(&v, &table(&[("其他", "x")]));
    assert_eq!(out, v);
}

#[test]
fn reorders_dynamic_parts_as_the_translation_dictates() {
    // {{A}}-{{B}} translated to "{{B}}/{{A}}" swaps the two wrapped parts.
    let a = Expr::DataField { name: String::from("a"), loc: zero() };
    let b = Expr::DataField { name: String::from("b"), loc: zero() };
    let expr = Expr::Plus {
        left: Box::new(Expr::Plus {
            left: Box::new(Expr::ToStr {
                value: Box::new(glass_easel_i18n::tree::clone_expr(&a)),
                loc: zero(),
            }),
            right: Box::new(Expr::LitStr { value: String::from("-"), loc: zero() }),
            loc: zero(),
        }),
        right: Box::new(Expr::ToStr {
            value: Box::new(glass_easel_i18n::tree::clone_expr(&b)),
            loc: zero(),
        }),
        loc: zero(),
    };
    let v = Value::Dynamic { expr: Box::new(expr), open: zero(), close: zero(), orig: 7 };
    let t = table(&[("{{A}}-{{B}}", "{{B}}/{{A}}")]);
    let out = translate_value(&v, &t);
    let expected = Value::Dynamic {
        expr: Box::new(Expr::Plus {
            left: Box::new(Expr::Plus {
                left: Box::new(Expr::ToStr { value: Box::new(b), loc: zero() }),
                right: Box::new(Expr::LitStr { value: String::from("/"), loc: zero() }),
                loc: zero(),
            }),
            right: Box::new(Expr::ToStr { value: Box::new(a), loc: zero() }),
            loc: zero(),
        }),
        open: zero(),
        close: zero(),
        orig: 7,
    };
    assert_eq!(out, expected);
}

#[test]
fn unassigned_placeholder_token_stays_literal() {
    let a = Expr::DataField { name: String::from("a"), loc: zero() };
    let expr = Expr::ToStr { value: Box::new(a), loc: zero() };
    let v = Value::Dynamic { expr: Box::new(expr), open: zero(), close: zero(), orig: 1 };
    let t = table(&[("{{A}}", "{{Z}}!")]);
    let out = translate_value(&v, &t);
    let Value::Dynamic { expr, .. } = out else { panic!() };
    let Expr::Plus { left, right, .. } = *expr else { panic!() };
    assert_eq!(*left, Expr::LitStr { value: String::from("{{Z}}"), loc: zero() });
    assert_eq!(*right, Expr::LitStr { value: String::from("!"), loc: zero() });
}

// ----------------------------------------------------------------------
// Branch synthesis.

#[test]
fn one_branch_per_locale_plus_else() {
    let template = Template {
        content: vec![marker(), text("一些文字")],
        sub_templates: vec![],
    };
    let content = TransContent {
        map: vec![
            (String::from("ja"), table(&[("一些文字", "いくつか")])),
            (String::from("en-us"), table(&[("一些文字", "Some words")])),
        ],
    };
    let ordered = order_trans_content(merge_map(content));
    let compiled = compile_template(&template, &ordered, &vec![]);
    assert_eq!(compiled.content.len(), 1);
    let Node::Element(e) = &compiled.content[0] else { panic!() };
    let ElementKind::If { branches, else_branch } = &e.kind else { panic!() };
    assert_eq!(branches.len(), 2);
    assert!(else_branch.is_some());
    // ascending order: en-us first, then ja
    let Value::Dynamic { expr, .. } = &branches[0].cond else { panic!() };
    let Expr::EqFull { right, .. } = &**expr else { panic!() };
    assert_eq!(**right, Expr::LitStr { value: String::from("en-us"), loc: zero() });
    assert_eq!(branches[0].children, vec![text("Some words")]);
    assert_eq!(branches[1].children, vec![text("いくつか")]);
}

#[test]
fn without_directive_the_template_is_unchanged() {
    let template = Template { content: vec![text("一些文字")], sub_templates: vec![] };
    let ordered = order_trans_content(TransContent {
        map: vec![(String::from("en"), table(&[("一些文字", "words")]))],
    });
    let compiled = compile_template(&template, &ordered, &vec![]);
    assert_eq!(compiled, template);
}

#[test]
fn block_reorders_children_and_translates_them_independently() {
    let children = vec![marker(), text("我"), span(vec![text("爱")]), text("你")];
    assert!(contains_i18n_translate_children(&children));
    let parent = Node::Element(Element {
        kind: ElementKind::Normal { attributes: vec![], children },
        tag_loc: glass_easel_i18n::loc::TagLoc {
            start_open: zero(),
            start_close: zero(),
            close: zero(),
            end: None,
        },
        orig: 3,
    });
    let t = table(&[("我{{A}}你", "I {{A}} You"), ("爱", "Love")]);
    let out = glass_easel_i18n::translate(&vec![parent], &t, &vec![]);
    let Node::Element(e) = &out[0] else { panic!() };
    let ElementKind::Normal { children, .. } = &e.kind else { panic!() };
    assert_eq!(children.len(), 3);
    assert_eq!(children[0], text("I "));
    let Node::Element(inner) = &children[1] else { panic!() };
    let ElementKind::Normal { children: inner_children, .. } = &inner.kind else { panic!() };
    assert_eq!(inner_children[0], text("Love"));
    assert_eq!(children[2], text(" You"));
}

// ----------------------------------------------------------------------
// Extraction.

#[test]
fn repeated_literal_text_is_listed_once() {
    let template = Template {
        content: vec![text("一些文字"), text("另外"), text("一些文字")],
        sub_templates: vec![],
    };
    let terms = search_template(&template, &vec![]);
    assert_eq!(terms.output, vec![String::from("一些文字"), String::from("另外")]);
}

#[test]
fn blank_terms_are_dropped() {
    let template = Template {
        content: vec![text("  \n "), text("词"), text("")],
        sub_templates: vec![],
    };
    let terms = search_template(&template, &vec![]);
    assert_eq!(terms.output, vec![String::from("词")]);
}

#[test]
fn attributes_on_the_include_list_are_extracted() {
    let el = Node::Element(Element {
        kind: ElementKind::Normal {
            attributes: vec![
                Attr {
                    name: String::from("title"),
                    value: Some(Value::Static { value: String::from("说明"), loc: zero() }),
                },
                Attr {
                    name: String::from("other"),
                    value: Some(Value::Static { value: String::from("其他"), loc: zero() }),
                },
            ],
            children: vec![],
        },
        tag_loc: glass_easel_i18n::loc::TagLoc {
            start_open: zero(),
            start_close: zero(),
            close: zero(),
            end: None,
        },
        orig: 4,
    });
    let template = Template { content: vec![el], sub_templates: vec![] };
    let terms = search_template(&template, &vec![String::from("title")]);
    assert_eq!(terms.output, vec![String::from("说明")]);
}

#[test]
fn control_structures_are_walked_uniformly() {
    let branch = IfBranch {
        loc: zero(),
        cond: Value::Static { value: String::from("c"), loc: zero() },
        children: vec![text("条件")],
    };
    let if_el = Node::Element(Element {
        kind: ElementKind::If {
            branches: vec![branch],
            else_branch: Some(ElseBranch { loc: zero(), children: vec![text("否则")] }),
        },
        tag_loc: glass_easel_i18n::loc::TagLoc {
            start_open: zero(),
            start_close: zero(),
            close: zero(),
            end: None,
        },
        orig: 5,
    });
    let for_el = Node::Element(Element {
        kind: ElementKind::For { children: vec![text("循环")] },
        tag_loc: glass_easel_i18n::loc::TagLoc {
            start_open: zero(),
            start_close: zero(),
            close: zero(),
            end: None,
        },
        orig: 6,
    });
    let template = Template { content: vec![if_el, for_el], sub_templates: vec![] };
    let terms = search_template(&template, &vec![]);
    assert_eq!(
        terms.output,
        vec![String::from("条件"), String::from("否则"), String::from("循环")]
    );
}

#[test]
fn sub_template_terms_follow_the_main_content() {
    let template = Template {
        content: vec![text("主体")],
        sub_templates: vec![vec![text("子模板")], vec![text("主体")]],
    };
    let terms = search_template(&template, &vec![]);
    assert_eq!(terms.output, vec![String::from("主体"), String::from("子模板")]);
}
