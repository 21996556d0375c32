use bevy_spicy_data::compiler::{check_names, compile, declare_kinds, find_clash, CompileError, GeneratedType, Shape};
use bevy_spicy_data::ident::{check_edition_keyword, check_ident, derive_idents};
use bevy_spicy_data::schema::{ScalarKind, SchemaEntry, SchemaNode};

fn entry(key: &str, node: SchemaNode) -> SchemaEntry {
    SchemaEntry { key: key.to_string(), node }
}

fn table(entries: Vec<SchemaEntry>) -> SchemaNode {
    SchemaNode::Table(entries)
}

fn fields(g: &GeneratedType) -> &Vec<GeneratedType> {
    match &g.shape {
        Shape::Record(fs) => fs,
        Shape::Leaf(_) => panic!("expected a record"),
    }
}

fn count_types(g: &GeneratedType) -> usize {
    match &g.shape {
        Shape::Leaf(_) => 1,
        Shape::Record(fs) => 1 + fs.iter().map(count_types).sum::<usize>(),
    }
}

fn strings(v: &[&str]) -> Vec<String> {
    v.iter().map(|s| s.to_string()).collect()
}

#[test]
fn display_and_limit_compile_to_root() {
    let schema = table(vec![
        entry("display", table(vec![entry("title", SchemaNode::Scalar(ScalarKind::Text))])),
        entry("limit", SchemaNode::Scalar(ScalarKind::Integer)),
    ]);
    let root = compile(&schema).expect("schema compiles");
    assert_eq!(root.type_ident, "Root");
    assert_eq!(root.key, "");
    let fs = fields(&root);
    assert_eq!(fs.len(), 2);
    assert_eq!(fs[0].key, "display");
    assert_eq!(fs[0].type_ident, "Display");
    assert_eq!(fs[0].field_ident, "display");
    let inner = fields(&fs[0]);
    assert_eq!(inner.len(), 1);
    assert_eq!(inner[0].type_ident, "Title");
    assert_eq!(inner[0].field_ident, "title");
    assert_eq!(inner[0].shape, Shape::Leaf(ScalarKind::Text));
    assert!(inner[0].is_text_bindable());
    assert_eq!(fs[1].type_ident, "Limit");
    assert_eq!(fs[1].field_ident, "limit");
    assert_eq!(fs[1].shape, Shape::Leaf(ScalarKind::Integer));
    assert!(!fs[1].is_text_bindable());
    assert!(!fs[0].is_text_bindable());
}

#[test]
fn one_type_per_node() {
    let schema = table(vec![
        entry("a", table(vec![
            entry("b", SchemaNode::Scalar(ScalarKind::Text)),
            entry("c", SchemaNode::Scalar(ScalarKind::Integer)),
            entry("d", table(vec![entry("e", SchemaNode::Scalar(ScalarKind::Float))])),
        ])),
        entry("f", SchemaNode::Scalar(ScalarKind::Boolean)),
        entry("g", SchemaNode::Scalar(ScalarKind::Datetime)),
        entry("h", table(vec![])),
    ]);
    let root = compile(&schema).expect("schema compiles");
    // eight nodes below the top, and the root itself
    assert_eq!(count_types(&root), 9);
}

#[test]
fn same_child_names_live_in_separate_namespaces() {
    let schema = table(vec![
        entry("menu", table(vec![entry("text", SchemaNode::Scalar(ScalarKind::Text))])),
        entry("hud", table(vec![entry("text", SchemaNode::Scalar(ScalarKind::Text))])),
    ]);
    let root = compile(&schema).expect("schema compiles");
    let fs = fields(&root);
    assert_eq!(fields(&fs[0])[0].type_ident, "Text");
    assert_eq!(fields(&fs[1])[0].type_ident, "Text");
}

#[test]
fn nested_array_is_reported_at_its_path() {
    let schema = table(vec![
        entry("ok", SchemaNode::Scalar(ScalarKind::Integer)),
        entry("a", table(vec![entry("b", SchemaNode::Array)])),
    ]);
    match compile(&schema) {
        Err(CompileError::ArrayNode { path }) => assert_eq!(path, strings(&["a", "b"])),
        other => panic!("unexpected {:?}", other),
    }
}

#[test]
fn top_level_array_is_reported() {
    let schema = table(vec![entry("list", SchemaNode::Array)]);
    match compile(&schema) {
        Err(CompileError::ArrayNode { path }) => assert_eq!(path, strings(&["list"])),
        other => panic!("unexpected {:?}", other),
    }
}

#[test]
fn top_level_must_be_a_table() {
    assert_eq!(compile(&SchemaNode::Scalar(ScalarKind::Text)).unwrap_err(), CompileError::NotATable);
    assert_eq!(compile(&SchemaNode::Array).unwrap_err(), CompileError::NotATable);
}

#[test]
fn clashing_type_identifiers_fail() {
    let schema = table(vec![
        entry("foo_bar", SchemaNode::Scalar(ScalarKind::Integer)),
        entry("fooBar", SchemaNode::Scalar(ScalarKind::Integer)),
    ]);
    assert_eq!(
        compile(&schema).unwrap_err(),
        CompileError::Collision {
            path: vec![],
            first: "foo_bar".to_string(),
            second: "fooBar".to_string()
        }
    );
}

#[test]
fn clash_in_nested_table_fails() {
    let schema = table(vec![entry(
        "outer",
        table(vec![
            entry("max-size", SchemaNode::Scalar(ScalarKind::Integer)),
            entry("max_size", SchemaNode::Scalar(ScalarKind::Integer)),
        ]),
    )]);
    assert_eq!(
        compile(&schema).unwrap_err(),
        CompileError::Collision {
            path: strings(&["outer"]),
            first: "max-size".to_string(),
            second: "max_size".to_string()
        }
    );
}

#[test]
fn symbol_only_key_is_illegal() {
    let schema = table(vec![entry("a", table(vec![entry("!!!", SchemaNode::Scalar(ScalarKind::Text))]))]);
    assert_eq!(
        compile(&schema).unwrap_err(),
        CompileError::IllegalIdent { path: strings(&["a", "!!!"]) }
    );
}

#[test]
fn digit_first_key_is_illegal() {
    let schema = table(vec![entry("1st", SchemaNode::Scalar(ScalarKind::Text))]);
    assert_eq!(compile(&schema).unwrap_err(), CompileError::IllegalIdent { path: strings(&["1st"]) });
}

#[test]
fn first_error_in_document_order_wins() {
    let schema = table(vec![
        entry("a", SchemaNode::Array),
        entry("b", SchemaNode::Array),
    ]);
    assert_eq!(compile(&schema).unwrap_err(), CompileError::ArrayNode { path: strings(&["a"]) });
}

#[test]
fn identifiers_are_derived_by_case() {
    let (t, f) = derive_idents(&"DisplayName".to_string());
    assert_eq!(t, "DisplayName");
    assert_eq!(f, "display_name");
    let (t, f) = derive_idents(&"window title".to_string());
    assert_eq!(t, "WindowTitle");
    assert_eq!(f, "window_title");
}

#[test]
fn identifier_legality() {
    assert!(check_ident(&"a1".to_string()));
    assert!(check_ident(&"_x".to_string()));
    assert!(check_ident(&"Root".to_string()));
    assert!(!check_ident(&"".to_string()));
    assert!(!check_ident(&"_".to_string()));
    assert!(!check_ident(&"1a".to_string()));
    assert!(!check_ident(&"a-b".to_string()));
    assert!(check_ident(&"é".to_string()));
    assert!(check_ident(&"Étoile".to_string()));
    for kw in ["type", "self", "Self", "super", "crate", "fn", "async", "await", "dyn", "try"] {
        assert!(!check_ident(&kw.to_string()), "{} is a keyword", kw);
    }
}

#[test]
fn edition_keywords_are_recognised() {
    assert!(check_edition_keyword(&"async".to_string()));
    assert!(check_edition_keyword(&"try".to_string()));
    assert!(!check_edition_keyword(&"tr".to_string()));
    assert!(!check_edition_keyword(&"asyncs".to_string()));
}

#[test]
fn non_ascii_key_compiles() {
    let schema = table(vec![entry("é", SchemaNode::Scalar(ScalarKind::Integer))]);
    let root = compile(&schema).expect("legal identifiers");
    let fs = fields(&root);
    assert_eq!(fs[0].type_ident, "É");
    assert_eq!(fs[0].field_ident, "é");
}

#[test]
fn keyword_key_is_illegal() {
    let schema = table(vec![
        entry("name", SchemaNode::Scalar(ScalarKind::Text)),
        entry("type", SchemaNode::Scalar(ScalarKind::Text)),
    ]);
    assert_eq!(compile(&schema).unwrap_err(), CompileError::IllegalIdent { path: strings(&["type"]) });
}

#[test]
fn top_level_key_named_root_is_reserved() {
    let schema = table(vec![
        entry("a", SchemaNode::Scalar(ScalarKind::Integer)),
        entry("root", SchemaNode::Scalar(ScalarKind::Integer)),
    ]);
    assert_eq!(compile(&schema).unwrap_err(), CompileError::ReservedIdent { path: strings(&["root"]) });
}

#[test]
fn nested_key_named_root_compiles() {
    let schema = table(vec![entry("a", table(vec![entry("root", SchemaNode::Scalar(ScalarKind::Integer))]))]);
    let root = compile(&schema).expect("own namespace");
    assert_eq!(fields(&fields(&root)[0])[0].type_ident, "Root");
}

#[test]
fn other_errors_come_before_the_root_name() {
    let schema = table(vec![
        entry("root", SchemaNode::Scalar(ScalarKind::Integer)),
        entry("list", SchemaNode::Array),
    ]);
    assert_eq!(compile(&schema).unwrap_err(), CompileError::ArrayNode { path: strings(&["list"]) });
}

#[test]
fn names_are_checked_from_given_identifiers() {
    let schema = table(vec![
        entry("alpha", SchemaNode::Scalar(ScalarKind::Integer)),
        entry("beta", SchemaNode::Scalar(ScalarKind::Integer)),
    ]);
    let root = compile(&schema).unwrap();
    let earlier = fields(&root);
    let path = strings(&["t"]);
    let key = "k".to_string();
    assert_eq!(
        check_names(&path, &key, &"Beta".to_string(), &"x".to_string(), true, false, earlier),
        Err(CompileError::IllegalIdent { path: strings(&["t", "k"]) })
    );
    assert_eq!(
        check_names(&path, &key, &"Beta".to_string(), &"x".to_string(), true, true, earlier),
        Err(CompileError::Collision { path: strings(&["t"]), first: "beta".to_string(), second: "k".to_string() })
    );
    assert_eq!(
        check_names(&path, &key, &"Gamma".to_string(), &"gamma".to_string(), true, true, earlier),
        Ok(())
    );
}

#[test]
fn uids_are_fresh_for_each_compilation() {
    let schema = table(vec![entry("x", SchemaNode::Scalar(ScalarKind::Integer))]);
    let a = compile(&schema).unwrap();
    let b = compile(&schema).unwrap();
    assert_ne!(a.uid, b.uid);
    assert_ne!(fields(&a)[0].uid, fields(&b)[0].uid);
    assert_ne!(a.uid, fields(&a)[0].uid);
}

#[test]
fn every_type_is_declared_once() {
    let schema = table(vec![
        entry("a", table(vec![entry("b", SchemaNode::Scalar(ScalarKind::Text))])),
        entry("c", SchemaNode::Scalar(ScalarKind::Integer)),
    ]);
    let root = compile(&schema).unwrap();
    let mut registry = vec![7u128];
    declare_kinds(&root, &mut registry);
    let a = &fields(&root)[0];
    let b = &fields(a)[0];
    let c = &fields(&root)[1];
    assert_eq!(registry, vec![7, root.uid, a.uid, b.uid, c.uid]);
}

#[test]
fn clash_search_finds_first_match() {
    let schema = table(vec![
        entry("alpha", SchemaNode::Scalar(ScalarKind::Integer)),
        entry("beta", SchemaNode::Scalar(ScalarKind::Integer)),
    ]);
    let root = compile(&schema).unwrap();
    let earlier = fields(&root);
    assert_eq!(find_clash(earlier, &"Beta".to_string(), &"other".to_string()), Some(1));
    assert_eq!(find_clash(earlier, &"Other".to_string(), &"alpha".to_string()), Some(0));
    assert_eq!(find_clash(earlier, &"Gamma".to_string(), &"gamma".to_string()), None);
}
