use flash::ast::{Ast, AstNode, EntityKind};
use flash::config::Config;
use flash::namespace::{CppItem, CppItemKind, Namespace};
use flash::url::UrlPath;
use flash::xref::derived_classes;

fn node(kind: EntityKind, name: Option<&str>, parent: Option<usize>) -> AstNode {
    AstNode {
        kind,
        name: name.map(|s| s.to_owned()),
        children: vec![],
        parent,
        file: None,
        in_system_header: false,
        is_definition: true,
        usr: 0,
        comment: None,
        accessibility: None,
        is_static_method: false,
        is_virtual_method: false,
        is_const_method: false,
        is_pure_virtual: false,
        is_virtual_base: false,
        type_decl: None,
        source_text: None,
        display_type: None,
    }
}

fn empty_config() -> Config {
    Config {
        input_dir: UrlPath::new(),
        output_url: UrlPath::new(),
        ignore: None,
        external_libs: vec![],
        sources: vec![],
        project_name: "proj".to_owned(),
        project_version: "1.0".to_owned(),
        project_tree: None,
    }
}

/// Two fragments of `ns`, one defining `ns::Widget` and one defining
/// `ns::Gadget : public ns::Widget`; the whole end-to-end scenario.
fn scenario_ast() -> Ast {
    let mut n0 = node(EntityKind::TranslationUnit, None, None);
    n0.children = vec![1, 3];
    let mut n1 = node(EntityKind::Namespace, Some("ns"), Some(0));
    n1.children = vec![2];
    let mut n2 = node(EntityKind::ClassDecl, Some("Widget"), Some(1));
    n2.usr = 100;
    let mut n3 = node(EntityKind::Namespace, Some("ns"), Some(0));
    n3.children = vec![4];
    let mut n4 = node(EntityKind::ClassDecl, Some("Gadget"), Some(3));
    n4.usr = 200;
    n4.children = vec![5];
    let mut n5 = node(EntityKind::BaseSpecifier, Some("base"), Some(4));
    n5.type_decl = Some(2);
    n5.usr = 300;
    Ast { nodes: vec![n0, n1, n2, n3, n4, n5] }
}

fn entry_names(ns: &Namespace) -> Vec<String> {
    ns.entries.iter().map(|p| p.0.clone()).collect()
}

fn find_entry<'a>(ns: &'a Namespace, key: &str) -> &'a CppItem {
    &ns.entries.iter().find(|p| p.0 == key).unwrap().1
}

#[test]
fn classifies_kind_tags() {
    assert!(matches!(
        CppItemKind::from(EntityKind::StructDecl),
        Some(CppItemKind::Struct)
    ));
    assert!(matches!(
        CppItemKind::from(EntityKind::ClassTemplate),
        Some(CppItemKind::Class)
    ));
    assert!(matches!(
        CppItemKind::from(EntityKind::FunctionTemplate),
        Some(CppItemKind::Function)
    ));
    assert!(matches!(
        CppItemKind::from(EntityKind::Namespace),
        Some(CppItemKind::Namespace)
    ));
    assert!(CppItemKind::from(EntityKind::FieldDecl).is_none());
}

#[test]
fn docs_categories_share_classes_segment() {
    assert_eq!(CppItemKind::Namespace.docs_category().to_string(), "namespaces");
    assert_eq!(CppItemKind::Class.docs_category().to_string(), "classes");
    assert_eq!(CppItemKind::Struct.docs_category().to_string(), "classes");
    assert_eq!(CppItemKind::Function.docs_category().to_string(), "functions");
}

#[test]
fn merge_disjoint_children_is_union() {
    let ast = scenario_ast();
    let config = empty_config();
    let mut diag = Vec::new();
    let mut a = Namespace::new(&ast, 1, &config, &mut diag);
    let b = Namespace::new(&ast, 3, &config, &mut diag);
    a.merge_with_namespace(b, &ast);
    let mut names = entry_names(&a);
    names.sort();
    assert_eq!(names, vec!["Gadget".to_owned(), "Widget".to_owned()]);
}

#[test]
fn merge_overlapping_non_namespace_keeps_later() {
    // Two fragments of one namespace both declare a function `f`; the
    // merged namespace keeps the later fragment's entry.
    let mut n0 = node(EntityKind::TranslationUnit, None, None);
    n0.children = vec![1, 3];
    let mut n1 = node(EntityKind::Namespace, Some("m"), Some(0));
    n1.children = vec![2];
    let mut n2 = node(EntityKind::FunctionDecl, Some("f"), Some(1));
    n2.usr = 1;
    let mut n3 = node(EntityKind::Namespace, Some("m"), Some(0));
    n3.children = vec![4];
    let mut n4 = node(EntityKind::FunctionDecl, Some("f"), Some(3));
    n4.usr = 2;
    let ast = Ast { nodes: vec![n0, n1, n2, n3, n4] };
    let config = empty_config();
    let mut diag = Vec::new();
    let mut a = Namespace::new(&ast, 1, &config, &mut diag);
    let b = Namespace::new(&ast, 3, &config, &mut diag);
    a.merge_with_namespace(b, &ast);
    assert_eq!(entry_names(&a), vec!["f".to_owned()]);
    match find_entry(&a, "f") {
        CppItem::Function(f) => assert_eq!(f.entity, 4),
        _ => panic!("expected the later fragment's function"),
    }
}

#[test]
fn cleanup_removes_empty_namespace_and_keeps_root() {
    // Root holds an empty namespace and a namespace with one class; only
    // the empty one goes, and the root itself stays.
    let mut n0 = node(EntityKind::TranslationUnit, None, None);
    n0.children = vec![1, 2];
    let n1 = node(EntityKind::Namespace, Some("empty"), Some(0));
    let mut n2 = node(EntityKind::Namespace, Some("full"), Some(0));
    n2.children = vec![3];
    let mut n3 = node(EntityKind::ClassDecl, Some("C"), Some(2));
    n3.usr = 7;
    let ast = Ast { nodes: vec![n0, n1, n2, n3] };
    let config = empty_config();
    let mut diag = Vec::new();
    let root = Namespace::new_root(&ast, 0, &config, &mut diag);
    assert!(root.is_root);
    assert_eq!(entry_names(&root), vec!["full".to_owned()]);
    assert!(diag.iter().any(|m| m.contains("empty")));
}

#[test]
fn cleanup_removes_nested_hereditarily_empty_namespace() {
    // outer { inner { } } has zero entries once inner is cleaned.
    let mut n0 = node(EntityKind::TranslationUnit, None, None);
    n0.children = vec![1];
    let mut n1 = node(EntityKind::Namespace, Some("outer"), Some(0));
    n1.children = vec![2];
    let n2 = node(EntityKind::Namespace, Some("inner"), Some(1));
    let ast = Ast { nodes: vec![n0, n1, n2] };
    let config = empty_config();
    let mut diag = Vec::new();
    let root = Namespace::new_root(&ast, 0, &config, &mut diag);
    assert!(root.entries.is_empty());
}

#[test]
fn filtering_skips_std_and_ignored_and_weird_names() {
    let mut n0 = node(EntityKind::TranslationUnit, None, None);
    n0.children = vec![1, 2, 3, 4];
    let mut n1 = node(EntityKind::Namespace, Some("std"), Some(0));
    n1.children = vec![];
    let n2 = node(EntityKind::ClassDecl, Some("<internal>"), Some(0));
    let n3 = node(EntityKind::ClassDecl, Some("Dropped"), Some(0));
    let n4 = node(EntityKind::ClassDecl, Some("Kept"), Some(0));
    let ast = Ast { nodes: vec![n0, n1, n2, n3, n4] };
    let mut config = empty_config();
    config.ignore = Some(flash::config::IgnoreRules {
        patterns_full: vec!["Drop".to_owned()],
        patterns_name: vec![],
    });
    let mut diag = Vec::new();
    let root = Namespace::new_root(&ast, 0, &config, &mut diag);
    assert_eq!(entry_names(&root), vec!["Kept".to_owned()]);
    assert!(diag.iter().any(|m| m.contains("internal identifier")));
}

#[test]
fn forward_declared_classlike_not_materialized() {
    let mut n0 = node(EntityKind::TranslationUnit, None, None);
    n0.children = vec![1, 2];
    let mut n1 = node(EntityKind::ClassDecl, Some("Fwd"), Some(0));
    n1.is_definition = false;
    let n2 = node(EntityKind::ClassDecl, Some("Def"), Some(0));
    let ast = Ast { nodes: vec![n0, n1, n2] };
    let config = empty_config();
    let mut diag = Vec::new();
    let root = Namespace::new_root(&ast, 0, &config, &mut diag);
    assert_eq!(entry_names(&root), vec!["Def".to_owned()]);
}

#[test]
fn derived_classes_resolve_by_unique_id() {
    let ast = scenario_ast();
    let config = empty_config();
    let mut diag = Vec::new();
    let root = Namespace::new_root(&ast, 0, &config, &mut diag);
    let derived = derived_classes(&ast, &root, 2);
    assert_eq!(derived, vec![4]);
    // nothing derives from Gadget
    assert!(derived_classes(&ast, &root, 4).is_empty());
}

#[test]
fn derived_classes_ignore_access_and_virtual_flags() {
    let mut ast = scenario_ast();
    // make the base private and virtual: it still counts
    ast.nodes[5].accessibility = Some(flash::ast::Accessibility::Private);
    ast.nodes[5].is_virtual_base = true;
    let config = empty_config();
    let mut diag = Vec::new();
    let root = Namespace::new_root(&ast, 0, &config, &mut diag);
    assert_eq!(derived_classes(&ast, &root, 2), vec![4]);
}

#[test]
fn derived_classes_sorted_by_simple_name() {
    let mut n0 = node(EntityKind::TranslationUnit, None, None);
    n0.children = vec![1, 2, 4];
    let mut n1 = node(EntityKind::ClassDecl, Some("Base"), Some(0));
    n1.usr = 10;
    let mut n2 = node(EntityKind::ClassDecl, Some("Zeta"), Some(0));
    n2.usr = 11;
    n2.children = vec![3];
    let mut n3 = node(EntityKind::BaseSpecifier, Some("b"), Some(2));
    n3.type_decl = Some(1);
    let mut n4 = node(EntityKind::ClassDecl, Some("Alpha"), Some(0));
    n4.usr = 12;
    n4.children = vec![5];
    let mut n5 = node(EntityKind::BaseSpecifier, Some("b"), Some(4));
    n5.type_decl = Some(1);
    let ast = Ast { nodes: vec![n0, n1, n2, n3, n4, n5] };
    let config = empty_config();
    let mut diag = Vec::new();
    let root = Namespace::new_root(&ast, 0, &config, &mut diag);
    assert_eq!(derived_classes(&ast, &root, 1), vec![4, 2]);
}

#[test]
fn end_to_end_merge_xref_autolink() {
    let ast = scenario_ast();
    let config = empty_config();
    let mut diag = Vec::new();
    let root = Namespace::new_root(&ast, 0, &config, &mut diag);
    // fragments merged into one `ns`
    assert_eq!(entry_names(&root), vec!["ns".to_owned()]);
    let ns = match find_entry(&root, "ns") {
        CppItem::Namespace(ns) => ns,
        _ => panic!("expected a namespace"),
    };
    let mut inner = entry_names(ns);
    inner.sort();
    assert_eq!(inner, vec!["Gadget".to_owned(), "Widget".to_owned()]);
    // derived_classes(Widget) is exactly [Gadget]
    assert_eq!(derived_classes(&ast, &root, 2), vec![4]);
    // autolinking prose attached to Gadget rewrites Widget's mention
    let out = flash::autolink::fmt_autolinks(&ast, &config, &root, "See Widget for details");
    assert_eq!(out, "See [Widget](classes/ns/Widget) for details");
}
