use flash::ast::{Ast, AstNode, EntityKind};
use flash::config::{Config, ExternalLib, Source};
use flash::url::UrlPath;

fn node(kind: EntityKind, name: Option<&str>, parent: Option<usize>) -> AstNode {
    AstNode {
        kind,
        name: name.map(|s| s.to_owned()),
        children: vec![],
        parent,
        file: None,
        in_system_header: false,
        is_definition: true,
        usr: 0,
        comment: None,
        accessibility: None,
        is_static_method: false,
        is_virtual_method: false,
        is_const_method: false,
        is_pure_virtual: false,
        is_virtual_base: false,
        type_decl: None,
        source_text: None,
        display_type: None,
    }
}

fn base_config() -> Config {
    Config {
        input_dir: UrlPath::parse("proj"),
        output_url: UrlPath::parse("docs.example.com/site"),
        ignore: None,
        external_libs: vec![],
        sources: vec![],
        project_name: "proj".to_owned(),
        project_version: "1.0".to_owned(),
        project_tree: None,
    }
}

#[test]
fn url_path_parse_drops_empty_segments() {
    assert_eq!(UrlPath::parse("a//b/").to_string(), "a/b");
    assert_eq!(UrlPath::parse("/a/b").to_string(), "a/b");
    assert_eq!(UrlPath::parse("").to_string(), "");
}

#[test]
fn url_path_round_trip() {
    let p = UrlPath::parse("classes/ns/Widget");
    assert_eq!(UrlPath::parse(&p.to_string()).to_string(), "classes/ns/Widget");
}

#[test]
fn url_path_join_and_strip_prefix() {
    let a = UrlPath::parse("x/y");
    let b = UrlPath::parse("z");
    let j = a.join(b);
    assert_eq!(j.to_string(), "x/y/z");
    let stripped = j.strip_prefix(&UrlPath::parse("x"));
    assert_eq!(stripped.to_string(), "y/z");
    // not a prefix: unchanged
    let same = j.strip_prefix(&UrlPath::parse("nope"));
    assert_eq!(same.to_string(), "x/y/z");
}

#[test]
fn relative_url_is_category_plus_qualified_name() {
    let mut n0 = node(EntityKind::TranslationUnit, None, None);
    n0.children = vec![1];
    let mut n1 = node(EntityKind::Namespace, Some("ns"), Some(0));
    n1.children = vec![2];
    let n2 = node(EntityKind::StructDecl, Some("S"), Some(1));
    let ast = Ast { nodes: vec![n0, n1, n2] };
    let rel = ast.rel_docs_url(2).unwrap();
    assert_eq!(rel.to_string(), "classes/ns/S");
    // deterministic: computing it again gives the same URL
    assert_eq!(ast.rel_docs_url(2).unwrap().to_string(), "classes/ns/S");
}

#[test]
fn identical_name_and_category_collide_on_one_url() {
    // a class and a class template with the same qualified name
    let mut n0 = node(EntityKind::TranslationUnit, None, None);
    n0.children = vec![1, 2];
    let n1 = node(EntityKind::ClassDecl, Some("Same"), Some(0));
    let n2 = node(EntityKind::ClassTemplate, Some("Same"), Some(0));
    let ast = Ast { nodes: vec![n0, n1, n2] };
    assert_eq!(
        ast.rel_docs_url(1).unwrap().to_string(),
        ast.rel_docs_url(2).unwrap().to_string()
    );
}

#[test]
fn std_entities_resolve_to_external_reference() {
    let mut n0 = node(EntityKind::TranslationUnit, None, None);
    n0.children = vec![1];
    let mut n1 = node(EntityKind::Namespace, Some("std"), Some(0));
    n1.children = vec![2];
    let mut n2 = node(EntityKind::ClassDecl, Some("string"), Some(1));
    n2.file = Some(UrlPath::parse("usr/include/string"));
    n2.in_system_header = true;
    let ast = Ast { nodes: vec![n0, n1, n2] };
    let config = base_config();
    let url = ast.abs_docs_url(2, &config).unwrap().to_string();
    assert_eq!(url, "en.cppreference.com/w/cpp/string/string");
    assert!(!url.starts_with("docs.example.com"));
}

#[test]
fn non_std_entities_resolve_under_site_base() {
    let mut n0 = node(EntityKind::TranslationUnit, None, None);
    n0.children = vec![1];
    let n1 = node(EntityKind::ClassDecl, Some("Widget"), Some(0));
    let ast = Ast { nodes: vec![n0, n1] };
    let config = base_config();
    let url = ast.abs_docs_url(1, &config).unwrap().to_string();
    assert_eq!(url, "docs.example.com/site/classes/Widget");
}

#[test]
fn github_url_prefers_matched_external_library() {
    let mut n1 = node(EntityKind::ClassDecl, Some("Ext"), None);
    n1.file = Some(UrlPath::parse("deps/coollib/include/ext.hpp"));
    n1.in_system_header = true;
    let ast = Ast { nodes: vec![n1] };
    let mut config = base_config();
    config.external_libs = vec![ExternalLib {
        pattern: "coollib".to_owned(),
        repository: "github.example.com/coollib".to_owned(),
        exists_online: true,
    }];
    assert_eq!(
        ast.github_url(0, &config).unwrap(),
        "github.example.com/coollib"
    );
}

#[test]
fn github_url_joins_project_tree_with_header() {
    let mut n1 = node(EntityKind::ClassDecl, Some("Own"), None);
    n1.file = Some(UrlPath::parse("proj/include/own.hpp"));
    let ast = Ast { nodes: vec![n1] };
    let mut config = base_config();
    config.project_tree = Some("tree.example.com/blob/main/".to_owned());
    assert_eq!(
        ast.github_url(0, &config).unwrap(),
        "tree.example.com/blob/main/include/own.hpp"
    );
}

#[test]
fn include_path_is_file_name_for_system_headers() {
    let mut n1 = node(EntityKind::ClassDecl, Some("Sys"), None);
    n1.file = Some(UrlPath::parse("usr/include/vector"));
    n1.in_system_header = true;
    let ast = Ast { nodes: vec![n1] };
    let config = base_config();
    assert_eq!(ast.include_path(0, &config).unwrap().to_string(), "vector");
}

#[test]
fn include_path_is_relative_to_owning_source() {
    let mut n1 = node(EntityKind::ClassDecl, Some("Own"), None);
    n1.file = Some(UrlPath::parse("proj/include/own.hpp"));
    let ast = Ast { nodes: vec![n1] };
    let mut config = base_config();
    config.sources = vec![Source {
        dir: UrlPath::parse("include"),
        exists_online: true,
    }];
    assert_eq!(
        ast.include_path(0, &config).unwrap().to_string(),
        "own.hpp"
    );
}

#[test]
fn source_text_cleanup_single_spaces_one_line() {
    let mut n0 = node(EntityKind::TemplateTypeParameter, Some("T"), None);
    n0.source_text = Some("  typename\t T \r\n = int  ".to_owned());
    let ast = Ast { nodes: vec![n0] };
    assert_eq!(
        ast.extract_source_string_cleaned(0).unwrap(),
        "typename T = int"
    );
    assert!(ast.extract_source_string(0).unwrap().starts_with("  typename"));
}

#[test]
fn anonymous_ancestors_are_dropped_from_qualified_names() {
    let mut n0 = node(EntityKind::TranslationUnit, None, None);
    n0.children = vec![1];
    let mut n1 = node(EntityKind::Namespace, None, Some(0));
    n1.children = vec![2];
    let n2 = node(EntityKind::ClassDecl, Some("Hidden"), Some(1));
    let ast = Ast { nodes: vec![n0, n1, n2] };
    assert_eq!(ast.full_name_string(2), "Hidden");
    // a named intermediate stays
    let mut m0 = node(EntityKind::TranslationUnit, None, None);
    m0.children = vec![1];
    let mut m1 = node(EntityKind::Namespace, Some("outer"), Some(0));
    m1.children = vec![2];
    let m2 = node(EntityKind::ClassDecl, Some("C"), Some(1));
    let ast2 = Ast { nodes: vec![m0, m1, m2] };
    assert_eq!(ast2.full_name_string(2), "outer::C");
}
