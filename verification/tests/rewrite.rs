use flash::ast::{Ast, AstNode, EntityKind};
use flash::autolink::{fmt_autolinks, fmt_emoji};
use flash::config::Config;
use flash::namespace::Namespace;
use flash::url::UrlPath;

fn node(kind: EntityKind, name: Option<&str>, parent: Option<usize>) -> AstNode {
    AstNode {
        kind,
        name: name.map(|s| s.to_owned()),
        children: vec![],
        parent,
        file: None,
        in_system_header: false,
        is_definition: true,
        usr: 0,
        comment: None,
        accessibility: None,
        is_static_method: false,
        is_virtual_method: false,
        is_const_method: false,
        is_pure_virtual: false,
        is_virtual_base: false,
        type_decl: None,
        source_text: None,
        display_type: None,
    }
}

fn empty_config() -> Config {
    Config {
        input_dir: UrlPath::new(),
        output_url: UrlPath::new(),
        ignore: None,
        external_libs: vec![],
        sources: vec![],
        project_name: "proj".to_owned(),
        project_version: "1.0".to_owned(),
        project_tree: None,
    }
}

fn tree_with(names: &[(&str, EntityKind)]) -> (Ast, Namespace) {
    let mut n0 = node(EntityKind::TranslationUnit, None, None);
    n0.children = (1..=names.len()).collect();
    let mut nodes = vec![n0];
    for (i, (name, kind)) in names.iter().enumerate() {
        let mut n = node(*kind, Some(name), Some(0));
        n.usr = 1000 + i as u64;
        nodes.push(n);
    }
    let ast = Ast { nodes };
    let config = empty_config();
    let mut diag = Vec::new();
    let root = Namespace::new_root(&ast, 0, &config, &mut diag);
    (ast, root)
}

#[test]
fn autolink_links_capitalized_entity_name() {
    let (ast, root) = tree_with(&[("Widget", EntityKind::ClassDecl)]);
    let config = empty_config();
    let out = fmt_autolinks(&ast, &config, &root, "use a Widget here");
    assert_eq!(out, "use a [Widget](classes/Widget) here");
}

#[test]
fn autolink_never_links_all_lowercase_names() {
    let (ast, root) = tree_with(&[("widget", EntityKind::ClassDecl)]);
    let config = empty_config();
    let out = fmt_autolinks(&ast, &config, &root, "use a widget here");
    assert_eq!(out, "use a widget here");
}

#[test]
fn autolink_requires_whole_token_match() {
    let (ast, root) = tree_with(&[("Widget", EntityKind::ClassDecl)]);
    let config = empty_config();
    let out = fmt_autolinks(&ast, &config, &root, "Widgets are not Widget_s");
    assert_eq!(out, "Widgets are not Widget_s");
}

#[test]
fn autolink_later_entity_wins_for_shared_name() {
    let (ast, root) = tree_with(&[
        ("Thing", EntityKind::ClassDecl),
        ("Thing", EntityKind::FunctionDecl),
    ]);
    let config = empty_config();
    let out = fmt_autolinks(&ast, &config, &root, "a Thing");
    assert_eq!(out, "a [Thing](functions/Thing)");
}

#[test]
fn emoji_shortcode_is_replaced() {
    assert_eq!(fmt_emoji("launch :rocket: now"), "launch \u{1F680} now");
}

#[test]
fn emoji_unknown_shortcode_stays() {
    assert_eq!(
        fmt_emoji("launch :not_an_emoji_xyz: now"),
        "launch :not_an_emoji_xyz: now"
    );
}

#[test]
fn emoji_unterminated_shortcode_stays() {
    assert_eq!(fmt_emoji("a : b"), "a : b");
    assert_eq!(fmt_emoji("ratio 1:2"), "ratio 1:2");
}
