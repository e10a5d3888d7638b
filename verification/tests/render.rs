use flash::ast::{Access, Ast, AstNode, Accessibility, EntityKind, Include};
use flash::config::Config;
use flash::html::{fmt_section, Html};
use flash::namespace::Namespace;
use flash::nav::{NavItem, SubItem};
use flash::orchestrator::aggregate_results;
use flash::process::{minify_css, minify_html, minify_js};
use flash::url::UrlPath;

fn node(kind: EntityKind, name: Option<&str>, parent: Option<usize>) -> AstNode {
    AstNode {
        kind,
        name: name.map(|s| s.to_owned()),
        children: vec![],
        parent,
        file: None,
        in_system_header: false,
        is_definition: true,
        usr: 0,
        comment: None,
        accessibility: None,
        is_static_method: false,
        is_virtual_method: false,
        is_const_method: false,
        is_pure_virtual: false,
        is_virtual_base: false,
        type_decl: None,
        source_text: None,
        display_type: None,
    }
}

fn empty_config() -> Config {
    Config {
        input_dir: UrlPath::new(),
        output_url: UrlPath::new(),
        ignore: None,
        external_libs: vec![],
        sources: vec![],
        project_name: "proj".to_owned(),
        project_version: "1.0".to_owned(),
        project_tree: None,
    }
}

#[test]
fn aggregate_all_successes_yields_all_urls() {
    let results = vec![
        Ok(UrlPath::parse("a")),
        Ok(UrlPath::parse("b/c")),
    ];
    let urls = aggregate_results(results).unwrap();
    let rendered: Vec<String> = urls.iter().map(|u| u.to_string()).collect();
    assert_eq!(rendered, vec!["a".to_owned(), "b/c".to_owned()]);
}

#[test]
fn aggregate_surfaces_first_error() {
    let results = vec![
        Ok(UrlPath::parse("a")),
        Err("boom".to_owned()),
        Err("later".to_owned()),
        Ok(UrlPath::parse("b")),
    ];
    assert_eq!(aggregate_results(results).unwrap_err(), "boom");
}

#[test]
fn build_plans_one_task_per_node() {
    let mut n0 = node(EntityKind::TranslationUnit, None, None);
    n0.children = vec![1, 3];
    let mut n1 = node(EntityKind::Namespace, Some("ns"), Some(0));
    n1.children = vec![2];
    let n2 = node(EntityKind::ClassDecl, Some("C"), Some(1));
    let n3 = node(EntityKind::FunctionDecl, Some("f"), Some(0));
    let ast = Ast { nodes: vec![n0, n1, n2, n3] };
    let config = empty_config();
    let mut diag = Vec::new();
    let root = Namespace::new_root(&ast, 0, &config, &mut diag);
    let plan = root.build();
    assert_eq!(plan, vec![0, 1, 2, 3]);
}

#[test]
fn fmt_section_counts_entries_in_badge() {
    let section = fmt_section("Examples", vec![Html::p("one"), Html::p("two")]);
    match section {
        Html::Element(details) => {
            assert_eq!(details.tag, "details");
            match &details.children[0] {
                Html::Element(summary) => match &summary.children[0] {
                    Html::Element(span) => match &span.children[2] {
                        Html::Element(badge) => match &badge.children[0] {
                            Html::Text(count) => assert_eq!(count, "2"),
                            _ => panic!("badge must hold the count"),
                        },
                        _ => panic!("summary must end with the badge"),
                    },
                    _ => panic!("summary holds one span"),
                },
                _ => panic!("first child is the summary"),
            }
        }
        _ => panic!("a section is a details element"),
    }
}

#[test]
fn member_functions_filter_by_access_and_statics() {
    let mut n0 = node(EntityKind::ClassDecl, Some("C"), None);
    n0.children = vec![1, 2, 3, 4];
    let mut pubm = node(EntityKind::Method, Some("pub_m"), Some(0));
    pubm.accessibility = Some(Accessibility::Public);
    let mut prot = node(EntityKind::Method, Some("prot_m"), Some(0));
    prot.accessibility = Some(Accessibility::Protected);
    let mut stat = node(EntityKind::Method, Some("stat_m"), Some(0));
    stat.accessibility = Some(Accessibility::Public);
    stat.is_static_method = true;
    let mut priv_ = node(EntityKind::Method, Some("priv_m"), Some(0));
    priv_.accessibility = Some(Accessibility::Private);
    let ast = Ast { nodes: vec![n0, pubm, prot, stat, priv_] };
    assert_eq!(ast.get_member_functions(0, Access::Public, Include::Members), vec![1]);
    assert_eq!(ast.get_member_functions(0, Access::Public, Include::Statics), vec![3]);
    assert_eq!(ast.get_member_functions(0, Access::All, Include::All), vec![1, 2, 3]);
    assert_eq!(ast.get_member_functions(0, Access::Protected, Include::Members), vec![2]);
}

#[test]
fn subitems_list_member_function_titles() {
    let mut n0 = node(EntityKind::ClassDecl, Some("C"), None);
    n0.children = vec![1];
    let mut m = node(EntityKind::Method, Some("go"), Some(0));
    m.accessibility = Some(Accessibility::Public);
    let ast = Ast { nodes: vec![n0, m] };
    let subs = SubItem::for_classlike(&ast, 0);
    assert_eq!(subs.len(), 1);
    assert_eq!(subs[0].title, "go");
}

#[test]
fn nav_orders_namespaces_before_classes() {
    let mut n0 = node(EntityKind::TranslationUnit, None, None);
    n0.children = vec![1, 2, 3];
    let n1 = node(EntityKind::ClassDecl, Some("Alpha"), Some(0));
    let mut n2 = node(EntityKind::Namespace, Some("zeta"), Some(0));
    n2.children = vec![4];
    let n3 = node(EntityKind::ClassDecl, Some("Beta"), Some(0));
    let n4 = node(EntityKind::FunctionDecl, Some("f"), Some(2));
    let ast = Ast { nodes: vec![n0, n1, n2, n3, n4] };
    let config = empty_config();
    let mut diag = Vec::new();
    let root = Namespace::new_root(&ast, 0, &config, &mut diag);
    let nav = root.nav(&ast, &config);
    match nav {
        NavItem::Root(_, items) => {
            let names: Vec<String> = items
                .iter()
                .map(|i| match i {
                    NavItem::Dir(n, _, _, _) => n.clone(),
                    NavItem::Link(n, _, _, _) => n.clone(),
                    NavItem::Root(_, _) => "<root>".to_owned(),
                })
                .collect();
            assert_eq!(
                names,
                vec!["zeta".to_owned(), "Alpha".to_owned(), "Beta".to_owned()]
            );
        }
        _ => panic!("root namespace renders the root node"),
    }
}

#[test]
fn suboptions_counts_repeated_titles() {
    let url = UrlPath::parse("classes/C");
    let subs = vec![
        SubItem { title: "go".to_owned() },
        SubItem { title: "go".to_owned() },
        SubItem { title: "stop".to_owned() },
    ];
    let link = NavItem::new_link("C", url, None, subs);
    let titles = link.suboptions_titles();
    let get = |k: &str| titles.iter().find(|p| p.0 == k).map(|p| p.1);
    assert_eq!(get("C::go"), Some(1));
    assert_eq!(get("C::stop"), Some(0));
}

#[test]
fn minify_js_passes_through() {
    assert_eq!(minify_js("var x = 1;".to_owned()).unwrap(), "var x = 1;");
}

#[test]
fn minify_html_strips_comments() {
    let input = "<p>a</p><!-- note -->".to_owned();
    let out = minify_html(input.clone()).unwrap();
    assert_ne!(out, input);
    assert!(!out.contains("note"));
    assert!(out.contains("<p>a</p>"));
}

#[test]
fn minify_css_compacts_rules() {
    let input = "a {\n  color: red;\n}\n".to_owned();
    let out = minify_css(input.clone()).unwrap();
    assert_ne!(out, input);
    assert!(out.contains("color"));
    assert!(!out.contains('\n'));
}

#[test]
fn minify_css_reports_parse_errors() {
    assert!(minify_css("}".to_owned()).is_err());
}

#[test]
fn function_arguments_are_parm_children() {
    let mut f = node(EntityKind::FunctionDecl, Some("f"), None);
    f.children = vec![1, 2, 3];
    let p1 = node(EntityKind::ParmDecl, Some("a"), Some(0));
    let t = node(EntityKind::TemplateTypeParameter, Some("T"), Some(0));
    let p2 = node(EntityKind::ParmDecl, Some("b"), Some(0));
    let ast = Ast { nodes: vec![f, p1, t, p2] };
    assert_eq!(ast.get_function_arguments(0), Some(vec![1, 3]));
    let c = node(EntityKind::ClassDecl, Some("C"), None);
    let ast2 = Ast { nodes: vec![c] };
    assert_eq!(ast2.get_function_arguments(0), None);
}

#[test]
fn description_sentence_names_entity_and_project() {
    let c = node(EntityKind::ClassDecl, Some("Widget"), None);
    let ast = Ast { nodes: vec![c] };
    let config = empty_config();
    let item = flash::namespace::CppItem::Class(flash::namespace::ClassLike { entity: 0 });
    assert_eq!(
        flash::html::output_description(&ast, &config, &item),
        "Documentation for the Widget class in proj"
    );
}

#[test]
fn root_namespace_has_empty_url() {
    let mut n0 = node(EntityKind::Namespace, Some("top"), None);
    n0.children = vec![1];
    let n1 = node(EntityKind::ClassDecl, Some("C"), Some(0));
    let ast = Ast { nodes: vec![n0, n1] };
    let config = empty_config();
    let mut diag = Vec::new();
    let root = Namespace::new_root(&ast, 0, &config, &mut diag);
    assert_eq!(root.url(&ast).to_string(), "");
    let item = flash::namespace::CppItem::Class(flash::namespace::ClassLike { entity: 1 });
    assert_eq!(item.url(&ast).to_string(), "classes/top/C");
}
