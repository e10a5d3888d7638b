//! A small model of the rendered HTML: elements with tag, classes,
//! attributes and children. The markdown conversion of comment text is an
//! external collaborator and enters here only as already-built nodes.

use vstd::prelude::*;
use vstd::string::*;
use crate::ast::Ast;
use crate::config::Config;
use crate::namespace::CppItem;
use crate::text::spec_decimal;
use crate::text::usize_to_string;

verus! {

/// One HTML element.
pub struct HtmlElement {
    pub tag: String,
    pub classes: Vec<String>,
    pub attrs: Vec<(String, String)>,
    pub children: Vec<Html>,
}

/// A piece of HTML: an element, plain text, or a list of siblings.
pub enum Html {
    Element(HtmlElement),
    Text(String),
    List(Vec<Html>),
}

impl HtmlElement {
    /// An element with the given tag and nothing else.
    pub fn new(tag: &str) -> (r: HtmlElement)
        ensures
            r.tag@ == tag@,
            r.classes@.len() == 0,
            r.attrs@.len() == 0,
            r.children@.len() == 0,
    {
        HtmlElement {
            tag: String::from_str(tag),
            classes: Vec::new(),
            attrs: Vec::new(),
            children: Vec::new(),
        }
    }

    /// The element with one more class.
    pub fn with_class(self, c: &str) -> (r: HtmlElement)
        ensures
            r.tag == self.tag,
            r.attrs == self.attrs,
            r.children == self.children,
            r.classes@.len() == self.classes@.len() + 1,
            r.classes@.last()@ == c@,
            forall|j: int| 0 <= j < self.classes@.len() ==> #[trigger] r.classes@[j]
                == self.classes@[j],
    {
        let mut s = self;
        s.classes.push(String::from_str(c));
        s
    }

    /// The element with one more attribute.
    pub fn with_attr(self, k: &str, v: &str) -> (r: HtmlElement)
        ensures
            r.tag == self.tag,
            r.classes == self.classes,
            r.children == self.children,
            r.attrs@.len() == self.attrs@.len() + 1,
            r.attrs@.last().0@ == k@,
            r.attrs@.last().1@ == v@,
            forall|j: int| 0 <= j < self.attrs@.len() ==> #[trigger] r.attrs@[j]
                == self.attrs@[j],
    {
        let mut s = self;
        s.attrs.push((String::from_str(k), String::from_str(v)));
        s
    }

    /// The element with one more child.
    pub fn with_child(self, child: Html) -> (r: HtmlElement)
        ensures
            r.tag == self.tag,
            r.classes == self.classes,
            r.attrs == self.attrs,
            r.children@.len() == self.children@.len() + 1,
            r.children@.last() == child,
            forall|j: int| 0 <= j < self.children@.len() ==> #[trigger] r.children@[j]
                == self.children@[j],
    {
        let mut s = self;
        s.children.push(child);
        s
    }

    /// The element with one more child when one is given.
    pub fn with_child_opt(self, child: Option<Html>) -> (r: HtmlElement)
        ensures
            child matches Some(c) ==> (r.children@.len() == self.children@.len() + 1
                && r.children@.last() == c && r.tag == self.tag),
            child is None ==> r == self,
    {
        match child {
            Some(c) => self.with_child(c),
            None => self,
        }
    }
}

impl Html {
    /// A span with the given classes and text.
    pub fn span(classes: &[&str], text: &str) -> (r: Html)
        ensures
            r is Element,
            r->Element_0.tag@ == "span"@,
            r->Element_0.classes@.len() == classes@.len(),
            forall|j: int| 0 <= j < classes@.len() ==> (#[trigger] r->Element_0.classes@[j])@
                == classes@[j]@,
            r->Element_0.children@.len() == 1,
            r->Element_0.children@[0] matches Html::Text(t) && t@ == text@,
    {
        let mut e = HtmlElement::new("span");
        let n = classes.len();
        let mut i: usize = 0;
        while i < n
            invariant
                n == classes@.len(),
                i <= n,
                e.tag@ == "span"@,
                e.children@.len() == 0,
                e.classes@.len() == i,
                forall|j: int| 0 <= j < i ==> (#[trigger] e.classes@[j])@ == classes@[j]@,
            decreases n - i,
        {
            e = e.with_class(classes[i]);
            i += 1;
        }
        Html::Element(e.with_child(Html::Text(String::from_str(text))))
    }

    /// A paragraph holding the given text.
    pub fn p(text: &str) -> (r: Html)
        ensures
            r is Element,
            r->Element_0.tag@ == "p"@,
            r->Element_0.children@.len() == 1,
            r->Element_0.children@[0] matches Html::Text(t) && t@ == text@,
    {
        Html::Element(HtmlElement::new("p").with_child(Html::Text(String::from_str(text))))
    }

    /// A feather-style icon element.
    pub fn feather(name: &str) -> (r: Html)
        ensures
            r is Element,
            r->Element_0.tag@ == "i"@,
            r->Element_0.classes@.len() == 2,
            r->Element_0.classes@[0]@ == "feather"@,
            r->Element_0.classes@[1]@ == name@,
    {
        Html::Element(HtmlElement::new("i").with_class("feather").with_class(name))
    }
}

/// A collapsible section: a `details` element, open by default, whose
/// summary shows the title and a badge with the number of entries, and
/// whose body lists the entries.
pub fn fmt_section(title: &str, data: Vec<Html>) -> (r: Html)
    ensures
        r is Element,
        r->Element_0.tag@ == "details"@,
        r->Element_0.attrs@.len() == 1 && r->Element_0.attrs@[0].0@ == "open"@,
        r->Element_0.classes@.len() == 1 && r->Element_0.classes@[0]@ == "section"@,
        r->Element_0.children@.len() == 2,
        r->Element_0.children@[0] matches Html::Element(s) && s.tag@ == "summary"@,
        (r->Element_0.children@[1] matches Html::Element(d) && d.tag@ == "div"@
            && d.children@.len() == 1 && (d.children@[0] matches Html::List(l) && l
            == data)),
        ({
            let s = r->Element_0.children@[0]->Element_0;
            &&& s.children@.len() == 1
            &&& s.children@[0] is Element
            &&& s.children@[0]->Element_0.children@.len() == 3
            &&& (s.children@[0]->Element_0.children@[1] matches Html::Text(t) && t@ == title@)
            &&& (s.children@[0]->Element_0.children@[2] matches Html::Element(b)
                && b.classes@.len() == 1 && b.classes@[0]@ == "badge"@ && b.children@.len()
                == 1 && (b.children@[0] matches Html::Text(c) && c@ == spec_decimal(
                data@.len() as nat,
            )))
        }),
{
    let count = usize_to_string(data.len());
    let badge = Html::span(&["badge"], count.as_str());
    let inner = HtmlElement::new("span").with_child(Html::feather("chevron-right")).with_child(
        Html::Text(String::from_str(title)),
    ).with_child(badge);
    let summary = HtmlElement::new("summary").with_child(Html::Element(inner));
    let body = HtmlElement::new("div").with_child(Html::List(data));
    Html::Element(
        HtmlElement::new("details").with_attr("open", "").with_class("section").with_child(
            Html::Element(summary),
        ).with_child(Html::Element(body)),
    )
}

/// The header link of an entity's page: an anchor around the rendered
/// `#include` line, linking to the browseable source when the owning source
/// tree exists online; a placeholder paragraph when the entity's header
/// cannot be resolved.
pub fn fmt_header_link(ast: &Ast, entity: usize, config: &Config) -> (r: Html)
    requires
        ast.wf(),
        entity < ast.nodes@.len(),
        !crate::resolver::spec_is_std(*ast, entity),
    ensures
        (crate::resolver::spec_github_url(*ast, *config, entity) is Some
            && crate::resolver::spec_include_path(*ast, *config, entity) is Some) ==> (r
            is Element && r->Element_0.tag@ == "a"@),
        !(crate::resolver::spec_github_url(*ast, *config, entity) is Some
            && crate::resolver::spec_include_path(*ast, *config, entity) is Some) ==> (r
            is Element && r->Element_0.tag@ == "p"@),
{
    let link = match ast.github_url(entity, config) {
        Some(link) => link,
        None => { return Html::p("&lt;Not available online&gt;") },
    };
    let path = match ast.include_path(entity, config) {
        Some(path) => path,
        None => { return Html::p("&lt;Not available online&gt;") },
    };
    let exists_online = match ast.config_source(entity, config) {
        Some(i) => config.sources[i].exists_online,
        None => true,
    };
    let include_text = String::from_str("&lt;").concat(path.to_raw_string().as_str()).concat(
        "&gt;",
    );
    let code = HtmlElement::new("code").with_class("header-link").with_child(
        Html::span(&["keyword"], "#include "),
    ).with_child(Html::span(&["url"], include_text.as_str()));
    let mut a = HtmlElement::new("a");
    if exists_online {
        a = a.with_attr("href", link.as_str());
    } else {
        a = a.with_class("disabled");
    }
    Html::Element(a.with_class("header-link").with_child(Html::Element(code)))
}

/// The derived-class row rendered in a classlike page: a link to the
/// derived entity's page showing `class <name> { ... }`.
pub fn fmt_derived_class(ast: &Ast, entity: usize, config: &Config) -> (r: Html)
    requires
        ast.wf(),
        entity < ast.nodes@.len(),
    ensures
        r is Element,
        r->Element_0.tag@ == "div"@,
        r->Element_0.children@.len() == 1,
        r->Element_0.children@[0] is Element,
        r->Element_0.children@[0]->Element_0.tag@ == "a"@,
{
    let name = match &ast.nodes[entity].name {
        Some(s) => String::clone(s),
        None => String::from_str("_"),
    };
    let mut a = HtmlElement::new("a");
    match ast.abs_docs_url(entity, config) {
        Some(u) => {
            a = a.with_attr("href", u.to_string().as_str());
        },
        None => {},
    }
    let a = a.with_child(Html::span(&["keyword", "space-after"], "class")).with_child(
        Html::span(&["name"], name.as_str()),
    ).with_child(Html::span(&["space-before"], "{ ... }"));
    Html::Element(
        HtmlElement::new("div").with_class("entity").with_class("class").with_child(
            Html::Element(a),
        ),
    )
}

/// The shared fields of any entity's page: its name, its description (the
/// already-converted comment, or a placeholder), its header link, and its
/// examples section.
pub fn output_entity(
    ast: &Ast,
    config: &Config,
    entry: &CppItem,
    description: Option<Html>,
    examples: Vec<Html>,
) -> (r: Vec<(&'static str, Html)>)
    requires
        ast.wf(),
        crate::namespace::item_bounded(*entry, ast.nodes@.len()),
        !crate::resolver::spec_is_std(*ast, entry.spec_entity()),
    ensures
        r@.len() == 4,
        r@[0].0@ == "name"@,
        (r@[0].1 matches Html::Text(t) && t@ == entry.spec_name(*ast)),
        r@[1].0@ == "description"@,
        description matches Some(d) ==> r@[1].1 == d,
        r@[2].0@ == "header_link"@,
        r@[3].0@ == "examples"@,
{
    let mut r: Vec<(&'static str, Html)> = Vec::new();
    r.push(("name", Html::Text(entry.name(ast))));
    let desc = match description {
        Some(d) => d,
        None => Html::span(&["no-desc"], "No description provided"),
    };
    r.push(("description", desc));
    r.push(("header_link", fmt_header_link(ast, entry.entity(), config)));
    r.push(("examples", fmt_section("Examples", examples)));
    r
}

/// A function's page: the shared fields, plus its signature placeholder
/// rendered from the declaration's source text.
pub fn output_function(
    ast: &Ast,
    config: &Config,
    entry: &CppItem,
    description: Option<Html>,
    examples: Vec<Html>,
) -> (r: Vec<(&'static str, Html)>)
    requires
        ast.wf(),
        crate::namespace::item_bounded(*entry, ast.nodes@.len()),
        !crate::resolver::spec_is_std(*ast, entry.spec_entity()),
    ensures
        r@.len() == 5,
        r@[4].0@ == "function_signature"@,
{
    let mut r = output_entity(ast, config, entry, description, examples);
    let sig = match ast.extract_source_string(entry.entity()) {
        Some(s) => Html::span(&["entity", "fun"], s.as_str()),
        None => Html::span(&["entity", "fun"], ""),
    };
    r.push(("function_signature", sig));
    r
}

/// The page description of an entity: its name, its category word and the
/// project's name, in one sentence.
pub fn output_description(ast: &Ast, config: &Config, entry: &CppItem) -> (r: String)
    requires
        ast.wf(),
        crate::namespace::item_bounded(*entry, ast.nodes@.len()),
    ensures
        r@ == "Documentation for the "@ + entry.spec_name(*ast) + " "@ + entry.spec_category()
            + " in "@ + config.project_name@,
{
    let name = entry.name(ast);
    let r = String::from_str("Documentation for the ").concat(name.as_str()).concat(
        " ",
    ).concat(entry.category()).concat(" in ").concat(config.project_name.as_str());
    proof {
        assert(r@ =~= "Documentation for the "@ + entry.spec_name(*ast) + " "@
            + entry.spec_category() + " in "@ + config.project_name@);
    }
    r
}

} // verus!
