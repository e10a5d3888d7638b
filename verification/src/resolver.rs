//! URL resolution for tree entities: documentation pages, external
//! standard-library redirects, source-browse links and include paths.

use vstd::prelude::*;
use vstd::string::*;
use crate::ast::Ast;
use crate::config::Config;
use crate::namespace::spec_classify;
use crate::namespace::CppItemKind;
use crate::url::spec_join;
use crate::url::spec_split;
use crate::url::UrlPath;

verus! {

/// The relative docs URL of `id`: its category segment followed by its
/// fully qualified name — a pure function of those two alone, so two
/// entities agreeing on both collide on one URL.
pub open spec fn spec_rel_docs_url(ast: Ast, id: usize) -> Option<Seq<Seq<char>>> {
    match spec_classify(ast.nodes@[id as int].kind) {
        None => None,
        Some(kind) => Some(seq![kind.spec_category_segment()] + ast.spec_full_name(id)),
    }
}

/// Whether `id` lies under the standard-library namespace.
pub open spec fn spec_is_std(ast: Ast, id: usize) -> bool {
    ast.spec_full_name(id).len() > 0 && ast.spec_full_name(id)[0] == "std"@
}

/// The absolute docs URL of `id`: a standard-library entity redirects to
/// the external reference site, keyed by its defining header's file name and
/// its simple name; anything else joins its relative URL onto the site base.
pub open spec fn spec_abs_docs_url(ast: Ast, config: Config, id: usize) -> Option<
    Seq<Seq<char>>,
> {
    if spec_is_std(ast, id) {
        match ast.nodes@[id as int].file {
            Some(f) => {
                if f@.len() > 0 {
                    match ast.nodes@[id as int].name {
                        Some(nm) => Some(
                            seq!["en.cppreference.com"@] + spec_split(
                                "w/cpp/"@ + f@.last() + seq!['/'] + nm@,
                            ),
                        ),
                        None => None,
                    }
                } else {
                    None
                }
            },
            None => None,
        }
    } else {
        match spec_rel_docs_url(ast, id) {
            None => None,
            Some(rel) => Some(config.output_url@ + rel),
        }
    }
}

/// The source-browse URL of a non-standard-library entity: the matched
/// external library's repository, or the project's browse base joined with
/// the header path.
pub open spec fn spec_github_url(ast: Ast, config: Config, id: usize) -> Option<Seq<char>> {
    match ast.spec_allowed_external_lib(config, id) {
        Some(i) => Some(config.external_libs@[i].repository@),
        None => match config.project_tree {
            None => None,
            Some(tree) => match ast.spec_header(config, id) {
                None => None,
                Some(h) => Some(tree@ + spec_join(h)),
            },
        },
    }
}

/// The `#include` path to render for `id`: the header's bare file name for
/// a system header, else the header path relative to its owning configured
/// source tree.
pub open spec fn spec_include_path(ast: Ast, config: Config, id: usize) -> Option<
    Seq<Seq<char>>,
> {
    if ast.nodes@[id as int].in_system_header {
        match ast.spec_header(config, id) {
            Some(h) => if h.len() > 0 {
                Some(seq![h.last()])
            } else {
                None
            },
            None => None,
        }
    } else {
        match ast.spec_header(config, id) {
            None => None,
            Some(h) => match ast.spec_config_source(config, id) {
                None => None,
                Some(i) => Some(
                    if config.sources@[i].dir@.is_prefix_of(h) {
                        h.skip(config.sources@[i].dir@.len() as int)
                    } else {
                        h
                    },
                ),
            },
        }
    }
}

/// The relative URL depends on nothing but the category and the fully
/// qualified name: entities agreeing on both get the same URL (a documented
/// collision, not asserted away).
pub proof fn lemma_relative_url_pure(ast: Ast, id1: usize, id2: usize)
    requires
        spec_classify(ast.nodes@[id1 as int].kind) == spec_classify(ast.nodes@[id2 as int].kind),
        ast.spec_full_name(id1) == ast.spec_full_name(id2),
    ensures
        spec_rel_docs_url(ast, id1) == spec_rel_docs_url(ast, id2),
{
}

impl Ast {
    /// The relative docs URL of `id`, if it classifies.
    pub fn rel_docs_url(&self, id: usize) -> (r: Option<UrlPath>)
        requires
            self.wf(),
            id < self.nodes@.len(),
        ensures
            match spec_rel_docs_url(*self, id) {
                Some(u) => r matches Some(p) && p@ == u && p.wf(),
                None => r is None,
            },
    {
        let kind = match CppItemKind::from(self.nodes[id].kind) {
            Some(kind) => kind,
            None => { return None },
        };
        let name = self.full_name(id);
        let path = kind.docs_category().join(UrlPath::new_with_path(name));
        Some(path)
    }

    /// The absolute docs URL of `id`: standard-library entities point at the
    /// external reference site and never at a locally generated page; other
    /// entities point under the configured site base.
    pub fn abs_docs_url(&self, id: usize, config: &Config) -> (r: Option<UrlPath>)
        requires
            self.wf(),
            id < self.nodes@.len(),
        ensures
            match spec_abs_docs_url(*self, *config, id) {
                Some(u) => r matches Some(p) && p@ == u,
                None => r is None,
            },
            (spec_is_std(*self, id) && r is Some) ==> (r->Some_0@.len() > 0 && r->Some_0@[0]
                == "en.cppreference.com"@),
            (!spec_is_std(*self, id) && r is Some) ==> config.output_url@.is_prefix_of(
                r->Some_0@,
            ),
    {
        let name = self.full_name(id);
        let is_std = name.len() > 0 && crate::text::string_eq_str(&name[0], "std");
        proof {
            assert(name@.len() > 0 ==> name.deep_view()[0] == name@[0]@);
        }
        if is_std {
            let f = match &self.nodes[id].file {
                Some(f) => f,
                None => { return None },
            };
            let fname = match f.file_name() {
                Some(fname) => fname,
                None => { return None },
            };
            let nm = match &self.nodes[id].name {
                Some(nm) => String::clone(nm),
                None => { return None },
            };
            let tail = String::from_str("w/cpp/").concat(fname.as_str()).concat("/").concat(
                nm.as_str(),
            );
            proof {
                reveal_strlit("en.cppreference.com");
                reveal_strlit("/");
                assert("/"@ =~= seq!['/']);
                assert(tail@ =~= "w/cpp/"@ + f@.last() + seq!['/'] + nm@);
            }
            let parsed = UrlPath::parse(tail.as_str());
            let r = UrlPath::part("en.cppreference.com").join(parsed);
            proof {
                assert(r@ =~= seq!["en.cppreference.com"@] + spec_split(
                    "w/cpp/"@ + f@.last() + seq!['/'] + nm@,
                ));
                assert(r@[0] == "en.cppreference.com"@);
            }
            Some(r)
        } else {
            let rel = match self.rel_docs_url(id) {
                Some(rel) => rel,
                None => { return None },
            };
            let r = rel.to_absolute(config);
            proof {
                assert(config.output_url@.is_prefix_of(r@)) by {
                    assert(r@.subrange(0, config.output_url@.len() as int) =~= config.output_url@);
                }
            }
            Some(r)
        }
    }

    /// The source-browse URL of `id`; standard-library entities are out of
    /// scope here (the docs redirect them instead of linking their headers).
    pub fn github_url(&self, id: usize, config: &Config) -> (r: Option<String>)
        requires
            self.wf(),
            id < self.nodes@.len(),
            !spec_is_std(*self, id),
        ensures
            match spec_github_url(*self, *config, id) {
                Some(u) => r matches Some(s) && s@ == u,
                None => r is None,
            },
    {
        match self.get_allowed_external_lib(id, config) {
            Some(i) => Some(String::clone(&config.external_libs[i].repository)),
            None => {
                let tree = match &config.project_tree {
                    Some(tree) => String::clone(tree),
                    None => { return None },
                };
                let h = match self.header(id, config) {
                    Some(h) => h,
                    None => { return None },
                };
                Some(tree.concat(h.to_string().as_str()))
            },
        }
    }

    /// The `#include` path text to render for `id`.
    pub fn include_path(&self, id: usize, config: &Config) -> (r: Option<UrlPath>)
        requires
            self.wf(),
            id < self.nodes@.len(),
        ensures
            match spec_include_path(*self, *config, id) {
                Some(u) => r matches Some(p) && p@ == u,
                None => r is None,
            },
    {
        let h = match self.header(id, config) {
            Some(h) => h,
            None => { return None },
        };
        if self.nodes[id].in_system_header {
            let fname = match h.file_name() {
                Some(fname) => fname,
                None => { return None },
            };
            proof {
                assert(fname@.len() > 0) by {
                    match self.nodes@[id as int].file {
                        Some(f) => {
                            assert(f.wf());
                            if config.input_dir@.is_prefix_of(f@) {
                                assert(h@.last() == f@[f@.len() - 1]);
                            }
                        },
                        None => {
                            assert(false);
                        },
                    }
                }
            }
            let r = UrlPath::part(fname.as_str());
            proof {
                assert(r@ =~= seq![h@.last()]);
            }
            Some(r)
        } else {
            let si = match self.config_source(id, config) {
                Some(si) => si,
                None => { return None },
            };
            Some(h.strip_prefix(&config.sources[si].dir))
        }
    }
}

impl crate::namespace::CppItem {
    /// This entry's documentation URL: empty for the root namespace, else
    /// the entity's relative docs URL; entries always classify, so the URL
    /// is always available.
    pub fn url(&self, ast: &Ast) -> (r: UrlPath)
        requires
            ast.wf(),
            crate::namespace::item_bounded(*self, ast.nodes@.len()),
            spec_classify(ast.nodes@[self.spec_entity() as int].kind) is Some,
        ensures
            (*self matches crate::namespace::CppItem::Namespace(ns) && ns.is_root) ==> r@.len()
                == 0,
            !(*self matches crate::namespace::CppItem::Namespace(ns) && ns.is_root) ==> Some(
                r@,
            ) == spec_rel_docs_url(*ast, self.spec_entity()),
    {
        match self {
            crate::namespace::CppItem::Namespace(ns) => ns.url(ast),
            _ => {
                match ast.rel_docs_url(self.entity()) {
                    Some(u) => u,
                    None => {
                        proof {
                            assert(false);
                        }
                        UrlPath::new()
                    },
                }
            },
        }
    }
}

impl crate::namespace::Namespace {
    /// This namespace's documentation URL: the empty path for the root,
    /// else its relative docs URL.
    pub fn url(&self, ast: &Ast) -> (r: UrlPath)
        requires
            ast.wf(),
            self.entity < ast.nodes@.len(),
            spec_classify(ast.nodes@[self.entity as int].kind) is Some,
        ensures
            self.is_root ==> r@.len() == 0,
            !self.is_root ==> Some(r@) == spec_rel_docs_url(*ast, self.entity),
    {
        if self.is_root {
            UrlPath::new()
        } else {
            match ast.rel_docs_url(self.entity) {
                Some(u) => u,
                None => {
                    proof {
                        assert(false);
                    }
                    UrlPath::new()
                },
            }
        }
    }
}

} // verus!
