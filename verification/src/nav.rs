//! The navigation tree shown to documentation readers: one node per tree
//! entity, namespaces as directories, everything else as links, with
//! namespaces ordered before other entries and each group ordered by name.

use vstd::prelude::*;
use vstd::string::*;
use crate::ast::Access;
use crate::ast::Ast;
use crate::ast::Include;
use crate::entries::entries_find;
use crate::entries::entries_insert;
use crate::entries::unique_keys;
use crate::namespace::spec_classify;
use crate::namespace::CppItem;
use crate::namespace::CppItemKind;
use crate::namespace::Namespace;
use crate::namespace::item_bounded;
use crate::namespace::ns_bounded;
use crate::url::UrlPath;

verus! {

/// One sub-entry of a navigation link: a member function's title.
#[derive(Clone)]
pub struct SubItem {
    pub title: String,
}

/// The names of the named member functions among `ms`, in order.
pub open spec fn named_titles(ast: Ast, ms: Seq<usize>) -> Seq<Seq<char>>
    decreases ms.len(),
{
    if ms.len() == 0 {
        Seq::empty()
    } else {
        let pre = named_titles(ast, ms.drop_last());
        match ast.nodes@[ms.last() as int].name {
            Some(s) => pre.push(s@),
            None => pre,
        }
    }
}

impl SubItem {
    /// The sub-entries of a classlike entity's link: the titles of all its
    /// member functions that carry a name; empty for anything unclassifiable
    /// or not classlike.
    pub fn for_classlike(ast: &Ast, entity: usize) -> (r: Vec<SubItem>)
        requires
            ast.wf(),
            entity < ast.nodes@.len(),
        ensures
            (spec_classify(ast.nodes@[entity as int].kind) == Some(CppItemKind::Class)
                || spec_classify(ast.nodes@[entity as int].kind) == Some(
                CppItemKind::Struct,
            )) ==> {
                let ms = ast.nodes@[entity as int].children@.filter(
                    |c: usize| ast.member_pred(Access::All, Include::All, c),
                );
                &&& r@.len() == named_titles(*ast, ms).len()
                &&& forall|j: int| 0 <= j < r@.len() ==> (#[trigger] r@[j]).title@
                    == named_titles(*ast, ms)[j]
            },
            !(spec_classify(ast.nodes@[entity as int].kind) == Some(CppItemKind::Class)
                || spec_classify(ast.nodes@[entity as int].kind) == Some(
                CppItemKind::Struct,
            )) ==> r@.len() == 0,
    {
        let classlike = match CppItemKind::from(ast.nodes[entity].kind) {
            Some(CppItemKind::Class) => true,
            Some(CppItemKind::Struct) => true,
            _ => false,
        };
        if !classlike {
            return Vec::new();
        }
        let ms = ast.get_member_functions(entity, Access::All, Include::All);
        let n = ms.len();
        let mut out: Vec<SubItem> = Vec::new();
        let mut i: usize = 0;
        proof {
            assert(ms@.take(0) =~= Seq::<usize>::empty());
        }
        while i < n
            invariant
                ast.wf(),
                n == ms@.len(),
                i <= n,
                forall|j: int| 0 <= j < ms@.len() ==> #[trigger] ms@[j] < ast.nodes@.len(),
                out@.len() == named_titles(*ast, ms@.take(i as int)).len(),
                forall|j: int| 0 <= j < out@.len() ==> (#[trigger] out@[j]).title@
                    == named_titles(*ast, ms@.take(i as int))[j],
            decreases n - i,
        {
            let c = ms[i];
            match &ast.nodes[c].name {
                Some(s) => {
                    out.push(SubItem { title: String::clone(s) });
                },
                None => {},
            }
            i += 1;
            proof {
                let t = ms@.take(i as int);
                assert(t.drop_last() =~= ms@.take(i - 1));
                assert(t.last() == ms@[i - 1]);
            }
        }
        proof {
            assert(ms@.take(n as int) =~= ms@);
        }
        out
    }
}

/// A navigation node: the unnamed root, a directory (a namespace), or a
/// link to one entity's page.
pub enum NavItem {
    Root(Option<String>, Vec<NavItem>),
    Dir(String, Vec<NavItem>, Option<(String, bool)>, bool),
    Link(String, UrlPath, Option<(String, bool)>, Vec<SubItem>),
}

impl NavItem {
    /// A link node with the given name, URL, icon and sub-entries.
    pub fn new_link(name: &str, url: UrlPath, icon: Option<(&str, bool)>, suboptions: Vec<
        SubItem,
    >) -> (r: NavItem)
        ensures
            r is Link,
            r->Link_0@ == name@,
            r->Link_1 == url,
            match icon {
                Some(p) => r->Link_2 matches Some(q) && q.0@ == p.0@ && q.1 == p.1,
                None => r->Link_2 is None,
            },
            r->Link_3 == suboptions,
    {
        let ic = match icon {
            Some(p) => Some((String::from_str(p.0), p.1)),
            None => None,
        };
        NavItem::Link(String::from_str(name), url, ic, suboptions)
    }

    /// A closed directory node.
    pub fn new_dir(name: &str, items: Vec<NavItem>, icon: Option<(&str, bool)>) -> (r: NavItem)
        ensures
            r is Dir,
            r->Dir_0@ == name@,
            r->Dir_1 == items,
            match icon {
                Some(p) => r->Dir_2 matches Some(q) && q.0@ == p.0@ && q.1 == p.1,
                None => r->Dir_2 is None,
            },
            r->Dir_3 == false,
    {
        let ic = match icon {
            Some(p) => Some((String::from_str(p.0), p.1)),
            None => None,
        };
        NavItem::Dir(String::from_str(name), items, ic, false)
    }

    /// A directory node whose open state is given.
    pub fn new_dir_open(name: &str, items: Vec<NavItem>, icon: Option<(&str, bool)>, open_: bool) -> (r:
        NavItem)
        ensures
            r is Dir,
            r->Dir_0@ == name@,
            r->Dir_1 == items,
            match icon {
                Some(p) => r->Dir_2 matches Some(q) && q.0@ == p.0@ && q.1 == p.1,
                None => r->Dir_2 is None,
            },
            r->Dir_3 == open_,
    {
        let ic = match icon {
            Some(p) => Some((String::from_str(p.0), p.1)),
            None => None,
        };
        NavItem::Dir(String::from_str(name), items, ic, open_)
    }

    /// The root node.
    pub fn new_root(name: Option<&str>, items: Vec<NavItem>) -> (r: NavItem)
        ensures
            r is Root,
            match name {
                Some(s) => r->Root_0 matches Some(t) && t@ == s@,
                None => r->Root_0 is None,
            },
            r->Root_1 == items,
    {
        let nm = match name {
            Some(s) => Some(String::from_str(s)),
            None => None,
        };
        NavItem::Root(nm, items)
    }

    /// The qualified sub-entry titles under this node, each mapped to one
    /// less than the number of times it occurs under one link (so a count of
    /// zero means the title is unique there); a title seen under several
    /// nodes keeps the last node's count. Keys are qualified with each
    /// enclosing directory's name.
    pub fn suboptions_titles(&self) -> (r: Vec<(String, usize)>)
        ensures
            unique_keys(r@),
        decreases *self,
    {
        let mut out: Vec<(String, usize)> = Vec::new();
        match self {
            NavItem::Link(name, _, _, subs) => {
                let n = subs.len();
                let mut i: usize = 0;
                while i < n
                    invariant
                        *self is Link,
                        self->Link_3 == *subs,
                        n == subs@.len(),
                        i <= n,
                        unique_keys(out@),
                    decreases n - i,
                {
                    let q = String::clone(name).concat("::").concat(subs[i].title.as_str());
                    match entries_find(&out, q.as_str()) {
                        Some(t) => {
                            let v = out[t].1;
                            let bumped: usize = if v < usize::MAX {
                                v + 1
                            } else {
                                v
                            };
                            entries_insert(&mut out, q, bumped);
                        },
                        None => {
                            entries_insert(&mut out, q, 0);
                        },
                    }
                    i += 1;
                }
            },
            NavItem::Dir(name, items, _, _) => {
                let n = items.len();
                let mut i: usize = 0;
                while i < n
                    invariant
                        *self is Dir,
                        self->Dir_1 == *items,
                        n == items@.len(),
                        i <= n,
                        unique_keys(out@),
                    decreases n - i,
                {
                    proof {
                        assert(decreases_to!(*self => self->Dir_1));
                        assert(decreases_to!(*items => items@[i as int]));
                    }
                    let sub = items[i].suboptions_titles();
                    let m = sub.len();
                    let mut t: usize = 0;
                    while t < m
                        invariant
                            m == sub@.len(),
                            t <= m,
                            unique_keys(out@),
                        decreases m - t,
                    {
                        let q = String::clone(name).concat("::").concat(sub[t].0.as_str());
                        let v = sub[t].1;
                        entries_insert(&mut out, q, v);
                        t += 1;
                    }
                    i += 1;
                }
            },
            NavItem::Root(_, items) => {
                let n = items.len();
                let mut i: usize = 0;
                while i < n
                    invariant
                        *self is Root,
                        self->Root_1 == *items,
                        n == items@.len(),
                        i <= n,
                        unique_keys(out@),
                    decreases n - i,
                {
                    proof {
                        assert(decreases_to!(*self => self->Root_1));
                        assert(decreases_to!(*items => items@[i as int]));
                    }
                    let sub = items[i].suboptions_titles();
                    let m = sub.len();
                    let mut t: usize = 0;
                    while t < m
                        invariant
                            m == sub@.len(),
                            t <= m,
                            unique_keys(out@),
                        decreases m - t,
                    {
                        let q = String::clone(&sub[t].0);
                        let v = sub[t].1;
                        entries_insert(&mut out, q, v);
                        t += 1;
                    }
                    i += 1;
                }
            },
        }
        out
    }
}

impl CppItem {
    /// This entry's navigation node: a directory (or the root) for a
    /// namespace, a link for anything else.
    pub fn nav(&self, ast: &Ast, config: &crate::config::Config) -> (r: NavItem)
        requires
            ast.wf(),
            item_bounded(*self, ast.nodes@.len()),
        ensures
            *self is Namespace && self->Namespace_0.is_root ==> r is Root,
            *self is Namespace && !self->Namespace_0.is_root ==> (r is Dir && r->Dir_0@
                == self.spec_name(*ast)),
            !(*self is Namespace) ==> (r is Link && r->Link_0@ == self.spec_name(*ast)),
        decreases *self,
    {
        match self {
            CppItem::Namespace(ns) => {
                proof {
                    assert(decreases_to!(*self => *ns));
                }
                ns.nav(ast, config)
            },
            _ => {
                let name = self.name(ast);
                let url = match ast.rel_docs_url(self.entity()) {
                    Some(u) => u,
                    None => UrlPath::new(),
                };
                let subs = SubItem::for_classlike(ast, self.entity());
                NavItem::new_link(name.as_str(), url, None, subs)
            },
        }
    }
}

impl Namespace {
    /// This namespace's navigation node: the root node when it is the root,
    /// else a directory named after it; entries appear with namespaces
    /// first and each group ordered by name.
    pub fn nav(&self, ast: &Ast, config: &crate::config::Config) -> (r: NavItem)
        requires
            ast.wf(),
            ns_bounded(*self, ast.nodes@.len()),
        ensures
            self.is_root ==> (r is Root && r->Root_1@.len() == self.entries@.len()),
            !self.is_root ==> (r is Dir && r->Dir_0@ == CppItem::Namespace(*self).spec_name(
                *ast,
            ) && r->Dir_1@.len() == self.entries@.len()),
        decreases *self,
    {
        let n = self.entries.len();
        let mut order: Vec<usize> = Vec::new();
        let mut i: usize = 0;
        while i < n
            invariant
                ast.wf(),
                ns_bounded(*self, ast.nodes@.len()),
                n == self.entries@.len(),
                i <= n,
                order@.len() == i,
                forall|j: int| 0 <= j < order@.len() ==> #[trigger] order@[j]
                    < self.entries@.len(),
            decreases n - i,
        {
            let is_ns_i = match &self.entries[i].1 {
                CppItem::Namespace(_) => true,
                _ => false,
            };
            let mut pos: usize = 0;
            let olen = order.len();
            while pos < olen
                invariant
                    n == self.entries@.len(),
                    i < n,
                    olen == order@.len(),
                    pos <= olen,
                    forall|j: int| 0 <= j < order@.len() ==> #[trigger] order@[j]
                        < self.entries@.len(),
                decreases olen - pos,
            {
                let o = order[pos];
                let is_ns_o = match &self.entries[o].1 {
                    CppItem::Namespace(_) => true,
                    _ => false,
                };
                let before = if is_ns_o != is_ns_i {
                    // namespaces sort before everything else
                    is_ns_o
                } else {
                    crate::text::str_lex_le(
                        self.entries[o].0.as_str(),
                        self.entries[i].0.as_str(),
                    )
                };
                if !before {
                    break;
                }
                pos += 1;
            }
            order.insert(pos, i);
            i += 1;
        }
        let m = order.len();
        let mut items: Vec<NavItem> = Vec::new();
        let mut t: usize = 0;
        while t < m
            invariant
                ast.wf(),
                ns_bounded(*self, ast.nodes@.len()),
                m == order@.len(),
                m == self.entries@.len(),
                t <= m,
                items@.len() == t,
                forall|j: int| 0 <= j < order@.len() ==> #[trigger] order@[j]
                    < self.entries@.len(),
            decreases m - t,
        {
            let idx = order[t];
            proof {
                assert(decreases_to!(*self => self.entries));
                assert(decreases_to!(self.entries => self.entries@[idx as int].1));
                assert(item_bounded(self.entries@[idx as int].1, ast.nodes@.len()));
            }
            let node = self.entries[idx].1.nav(ast, config);
            items.push(node);
            t += 1;
        }
        if self.is_root {
            NavItem::new_root(None, items)
        } else {
            let name = match &ast.nodes[self.entity].name {
                Some(s) => String::clone(s),
                None => String::from_str("<Anonymous namespace>"),
            };
            NavItem::new_dir(name.as_str(), items, None)
        }
    }
}

/// The anchor id used for a member function's entry on its page: the plain
/// name, when the entity has one.
pub fn member_fun_link(ast: &Ast, entity: usize) -> (r: Option<String>)
    requires
        entity < ast.nodes@.len(),
    ensures
        match ast.spec_name_view(entity) {
            Some(s) => r matches Some(t) && t@ == s,
            None => r is None,
        },
{
    match &ast.nodes[entity].name {
        Some(s) => Some(String::clone(s)),
        None => None,
    }
}

} // verus!
