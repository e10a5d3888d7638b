//! The parsed C++ symbol tree, as plain data.
//!
//! The semantic parser is an external collaborator: the core consumes only a
//! capability set per declaration (kind tag, optional simple name, ordered
//! children, semantic parent, defining file, accessibility, unique symbol id,
//! raw comment text, base specifiers and method flags). An [`Ast`] is an
//! arena of such nodes; child links point forward and parent links point
//! backward, which is what makes every walk terminate.

use vstd::prelude::*;
use vstd::string::*;
use crate::config::Config;
use crate::text::has_suffix;
use crate::text::str_ends_with;
use crate::text::join_strings;
use crate::url::UrlPath;

verus! {

/// The kind tag of a parsed declaration.
#[derive(Clone, Copy, PartialEq, Eq, Structural, Debug)]
pub enum EntityKind {
    Namespace,
    StructDecl,
    ClassDecl,
    ClassTemplate,
    ClassTemplatePartialSpecialization,
    FunctionDecl,
    FunctionTemplate,
    Method,
    ParmDecl,
    FieldDecl,
    BaseSpecifier,
    TemplateTypeParameter,
    TypedefDecl,
    TypeAliasDecl,
    UsingDeclaration,
    EnumDecl,
    TranslationUnit,
    UnexposedDecl,
    UnexposedAttr,
    UnexposedExpr,
    UnexposedStmt,
    Other,
}

/// The accessibility of a member or base.
#[derive(Clone, Copy, PartialEq, Eq, Structural, Debug)]
pub enum Accessibility {
    Public,
    Protected,
    Private,
}

/// One parsed declaration, identified by its index in the arena.
pub struct AstNode {
    pub kind: EntityKind,
    /// The simple name; `None` for anonymous entities.
    pub name: Option<String>,
    /// Indices of the lexical children, in order; each is larger than this
    /// node's own index.
    pub children: Vec<usize>,
    /// Index of the semantic parent, smaller than this node's own index.
    pub parent: Option<usize>,
    /// The defining header of this declaration, if it could be located.
    pub file: Option<UrlPath>,
    pub in_system_header: bool,
    pub is_definition: bool,
    /// The unique symbol id: stable identity independent of the textual name.
    pub usr: u64,
    pub comment: Option<String>,
    pub accessibility: Option<Accessibility>,
    pub is_static_method: bool,
    pub is_virtual_method: bool,
    pub is_const_method: bool,
    pub is_pure_virtual: bool,
    pub is_virtual_base: bool,
    /// For a node whose type refers to a declaration (a base specifier, a
    /// parameter): the index of that declaration.
    pub type_decl: Option<usize>,
    /// The raw source text of the node's range, as the parser extracted it.
    pub source_text: Option<String>,
    /// The display name of this node's type, for parameters and fields.
    pub display_type: Option<String>,
}

/// Which accessibilities a member listing includes.
#[derive(Clone, Copy, PartialEq, Eq, Structural, Debug)]
pub enum Access {
    All,
    Public,
    Protected,
}

/// Whether a member listing includes static methods, instance methods, or
/// both.
#[derive(Clone, Copy, PartialEq, Eq, Structural, Debug)]
pub enum Include {
    All,
    Members,
    Statics,
}

/// A parent whose kind ends the semantic-ancestor walk.
pub open spec fn stop_kind(k: EntityKind) -> bool {
    ||| k is TranslationUnit
    ||| k is UnexposedDecl
    ||| k is UnexposedAttr
    ||| k is UnexposedExpr
    ||| k is UnexposedStmt
}

/// The whole parsed symbol arena.
pub struct Ast {
    pub nodes: Vec<AstNode>,
}

impl Ast {
    /// Links point into the arena, parents backward and children forward;
    /// present names are non-empty; defining paths have no empty segment.
    pub open spec fn wf(&self) -> bool {
        forall|i: int|
            0 <= i < self.nodes@.len() ==> {
                let n = #[trigger] self.nodes@[i];
                &&& (n.parent matches Some(p) ==> p < i)
                &&& (forall|j: int|
                    0 <= j < n.children@.len() ==> i < #[trigger] n.children@[j]
                        && n.children@[j] < self.nodes@.len())
                &&& (n.name matches Some(s) ==> s@.len() > 0)
                &&& (n.file matches Some(f) ==> f.wf())
                &&& (n.type_decl matches Some(t) ==> t < self.nodes@.len())
            }
    }

    /// The ancestor walk stops below node `p`: `p` is a translation unit or
    /// an unexposed wrapper, or carries a source-file name (a fail-safe for
    /// parsers that tag the translation unit with its file name).
    pub open spec fn boundary(&self, p: usize) -> bool {
        ||| stop_kind(self.nodes@[p as int].kind)
        ||| (self.nodes@[p as int].name matches Some(s) && has_suffix(s@, ".cpp"@))
    }

    /// Drops the longest leading run of unnamed nodes.
    pub open spec fn spec_skip_unnamed(&self, s: Seq<usize>) -> Seq<usize>
        decreases s.len(),
    {
        if s.len() > 0 && s[0] < self.nodes@.len() && self.nodes@[s[0] as int].name is None {
            self.spec_skip_unnamed(s.drop_first())
        } else {
            s
        }
    }

    /// The semantic ancestors of `id` from outermost to innermost, `id`
    /// itself last: the parent chain cut at the first boundary, with leading
    /// anonymous ancestors dropped at each level.
    pub open spec fn spec_anc(&self, id: usize) -> Seq<usize>
        decreases id,
    {
        match self.nodes@[id as int].parent {
            Some(p) => {
                if p < id && !self.boundary(p) {
                    self.spec_skip_unnamed(self.spec_anc(p)).push(id)
                } else {
                    seq![id]
                }
            },
            None => seq![id],
        }
    }

    /// The name of `id` as a character sequence, if the node has one.
    pub open spec fn spec_name_view(&self, id: usize) -> Option<Seq<char>> {
        match self.nodes@[id as int].name {
            Some(s) => Some(s@),
            None => None,
        }
    }

    /// The name of `id`, with a placeholder for anonymous entities.
    pub open spec fn spec_name_or_anon(&self, id: usize) -> Seq<char> {
        match self.nodes@[id as int].name {
            Some(s) => s@,
            None => "_anon"@,
        }
    }

    /// The fully qualified name of `id` as root-to-leaf segments.
    pub open spec fn spec_full_name(&self, id: usize) -> Seq<Seq<char>> {
        self.spec_anc(id).map_values(|e: usize| self.spec_name_or_anon(e))
    }

    /// Whether `p` is a boundary of the ancestor walk.
    fn boundary_x(&self, p: usize) -> (r: bool)
        requires
            p < self.nodes@.len(),
        ensures
            r == self.boundary(p),
    {
        let k = self.nodes[p].kind;
        let stops = match k {
            EntityKind::TranslationUnit => true,
            EntityKind::UnexposedDecl => true,
            EntityKind::UnexposedAttr => true,
            EntityKind::UnexposedExpr => true,
            EntityKind::UnexposedStmt => true,
            _ => false,
        };
        if stops {
            return true;
        }
        match &self.nodes[p].name {
            Some(s) => str_ends_with(s.as_str(), ".cpp"),
            None => false,
        }
    }

    /// The parents of `id`, as [`Self::spec_anc`] describes them.
    pub fn ancestorage(&self, id: usize) -> (r: Vec<usize>)
        requires
            self.wf(),
            id < self.nodes@.len(),
        ensures
            r@ == self.spec_anc(id),
            forall|j: int| 0 <= j < r@.len() ==> #[trigger] r@[j] < self.nodes@.len(),
        decreases id,
    {
        let mut pre: Vec<usize>;
        match self.nodes[id].parent {
            Some(p) => {
                proof {
                    assert(p < id);
                }
                if !self.boundary_x(p) {
                    let a = self.ancestorage(p);
                    let n = a.len();
                    let mut k: usize = 0;
                    proof {
                        assert(a@.skip(0) =~= a@);
                    }
                    while k < n && self.nodes[a[k]].name.is_none()
                        invariant
                            n == a@.len(),
                            k <= n,
                            forall|j: int| 0 <= j < a@.len() ==> #[trigger] a@[j]
                                < self.nodes@.len(),
                            self.spec_skip_unnamed(a@) == self.spec_skip_unnamed(
                                a@.skip(k as int),
                            ),
                        decreases n - k,
                    {
                        k += 1;
                        proof {
                            assert(a@.skip(k - 1).drop_first() =~= a@.skip(k as int));
                            assert(a@.skip(k - 1)[0] == a@[k - 1]);
                        }
                    }
                    proof {
                        if k < n {
                            assert(a@.skip(k as int)[0] == a@[k as int]);
                        }
                        assert(self.spec_skip_unnamed(a@.skip(k as int)) == a@.skip(k as int));
                    }
                    let mut out: Vec<usize> = Vec::new();
                    let mut t: usize = k;
                    while t < n
                        invariant
                            n == a@.len(),
                            k <= t <= n,
                            out@ =~= a@.subrange(k as int, t as int),
                        decreases n - t,
                    {
                        out.push(a[t]);
                        t += 1;
                        proof {
                            assert(out@ =~= a@.subrange(k as int, t as int));
                        }
                    }
                    proof {
                        assert(a@.subrange(k as int, n as int) =~= a@.skip(k as int));
                    }
                    pre = out;
                } else {
                    pre = Vec::new();
                }
            },
            None => {
                pre = Vec::new();
            },
        }
        pre.push(id);
        proof {
            assert(pre@ =~= self.spec_anc(id));
        }
        pre
    }

    /// The fully qualified name of `id`, outermost segment first; anonymous
    /// ancestors inside the chain render as a placeholder.
    pub fn full_name(&self, id: usize) -> (r: Vec<String>)
        requires
            self.wf(),
            id < self.nodes@.len(),
        ensures
            r.deep_view() == self.spec_full_name(id),
            forall|j: int| 0 <= j < r@.len() ==> (#[trigger] r@[j])@.len() > 0,
    {
        let anc = self.ancestorage(id);
        let n = anc.len();
        let mut out: Vec<String> = Vec::new();
        let mut i: usize = 0;
        while i < n
            invariant
                self.wf(),
                n == anc@.len(),
                anc@ == self.spec_anc(id),
                forall|j: int| 0 <= j < anc@.len() ==> #[trigger] anc@[j] < self.nodes@.len(),
                i <= n,
                out@.len() == i,
                forall|j: int|
                    0 <= j < i ==> (#[trigger] out@[j])@ == self.spec_name_or_anon(anc@[j]),
                forall|j: int| 0 <= j < i ==> (#[trigger] out@[j])@.len() > 0,
            decreases n - i,
        {
            let e = anc[i];
            let s = match &self.nodes[e].name {
                Some(s) => String::clone(s),
                None => String::from_str("_anon"),
            };
            proof {
                reveal_strlit("_anon");
                assert(s@ == self.spec_name_or_anon(e));
                assert(s@.len() > 0);
            }
            out.push(s);
            i += 1;
        }
        proof {
            let fv = self.spec_full_name(id);
            assert(fv.len() == anc@.len());
            assert forall|j: int| 0 <= j < out.deep_view().len() implies out.deep_view()[j]
                == fv[j] by {
                assert(out.deep_view()[j] == out@[j]@);
                assert(fv[j] == self.spec_name_or_anon(anc@[j]));
            }
            assert(out.deep_view() =~= fv);
        }
        out
    }

    /// The fully qualified name of `id` joined with `::`.
    pub fn full_name_string(&self, id: usize) -> (r: String)
        requires
            self.wf(),
            id < self.nodes@.len(),
        ensures
            r@ == crate::text::spec_join_sep(self.spec_full_name(id), "::"@),
    {
        let parts = self.full_name(id);
        join_strings(&parts, "::")
    }

    /// The header this entity is defined in, if the parser located one.
    pub fn definition_file(&self, id: usize) -> (r: Option<UrlPath>)
        requires
            id < self.nodes@.len(),
        ensures
            match self.nodes@[id as int].file {
                Some(f) => r matches Some(p) && p@ == f@,
                None => r is None,
            },
    {
        match &self.nodes[id].file {
            Some(f) => Some(f.duplicate()),
            None => None,
        }
    }

    /// The defining header relative to the configured input root; the full
    /// path when it does not sit under that root.
    pub open spec fn spec_header(&self, config: Config, id: usize) -> Option<Seq<Seq<char>>> {
        match self.nodes@[id as int].file {
            Some(f) => Some(
                if config.input_dir@.is_prefix_of(f@) {
                    f@.skip(config.input_dir@.len() as int)
                } else {
                    f@
                },
            ),
            None => None,
        }
    }

    /// The defining header relative to the input root, if any.
    pub fn header(&self, id: usize, config: &Config) -> (r: Option<UrlPath>)
        requires
            id < self.nodes@.len(),
        ensures
            match self.spec_header(*config, id) {
                Some(h) => r matches Some(p) && p@ == h,
                None => r is None,
            },
    {
        match self.definition_file(id) {
            Some(f) => Some(f.strip_prefix(&config.input_dir)),
            None => None,
        }
    }

    /// The first configured external library from index `i` on whose pattern
    /// occurs in the rendered path.
    pub open spec fn spec_first_lib_from(config: Config, path: Seq<char>, i: int) -> Option<
        int,
    >
        decreases config.external_libs@.len() - i,
    {
        if i < 0 || i >= config.external_libs@.len() {
            None
        } else if crate::text::contains_seq(path, config.external_libs@[i].pattern@) {
            Some(i)
        } else {
            Self::spec_first_lib_from(config, path, i + 1)
        }
    }

    /// The external library `id` belongs to: the first configured library
    /// whose pattern is contained in the defining file's rendered path, for
    /// an entity defined in a system header; `None` otherwise.
    pub open spec fn spec_allowed_external_lib(&self, config: Config, id: usize) -> Option<int> {
        if !self.nodes@[id as int].in_system_header {
            None
        } else {
            match self.nodes@[id as int].file {
                Some(f) => Self::spec_first_lib_from(config, crate::url::spec_join(f@), 0),
                None => None,
            }
        }
    }

    /// The index into `config.external_libs` of the library owning `id`.
    pub fn get_allowed_external_lib(&self, id: usize, config: &Config) -> (r: Option<usize>)
        requires
            id < self.nodes@.len(),
        ensures
            match r {
                Some(i) => self.spec_allowed_external_lib(*config, id) == Some(i as int) && i
                    < config.external_libs@.len(),
                None => self.spec_allowed_external_lib(*config, id) is None,
            },
    {
        if !self.nodes[id].in_system_header {
            return None;
        }
        let f = match &self.nodes[id].file {
            Some(f) => f,
            None => { return None },
        };
        let path = f.to_string();
        let path_chars = crate::text::str_to_chars(path.as_str());
        let n = config.external_libs.len();
        let mut i: usize = 0;
        while i < n
            invariant
                n == config.external_libs@.len(),
                i <= n,
                path_chars@ == crate::url::spec_join(f@),
                self.nodes@[id as int].in_system_header,
                self.nodes@[id as int].file == Some(*f),
                Self::spec_first_lib_from(*config, path_chars@, 0)
                    == Self::spec_first_lib_from(*config, path_chars@, i as int),
            decreases n - i,
        {
            let pat = crate::text::str_to_chars(config.external_libs[i].pattern.as_str());
            proof {
                assert(pat@ == config.external_libs@[i as int].pattern@);
            }
            if crate::text::contains_chars(&path_chars, &pat) {
                return Some(i);
            }
            i += 1;
        }
        None
    }

    /// The first configured source from index `i` on whose directory leads
    /// the header path.
    pub open spec fn spec_first_source_from(config: Config, h: Seq<Seq<char>>, i: int) -> Option<
        int,
    >
        decreases config.sources@.len() - i,
    {
        if i < 0 || i >= config.sources@.len() {
            None
        } else if config.sources@[i].dir@.is_prefix_of(h) {
            Some(i)
        } else {
            Self::spec_first_source_from(config, h, i + 1)
        }
    }

    /// The configured source tree holding `id`'s header: the first one whose
    /// directory is a prefix of the header path.
    pub open spec fn spec_config_source(&self, config: Config, id: usize) -> Option<int> {
        match self.spec_header(config, id) {
            Some(h) => Self::spec_first_source_from(config, h, 0),
            None => None,
        }
    }

    /// The index into `config.sources` of the source tree holding `id`.
    pub fn config_source(&self, id: usize, config: &Config) -> (r: Option<usize>)
        requires
            id < self.nodes@.len(),
        ensures
            match r {
                Some(i) => self.spec_config_source(*config, id) == Some(i as int) && i
                    < config.sources@.len(),
                None => self.spec_config_source(*config, id) is None,
            },
    {
        let h = match self.header(id, config) {
            Some(h) => h,
            None => { return None },
        };
        let n = config.sources.len();
        let mut i: usize = 0;
        while i < n
            invariant
                n == config.sources@.len(),
                i <= n,
                Some(h@) == self.spec_header(*config, id),
                Self::spec_first_source_from(*config, h@, 0) == Self::spec_first_source_from(
                    *config,
                    h@,
                    i as int,
                ),
            decreases n - i,
        {
            if h.starts_with(&config.sources[i].dir) {
                return Some(i);
            }
            i += 1;
        }
        None
    }

    /// Whether child `c` belongs in a member-function listing under the
    /// given visibility and static filters: a method or function template,
    /// matching the static filter, and public or protected as asked —
    /// private and unexposed members never appear.
    pub open spec fn member_pred(&self, visibility: Access, statics: Include, c: usize) -> bool {
        let node = self.nodes@[c as int];
        &&& (node.kind is Method || node.kind is FunctionTemplate)
        &&& match statics {
            Include::Members => !node.is_static_method,
            Include::Statics => node.is_static_method,
            Include::All => true,
        }
        &&& match node.accessibility {
            Some(Accessibility::Protected) => visibility is All || visibility is Protected,
            Some(Accessibility::Public) => visibility is All || visibility is Public,
            _ => false,
        }
    }

    /// The member functions of classlike `id`, filtered by visibility and by
    /// the static/instance distinction, in declaration order.
    pub fn get_member_functions(&self, id: usize, visibility: Access, statics: Include) -> (r:
        Vec<usize>)
        requires
            self.wf(),
            id < self.nodes@.len(),
        ensures
            r@ == self.nodes@[id as int].children@.filter(
                |c: usize| self.member_pred(visibility, statics, c),
            ),
            forall|j: int| 0 <= j < r@.len() ==> #[trigger] r@[j] < self.nodes@.len(),
    {
        let ghost pred = |c: usize| self.member_pred(visibility, statics, c);
        let n = self.nodes[id].children.len();
        let mut out: Vec<usize> = Vec::new();
        let mut i: usize = 0;
        proof {
            reveal(Seq::filter);
            assert(self.nodes@[id as int].children@.take(0) =~= Seq::<usize>::empty());
            assert(out@ =~= self.nodes@[id as int].children@.take(0).filter(pred));
        }
        while i < n
            invariant
                self.wf(),
                id < self.nodes@.len(),
                n == self.nodes@[id as int].children@.len(),
                i <= n,
                pred == (|c: usize| self.member_pred(visibility, statics, c)),
                out@ == self.nodes@[id as int].children@.take(i as int).filter(pred),
                forall|j: int| 0 <= j < out@.len() ==> #[trigger] out@[j] < self.nodes@.len(),
            decreases n - i,
        {
            let c = self.nodes[id].children[i];
            let node = &self.nodes[c];
            let kind_ok = match node.kind {
                EntityKind::Method => true,
                EntityKind::FunctionTemplate => true,
                _ => false,
            };
            let statics_ok = match statics {
                Include::Members => !node.is_static_method,
                Include::Statics => node.is_static_method,
                Include::All => true,
            };
            let access_ok = match node.accessibility {
                Some(Accessibility::Protected) => match visibility {
                    Access::All => true,
                    Access::Protected => true,
                    Access::Public => false,
                },
                Some(Accessibility::Public) => match visibility {
                    Access::All => true,
                    Access::Public => true,
                    Access::Protected => false,
                },
                _ => false,
            };
            if kind_ok && statics_ok && access_ok {
                out.push(c);
            }
            i += 1;
            proof {
                reveal(Seq::filter);
                let cs = self.nodes@[id as int].children@;
                let tk = cs.take(i as int);
                assert(tk.drop_last() =~= cs.take(i - 1));
                assert(tk.last() == cs[i - 1]);
                if pred(cs[i - 1]) {
                    assert(out@ =~= tk.drop_last().filter(pred).push(tk.last()));
                } else {
                    assert(out@ =~= tk.drop_last().filter(pred));
                }
            }
        }
        proof {
            assert(self.nodes@[id as int].children@.take(n as int) =~= self.nodes@[id as int].children@);
        }
        out
    }

    /// The declared parameters of a function entity, in order; `None` for
    /// anything that is not a function, function template or method.
    pub fn get_function_arguments(&self, id: usize) -> (r: Option<Vec<usize>>)
        requires
            self.wf(),
            id < self.nodes@.len(),
        ensures
            (self.nodes@[id as int].kind is FunctionTemplate || self.nodes@[id as int].kind
                is FunctionDecl || self.nodes@[id as int].kind is Method) ==> (r matches Some(
                args,
            ) && args@ == self.nodes@[id as int].children@.filter(
                |c: usize| self.nodes@[c as int].kind is ParmDecl,
            )),
            !(self.nodes@[id as int].kind is FunctionTemplate || self.nodes@[id as int].kind
                is FunctionDecl || self.nodes@[id as int].kind is Method) ==> r is None,
    {
        let is_fun = match self.nodes[id].kind {
            EntityKind::FunctionTemplate => true,
            EntityKind::FunctionDecl => true,
            EntityKind::Method => true,
            _ => false,
        };
        if !is_fun {
            return None;
        }
        let ghost pred = |c: usize| self.nodes@[c as int].kind is ParmDecl;
        let n = self.nodes[id].children.len();
        let mut out: Vec<usize> = Vec::new();
        let mut i: usize = 0;
        proof {
            reveal(Seq::filter);
            assert(self.nodes@[id as int].children@.take(0) =~= Seq::<usize>::empty());
            assert(out@ =~= self.nodes@[id as int].children@.take(0).filter(pred));
        }
        while i < n
            invariant
                self.wf(),
                id < self.nodes@.len(),
                n == self.nodes@[id as int].children@.len(),
                i <= n,
                pred == (|c: usize| self.nodes@[c as int].kind is ParmDecl),
                out@ == self.nodes@[id as int].children@.take(i as int).filter(pred),
            decreases n - i,
        {
            let c = self.nodes[id].children[i];
            let keep = match self.nodes[c].kind {
                EntityKind::ParmDecl => true,
                _ => false,
            };
            if keep {
                out.push(c);
            }
            i += 1;
            proof {
                reveal(Seq::filter);
                let cs = self.nodes@[id as int].children@;
                let tk = cs.take(i as int);
                assert(tk.drop_last() =~= cs.take(i - 1));
                assert(tk.last() == cs[i - 1]);
                if pred(cs[i - 1]) {
                    assert(out@ =~= tk.drop_last().filter(pred).push(tk.last()));
                } else {
                    assert(out@ =~= tk.drop_last().filter(pred));
                }
            }
        }
        proof {
            assert(self.nodes@[id as int].children@.take(n as int)
                =~= self.nodes@[id as int].children@);
        }
        Some(out)
    }

    /// The raw source text of `id`'s range, as the parser extracted it.
    pub fn extract_source_string(&self, id: usize) -> (r: Option<String>)
        requires
            id < self.nodes@.len(),
        ensures
            match self.nodes@[id as int].source_text {
                Some(s) => r matches Some(t) && t@ == s@,
                None => r is None,
            },
    {
        match &self.nodes[id].source_text {
            Some(s) => Some(String::clone(s)),
            None => None,
        }
    }

    /// The source text of `id`'s range on one line: trimmed, tabs turned
    /// into spaces, line breaks removed and runs of spaces collapsed.
    pub fn extract_source_string_cleaned(&self, id: usize) -> (r: Option<String>)
        requires
            id < self.nodes@.len(),
        ensures
            match self.nodes@[id as int].source_text {
                Some(s) => r matches Some(t) && t@ == crate::text::spec_cleaned_text(s@),
                None => r is None,
            },
    {
        match &self.nodes[id].source_text {
            Some(s) => Some(crate::text::cleaned_text(s.as_str())),
            None => None,
        }
    }
}

} // verus!
