//! The documentation model: a tree of classified entities.
//!
//! A [`Namespace`] owns name-keyed entries; each entry is a [`CppItem`]:
//! a nested namespace, a class, a struct or a function. Namespaces declared
//! in several translation units merge into one logical node; an empty
//! namespace is cleaned away after the build.

use vstd::prelude::*;
use vstd::string::*;
use crate::ast::Ast;
use crate::config::Config;
use crate::ast::EntityKind;
use crate::entries::entries_map;
use crate::entries::unique_keys;
use crate::url::UrlPath;

verus! {

/// The category an entity classifies into.
#[derive(Clone, Copy, PartialEq, Eq, Structural, Debug)]
pub enum CppItemKind {
    Namespace,
    Class,
    Struct,
    Function,
}

/// How a raw kind tag classifies, if at all.
pub open spec fn spec_classify(k: EntityKind) -> Option<CppItemKind> {
    match k {
        EntityKind::StructDecl => Some(CppItemKind::Struct),
        EntityKind::ClassDecl => Some(CppItemKind::Class),
        EntityKind::ClassTemplate => Some(CppItemKind::Class),
        EntityKind::ClassTemplatePartialSpecialization => Some(CppItemKind::Class),
        EntityKind::FunctionDecl => Some(CppItemKind::Function),
        EntityKind::FunctionTemplate => Some(CppItemKind::Function),
        EntityKind::Namespace => Some(CppItemKind::Namespace),
        _ => None,
    }
}

impl CppItemKind {
    /// Classifies a raw kind tag, declining anything that is not a
    /// namespace, classlike or function declaration.
    pub fn from(kind: EntityKind) -> (r: Option<CppItemKind>)
        ensures
            r == spec_classify(kind),
    {
        match kind {
            EntityKind::StructDecl => Some(CppItemKind::Struct),
            EntityKind::ClassDecl => Some(CppItemKind::Class),
            EntityKind::ClassTemplate => Some(CppItemKind::Class),
            EntityKind::ClassTemplatePartialSpecialization => Some(CppItemKind::Class),
            EntityKind::FunctionDecl => Some(CppItemKind::Function),
            EntityKind::FunctionTemplate => Some(CppItemKind::Function),
            EntityKind::Namespace => Some(CppItemKind::Namespace),
            _ => None,
        }
    }

    /// The URL segment of this category; classes and structs share one.
    pub open spec fn spec_category_segment(self) -> Seq<char> {
        match self {
            CppItemKind::Namespace => "namespaces"@,
            CppItemKind::Class => "classes"@,
            CppItemKind::Struct => "classes"@,
            CppItemKind::Function => "functions"@,
        }
    }

    /// The docs URL category of this kind, as a one-segment path.
    pub fn docs_category(&self) -> (r: UrlPath)
        ensures
            r@ =~= seq![self.spec_category_segment()],
            r.wf(),
    {
        proof {
            reveal_strlit("namespaces");
            reveal_strlit("classes");
            reveal_strlit("functions");
        }
        match self {
            CppItemKind::Namespace => UrlPath::part("namespaces"),
            CppItemKind::Class => UrlPath::part("classes"),
            CppItemKind::Struct => UrlPath::part("classes"),
            CppItemKind::Function => UrlPath::part("functions"),
        }
    }
}

/// A classlike entry: a class or struct definition.
pub struct ClassLike {
    pub entity: usize,
}

/// A free-function entry.
pub struct FunctionItem {
    pub entity: usize,
}

/// One namespace of the documentation model.
pub struct Namespace {
    pub entity: usize,
    pub is_root: bool,
    pub entries: Vec<(String, CppItem)>,
}

/// One entry of the documentation model.
pub enum CppItem {
    Namespace(Namespace),
    Class(ClassLike),
    Struct(ClassLike),
    Function(FunctionItem),
}

/// The nesting height of an item; what bounds recursion over owned items.
pub open spec fn item_height(it: CppItem) -> nat
    decreases it,
{
    match it {
        CppItem::Namespace(ns) => ns_height(ns),
        _ => 0,
    }
}

/// The nesting height of a namespace.
pub open spec fn ns_height(ns: Namespace) -> nat
    decreases ns,
{
    1 + entries_height(ns.entries@)
}

/// The largest nesting height among an entry list.
pub open spec fn entries_height(s: Seq<(String, CppItem)>) -> nat
    decreases s,
{
    if s.len() == 0 {
        0
    } else if item_height(s.last().1) > entries_height(s.drop_last()) {
        item_height(s.last().1)
    } else {
        entries_height(s.drop_last())
    }
}

/// Each entry's height is at most the list's height.
pub proof fn lemma_entries_height_bound(s: Seq<(String, CppItem)>, i: int)
    requires
        0 <= i < s.len(),
    ensures
        item_height(s[i].1) <= entries_height(s),
    decreases s.len(),
{
    if i == s.len() - 1 {
    } else {
        lemma_entries_height_bound(s.drop_last(), i);
        assert(s.drop_last()[i] == s[i]);
    }
}

/// Keys are unique in this item's namespace entries, recursively.
pub open spec fn item_keys_wf(it: CppItem) -> bool
    decreases it,
{
    match it {
        CppItem::Namespace(ns) => ns_keys_wf(ns),
        _ => true,
    }
}

/// Keys are unique in this namespace's entries, recursively.
pub open spec fn ns_keys_wf(ns: Namespace) -> bool
    decreases ns,
{
    &&& unique_keys(ns.entries@)
    &&& forall|i: int|
        0 <= i < ns.entries@.len() ==> item_keys_wf((#[trigger] ns.entries@[i]).1)
}

/// Every entity index in the item points into an arena of `n` nodes.
pub open spec fn item_bounded(it: CppItem, n: nat) -> bool
    decreases it,
{
    match it {
        CppItem::Namespace(ns) => ns_bounded(ns, n),
        CppItem::Class(c) => c.entity < n,
        CppItem::Struct(c) => c.entity < n,
        CppItem::Function(f) => f.entity < n,
    }
}

/// Every entity index in the namespace points into an arena of `n` nodes.
pub open spec fn ns_bounded(ns: Namespace, n: nat) -> bool
    decreases ns,
{
    &&& ns.entity < n
    &&& forall|i: int|
        0 <= i < ns.entries@.len() ==> item_bounded((#[trigger] ns.entries@[i]).1, n)
}

/// How one key of a merged namespace relates to the two fragments, apart
/// from the recursive namespace-merge case: the merged map holds exactly the
/// union of keys; a key only in `a` keeps `a`'s entry; a key present in `b`
/// takes `b`'s entry unless both sides hold namespaces there.
pub open spec fn merged_flat_at(
    mm: Map<Seq<char>, CppItem>,
    am: Map<Seq<char>, CppItem>,
    bm: Map<Seq<char>, CppItem>,
    k: Seq<char>,
) -> bool {
    &&& (mm.contains_key(k) <==> am.contains_key(k) || bm.contains_key(k))
    &&& (am.contains_key(k) && !bm.contains_key(k) ==> mm.contains_key(k) && mm[k] == am[k])
    &&& (bm.contains_key(k) && !(bm[k] is Namespace && am.contains_key(k) && am[k] is Namespace)
        ==> mm.contains_key(k) && mm[k] == bm[k])
}

/// The recursive case of merging at `b`'s entry `i`: where both fragments
/// hold namespaces under one key, the merged entry is their merge.
pub open spec fn merged_rec_at(
    mm: Map<Seq<char>, CppItem>,
    am: Map<Seq<char>, CppItem>,
    bs: Seq<(String, CppItem)>,
    i: int,
) -> bool {
    0 <= i < bs.len() ==> {
        let k = bs[i].0@;
        let bi = bs[i].1;
        (bi is Namespace && am.contains_key(k) && am[k] is Namespace) ==> {
            &&& mm.contains_key(k)
            &&& mm[k] is Namespace
            &&& ns_merged(mm[k]->Namespace_0, am[k]->Namespace_0, bi->Namespace_0)
        }
    }
}

/// `m` is the merge of fragment `b` into fragment `a`: keys union; `b`'s
/// entry replaces `a`'s except where both are namespaces, which merge
/// recursively; `a`'s identity (entity, root flag) is kept.
pub open spec fn ns_merged(m: Namespace, a: Namespace, b: Namespace) -> bool
    decreases b,
{
    let am = entries_map(a.entries@);
    let bm = entries_map(b.entries@);
    let mm = entries_map(m.entries@);
    &&& m.entity == a.entity
    &&& m.is_root == a.is_root
    &&& (forall|k: Seq<char>| #[trigger] merged_flat_at(mm, am, bm, k))
    &&& (forall|i: int|
        #![trigger b.entries@[i]]
        0 <= i < b.entries@.len() ==> {
            let k = b.entries@[i].0@;
            let bi = b.entries@[i].1;
            (bi is Namespace && am.contains_key(k) && am[k] is Namespace) ==> {
                &&& mm.contains_key(k)
                &&& mm[k] is Namespace
                &&& ns_merged(mm[k]->Namespace_0, am[k]->Namespace_0, bi->Namespace_0)
            }
        })
}

/// Merging fragments with disjoint children yields their union, and where
/// both fragments hold an entry under one key and they are not both
/// namespaces, the merged tree retains the later-merged fragment's entry.
pub proof fn lemma_merge_union(m: Namespace, a: Namespace, b: Namespace, k: Seq<char>)
    requires
        ns_merged(m, a, b),
    ensures
        entries_map(m.entries@).contains_key(k) <==> (entries_map(a.entries@).contains_key(k)
            || entries_map(b.entries@).contains_key(k)),
        (entries_map(a.entries@).contains_key(k) && !entries_map(b.entries@).contains_key(k))
            ==> entries_map(m.entries@)[k] == entries_map(a.entries@)[k],
        (entries_map(b.entries@).contains_key(k) && !(entries_map(b.entries@)[k] is Namespace
            && entries_map(a.entries@).contains_key(k) && entries_map(a.entries@)[k]
            is Namespace)) ==> entries_map(m.entries@)[k] == entries_map(b.entries@)[k],
{
    assert(merged_flat_at(
        entries_map(m.entries@),
        entries_map(a.entries@),
        entries_map(b.entries@),
        k,
    ));
}

/// Merges `b` into `a`, bottom-up; `h` bounds the nesting height of `b`
/// and `n` the arena both trees point into.
fn merge_go(a: Namespace, b: Namespace, Ghost(h): Ghost<nat>, Ghost(n): Ghost<nat>) -> (m:
    Namespace)
    requires
        ns_height(b) <= h,
        ns_keys_wf(a),
        ns_keys_wf(b),
        ns_bounded(a, n),
        ns_bounded(b, n),
    ensures
        ns_merged(m, a, b),
        ns_keys_wf(m),
        ns_bounded(m, n),
    decreases h,
{
    let ghost am = entries_map(a.entries@);
    let ghost b0 = b.entries@;
    proof {
        assert forall|j: int| 0 <= j < b0.len() implies item_height((#[trigger] b0[j]).1)
            < h by {
            lemma_entries_height_bound(b0, j);
        }
        assert(b0.skip(0) =~= b0);
        assert(b0.take(0) =~= Seq::<(String, CppItem)>::empty());
        assert forall|k: Seq<char>| #[trigger] merged_flat_at(
            entries_map(a.entries@),
            am,
            entries_map(b0.take(0)),
            k,
        ) by {
            assert(!entries_map(b0.take(0)).contains_key(k));
        }
    }
    let Namespace { entity: _, is_root: _, entries: mut src } = b;
    let mut m = a;
    let ghost mut done: int = 0;
    while src.len() > 0
        invariant
            b0 == b.entries@,
            am == entries_map(a.entries@),
            unique_keys(b0),
            forall|j: int| 0 <= j < b0.len() ==> item_height((#[trigger] b0[j]).1) < h,
            forall|j: int| 0 <= j < b0.len() ==> item_keys_wf((#[trigger] b0[j]).1),
            forall|j: int| 0 <= j < b0.len() ==> item_bounded((#[trigger] b0[j]).1, n),
            0 <= done <= b0.len(),
            src@ == b0.skip(done),
            m.entity == a.entity,
            m.is_root == a.is_root,
            m.entity < n,
            unique_keys(m.entries@),
            forall|i: int| 0 <= i < m.entries@.len() ==> item_keys_wf(
                (#[trigger] m.entries@[i]).1,
            ),
            forall|i: int| 0 <= i < m.entries@.len() ==> item_bounded(
                (#[trigger] m.entries@[i]).1,
                n,
            ),
            forall|k: Seq<char>| #[trigger] merged_flat_at(
                entries_map(m.entries@),
                am,
                entries_map(b0.take(done)),
                k,
            ),
            forall|i: int| 0 <= i < done ==> #[trigger] merged_rec_at(
                entries_map(m.entries@),
                am,
                b0,
                i,
            ),
        decreases src@.len(),
    {
        let ghost dm = entries_map(b0.take(done));
        let ghost mm0 = entries_map(m.entries@);
        let (name, item) = src.remove(0);
        let ghost k = name@;
        proof {
            assert(b0.skip(done)[0] == b0[done]);
            assert((name, item) == b0[done]);
            assert(b0.skip(done).remove(0) =~= b0.skip(done + 1));
            assert(b0.take(done + 1) =~= b0.take(done).push(b0[done]));
            crate::entries::lemma_entries_map_push(b0.take(done), b0[done].0, b0[done].1);
            crate::entries::lemma_entries_map_contains(b0.take(done), k);
            if entries_map(b0.take(done)).contains_key(k) {
                let j = choose|j: int|
                    0 <= j < b0.take(done).len() && (#[trigger] b0.take(done)[j]).0@ == k;
                assert(b0[j].0@ == k);
                assert(false);
            }
            assert(item_height(item) < h);
            assert(item_keys_wf(item));
        }
        let ghost dm1 = entries_map(b0.take(done + 1));
        proof {
            assert(dm1 == dm.insert(k, item));
            assert(merged_flat_at(mm0, am, dm, k));
            if mm0.contains_key(k) {
                assert(am.contains_key(k) && mm0[k] == am[k]);
            }
        }
        let is_ns_item = match &item {
            CppItem::Namespace(_) => true,
            _ => false,
        };
        let target = crate::entries::entries_find(&m.entries, name.as_str());
        let both_ns = is_ns_item && (match target {
            Some(j) => (match &m.entries[j].1 {
                CppItem::Namespace(_) => true,
                _ => false,
            }),
            None => false,
        });
        if both_ns {
            let j = match target {
                Some(j) => j,
                None => 0,
            };
            proof {
                crate::entries::lemma_entries_map_index(m.entries@, j as int);
                assert(m.entries@[j as int].1 == mm0[k]);
                assert(am.contains_key(k) && am[k] is Namespace);
            }
            let ghost m0 = m.entries@;
            let pair = m.entries.remove(j);
            let tname = pair.0;
            let titem = pair.1;
            proof {
                crate::entries::lemma_entries_map_remove(m0, j as int);
                assert(titem == am[k]);
            }
            let ghost m1 = m.entries@;
            match (item, titem) {
                (CppItem::Namespace(ens), CppItem::Namespace(t)) => {
                    proof {
                        assert(ns_height(ens) == item_height(b0[done].1));
                        assert(ns_keys_wf(t));
                        assert(ns_keys_wf(ens));
                    }
                    let zz = merge_go(t, ens, Ghost((h - 1) as nat), Ghost(n));
                    let ghost zi = CppItem::Namespace(zz);
                    m.entries.push((tname, CppItem::Namespace(zz)));
                    proof {
                        crate::entries::lemma_entries_map_push(m1, m.entries@.last().0, zi);
                        assert(m.entries@.last().0@ == k);
                        assert(entries_map(m.entries@) == entries_map(m1).insert(k, zi));
                        assert(entries_map(m.entries@) =~= mm0.insert(k, zi));
                        crate::entries::lemma_entries_map_contains(m1, k);
                        assert forall|x: int, y: int|
                            0 <= x < y < m.entries@.len() implies (#[trigger] m.entries@[x]).0@
                            != (#[trigger] m.entries@[y]).0@ by {
                            assert(m.entries@[x] == m1[x]);
                            if y < m.entries@.len() - 1 {
                                assert(m.entries@[y] == m1[y]);
                            }
                        }
                        assert forall|i: int| 0 <= i < m.entries@.len() implies item_keys_wf(
                            (#[trigger] m.entries@[i]).1,
                        ) && item_bounded((#[trigger] m.entries@[i]).1, n) by {
                            if i < m.entries@.len() - 1 {
                                assert(m.entries@[i] == m1[i]);
                                let si = if i < j as int {
                                    i
                                } else {
                                    i + 1
                                };
                                assert(m1[i] == m0[si]);
                            }
                        }
                        let mmn = entries_map(m.entries@);
                        assert forall|kk: Seq<char>| #[trigger] merged_flat_at(
                            mmn,
                            am,
                            dm1,
                            kk,
                        ) by {
                            assert(merged_flat_at(mm0, am, dm, kk));
                            if kk != k {
                                assert(mmn.contains_key(kk) == mm0.contains_key(kk));
                                if mmn.contains_key(kk) {
                                    assert(mmn[kk] == mm0[kk]);
                                }
                            }
                        }
                        assert forall|i: int| 0 <= i < done + 1 implies #[trigger] merged_rec_at(
                            mmn,
                            am,
                            b0,
                            i,
                        ) by {
                            if i < done {
                                assert(merged_rec_at(mm0, am, b0, i));
                                assert(b0[i].0@ != k);
                            } else {
                                assert(b0[i].1->Namespace_0 == ens);
                                assert(mmn[k] == zi);
                            }
                        }
                    }
                },
                _ => {
                    proof {
                        assert(false);
                    }
                },
            }
        } else {
            proof {
                if item is Namespace && am.contains_key(k) && am[k] is Namespace {
                    match target {
                        Some(j) => {
                            crate::entries::lemma_entries_map_index(m.entries@, j as int);
                            assert(m.entries@[j as int].1 == mm0[k]);
                            assert(false);
                        },
                        None => {
                            crate::entries::lemma_entries_map_contains(m.entries@, k);
                            assert(!mm0.contains_key(k));
                            assert(false);
                        },
                    }
                }
            }
            let ghost it = item;
            crate::entries::entries_insert(&mut m.entries, name, item);
            proof {
                let mmn = entries_map(m.entries@);
                assert(mmn == mm0.insert(k, it));
                assert forall|i: int| 0 <= i < m.entries@.len() implies item_keys_wf(
                    (#[trigger] m.entries@[i]).1,
                ) && item_bounded((#[trigger] m.entries@[i]).1, n) by {
                }
                assert forall|kk: Seq<char>| #[trigger] merged_flat_at(mmn, am, dm1, kk) by {
                    assert(merged_flat_at(mm0, am, dm, kk));
                    if kk != k {
                        assert(mmn.contains_key(kk) == mm0.contains_key(kk));
                        if mmn.contains_key(kk) {
                            assert(mmn[kk] == mm0[kk]);
                        }
                    }
                }
                assert forall|i: int| 0 <= i < done + 1 implies #[trigger] merged_rec_at(
                    mmn,
                    am,
                    b0,
                    i,
                ) by {
                    if i < done {
                        assert(merged_rec_at(mm0, am, b0, i));
                        assert(b0[i].0@ != k);
                    }
                }
            }
        }
        proof {
            done = done + 1;
        }
    }
    proof {
        assert(src@.len() == 0);
        assert(done == b0.len());
        assert(b0.take(done) =~= b0);
        let mm = entries_map(m.entries@);
        assert forall|k: Seq<char>| #[trigger] merged_flat_at(
            mm,
            entries_map(a.entries@),
            entries_map(b.entries@),
            k,
        ) by {
            assert(merged_flat_at(mm, am, entries_map(b0.take(done)), k));
        }
        assert forall|i: int|
            #![trigger b.entries@[i]]
            0 <= i < b.entries@.len() implies {
            let k = b.entries@[i].0@;
            let bi = b.entries@[i].1;
            (bi is Namespace && entries_map(a.entries@).contains_key(k) && entries_map(
                a.entries@,
            )[k] is Namespace) ==> {
                &&& mm.contains_key(k)
                &&& mm[k] is Namespace
                &&& ns_merged(
                    mm[k]->Namespace_0,
                    entries_map(a.entries@)[k]->Namespace_0,
                    bi->Namespace_0,
                )
            }
        } by {
            assert(merged_rec_at(mm, am, b0, i));
        }
        assert(ns_merged(m, a, b));
    }
    m
}

/// Every entry is itself a namespace that is hereditarily empty: exactly the
/// namespaces that have zero entries once their children are recursively
/// cleaned.
pub open spec fn hereditarily_empty(ns: Namespace) -> bool
    decreases ns,
{
    forall|i: int|
        #![trigger ns.entries@[i]]
        0 <= i < ns.entries@.len() ==> (ns.entries@[i].1 is Namespace && hereditarily_empty(
            ns.entries@[i].1->Namespace_0,
        ))
}

/// `m` is `o` after the empty-namespace cleanup: non-namespace entries stay;
/// a namespace entry is removed iff it is hereditarily empty, and otherwise
/// replaced by its own cleanup; nothing else appears.
pub open spec fn ns_cleaned(m: Namespace, o: Namespace) -> bool
    decreases o,
{
    let om = entries_map(o.entries@);
    let mm = entries_map(m.entries@);
    &&& m.entity == o.entity
    &&& m.is_root == o.is_root
    &&& (forall|k: Seq<char>| #[trigger] mm.contains_key(k) ==> om.contains_key(k))
    &&& (forall|i: int|
        #![trigger o.entries@[i]]
        0 <= i < o.entries@.len() ==> {
            let k = o.entries@[i].0@;
            let oi = o.entries@[i].1;
            &&& (!(oi is Namespace) ==> mm.contains_key(k) && mm[k] == oi)
            &&& (oi is Namespace ==> (if hereditarily_empty(oi->Namespace_0) {
                !mm.contains_key(k)
            } else {
                &&& mm.contains_key(k)
                &&& mm[k] is Namespace
                &&& ns_cleaned(mm[k]->Namespace_0, oi->Namespace_0)
            }))
        })
}

/// No namespace entry of the tree is empty, at any depth.
pub open spec fn no_empty_ns(ns: Namespace) -> bool
    decreases ns,
{
    forall|i: int|
        #![trigger ns.entries@[i]]
        0 <= i < ns.entries@.len() ==> (ns.entries@[i].1 is Namespace ==> {
            &&& ns.entries@[i].1->Namespace_0.entries@.len() > 0
            &&& no_empty_ns(ns.entries@[i].1->Namespace_0)
        })
}

/// The cleanup removes a namespace iff it has zero entries after its own
/// children are recursively cleaned: a cleaned namespace is empty exactly
/// when the uncleaned one was hereditarily empty.
pub proof fn lemma_cleaned_empty_iff(z: Namespace, y: Namespace)
    requires
        ns_keys_wf(y),
        ns_cleaned(z, y),
    ensures
        (z.entries@.len() == 0) <==> hereditarily_empty(y),
{
    let om = entries_map(y.entries@);
    let mm = entries_map(z.entries@);
    if z.entries@.len() == 0 {
        assert forall|i: int|
            #![trigger y.entries@[i]]
            0 <= i < y.entries@.len() implies (y.entries@[i].1 is Namespace
            && hereditarily_empty(y.entries@[i].1->Namespace_0)) by {
            let k = y.entries@[i].0@;
            crate::entries::lemma_entries_map_contains(z.entries@, k);
            assert(!mm.contains_key(k));
        }
    }
    if hereditarily_empty(y) && z.entries@.len() > 0 {
        let k = z.entries@[z.entries@.len() - 1].0@;
        crate::entries::lemma_entries_map_contains(z.entries@, k);
        assert(mm.contains_key(k));
        crate::entries::lemma_entries_map_contains(y.entries@, k);
        let i = choose|i: int| 0 <= i < y.entries@.len() && (#[trigger] y.entries@[i]).0@ == k;
        assert(y.entries@[i].1 is Namespace && hereditarily_empty(y.entries@[i].1->Namespace_0));
        assert(false);
    }
}

/// A cleaned tree has no empty namespace entry at any depth.
pub proof fn lemma_cleaned_no_empty(m: Namespace, o: Namespace)
    requires
        ns_keys_wf(o),
        ns_keys_wf(m),
        ns_cleaned(m, o),
    ensures
        no_empty_ns(m),
    decreases o,
{
    let om = entries_map(o.entries@);
    let mm = entries_map(m.entries@);
    assert forall|j: int|
        #![trigger m.entries@[j]]
        0 <= j < m.entries@.len() implies (m.entries@[j].1 is Namespace ==> {
        &&& m.entries@[j].1->Namespace_0.entries@.len() > 0
        &&& no_empty_ns(m.entries@[j].1->Namespace_0)
    }) by {
        let k = m.entries@[j].0@;
        crate::entries::lemma_entries_map_index(m.entries@, j);
        assert(mm.contains_key(k));
        crate::entries::lemma_entries_map_contains(o.entries@, k);
        let i = choose|i: int| 0 <= i < o.entries@.len() && (#[trigger] o.entries@[i]).0@ == k;
        crate::entries::lemma_entries_map_index(o.entries@, i);
        let oi = o.entries@[i].1;
        if m.entries@[j].1 is Namespace {
            if oi is Namespace {
                if hereditarily_empty(oi->Namespace_0) {
                    assert(false);
                } else {
                    let z = mm[k]->Namespace_0;
                    assert(z == m.entries@[j].1->Namespace_0);
                    lemma_cleaned_empty_iff(z, oi->Namespace_0);
                    assert(item_keys_wf(m.entries@[j].1));
                    assert(item_keys_wf(o.entries@[i].1));
                    lemma_cleaned_no_empty(z, oi->Namespace_0);
                }
            } else {
                assert(mm[k] == oi);
                assert(false);
            }
        }
    }
}

/// Cleans `ns` bottom-up, appending one diagnostic per removed namespace;
/// `h` bounds the nesting height.
fn clean_go(ns: Namespace, ast: &Ast, diag: &mut Vec<String>, Ghost(h): Ghost<nat>) -> (m:
    Namespace)
    requires
        ns_height(ns) <= h,
        ns_keys_wf(ns),
        ast.wf(),
        ns_bounded(ns, ast.nodes@.len()),
    ensures
        ns_cleaned(m, ns),
        ns_keys_wf(m),
        ns_bounded(m, ast.nodes@.len()),
        old(diag)@.is_prefix_of(final(diag)@),
    decreases h,
{
    let ghost o0 = ns.entries@;
    let ghost d0 = diag@;
    proof {
        assert forall|j: int| 0 <= j < o0.len() implies item_height((#[trigger] o0[j]).1)
            < h by {
            lemma_entries_height_bound(o0, j);
        }
        assert(o0.skip(0) =~= o0);
        assert(o0.take(0) =~= Seq::<(String, CppItem)>::empty());
    }
    let entity = ns.entity;
    let is_root = ns.is_root;
    let Namespace { entity: _, is_root: _, entries: mut src } = ns;
    let mut out: Vec<(String, CppItem)> = Vec::new();
    let ghost mut done: int = 0;
    while src.len() > 0
        invariant
            o0 == ns.entries@,
            unique_keys(o0),
            forall|j: int| 0 <= j < o0.len() ==> item_height((#[trigger] o0[j]).1) < h,
            forall|j: int| 0 <= j < o0.len() ==> item_keys_wf((#[trigger] o0[j]).1),
            forall|j: int| 0 <= j < o0.len() ==> item_bounded(
                (#[trigger] o0[j]).1,
                ast.nodes@.len(),
            ),
            ast.wf(),
            0 <= done <= o0.len(),
            src@ == o0.skip(done),
            unique_keys(out@),
            forall|j: int| 0 <= j < out@.len() ==> item_keys_wf((#[trigger] out@[j]).1),
            forall|j: int| 0 <= j < out@.len() ==> item_bounded(
                (#[trigger] out@[j]).1,
                ast.nodes@.len(),
            ),
            forall|k: Seq<char>| #[trigger] entries_map(out@).contains_key(k) ==> entries_map(
                o0.take(done),
            ).contains_key(k),
            forall|i: int|
                #![trigger o0[i]]
                0 <= i < done ==> {
                    let k = o0[i].0@;
                    let oi = o0[i].1;
                    &&& (!(oi is Namespace) ==> entries_map(out@).contains_key(k)
                        && entries_map(out@)[k] == oi)
                    &&& (oi is Namespace ==> (if hereditarily_empty(oi->Namespace_0) {
                        !entries_map(out@).contains_key(k)
                    } else {
                        &&& entries_map(out@).contains_key(k)
                        &&& entries_map(out@)[k] is Namespace
                        &&& ns_cleaned(entries_map(out@)[k]->Namespace_0, oi->Namespace_0)
                    }))
                },
            d0.is_prefix_of(diag@),
        decreases src@.len(),
    {
        let ghost mm0 = entries_map(out@);
        let ghost dmk = entries_map(o0.take(done));
        let (name, item) = src.remove(0);
        let ghost k = name@;
        proof {
            assert(o0.skip(done)[0] == o0[done]);
            assert((name, item) == o0[done]);
            assert(o0.skip(done).remove(0) =~= o0.skip(done + 1));
            assert(o0.take(done + 1) =~= o0.take(done).push(o0[done]));
            crate::entries::lemma_entries_map_push(o0.take(done), o0[done].0, o0[done].1);
            crate::entries::lemma_entries_map_contains(o0.take(done), k);
            if dmk.contains_key(k) {
                let j = choose|j: int|
                    0 <= j < o0.take(done).len() && (#[trigger] o0.take(done)[j]).0@ == k;
                assert(o0[j].0@ == k);
                assert(false);
            }
            assert(!mm0.contains_key(k));
        }
        match item {
            CppItem::Namespace(y) => {
                let ghost yg = y;
                let ye = y.entity;
                proof {
                    assert(ns_height(y) == item_height(o0[done].1));
                    assert(ns_keys_wf(y));
                    assert(ns_bounded(y, ast.nodes@.len()));
                }
                let z = clean_go(y, ast, diag, Ghost((h - 1) as nat));
                proof {
                    lemma_cleaned_empty_iff(z, yg);
                }
                if z.entries.len() == 0 {
                    let msg = String::from_str("Removing empty namespace ").concat(
                        ast.full_name_string(ye).as_str(),
                    );
                    diag.push(msg);
                    proof {
                        assert(hereditarily_empty(yg));
                        assert forall|i: int|
                            #![trigger o0[i]]
                            0 <= i < done + 1 implies {
                            let kk = o0[i].0@;
                            let oi = o0[i].1;
                            &&& (!(oi is Namespace) ==> entries_map(out@).contains_key(kk)
                                && entries_map(out@)[kk] == oi)
                            &&& (oi is Namespace ==> (if hereditarily_empty(oi->Namespace_0) {
                                !entries_map(out@).contains_key(kk)
                            } else {
                                &&& entries_map(out@).contains_key(kk)
                                &&& entries_map(out@)[kk] is Namespace
                                &&& ns_cleaned(
                                    entries_map(out@)[kk]->Namespace_0,
                                    oi->Namespace_0,
                                )
                            }))
                        } by {
                            if i == done {
                                assert(o0[i].1 == CppItem::Namespace(yg));
                            }
                        }
                    }
                } else {
                    let ghost out1 = out@;
                    let ghost zi = CppItem::Namespace(z);
                    out.push((name, CppItem::Namespace(z)));
                    proof {
                        crate::entries::lemma_entries_map_push(out1, out@.last().0, zi);
                        assert(out@.last().0@ == k);
                        crate::entries::lemma_entries_map_contains(out1, k);
                        assert forall|x: int, y2: int|
                            0 <= x < y2 < out@.len() implies (#[trigger] out@[x]).0@ != (
                        #[trigger] out@[y2]).0@ by {
                            assert(out@[x] == out1[x]);
                            if y2 < out@.len() - 1 {
                                assert(out@[y2] == out1[y2]);
                            }
                        }
                        assert forall|i: int|
                            #![trigger o0[i]]
                            0 <= i < done + 1 implies {
                            let kk = o0[i].0@;
                            let oi = o0[i].1;
                            &&& (!(oi is Namespace) ==> entries_map(out@).contains_key(kk)
                                && entries_map(out@)[kk] == oi)
                            &&& (oi is Namespace ==> (if hereditarily_empty(oi->Namespace_0) {
                                !entries_map(out@).contains_key(kk)
                            } else {
                                &&& entries_map(out@).contains_key(kk)
                                &&& entries_map(out@)[kk] is Namespace
                                &&& ns_cleaned(
                                    entries_map(out@)[kk]->Namespace_0,
                                    oi->Namespace_0,
                                )
                            }))
                        } by {
                            if i < done {
                                assert(o0[i].0@ != k);
                                if entries_map(out1).contains_key(o0[i].0@) {
                                    assert(entries_map(out@)[o0[i].0@] == entries_map(
                                        out1,
                                    )[o0[i].0@]);
                                }
                            } else {
                                assert(o0[i].1 == CppItem::Namespace(yg));
                                assert(entries_map(out@)[k] == zi);
                            }
                        }
                    }
                }
            },
            other => {
                let ghost oi = other;
                let ghost out1 = out@;
                out.push((name, other));
                proof {
                    crate::entries::lemma_entries_map_push(out1, out@.last().0, oi);
                    assert(out@.last().0@ == k);
                    crate::entries::lemma_entries_map_contains(out1, k);
                    assert forall|x: int, y2: int|
                        0 <= x < y2 < out@.len() implies (#[trigger] out@[x]).0@ != (
                    #[trigger] out@[y2]).0@ by {
                        assert(out@[x] == out1[x]);
                        if y2 < out@.len() - 1 {
                            assert(out@[y2] == out1[y2]);
                        }
                    }
                    assert forall|i: int|
                        #![trigger o0[i]]
                        0 <= i < done + 1 implies {
                        let kk = o0[i].0@;
                        let oi2 = o0[i].1;
                        &&& (!(oi2 is Namespace) ==> entries_map(out@).contains_key(kk)
                            && entries_map(out@)[kk] == oi2)
                        &&& (oi2 is Namespace ==> (if hereditarily_empty(oi2->Namespace_0) {
                            !entries_map(out@).contains_key(kk)
                        } else {
                            &&& entries_map(out@).contains_key(kk)
                            &&& entries_map(out@)[kk] is Namespace
                            &&& ns_cleaned(entries_map(out@)[kk]->Namespace_0, oi2->Namespace_0)
                        }))
                    } by {
                        if i < done {
                            assert(o0[i].0@ != k);
                            if entries_map(out1).contains_key(o0[i].0@) {
                                assert(entries_map(out@)[o0[i].0@] == entries_map(
                                    out1,
                                )[o0[i].0@]);
                            }
                        } else {
                            assert(o0[i].1 == oi);
                            assert(entries_map(out@)[k] == oi);
                        }
                    }
                }
            },
        }
        proof {
            done = done + 1;
        }
    }
    let m = Namespace { entity, is_root, entries: out };
    proof {
        assert(done == o0.len());
        assert(o0.take(done) =~= o0);
        assert forall|k: Seq<char>| #[trigger] entries_map(m.entries@).contains_key(
            k,
        ) implies entries_map(ns.entries@).contains_key(k) by {
            assert(entries_map(o0.take(done)).contains_key(k));
        }
        assert(ns_cleaned(m, ns));
    }
    m
}

impl Namespace {
    /// Recursively removes every namespace entry that is empty once its own
    /// children have been cleaned, appending one diagnostic per removal; the
    /// namespace itself (in particular the root) is never removed.
    pub fn clean_empty_namespaces(&mut self, ast: &Ast, diag: &mut Vec<String>)
        requires
            ns_keys_wf(*old(self)),
            ast.wf(),
            ns_bounded(*old(self), ast.nodes@.len()),
        ensures
            ns_cleaned(*final(self), *old(self)),
            ns_keys_wf(*final(self)),
            ns_bounded(*final(self), ast.nodes@.len()),
            old(diag)@.is_prefix_of(final(diag)@),
    {
        let mut tmp = Namespace { entity: self.entity, is_root: self.is_root, entries: Vec::new() };
        core::mem::swap(self, &mut tmp);
        let cleaned = clean_go(tmp, ast, diag, Ghost(ns_height(*old(self))));
        *self = cleaned;
    }
}

impl Namespace {
    /// Merges another fragment of the same logical namespace into this one:
    /// entries accumulate; a key held by both sides keeps the other
    /// fragment's entry unless both hold namespaces, which merge
    /// recursively.
    pub fn merge_with_namespace(&mut self, other: Namespace, ast: &Ast)
        requires
            ns_keys_wf(*old(self)),
            ns_keys_wf(other),
            ns_bounded(*old(self), ast.nodes@.len()),
            ns_bounded(other, ast.nodes@.len()),
            ast.spec_name_view(old(self).entity) == ast.spec_name_view(other.entity),
        ensures
            ns_merged(*final(self), *old(self), other),
            ns_keys_wf(*final(self)),
            ns_bounded(*final(self), ast.nodes@.len()),
    {
        let mut tmp = Namespace { entity: self.entity, is_root: self.is_root, entries: Vec::new() };
        core::mem::swap(self, &mut tmp);
        let merged = merge_go(tmp, other, Ghost(ns_height(other)), Ghost(ast.nodes@.len()));
        *self = merged;
    }
}

/// A simple name whose first character is implausible for a user-written
/// identifier: a heuristic guard against compiler-internal symbols.
pub open spec fn weird_first(name: Seq<char>) -> bool {
    name.len() > 0 && (name[0] == '(' || name[0] == ')' || name[0] == '<' || name[0] == '>'
        || name[0] == '[' || name[0] == ']')
}

/// Some configured ignore pattern occurs in the fully qualified name, or
/// some occurs in the simple name.
pub open spec fn spec_ignored(config: Config, full: Seq<char>, name: Seq<char>) -> bool {
    match config.ignore {
        None => false,
        Some(ig) => {
            ||| exists|i: int|
                0 <= i < ig.patterns_full@.len() && crate::text::contains_seq(
                    full,
                    (#[trigger] ig.patterns_full@[i])@,
                )
            ||| exists|i: int|
                0 <= i < ig.patterns_name@.len() && crate::text::contains_seq(
                    name,
                    (#[trigger] ig.patterns_name@[i])@,
                )
        },
    }
}

/// Whether the child `c` of a scope survives the filtering rules and is
/// materialized in the tree: it is named; it is not from an external header
/// unless an external-library rule covers it; it is not under the standard
/// library nor compiler-synthesized; its name does not start with an
/// implausible character; no ignore pattern matches; it classifies; and a
/// classlike child must be a definition.
pub open spec fn child_included(ast: Ast, config: Config, c: usize) -> bool {
    let node = ast.nodes@[c as int];
    let name = ast.spec_name_or_anon(c);
    let full = crate::text::spec_join_sep(ast.spec_full_name(c), "::"@);
    &&& node.name is Some
    &&& !(node.in_system_header && ast.spec_allowed_external_lib(config, c) is None)
    &&& !crate::text::has_prefix(full, "std::"@)
    &&& !crate::text::contains_seq(name, "deduction guide for"@)
    &&& !crate::text::contains_seq(name, "unnamed "@)
    &&& !weird_first(name)
    &&& !spec_ignored(config, full, name)
    &&& spec_classify(node.kind) is Some
    &&& ((spec_classify(node.kind) == Some(CppItemKind::Class) || spec_classify(node.kind)
        == Some(CppItemKind::Struct)) ==> node.is_definition)
}

/// The index of the last child in `cs` that is included and carries the
/// name `k`; the entry that ends up under `k` comes from that child.
pub open spec fn spec_last_included(ast: Ast, config: Config, cs: Seq<usize>, k: Seq<char>) -> Option<
    int,
>
    decreases cs.len(),
{
    if cs.len() == 0 {
        None
    } else if child_included(ast, config, cs.last()) && ast.spec_name_or_anon(cs.last()) == k {
        Some(cs.len() - 1)
    } else {
        spec_last_included(ast, config, cs.drop_last(), k)
    }
}

/// Extending the scanned prefix by one child either makes that child the
/// last included carrier of `k` or leaves the answer unchanged.
pub proof fn lemma_last_included_step(ast: Ast, config: Config, cs: Seq<usize>, idx: int, k: Seq<char>)
    requires
        0 <= idx < cs.len(),
    ensures
        spec_last_included(ast, config, cs.take(idx + 1), k) == (if child_included(
            ast,
            config,
            cs[idx],
        ) && ast.spec_name_or_anon(cs[idx]) == k {
            Some(idx)
        } else {
            spec_last_included(ast, config, cs.take(idx), k)
        }),
{
    assert(cs.take(idx + 1).last() == cs[idx]);
    assert(cs.take(idx + 1).drop_last() =~= cs.take(idx));
}

/// A found index is in range, included, and carries the key.
pub proof fn lemma_last_included_some(ast: Ast, config: Config, cs: Seq<usize>, k: Seq<char>)
    ensures
        spec_last_included(ast, config, cs, k) matches Some(j) ==> 0 <= j < cs.len()
            && child_included(ast, config, cs[j]) && ast.spec_name_or_anon(cs[j]) == k,
    decreases cs.len(),
{
    if cs.len() > 0 {
        if !(child_included(ast, config, cs.last()) && ast.spec_name_or_anon(cs.last()) == k) {
            lemma_last_included_some(ast, config, cs.drop_last(), k);
            match spec_last_included(ast, config, cs.drop_last(), k) {
                Some(j) => {
                    assert(cs.drop_last()[j] == cs[j]);
                },
                None => {},
            }
        }
    }
}

/// What the loading of a scope guarantees about the entry under `k`, given
/// the scope's children: a key is present iff some included child carries
/// it (for the root, after cleaning, an empty namespace entry may be gone);
/// a key whose last included child is a function or classlike holds exactly
/// that child's item; one whose last included child is a namespace holds a
/// namespace.
pub open spec fn loaded_entry_ok(
    ast: Ast,
    config: Config,
    cs: Seq<usize>,
    mm: Map<Seq<char>, CppItem>,
    k: Seq<char>,
) -> bool {
    match spec_last_included(ast, config, cs, k) {
        None => !mm.contains_key(k),
        Some(j) => {
            let c = cs[j];
            match spec_classify(ast.nodes@[c as int].kind) {
                Some(CppItemKind::Function) => mm.contains_key(k) && mm[k]
                    == CppItem::Function(FunctionItem { entity: c }),
                Some(CppItemKind::Class) => mm.contains_key(k) && mm[k] == CppItem::Class(
                    ClassLike { entity: c },
                ),
                Some(CppItemKind::Struct) => mm.contains_key(k) && mm[k] == CppItem::Struct(
                    ClassLike { entity: c },
                ),
                Some(CppItemKind::Namespace) => mm.contains_key(k) && mm[k] is Namespace
                    && ast.spec_name_view(mm[k]->Namespace_0.entity) == Some(k),
                None => false,
            }
        },
    }
}

/// Whether some configured ignore pattern matches either name form.
fn ignored_x(config: &Config, full: &String, name: &String) -> (r: bool)
    ensures
        r == spec_ignored(*config, full@, name@),
{
    let ig = match &config.ignore {
        None => { return false },
        Some(ig) => ig,
    };
    proof {
        assert(config.ignore->Some_0 == *ig);
    }
    let nf = ig.patterns_full.len();
    let mut i: usize = 0;
    while i < nf
        invariant
            config.ignore is Some,
            config.ignore->Some_0 == *ig,
            nf == config.ignore->Some_0.patterns_full@.len(),
            i <= nf,
            forall|j: int| 0 <= j < i ==> !crate::text::contains_seq(
                full@,
                (#[trigger] config.ignore->Some_0.patterns_full@[j])@,
            ),
        decreases nf - i,
    {
        if crate::text::str_contains(full.as_str(), ig.patterns_full[i].as_str()) {
            proof {
                let wi = i as int;
                assert(crate::text::contains_seq(
                    full@,
                    (config.ignore->Some_0.patterns_full@[wi])@,
                ));
            }
            return true;
        }
        i += 1;
    }
    let nn = ig.patterns_name.len();
    let mut j: usize = 0;
    while j < nn
        invariant
            config.ignore is Some,
            config.ignore->Some_0 == *ig,
            nn == config.ignore->Some_0.patterns_name@.len(),
            j <= nn,
            forall|t: int| 0 <= t < config.ignore->Some_0.patterns_full@.len()
                ==> !crate::text::contains_seq(
                full@,
                (#[trigger] config.ignore->Some_0.patterns_full@[t])@,
            ),
            forall|t: int| 0 <= t < j ==> !crate::text::contains_seq(
                name@,
                (#[trigger] config.ignore->Some_0.patterns_name@[t])@,
            ),
        decreases nn - j,
    {
        if crate::text::str_contains(name.as_str(), ig.patterns_name[j].as_str()) {
            proof {
                let wj = j as int;
                assert(crate::text::contains_seq(
                    name@,
                    (config.ignore->Some_0.patterns_name@[wj])@,
                ));
            }
            return true;
        }
        j += 1;
    }
    false
}

/// Applies the filtering rules to child `c`, appending a warning when the
/// name looks like a compiler-internal identifier.
fn child_included_x(ast: &Ast, config: &Config, c: usize, diag: &mut Vec<String>) -> (r: bool)
    requires
        ast.wf(),
        c < ast.nodes@.len(),
    ensures
        r == child_included(*ast, *config, c),
        old(diag)@.is_prefix_of(final(diag)@),
{
    let name = match &ast.nodes[c].name {
        None => { return false },
        Some(s) => String::clone(s),
    };
    if ast.nodes[c].in_system_header {
        match ast.get_allowed_external_lib(c, config) {
            None => { return false },
            Some(_) => {},
        }
    }
    let full = ast.full_name_string(c);
    if crate::text::str_starts_with(full.as_str(), "std::") {
        return false;
    }
    if crate::text::str_contains(name.as_str(), "deduction guide for") {
        return false;
    }
    if crate::text::str_contains(name.as_str(), "unnamed ") {
        return false;
    }
    let nl = name.as_str().unicode_len();
    if nl > 0 {
        let c0 = name.as_str().get_char(0);
        if c0 == '(' || c0 == ')' || c0 == '<' || c0 == '>' || c0 == '[' || c0 == ']' {
            let msg = full.concat(" is probably an internal identifier, skipping");
            diag.push(msg);
            return false;
        }
    }
    if ignored_x(config, &full, &name) {
        return false;
    }
    match CppItemKind::from(ast.nodes[c].kind) {
        None => false,
        Some(CppItemKind::Class) => ast.nodes[c].is_definition,
        Some(CppItemKind::Struct) => ast.nodes[c].is_definition,
        Some(_) => true,
    }
}

/// What one key of the root's entry map guarantees after loading and
/// cleaning: every key comes from its last included child; function and
/// classlike entries are exactly that child's item; a namespace entry (one
/// may have been cleaned away) is a namespace named by the key.
pub open spec fn cleaned_entry_ok(
    ast: Ast,
    config: Config,
    cs: Seq<usize>,
    mm: Map<Seq<char>, CppItem>,
    k: Seq<char>,
) -> bool {
    match spec_last_included(ast, config, cs, k) {
        None => !mm.contains_key(k),
        Some(j) => {
            let c = cs[j];
            match spec_classify(ast.nodes@[c as int].kind) {
                Some(CppItemKind::Function) => mm.contains_key(k) && mm[k]
                    == CppItem::Function(FunctionItem { entity: c }),
                Some(CppItemKind::Class) => mm.contains_key(k) && mm[k] == CppItem::Class(
                    ClassLike { entity: c },
                ),
                Some(CppItemKind::Struct) => mm.contains_key(k) && mm[k] == CppItem::Struct(
                    ClassLike { entity: c },
                ),
                Some(CppItemKind::Namespace) => mm.contains_key(k) ==> (mm[k] is Namespace
                    && ast.spec_name_view(mm[k]->Namespace_0.entity) == Some(k)),
                None => false,
            }
        },
    }
}

/// Builds the subtree of scope `entity`: filters and classifies each child,
/// recursing into namespaces and merging same-named namespace fragments.
fn load_ns(ast: &Ast, entity: usize, config: &Config, is_root: bool, diag: &mut Vec<String>) -> (r:
    Namespace)
    requires
        ast.wf(),
        entity < ast.nodes@.len(),
    ensures
        r.entity == entity,
        r.is_root == is_root,
        ns_keys_wf(r),
        ns_bounded(r, ast.nodes@.len()),
        forall|k: Seq<char>| #[trigger] loaded_entry_ok(
            *ast,
            *config,
            ast.nodes@[entity as int].children@,
            entries_map(r.entries@),
            k,
        ),
        old(diag)@.is_prefix_of(final(diag)@),
    decreases ast.nodes@.len() - entity,
{
    let ghost n = ast.nodes@.len();
    let ghost cs = ast.nodes@[entity as int].children@;
    let ghost d0 = diag@;
    let mut entries: Vec<(String, CppItem)> = Vec::new();
    let nc = ast.nodes[entity].children.len();
    let mut idx: usize = 0;
    proof {
        assert(cs.take(0) =~= Seq::<usize>::empty());
    }
    while idx < nc
        invariant
            ast.wf(),
            entity < n,
            n == ast.nodes@.len(),
            cs == ast.nodes@[entity as int].children@,
            nc == cs.len(),
            idx <= nc,
            unique_keys(entries@),
            forall|j: int| 0 <= j < entries@.len() ==> item_keys_wf(
                (#[trigger] entries@[j]).1,
            ),
            forall|j: int| 0 <= j < entries@.len() ==> item_bounded(
                (#[trigger] entries@[j]).1,
                n,
            ),
            forall|k: Seq<char>|
                #[trigger] entries_map(entries@).contains_key(k) && entries_map(entries@)[k]
                    is Namespace ==> ast.spec_name_view(
                    entries_map(entries@)[k]->Namespace_0.entity,
                ) == Some(k),
            forall|k: Seq<char>| #[trigger] loaded_entry_ok(
                *ast,
                *config,
                cs.take(idx as int),
                entries_map(entries@),
                k,
            ),
            d0.is_prefix_of(diag@),
        decreases nc - idx,
    {
        let c = ast.nodes[entity].children[idx];
        proof {
            assert(cs[idx as int] == c);
            assert(entity < c && c < n);
            assert(cs.take(idx + 1).last() == c);
            assert(cs.take(idx + 1).drop_last() =~= cs.take(idx as int));
        }
        let ghost mm0 = entries_map(entries@);
        let inc = child_included_x(ast, config, c, diag);
        if !inc {
            proof {
                assert forall|k: Seq<char>| #[trigger] loaded_entry_ok(
                    *ast,
                    *config,
                    cs.take(idx + 1),
                    entries_map(entries@),
                    k,
                ) by {
                    assert(loaded_entry_ok(*ast, *config, cs.take(idx as int), mm0, k));
                    lemma_last_included_step(*ast, *config, cs, idx as int, k);
                    lemma_last_included_some(*ast, *config, cs.take(idx as int), k);
                    lemma_last_included_some(*ast, *config, cs.take(idx + 1), k);
                }
            }
        } else {
            let name = match &ast.nodes[c].name {
                Some(s) => String::clone(s),
                None => {
                    proof {
                        assert(false);
                    }
                    String::new()
                },
            };
            let ghost k = name@;
            proof {
                assert(k == ast.spec_name_or_anon(c));
            }
            let kind = match CppItemKind::from(ast.nodes[c].kind) {
                Some(kind) => kind,
                None => {
                    proof {
                        assert(false);
                    }
                    CppItemKind::Function
                },
            };
            match kind {
                CppItemKind::Function => {
                    crate::entries::entries_insert(
                        &mut entries,
                        name,
                        CppItem::Function(FunctionItem { entity: c }),
                    );
                },
                CppItemKind::Class => {
                    crate::entries::entries_insert(
                        &mut entries,
                        name,
                        CppItem::Class(ClassLike { entity: c }),
                    );
                },
                CppItemKind::Struct => {
                    crate::entries::entries_insert(
                        &mut entries,
                        name,
                        CppItem::Struct(ClassLike { entity: c }),
                    );
                },
                CppItemKind::Namespace => {
                    let sub = load_ns(ast, c, config, false, diag);
                    let target = crate::entries::entries_find(&entries, name.as_str());
                    let is_ns_target = match target {
                        Some(j) => (match &entries[j].1 {
                            CppItem::Namespace(_) => true,
                            _ => false,
                        }),
                        None => false,
                    };
                    if is_ns_target {
                        let j = match target {
                            Some(j) => j,
                            None => 0,
                        };
                        proof {
                            crate::entries::lemma_entries_map_index(entries@, j as int);
                        }
                        let ghost e0 = entries@;
                        let pair = entries.remove(j);
                        proof {
                            crate::entries::lemma_entries_map_remove(e0, j as int);
                        }
                        let ghost e1 = entries@;
                        let tname = pair.0;
                        match pair.1 {
                            CppItem::Namespace(mut t) => {
                                t.merge_with_namespace(sub, ast);
                                let ghost zi = CppItem::Namespace(t);
                                entries.push((tname, CppItem::Namespace(t)));
                                proof {
                                    crate::entries::lemma_entries_map_push(
                                        e1,
                                        entries@.last().0,
                                        zi,
                                    );
                                    assert(entries@.last().0@ == k);
                                    assert(entries_map(entries@) =~= mm0.insert(k, zi));
                                    crate::entries::lemma_entries_map_contains(e1, k);
                                    assert forall|x: int, y: int|
                                        0 <= x < y < entries@.len() implies (
                                    #[trigger] entries@[x]).0@ != (#[trigger] entries@[y]).0@ by {
                                        assert(entries@[x] == e1[x]);
                                        if y < entries@.len() - 1 {
                                            assert(entries@[y] == e1[y]);
                                        }
                                    }
                                    assert forall|i: int|
                                        0 <= i < entries@.len() implies item_keys_wf(
                                        (#[trigger] entries@[i]).1,
                                    ) && item_bounded((#[trigger] entries@[i]).1, n) by {
                                        if i < entries@.len() - 1 {
                                            assert(entries@[i] == e1[i]);
                                            let si = if i < j as int {
                                                i
                                            } else {
                                                i + 1
                                            };
                                            assert(e1[i] == e0[si]);
                                        }
                                    }
                                }
                            },
                            _ => {
                                proof {
                                    assert(false);
                                }
                            },
                        }
                    } else {
                        proof {
                            match target {
                                Some(j) => {
                                    crate::entries::lemma_entries_map_index(
                                        entries@,
                                        j as int,
                                    );
                                    assert(!(mm0[k] is Namespace));
                                },
                                None => {
                                    crate::entries::lemma_entries_map_contains(entries@, k);
                                    assert(!mm0.contains_key(k));
                                },
                            }
                        }
                        crate::entries::entries_insert(
                            &mut entries,
                            name,
                            CppItem::Namespace(sub),
                        );
                    }
                },
            }
            proof {
                let mmn = entries_map(entries@);
                assert(mmn.contains_key(k));
                assert forall|kk: Seq<char>|
                    #[trigger] mmn.contains_key(kk) && mmn[kk] is Namespace implies ast.spec_name_view(
                    mmn[kk]->Namespace_0.entity,
                ) == Some(kk) by {
                    if kk != k {
                        assert(mm0.contains_key(kk) && mm0[kk] == mmn[kk]);
                    }
                }
                assert forall|kk: Seq<char>| #[trigger] loaded_entry_ok(
                    *ast,
                    *config,
                    cs.take(idx + 1),
                    mmn,
                    kk,
                ) by {
                    assert(loaded_entry_ok(*ast, *config, cs.take(idx as int), mm0, kk));
                    lemma_last_included_step(*ast, *config, cs, idx as int, kk);
                    lemma_last_included_some(*ast, *config, cs.take(idx as int), kk);
                    lemma_last_included_some(*ast, *config, cs.take(idx + 1), kk);
                    if kk != k {
                        assert(mmn.contains_key(kk) == mm0.contains_key(kk));
                        if mmn.contains_key(kk) {
                            assert(mmn[kk] == mm0[kk]);
                        }
                    } else {
                        assert(spec_last_included(*ast, *config, cs.take(idx + 1), k) == Some(
                            idx as int,
                        ));
                        assert(cs.take(idx + 1)[idx as int] == c);
                        assert(mmn.contains_key(k) && mmn[k] is Namespace
                            ==> ast.spec_name_view(mmn[k]->Namespace_0.entity) == Some(k));
                    }
                }
            }
        }
        idx += 1;
    }
    let r = Namespace { entity, is_root, entries };
    proof {
        assert(cs.take(nc as int) =~= cs);
    }
    r
}

impl Namespace {
    /// Builds the namespace subtree rooted at scope `entity`.
    pub fn new(ast: &Ast, entity: usize, config: &Config, diag: &mut Vec<String>) -> (r:
        Namespace)
        requires
            ast.wf(),
            entity < ast.nodes@.len(),
        ensures
            r.entity == entity,
            !r.is_root,
            ns_keys_wf(r),
            ns_bounded(r, ast.nodes@.len()),
            forall|k: Seq<char>| #[trigger] loaded_entry_ok(
                *ast,
                *config,
                ast.nodes@[entity as int].children@,
                entries_map(r.entries@),
                k,
            ),
            old(diag)@.is_prefix_of(final(diag)@),
    {
        load_ns(ast, entity, config, false, diag)
    }

    /// Builds the whole tree from the root scope, then cleans empty
    /// namespaces away; the root itself always remains.
    pub fn new_root(ast: &Ast, entity: usize, config: &Config, diag: &mut Vec<String>) -> (r:
        Namespace)
        requires
            ast.wf(),
            entity < ast.nodes@.len(),
        ensures
            r.entity == entity,
            r.is_root,
            ns_keys_wf(r),
            ns_bounded(r, ast.nodes@.len()),
            no_empty_ns(r),
            forall|k: Seq<char>| #[trigger] cleaned_entry_ok(
                *ast,
                *config,
                ast.nodes@[entity as int].children@,
                entries_map(r.entries@),
                k,
            ),
            old(diag)@.is_prefix_of(final(diag)@),
    {
        let mut r = load_ns(ast, entity, config, true, diag);
        let ghost pre = r;
        r.clean_empty_namespaces(ast, diag);
        proof {
            lemma_cleaned_no_empty(r, pre);
            let cs = ast.nodes@[entity as int].children@;
            let pm = entries_map(pre.entries@);
            let mm = entries_map(r.entries@);
            assert forall|k: Seq<char>| #[trigger] cleaned_entry_ok(
                *ast,
                *config,
                cs,
                mm,
                k,
            ) by {
                assert(loaded_entry_ok(*ast, *config, cs, pm, k));
                lemma_last_included_some(*ast, *config, cs, k);
                assert(mm.contains_key(k) ==> pm.contains_key(k));
                if pm.contains_key(k) {
                    crate::entries::lemma_entries_map_contains(pre.entries@, k);
                    let i = choose|i: int|
                        0 <= i < pre.entries@.len() && (#[trigger] pre.entries@[i]).0@ == k;
                    crate::entries::lemma_entries_map_index(pre.entries@, i);
                    assert(pre.entries@[i].1 == pm[k]);
                    let oi = pre.entries@[i].1;
                    if !(oi is Namespace) {
                        assert(mm.contains_key(k) && mm[k] == oi);
                    } else {
                        if hereditarily_empty(oi->Namespace_0) {
                            assert(!mm.contains_key(k));
                        } else {
                            assert(mm.contains_key(k) && mm[k] is Namespace && ns_cleaned(
                                mm[k]->Namespace_0,
                                oi->Namespace_0,
                            ));
                            assert(mm[k]->Namespace_0.entity == oi->Namespace_0.entity);
                        }
                    }
                }
            }
        }
        r
    }
}

impl CppItem {
    /// The category this entry belongs to.
    pub open spec fn spec_kind(&self) -> CppItemKind {
        match self {
            CppItem::Namespace(_) => CppItemKind::Namespace,
            CppItem::Class(_) => CppItemKind::Class,
            CppItem::Struct(_) => CppItemKind::Struct,
            CppItem::Function(_) => CppItemKind::Function,
        }
    }

    /// The arena node this entry documents.
    pub open spec fn spec_entity(&self) -> usize {
        match self {
            CppItem::Namespace(ns) => ns.entity,
            CppItem::Class(c) => c.entity,
            CppItem::Struct(c) => c.entity,
            CppItem::Function(f) => f.entity,
        }
    }

    /// The arena node this entry documents.
    pub fn entity(&self) -> (r: usize)
        ensures
            r == self.spec_entity(),
    {
        match self {
            CppItem::Namespace(ns) => ns.entity,
            CppItem::Class(c) => c.entity,
            CppItem::Struct(c) => c.entity,
            CppItem::Function(f) => f.entity,
        }
    }

    /// The lowercase category word used in page descriptions.
    pub open spec fn spec_category(&self) -> Seq<char> {
        match self {
            CppItem::Namespace(_) => "namespace"@,
            CppItem::Class(_) => "class"@,
            CppItem::Struct(_) => "struct"@,
            CppItem::Function(_) => "function"@,
        }
    }

    /// The lowercase category word used in page descriptions.
    pub fn category(&self) -> (r: &'static str)
        ensures
            r@ == self.spec_category(),
    {
        match self {
            CppItem::Namespace(_) => "namespace",
            CppItem::Class(_) => "class",
            CppItem::Struct(_) => "struct",
            CppItem::Function(_) => "function",
        }
    }

    /// The display name of this entry.
    pub open spec fn spec_name(&self, ast: Ast) -> Seq<char> {
        match self {
            CppItem::Namespace(ns) => match ast.nodes@[ns.entity as int].name {
                Some(s) => s@,
                None => "<Anonymous namespace>"@,
            },
            _ => ast.spec_name_or_anon(self.spec_entity()),
        }
    }

    /// The display name of this entry.
    pub fn name(&self, ast: &Ast) -> (r: String)
        requires
            item_bounded(*self, ast.nodes@.len()),
        ensures
            r@ == self.spec_name(*ast),
    {
        match self {
            CppItem::Namespace(ns) => match &ast.nodes[ns.entity].name {
                Some(s) => String::clone(s),
                None => String::from_str("<Anonymous namespace>"),
            },
            _ => {
                let e = self.entity();
                match &ast.nodes[e].name {
                    Some(s) => String::clone(s),
                    None => String::from_str("_anon"),
                }
            },
        }
    }
}

} // verus!
