//! Reverse cross-references over the finished tree: which classlike entries
//! derive from a given entity.

use vstd::prelude::*;
use vstd::string::*;
use crate::ast::Ast;
use crate::ast::EntityKind;
use crate::namespace::CppItem;
use crate::namespace::Namespace;
use crate::namespace::item_bounded;
use crate::namespace::ns_bounded;
use crate::text::lex_le;
use crate::text::str_lex_le;

verus! {

/// The classlike entity ids of an item, in tree order.
pub open spec fn item_classlikes(it: CppItem) -> Seq<usize>
    decreases it,
{
    match it {
        CppItem::Namespace(ns) => entries_classlikes(ns.entries@),
        CppItem::Class(c) => seq![c.entity],
        CppItem::Struct(c) => seq![c.entity],
        CppItem::Function(_) => Seq::empty(),
    }
}

/// The classlike entity ids under an entry list, in tree order.
pub open spec fn entries_classlikes(s: Seq<(String, CppItem)>) -> Seq<usize>
    decreases s,
{
    if s.len() == 0 {
        Seq::empty()
    } else {
        entries_classlikes(s.drop_last()) + item_classlikes(s.last().1)
    }
}

/// Classlike ids under a bounded list point into the arena.
pub proof fn lemma_entries_classlikes_bounded(s: Seq<(String, CppItem)>, n: nat)
    requires
        forall|i: int| 0 <= i < s.len() ==> item_bounded((#[trigger] s[i]).1, n),
    ensures
        forall|j: int| 0 <= j < entries_classlikes(s).len() ==> #[trigger] entries_classlikes(
            s,
        )[j] < n,
    decreases s,
{
    if s.len() > 0 {
        assert(forall|i: int|
            0 <= i < s.drop_last().len() ==> item_bounded((#[trigger] s.drop_last()[i]).1, n));
        lemma_entries_classlikes_bounded(s.drop_last(), n);
        lemma_item_classlikes_bounded(s.last().1, n);
        assert(item_bounded(s[s.len() - 1].1, n));
        assert forall|j: int|
            0 <= j < entries_classlikes(s).len() implies #[trigger] entries_classlikes(s)[j]
            < n by {
            let pre = entries_classlikes(s.drop_last());
            if j < pre.len() {
                assert(entries_classlikes(s)[j] == pre[j]);
            } else {
                assert(entries_classlikes(s)[j] == item_classlikes(s.last().1)[j - pre.len()]);
            }
        }
    }
}

/// Classlike ids of a bounded item point into the arena.
pub proof fn lemma_item_classlikes_bounded(it: CppItem, n: nat)
    requires
        item_bounded(it, n),
    ensures
        forall|j: int| 0 <= j < item_classlikes(it).len() ==> #[trigger] item_classlikes(it)[j]
            < n,
    decreases it,
{
    match it {
        CppItem::Namespace(ns) => {
            lemma_entries_classlikes_bounded(ns.entries@, n);
            assert forall|j: int| 0 <= j < item_classlikes(it).len() implies #[trigger] item_classlikes(
                it,
            )[j] < n by {
                assert(item_classlikes(it)[j] == entries_classlikes(ns.entries@)[j]);
            }
        },
        _ => {},
    }
}

/// Appends the classlike entity ids of `it` to `out`.
fn item_classes_into(it: &CppItem, out: &mut Vec<usize>)
    ensures
        final(out)@ == old(out)@ + item_classlikes(*it),
    decreases *it,
{
    match it {
        CppItem::Namespace(ns) => {
            let ghost base = out@;
            let n = ns.entries.len();
            let mut i: usize = 0;
            proof {
                assert(ns.entries@.take(0) =~= Seq::<(String, CppItem)>::empty());
                assert(base + entries_classlikes(ns.entries@.take(0)) =~= base);
            }
            while i < n
                invariant
                    *it is Namespace,
                    it->Namespace_0 == *ns,
                    n == ns.entries@.len(),
                    i <= n,
                    out@ == base + entries_classlikes(ns.entries@.take(i as int)),
                decreases n - i,
            {
                proof {
                    assert(decreases_to!(*it => *ns));
                    assert(decreases_to!(*ns => ns.entries));
                    assert(decreases_to!(ns.entries => ns.entries@[i as int].1));
                }
                item_classes_into(&ns.entries[i].1, out);
                i += 1;
                proof {
                    let t = ns.entries@.take(i as int);
                    assert(t.drop_last() =~= ns.entries@.take(i - 1));
                    assert(t.last() == ns.entries@[i - 1]);
                    assert(out@ =~= base + entries_classlikes(t));
                }
            }
            proof {
                assert(ns.entries@.take(n as int) =~= ns.entries@);
            }
        },
        CppItem::Class(c) => {
            out.push(c.entity);
            proof {
                assert(out@ =~= old(out)@ + item_classlikes(*it));
            }
        },
        CppItem::Struct(c) => {
            out.push(c.entity);
            proof {
                assert(out@ =~= old(out)@ + item_classlikes(*it));
            }
        },
        CppItem::Function(_) => {
            proof {
                assert(out@ =~= old(out)@ + item_classlikes(*it));
            }
        },
    }
}

/// Every classlike entry in the tree, in tree order.
pub fn get_all_classes(root: &Namespace) -> (r: Vec<usize>)
    ensures
        r@ == entries_classlikes(root.entries@),
{
    let mut out: Vec<usize> = Vec::new();
    let n = root.entries.len();
    let mut i: usize = 0;
    proof {
        assert(root.entries@.take(0) =~= Seq::<(String, CppItem)>::empty());
        assert(out@ =~= entries_classlikes(root.entries@.take(0)));
    }
    while i < n
        invariant
            n == root.entries@.len(),
            i <= n,
            out@ == entries_classlikes(root.entries@.take(i as int)),
        decreases n - i,
    {
        item_classes_into(&root.entries[i].1, &mut out);
        i += 1;
        proof {
            let t = root.entries@.take(i as int);
            assert(t.drop_last() =~= root.entries@.take(i - 1));
            assert(t.last() == root.entries@[i - 1]);
            assert(out@ =~= entries_classlikes(t));
        }
    }
    proof {
        assert(root.entries@.take(n as int) =~= root.entries@);
    }
    out
}

/// `c` declares a base whose resolved declaration has `target`'s unique
/// symbol id, irrespective of access specifier or virtual inheritance.
pub open spec fn spec_derives(ast: Ast, c: usize, target: usize) -> bool {
    exists|j: int|
        {
            &&& 0 <= j < ast.nodes@[c as int].children@.len()
            &&& {
                let ch = #[trigger] ast.nodes@[c as int].children@[j];
                &&& ast.nodes@[ch as int].kind is BaseSpecifier
                &&& ast.nodes@[ch as int].type_decl matches Some(d)
                &&& ast.nodes@[d as int].usr == ast.nodes@[target as int].usr
            }
        }
}

/// Whether `c` declares a base resolving to `target`.
fn derives_x(ast: &Ast, c: usize, target: usize) -> (r: bool)
    requires
        ast.wf(),
        c < ast.nodes@.len(),
        target < ast.nodes@.len(),
    ensures
        r == spec_derives(*ast, c, target),
{
    let n = ast.nodes[c].children.len();
    let mut j: usize = 0;
    while j < n
        invariant
            ast.wf(),
            c < ast.nodes@.len(),
            target < ast.nodes@.len(),
            n == ast.nodes@[c as int].children@.len(),
            j <= n,
            forall|t: int|
                0 <= t < j ==> {
                    let ch = #[trigger] ast.nodes@[c as int].children@[t];
                    !(ast.nodes@[ch as int].kind is BaseSpecifier
                        && (ast.nodes@[ch as int].type_decl matches Some(d)
                        && ast.nodes@[d as int].usr == ast.nodes@[target as int].usr))
                },
        decreases n - j,
    {
        let ch = ast.nodes[c].children[j];
        let is_base = match ast.nodes[ch].kind {
            EntityKind::BaseSpecifier => true,
            _ => false,
        };
        if is_base {
            match ast.nodes[ch].type_decl {
                Some(d) => {
                    if ast.nodes[d].usr == ast.nodes[target].usr {
                        return true;
                    }
                },
                None => {},
            }
        }
        j += 1;
    }
    false
}

/// The simple-name sort key used for the derived-class listing.
pub open spec fn spec_sort_name(ast: Ast, c: usize) -> Seq<char> {
    match ast.nodes@[c as int].name {
        Some(s) => s@,
        None => "_"@,
    }
}

/// The name sort key of `c`.
fn sort_name_x(ast: &Ast, c: usize) -> (r: String)
    requires
        c < ast.nodes@.len(),
    ensures
        r@ == spec_sort_name(*ast, c),
{
    match &ast.nodes[c].name {
        Some(s) => String::clone(s),
        None => String::from_str("_"),
    }
}

/// The classlike entries of the finished tree whose declared base list
/// resolves by unique symbol id to `target` — exactly those, irrespective
/// of access specifier or virtual-inheritance flag — sorted ascending by
/// simple name.
pub fn derived_classes(ast: &Ast, root: &Namespace, target: usize) -> (r: Vec<usize>)
    requires
        ast.wf(),
        target < ast.nodes@.len(),
        ns_bounded(*root, ast.nodes@.len()),
    ensures
        r@.to_multiset() == entries_classlikes(root.entries@).filter(
            |c: usize| spec_derives(*ast, c, target),
        ).to_multiset(),
        forall|x: int, y: int|
            0 <= x < y < r@.len() ==> lex_le(
                spec_sort_name(*ast, r@[x]),
                spec_sort_name(*ast, r@[y]),
            ),
        forall|x: int| 0 <= x < r@.len() ==> #[trigger] r@[x] < ast.nodes@.len(),
    {
    broadcast use vstd::seq_lib::group_to_multiset_ensures;

    let ghost pred = |c: usize| spec_derives(*ast, c, target);
    let all = get_all_classes(root);
    proof {
        lemma_entries_classlikes_bounded(root.entries@, ast.nodes@.len());
    }
    let n = all.len();
    let mut flt: Vec<usize> = Vec::new();
    let mut i: usize = 0;
    proof {
        reveal(Seq::filter);
        assert(all@.take(0) =~= Seq::<usize>::empty());
        assert(flt@ =~= all@.take(0).filter(pred));
    }
    while i < n
        invariant
            ast.wf(),
            target < ast.nodes@.len(),
            n == all@.len(),
            i <= n,
            all@ == entries_classlikes(root.entries@),
            forall|j: int| 0 <= j < all@.len() ==> #[trigger] all@[j] < ast.nodes@.len(),
            pred == (|c: usize| spec_derives(*ast, c, target)),
            flt@ == all@.take(i as int).filter(pred),
            forall|j: int| 0 <= j < flt@.len() ==> #[trigger] flt@[j] < ast.nodes@.len(),
        decreases n - i,
    {
        let c = all[i];
        let ghost f0 = flt@;
        if derives_x(ast, c, target) {
            flt.push(c);
        }
        i += 1;
        proof {
            reveal(Seq::filter);
            let t = all@.take(i as int);
            assert(t.drop_last() =~= all@.take(i - 1));
            assert(t.last() == all@[i - 1]);
            if pred(all@[i - 1]) {
                assert(t.filter(pred) =~= t.drop_last().filter(pred).push(t.last()));
            } else {
                assert(t.filter(pred) =~= t.drop_last().filter(pred));
            }
            assert(flt@ =~= t.filter(pred));
        }
    }
    proof {
        assert(all@.take(n as int) =~= all@);
    }
    let m = flt.len();
    let mut out: Vec<usize> = Vec::new();
    let mut t: usize = 0;
    while t < m
        invariant
            ast.wf(),
            m == flt@.len(),
            t <= m,
            forall|j: int| 0 <= j < flt@.len() ==> #[trigger] flt@[j] < ast.nodes@.len(),
            out@.to_multiset() == flt@.take(t as int).to_multiset(),
            forall|x: int, y: int|
                0 <= x < y < out@.len() ==> lex_le(
                    spec_sort_name(*ast, out@[x]),
                    spec_sort_name(*ast, out@[y]),
                ),
            forall|x: int| 0 <= x < out@.len() ==> #[trigger] out@[x] < ast.nodes@.len(),
        decreases m - t,
    {
        let c = flt[t];
        let ck = sort_name_x(ast, c);
        let olen = out.len();
        let mut j: usize = 0;
        loop
            invariant_except_break
                ast.wf(),
                olen == out@.len(),
                j <= olen,
                c < ast.nodes@.len(),
                ck@ == spec_sort_name(*ast, c),
                forall|x: int| 0 <= x < out@.len() ==> #[trigger] out@[x] < ast.nodes@.len(),
                forall|x: int| 0 <= x < j ==> lex_le(
                    spec_sort_name(*ast, out@[x]),
                    spec_sort_name(*ast, c),
                ),
            ensures
                j <= olen,
                olen == out@.len(),
                forall|x: int| 0 <= x < j ==> lex_le(
                    spec_sort_name(*ast, out@[x]),
                    spec_sort_name(*ast, c),
                ),
                j < olen ==> !lex_le(spec_sort_name(*ast, out@[j as int]), spec_sort_name(*ast, c)),
            decreases olen - j,
        {
            if j >= olen {
                break;
            }
            let ok = sort_name_x(ast, out[j]);
            if !str_lex_le(ok.as_str(), ck.as_str()) {
                break;
            }
            j += 1;
        }
        let ghost o0 = out@;
        out.insert(j, c);
        t += 1;
        proof {
            assert(out@ == o0.insert(j as int, c));
            vstd::seq_lib::to_multiset_insert::<usize>(o0, j as int, c);
            let tt = flt@.take(t as int);
            assert(tt =~= flt@.take(t - 1).push(flt@[t - 1]));
            vstd::seq_lib::to_multiset_build::<usize>(flt@.take(t - 1), flt@[t - 1]);
            assert(out@.to_multiset() =~= tt.to_multiset());
            if (j as int) < o0.len() {
                crate::text::lemma_lex_le_total(spec_sort_name(*ast, o0[j as int]), ck@);
                assert(lex_le(ck@, spec_sort_name(*ast, o0[j as int])));
            }
            assert forall|x: int, y: int| 0 <= x < y < out@.len() implies lex_le(
                spec_sort_name(*ast, out@[x]),
                spec_sort_name(*ast, out@[y]),
            ) by {
                if x < j as int && y == j as int {
                    assert(out@[x] == o0[x]);
                } else if x == j as int && y > j as int {
                    assert(out@[y] == o0[y - 1]);
                    assert(lex_le(ck@, spec_sort_name(*ast, o0[j as int])));
                    if y - 1 > j as int {
                        crate::text::lemma_lex_le_trans(
                            ck@,
                            spec_sort_name(*ast, o0[j as int]),
                            spec_sort_name(*ast, o0[y - 1]),
                        );
                    }
                } else if x < j as int && y > j as int {
                    assert(out@[x] == o0[x]);
                    assert(out@[y] == o0[y - 1]);
                } else if x < j as int && y < j as int {
                    assert(out@[x] == o0[x]);
                    assert(out@[y] == o0[y]);
                } else if x > j as int && y > j as int {
                    assert(out@[x] == o0[x - 1]);
                    assert(out@[y] == o0[y - 1]);
                }
            }
        }
    }
    proof {
        assert(flt@.take(m as int) =~= flt@);
    }
    out
}

} // verus!
