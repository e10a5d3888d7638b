//! Render orchestration, as pure decisions: the per-tree plan of render
//! tasks, and the fail-fast aggregation of their results. Running the tasks
//! concurrently and performing the writes is the caller's business; each
//! task's result is either the rendered node's URL or an error string.

use vstd::prelude::*;
use crate::namespace::CppItem;
use crate::namespace::Namespace;
use crate::url::UrlPath;

verus! {

/// The entities of the subtree, one render task each, in tree order.
pub open spec fn item_tasks(it: CppItem) -> Seq<usize>
    decreases it,
{
    match it {
        CppItem::Namespace(ns) => seq![ns.entity] + entries_tasks(ns.entries@),
        _ => seq![it.spec_entity()],
    }
}

/// The render tasks under an entry list, in tree order.
pub open spec fn entries_tasks(s: Seq<(String, CppItem)>) -> Seq<usize>
    decreases s,
{
    if s.len() == 0 {
        Seq::empty()
    } else {
        entries_tasks(s.drop_last()) + item_tasks(s.last().1)
    }
}

/// Appends the render tasks of `it` to `out`.
fn tasks_into(it: &CppItem, out: &mut Vec<usize>)
    ensures
        final(out)@ == old(out)@ + item_tasks(*it),
    decreases *it,
{
    let e = it.entity();
    out.push(e);
    match it {
        CppItem::Namespace(ns) => {
            let ghost base = out@;
            let n = ns.entries.len();
            let mut i: usize = 0;
            proof {
                assert(ns.entries@.take(0) =~= Seq::<(String, CppItem)>::empty());
                assert(base + entries_tasks(ns.entries@.take(0)) =~= base);
            }
            while i < n
                invariant
                    *it is Namespace,
                    it->Namespace_0 == *ns,
                    n == ns.entries@.len(),
                    i <= n,
                    out@ == base + entries_tasks(ns.entries@.take(i as int)),
                decreases n - i,
            {
                proof {
                    assert(decreases_to!(*it => *ns));
                    assert(decreases_to!(*ns => ns.entries));
                    assert(decreases_to!(ns.entries => ns.entries@[i as int].1));
                }
                tasks_into(&ns.entries[i].1, out);
                i += 1;
                proof {
                    let t = ns.entries@.take(i as int);
                    assert(t.drop_last() =~= ns.entries@.take(i - 1));
                    assert(t.last() == ns.entries@[i - 1]);
                    assert(out@ =~= base + entries_tasks(t));
                }
            }
            proof {
                assert(ns.entries@.take(n as int) =~= ns.entries@);
                assert(out@ =~= old(out)@ + item_tasks(*it));
            }
        },
        _ => {
            proof {
                assert(out@ =~= old(out)@ + item_tasks(*it));
            }
        },
    }
}

impl CppItem {
    /// The render plan of this entry's subtree: one task per node.
    pub fn build(&self) -> (r: Vec<usize>)
        ensures
            r@ == item_tasks(*self),
    {
        let mut out: Vec<usize> = Vec::new();
        tasks_into(self, &mut out);
        out
    }
}

impl Namespace {
    /// The render plan of the whole tree: this namespace, then one task per
    /// node of each entry's subtree, in tree order.
    pub fn build(&self) -> (r: Vec<usize>)
        ensures
            r@ == seq![self.entity] + entries_tasks(self.entries@),
    {
        let mut out: Vec<usize> = Vec::new();
        out.push(self.entity);
        let ghost base = out@;
        let n = self.entries.len();
        let mut i: usize = 0;
        proof {
            assert(self.entries@.take(0) =~= Seq::<(String, CppItem)>::empty());
            assert(base + entries_tasks(self.entries@.take(0)) =~= base);
        }
        while i < n
            invariant
                n == self.entries@.len(),
                i <= n,
                base == seq![self.entity],
                out@ == base + entries_tasks(self.entries@.take(i as int)),
            decreases n - i,
        {
            tasks_into(&self.entries[i].1, &mut out);
            i += 1;
            proof {
                let t = self.entries@.take(i as int);
                assert(t.drop_last() =~= self.entries@.take(i - 1));
                assert(t.last() == self.entries@[i - 1]);
                assert(out@ =~= base + entries_tasks(t));
            }
        }
        proof {
            assert(self.entries@.take(n as int) =~= self.entries@);
        }
        out
    }
}

/// The index of the first failed task result, if any.
pub open spec fn spec_first_err(s: Seq<Result<UrlPath, String>>, i: int) -> Option<int>
    decreases s.len() - i,
{
    if i < 0 || i >= s.len() {
        None
    } else if s[i] is Err {
        Some(i)
    } else {
        spec_first_err(s, i + 1)
    }
}

/// Aggregates the render results: if any task failed, the whole build fails
/// with the first error in task order; if all succeeded, it yields the
/// complete list of produced URLs, in order.
#[verifier::loop_isolation(false)]
pub fn aggregate_results(results: Vec<Result<UrlPath, String>>) -> (r: Result<
    Vec<UrlPath>,
    String,
>)
    ensures
        match spec_first_err(results@, 0) {
            Some(i) => r matches Err(e) && e@ == results@[i]->Err_0@,
            None => r matches Ok(urls) && urls@.len() == results@.len() && forall|j: int|
                0 <= j < results@.len() ==> (#[trigger] urls@[j])@ == results@[j]->Ok_0@,
        },
{
    let ghost r0 = results@;
    let mut rest = results;
    let mut urls: Vec<UrlPath> = Vec::new();
    while rest.len() > 0
        invariant
            r0 == results@,
            urls@.len() + rest@.len() == r0.len(),
            rest@ == r0.skip(urls@.len() as int),
            forall|j: int| 0 <= j < urls@.len() ==> (#[trigger] r0[j]) is Ok,
            forall|j: int| 0 <= j < urls@.len() ==> (#[trigger] urls@[j])@ == r0[j]->Ok_0@,
            spec_first_err(r0, 0) == spec_first_err(r0, urls@.len() as int),
        decreases rest@.len(),
    {
        let ghost done = urls@.len() as int;
        let ghost us0 = urls@;
        let item = rest.remove(0);
        proof {
            assert(r0.skip(done)[0] == r0[done]);
            assert(r0.skip(done).remove(0) =~= r0.skip(done + 1));
        }
        match item {
            Ok(u) => {
                urls.push(u);
                proof {
                    assert(r0[done] is Ok);
                    assert(spec_first_err(r0, done) == spec_first_err(r0, done + 1));
                    assert(urls@[done]@ == r0[done]->Ok_0@);
                    assert forall|j: int| 0 <= j < urls@.len() implies (#[trigger] r0[j]) is Ok
                        && (#[trigger] urls@[j])@ == r0[j]->Ok_0@ by {
                        if j < done {
                            assert(urls@[j] == us0[j]);
                        }
                    }
                }
            },
            Err(e) => {
                proof {
                    assert(r0[done] is Err);
                    assert(spec_first_err(r0, done) == Some(done));
                    assert(e@ == r0[done]->Err_0@);
                }
                return Err(e);
            },
        }
    }
    proof {
        assert(urls@.len() == r0.len());
        assert(spec_first_err(r0, urls@.len() as int) is None);
    }
    Ok(urls)
}

} // verus!
