//! Documentation URLs as ordered sequences of path segments.
//!
//! A [`UrlPath`] holds the segments of a relative or absolute URL; its
//! invariant is that no segment is empty. It supports joining, prefix
//! stripping, rendering to a `/`-separated string, and parsing such a string
//! back (empty segments produced by repeated or outer separators are
//! dropped).

use vstd::prelude::*;
use vstd::string::*;
use crate::config::Config;
use crate::text::string_from_chars;
use crate::text::str_to_chars;

verus! {

#[derive(Debug)]
pub struct UrlPath {
    pub parts: Vec<String>,
}

impl View for UrlPath {
    type V = Seq<Seq<char>>;

    open spec fn view(&self) -> Seq<Seq<char>> {
        self.parts.deep_view()
    }
}

/// The segments joined with `/` between them.
pub open spec fn spec_join(parts: Seq<Seq<char>>) -> Seq<char>
    decreases parts.len(),
{
    if parts.len() == 0 {
        Seq::empty()
    } else if parts.len() == 1 {
        parts[0]
    } else {
        spec_join(parts.drop_last()) + seq!['/'] + parts.last()
    }
}

/// The non-empty `/`-separated pieces of `s` from offset `i` onward, with
/// `cur` the piece read so far.
pub open spec fn spec_split_from(s: Seq<char>, i: int, cur: Seq<char>) -> Seq<Seq<char>>
    decreases s.len() - i,
{
    if i < 0 || i >= s.len() {
        if cur.len() > 0 {
            seq![cur]
        } else {
            Seq::empty()
        }
    } else if s[i] == '/' {
        (if cur.len() > 0 {
            seq![cur]
        } else {
            Seq::empty()
        }) + spec_split_from(s, i + 1, Seq::empty())
    } else {
        spec_split_from(s, i + 1, cur.push(s[i]))
    }
}

/// The non-empty `/`-separated pieces of `s`.
pub open spec fn spec_split(s: Seq<char>) -> Seq<Seq<char>> {
    spec_split_from(s, 0, Seq::empty())
}

impl UrlPath {
    /// No segment is empty.
    pub open spec fn wf(&self) -> bool {
        forall|i: int| 0 <= i < self@.len() ==> self@[i].len() > 0
    }

    /// The empty path (the root namespace's URL).
    pub fn new() -> (r: UrlPath)
        ensures
            r@ =~= Seq::<Seq<char>>::empty(),
            r.wf(),
    {
        UrlPath { parts: Vec::new() }
    }

    /// A single-segment path.
    pub fn part(s: &str) -> (r: UrlPath)
        requires
            s@.len() > 0,
        ensures
            r@ =~= seq![s@],
            r.wf(),
    {
        let mut parts: Vec<String> = Vec::new();
        parts.push(String::from_str(s));
        let r = UrlPath { parts };
        proof {
            assert(r@[0] == s@);
        }
        r
    }

    /// A path made of the given segments.
    pub fn new_with_path(parts: Vec<String>) -> (r: UrlPath)
        requires
            forall|i: int| 0 <= i < parts@.len() ==> (#[trigger] parts@[i])@.len() > 0,
        ensures
            r@ == parts.deep_view(),
            r.wf(),
    {
        let r = UrlPath { parts };
        proof {
            assert forall|i: int| 0 <= i < r@.len() implies r@[i].len() > 0 by {
                assert(r@[i] == r.parts@[i]@);
            }
        }
        r
    }

    /// The other path's segments appended to this one's.
    pub fn join(self, other: UrlPath) -> (r: UrlPath)
        ensures
            r@ =~= self@ + other@,
            self.wf() && other.wf() ==> r.wf(),
    {
        let ghost sv = self@;
        let ghost ov = other@;
        let mut parts = self.parts;
        let rest = other.parts;
        let n = rest.len();
        let ghost base = parts@.len() as int;
        let mut i: usize = 0;
        while i < n
            invariant
                n == rest@.len(),
                i <= n,
                parts@.len() == base + i,
                base == sv.len(),
                forall|j: int| 0 <= j < base ==> (#[trigger] parts@[j])@ == sv[j],
                forall|j: int| base <= j < base + i ==> (#[trigger] parts@[j])@ == rest@[j - base]@,
            decreases n - i,
        {
            let s = String::clone(&rest[i]);
            parts.push(s);
            i += 1;
        }
        let r = UrlPath { parts };
        proof {
            assert forall|j: int| 0 <= j < r@.len() implies r@[j] == (sv + ov)[j] by {
                assert(r@[j] == r.parts@[j]@);
                if j >= base {
                    assert(ov[j - base] == rest@[j - base]@);
                }
            }
            assert(r@ =~= sv + ov);
        }
        r
    }

    /// This path without `prefix`'s leading segments; the path unchanged when
    /// `prefix` is not a prefix of it.
    pub fn strip_prefix(&self, prefix: &UrlPath) -> (r: UrlPath)
        ensures
            prefix@.is_prefix_of(self@) ==> r@ =~= self@.skip(prefix@.len() as int),
            !prefix@.is_prefix_of(self@) ==> r@ =~= self@,
            self.wf() ==> r.wf(),
    {
        let np = prefix.parts.len();
        let n = self.parts.len();
        let mut is_pref = np <= n;
        let mut i: usize = 0;
        while is_pref && i < np
            invariant
                np == prefix@.len(),
                n == self@.len(),
                i <= np,
                is_pref ==> np <= n && forall|j: int| 0 <= j < i ==> self@[j] == prefix@[j],
                !is_pref ==> !prefix@.is_prefix_of(self@),
            decreases np + 1 - i - if is_pref { 0int } else { 1int },
        {
            proof {
                assert(self@[i as int] == self.parts@[i as int]@);
                assert(prefix@[i as int] == prefix.parts@[i as int]@);
            }
            if !crate::text::string_eq_str(&self.parts[i], prefix.parts[i].as_str()) {
                proof {
                    if prefix@.is_prefix_of(self@) {
                        assert(self@.subrange(0, np as int)[i as int] == self@[i as int]);
                        assert(false);
                    }
                }
                is_pref = false;
            } else {
                i += 1;
            }
        }
        proof {
            if is_pref {
                assert(prefix@ =~= self@.subrange(0, np as int));
            }
        }
        let start = if is_pref { np } else { 0 };
        let mut parts: Vec<String> = Vec::new();
        let mut k: usize = start;
        while k < n
            invariant
                n == self@.len(),
                start <= k <= n,
                parts@.len() == k - start,
                forall|j: int| 0 <= j < k - start ==> (#[trigger] parts@[j])@ == self@[start + j],
            decreases n - k,
        {
            parts.push(String::clone(&self.parts[k]));
            k += 1;
        }
        let r = UrlPath { parts };
        proof {
            assert forall|j: int| 0 <= j < r@.len() implies r@[j] == self@[start + j] by {
                assert(r@[j] == r.parts@[j]@);
            }
            if start == 0 {
                assert(r@ =~= self@);
            } else {
                assert(r@ =~= self@.skip(np as int));
            }
        }
        r
    }

    /// Whether `prefix`'s segments lead this path.
    pub fn starts_with(&self, prefix: &UrlPath) -> (r: bool)
        ensures
            r == prefix@.is_prefix_of(self@),
    {
        let np = prefix.parts.len();
        let n = self.parts.len();
        if np > n {
            proof {
                assert(!prefix@.is_prefix_of(self@));
            }
            return false;
        }
        let mut i: usize = 0;
        while i < np
            invariant
                np == prefix@.len(),
                n == self@.len(),
                np <= n,
                i <= np,
                forall|j: int| 0 <= j < i ==> self@[j] == prefix@[j],
            decreases np - i,
        {
            proof {
                assert(self@[i as int] == self.parts@[i as int]@);
                assert(prefix@[i as int] == prefix.parts@[i as int]@);
            }
            if !crate::text::string_eq_str(&self.parts[i], prefix.parts[i].as_str()) {
                proof {
                    if prefix@.is_prefix_of(self@) {
                        assert(self@.subrange(0, np as int)[i as int] == self@[i as int]);
                        assert(false);
                    }
                }
                return false;
            }
            i += 1;
        }
        proof {
            assert(prefix@ =~= self@.subrange(0, np as int));
        }
        true
    }

    /// The last segment, if any.
    pub fn file_name(&self) -> (r: Option<String>)
        ensures
            self@.len() == 0 ==> r is None,
            self@.len() > 0 ==> (r matches Some(s) && s@ == self@.last()),
    {
        if self.parts.len() == 0 {
            None
        } else {
            let s = String::clone(&self.parts[self.parts.len() - 1]);
            proof {
                assert(self@.last() == self.parts@[self@.len() - 1]@);
            }
            Some(s)
        }
    }

    /// A copy of this path.
    pub fn duplicate(&self) -> (r: UrlPath)
        ensures
            r@ =~= self@,
    {
        let n = self.parts.len();
        let mut parts: Vec<String> = Vec::new();
        let mut k: usize = 0;
        while k < n
            invariant
                n == self@.len(),
                k <= n,
                parts@.len() == k,
                forall|j: int| 0 <= j < k ==> (#[trigger] parts@[j])@ == self@[j],
            decreases n - k,
        {
            parts.push(String::clone(&self.parts[k]));
            k += 1;
        }
        let r = UrlPath { parts };
        proof {
            assert forall|j: int| 0 <= j < r@.len() implies r@[j] == self@[j] by {
                assert(r@[j] == r.parts@[j]@);
            }
            assert(r@ =~= self@);
        }
        r
    }

    /// The `/`-separated rendering of this path.
    pub fn to_string(&self) -> (r: String)
        ensures
            r@ == spec_join(self@),
    {
        let n = self.parts.len();
        let mut out: Vec<char> = Vec::new();
        let mut i: usize = 0;
        while i < n
            invariant
                n == self@.len(),
                i <= n,
                out@ == spec_join(self@.subrange(0, i as int)),
            decreases n - i,
        {
            if i > 0 {
                out.push('/');
            }
            let cs = str_to_chars(self.parts[i].as_str());
            proof {
                assert(cs@ == self@[i as int]);
            }
            let mut j: usize = 0;
            let m = cs.len();
            while j < m
                invariant
                    m == cs@.len(),
                    j <= m,
                    i < n,
                    n == self@.len(),
                    cs@ == self@[i as int],
                    i == 0 ==> out@ == spec_join(self@.subrange(0, i as int)) + cs@.subrange(
                        0,
                        j as int,
                    ),
                    i > 0 ==> out@ == spec_join(self@.subrange(0, i as int)) + seq!['/']
                        + cs@.subrange(0, j as int),
                decreases m - j,
            {
                out.push(cs[j]);
                j += 1;
                proof {
                    assert(cs@.subrange(0, j as int) =~= cs@.subrange(0, j - 1).push(cs@[j - 1]));
                }
            }
            i += 1;
            proof {
                let p = self@.subrange(0, i as int);
                assert(p.drop_last() =~= self@.subrange(0, i - 1));
                assert(p.last() == self@[i - 1]);
                assert(cs@.subrange(0, m as int) =~= cs@);
                if i == 1 {
                    assert(spec_join(self@.subrange(0, 0)) =~= Seq::<char>::empty());
                    assert(Seq::<char>::empty() + cs@ =~= cs@);
                    assert(out@ =~= spec_join(p));
                } else {
                    assert(spec_join(p) == spec_join(p.drop_last()) + seq!['/'] + p.last());
                }
            }
        }
        proof {
            assert(self@.subrange(0, n as int) =~= self@);
        }
        string_from_chars(&out)
    }

    /// The `/`-separated rendering of this path, with no further escaping.
    pub fn to_raw_string(&self) -> (r: String)
        ensures
            r@ == spec_join(self@),
    {
        self.to_string()
    }

    /// The non-empty `/`-separated pieces of `s` as a path.
    pub fn parse(s: &str) -> (r: UrlPath)
        ensures
            r@ == spec_split(s@),
            r.wf(),
    {
        let cs = str_to_chars(s);
        let n = cs.len();
        let mut parts: Vec<String> = Vec::new();
        let ghost mut done: Seq<Seq<char>> = Seq::empty();
        let mut cur: Vec<char> = Vec::new();
        let mut i: usize = 0;
        proof {
            assert(Seq::<Seq<char>>::empty() + spec_split_from(s@, 0, Seq::empty()) =~= spec_split(
                s@,
            ));
        }
        while i < n
            invariant
                n == cs@.len(),
                cs@ == s@,
                i <= n,
                parts@.len() == done.len(),
                forall|j: int| 0 <= j < done.len() ==> (#[trigger] parts@[j])@ == done[j],
                forall|j: int| 0 <= j < done.len() ==> (#[trigger] done[j]).len() > 0,
                spec_split(s@) == done + spec_split_from(s@, i as int, cur@),
            decreases n - i,
        {
            let ghost old_cur = cur@;
            let c = cs[i];
            if c == '/' {
                if cur.len() > 0 {
                    let seg = string_from_chars(&cur);
                    parts.push(seg);
                    cur = Vec::new();
                    proof {
                        assert(cur@ =~= Seq::<char>::empty());
                        assert(spec_split_from(s@, i as int, old_cur) == seq![old_cur]
                            + spec_split_from(s@, i + 1, Seq::empty()));
                        assert(done + (seq![old_cur] + spec_split_from(s@, i + 1, Seq::empty()))
                            =~= done.push(old_cur) + spec_split_from(s@, i + 1, Seq::empty()));
                        done = done.push(old_cur);
                    }
                } else {
                    proof {
                        assert(old_cur =~= Seq::<char>::empty());
                        assert(spec_split_from(s@, i as int, old_cur) == Seq::<Seq<char>>::empty()
                            + spec_split_from(s@, i + 1, Seq::empty()));
                        assert(Seq::<Seq<char>>::empty() + spec_split_from(s@, i + 1, Seq::empty())
                            =~= spec_split_from(s@, i + 1, Seq::empty()));
                    }
                }
            } else {
                cur.push(c);
                proof {
                    assert(cur@ =~= old_cur.push(s@[i as int]));
                    assert(spec_split_from(s@, i as int, old_cur) == spec_split_from(
                        s@,
                        i + 1,
                        old_cur.push(s@[i as int]),
                    ));
                }
            }
            i += 1;
        }
        let ghost old_cur = cur@;
        if cur.len() > 0 {
            let seg = string_from_chars(&cur);
            parts.push(seg);
            proof {
                assert(spec_split_from(s@, n as int, old_cur) == seq![old_cur]);
                assert(done + seq![old_cur] =~= done.push(old_cur));
                done = done.push(old_cur);
            }
        } else {
            proof {
                assert(spec_split_from(s@, n as int, old_cur) == Seq::<Seq<char>>::empty());
                assert(done + Seq::<Seq<char>>::empty() =~= done);
            }
        }
        let r = UrlPath { parts };
        proof {
            assert forall|k: int| 0 <= k < r@.len() implies r@[k] == done[k] by {
                assert(r@[k] == r.parts@[k]@);
            }
            assert(r@ =~= done);
        }
        r
    }

    /// This (relative) path joined onto the configured site base.
    pub fn to_absolute(&self, config: &Config) -> (r: UrlPath)
        ensures
            r@ =~= config.output_url@ + self@,
            config.output_url.wf() && self.wf() ==> r.wf(),
    {
        config.output_url.duplicate().join(self.duplicate())
    }
}

} // verus!
