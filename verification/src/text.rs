//! Character and string utilities shared by the whole crate: substring and
//! prefix tests, lexicographic ordering of names, decimal rendering of
//! counts, and the character classes used by the autolinker.

use vstd::prelude::*;
use vstd::string::*;

verus! {

/// `needle` occurs in `hay` starting at offset `i`.
pub open spec fn is_substring_at(hay: Seq<char>, needle: Seq<char>, i: int) -> bool {
    0 <= i && i + needle.len() <= hay.len() && hay.subrange(i, i + needle.len() as int)
        == needle
}

/// `needle` occurs somewhere in `hay`.
pub open spec fn contains_seq(hay: Seq<char>, needle: Seq<char>) -> bool {
    exists|i: int| is_substring_at(hay, needle, i)
}

/// `p` is a prefix of `s`.
pub open spec fn has_prefix(s: Seq<char>, p: Seq<char>) -> bool {
    p.len() <= s.len() && s.subrange(0, p.len() as int) == p
}

/// `p` is a suffix of `s`.
pub open spec fn has_suffix(s: Seq<char>, p: Seq<char>) -> bool {
    p.len() <= s.len() && s.subrange(s.len() - p.len(), s.len() as int) == p
}

/// The sequences of `parts` joined with `sep` between them.
pub open spec fn spec_join_sep(parts: Seq<Seq<char>>, sep: Seq<char>) -> Seq<char>
    decreases parts.len(),
{
    if parts.len() == 0 {
        Seq::empty()
    } else if parts.len() == 1 {
        parts[0]
    } else {
        spec_join_sep(parts.drop_last(), sep) + sep + parts.last()
    }
}

/// Lexicographic order on character sequences, by code point.
pub open spec fn lex_le(a: Seq<char>, b: Seq<char>) -> bool
    decreases a.len(),
{
    if a.len() == 0 {
        true
    } else if b.len() == 0 {
        false
    } else if (a[0] as u32) < (b[0] as u32) {
        true
    } else if (b[0] as u32) < (a[0] as u32) {
        false
    } else {
        lex_le(a.subrange(1, a.len() as int), b.subrange(1, b.len() as int))
    }
}

/// The lexicographic order is total.
pub proof fn lemma_lex_le_total(a: Seq<char>, b: Seq<char>)
    ensures
        lex_le(a, b) || lex_le(b, a),
    decreases a.len(),
{
    if a.len() > 0 && b.len() > 0 && !((a[0] as u32) < (b[0] as u32)) && !((b[0] as u32) < (
    a[0] as u32)) {
        lemma_lex_le_total(a.subrange(1, a.len() as int), b.subrange(1, b.len() as int));
    }
}

/// The lexicographic order is transitive.
pub proof fn lemma_lex_le_trans(a: Seq<char>, b: Seq<char>, c: Seq<char>)
    requires
        lex_le(a, b),
        lex_le(b, c),
    ensures
        lex_le(a, c),
    decreases a.len(),
{
    if a.len() > 0 {
        if !((a[0] as u32) < (b[0] as u32)) && !((b[0] as u32) < (c[0] as u32)) {
            lemma_lex_le_trans(
                a.subrange(1, a.len() as int),
                b.subrange(1, b.len() as int),
                c.subrange(1, c.len() as int),
            );
        }
    }
}

/// The decimal digits of `n`, most significant first.
pub open spec fn spec_decimal(n: nat) -> Seq<char>
    decreases n,
{
    if n < 10 {
        seq![((48 + n) as u8) as char]
    } else {
        spec_decimal(n / 10).push(((48 + n % 10) as u8) as char)
    }
}

/// The characters of `s`, collected one by one.
pub fn str_to_chars(s: &str) -> (r: Vec<char>)
    ensures
        r@ == s@,
{
    let n = s.unicode_len();
    let mut r: Vec<char> = Vec::new();
    let mut i: usize = 0;
    while i < n
        invariant
            n == s@.len(),
            i <= n,
            r@ == s@.subrange(0, i as int),
        decreases n - i,
    {
        r.push(s.get_char(i));
        i += 1;
        proof {
            assert(r@ =~= s@.subrange(0, i as int));
        }
    }
    proof {
        assert(r@ =~= s@);
    }
    r
}

/// Builds a `String` out of its characters.
/// Relies on `String`'s `FromIterator<char>` implementation: the collected
/// string holds exactly the characters of the iterator, in order.
#[verifier::external_body]
pub fn string_from_chars(v: &Vec<char>) -> (r: String)
    ensures
        r@ == v@,
{
    v.iter().copied().collect()
}

/// Whether `c` has the Unicode `Lowercase` property; the result depends on
/// the character alone.
pub uninterp spec fn char_is_lowercase(c: char) -> bool;

/// Relies on `char::is_lowercase`: true exactly for characters with the
/// Unicode `Lowercase` property, which within ASCII are `a`-`z`.
#[verifier::external_body]
pub fn is_lowercase_char(c: char) -> (r: bool)
    ensures
        r == char_is_lowercase(c),
        (c as u32) < 128 ==> r == (97 <= c as u32 && c as u32 <= 122),
{
    c.is_lowercase()
}

/// Whether `c` is alphanumeric in the Unicode sense; the result depends on
/// the character alone.
pub uninterp spec fn char_is_alphanumeric(c: char) -> bool;

/// Relies on `char::is_alphanumeric`: true exactly for Unicode alphabetic and
/// numeric characters, which within ASCII are `0`-`9`, `A`-`Z` and `a`-`z`.
#[verifier::external_body]
pub fn is_alphanumeric_char(c: char) -> (r: bool)
    ensures
        r == char_is_alphanumeric(c),
        (c as u32) < 128 ==> r == (48 <= c as u32 && c as u32 <= 57 || 65 <= c as u32
            && c as u32 <= 90 || 97 <= c as u32 && c as u32 <= 122),
{
    c.is_alphanumeric()
}

/// Whether `c` has the Unicode `White_Space` property; the result depends
/// on the character alone.
pub uninterp spec fn char_is_whitespace(c: char) -> bool;

/// Relies on `char::is_whitespace`: true exactly for Unicode whitespace,
/// which within ASCII is the space and the five control characters from
/// horizontal tab to carriage return.
#[verifier::external_body]
pub fn is_whitespace_char(c: char) -> (r: bool)
    ensures
        r == char_is_whitespace(c),
        (c as u32) < 128 ==> r == (c as u32 == 32 || (9 <= c as u32 && c as u32 <= 13)),
{
    c.is_whitespace()
}

/// `s` without its leading whitespace.
pub open spec fn spec_trim_start(s: Seq<char>) -> Seq<char>
    decreases s.len(),
{
    if s.len() > 0 && char_is_whitespace(s[0]) {
        spec_trim_start(s.drop_first())
    } else {
        s
    }
}

/// `s` without its trailing whitespace.
pub open spec fn spec_trim_end(s: Seq<char>) -> Seq<char>
    decreases s.len(),
{
    if s.len() > 0 && char_is_whitespace(s.last()) {
        spec_trim_end(s.drop_last())
    } else {
        s
    }
}

/// The non-empty space-separated pieces of `s` from offset `i` on, with
/// `cur` the piece read so far.
pub open spec fn spec_words_from(s: Seq<char>, i: int, cur: Seq<char>) -> Seq<Seq<char>>
    decreases s.len() - i,
{
    if i < 0 || i >= s.len() {
        if cur.len() > 0 {
            seq![cur]
        } else {
            Seq::empty()
        }
    } else if s[i] == ' ' {
        (if cur.len() > 0 {
            seq![cur]
        } else {
            Seq::empty()
        }) + spec_words_from(s, i + 1, Seq::empty())
    } else {
        spec_words_from(s, i + 1, cur.push(s[i]))
    }
}

/// The non-empty space-separated pieces of `s`.
pub open spec fn spec_words(s: Seq<char>) -> Seq<Seq<char>> {
    spec_words_from(s, 0, Seq::empty())
}

/// The single-line, single-spaced form of a source snippet: trimmed, tabs
/// turned into spaces, line breaks removed, and runs of spaces collapsed.
pub open spec fn spec_cleaned_text(s: Seq<char>) -> Seq<char> {
    let t = spec_trim_end(spec_trim_start(s));
    let detabbed = t.map_values(
        |c: char|
            if c == '\t' {
                ' '
            } else {
                c
            },
    );
    let stripped = detabbed.filter(|c: char| c != '\r' && c != '\n');
    spec_join_sep(spec_words(stripped), " "@)
}

/// Character equality of two string slices.
pub fn str_eq(a: &str, b: &str) -> (r: bool)
    ensures
        r == (a@ == b@),
{
    let na = a.unicode_len();
    let nb = b.unicode_len();
    if na != nb {
        proof {
            assert(a@ != b@);
        }
        return false;
    }
    let mut i: usize = 0;
    while i < na
        invariant
            na == a@.len(),
            na == b@.len(),
            i <= na,
            forall|j: int| 0 <= j < i ==> a@[j] == b@[j],
        decreases na - i,
    {
        if a.get_char(i) != b.get_char(i) {
            return false;
        }
        i += 1;
    }
    proof {
        assert(a@ =~= b@);
    }
    true
}

/// Character equality of a `String` and a string slice.
pub fn string_eq_str(a: &String, b: &str) -> (r: bool)
    ensures
        r == (a@ == b@),
{
    str_eq(a.as_str(), b)
}

/// `needle@` occurs in `hay@` starting at `i`.
fn matches_at(hay: &Vec<char>, needle: &Vec<char>, i: usize) -> (r: bool)
    requires
        i + needle@.len() <= hay@.len(),
    ensures
        r == is_substring_at(hay@, needle@, i as int),
{
    let m = needle.len();
    let n = hay.len();
    let mut j: usize = 0;
    while j < m
        invariant
            m == needle@.len(),
            n == hay@.len(),
            i + m <= n,
            j <= m,
            forall|k: int| 0 <= k < j ==> hay@[i + k] == needle@[k],
        decreases m - j,
    {
        if hay[i + j] != needle[j] {
            return false;
        }
        j += 1;
    }
    proof {
        assert(hay@.subrange(i as int, i + needle@.len() as int) =~= needle@);
    }
    true
}

/// Substring search over character vectors.
pub fn contains_chars(hay: &Vec<char>, needle: &Vec<char>) -> (r: bool)
    ensures
        r == contains_seq(hay@, needle@),
{
    let n = hay.len();
    let m = needle.len();
    if m > n {
        proof {
            assert(forall|i: int| !is_substring_at(hay@, needle@, i));
        }
        return false;
    }
    if m == 0 {
        proof {
            assert(hay@.subrange(0, 0) =~= needle@);
            assert(is_substring_at(hay@, needle@, 0));
        }
        return true;
    }
    let mut i: usize = 0;
    while i <= n - m
        invariant
            n == hay@.len(),
            m == needle@.len(),
            1 <= m <= n,
            i <= n - m + 1,
            forall|k: int| 0 <= k < i ==> !is_substring_at(hay@, needle@, k),
        decreases n - i,
    {
        if matches_at(hay, needle, i) {
            return true;
        }
        i += 1;
    }
    proof {
        assert(forall|k: int| is_substring_at(hay@, needle@, k) ==> 0 <= k <= n - m);
    }
    false
}

/// Substring search over string slices.
pub fn str_contains(hay: &str, needle: &str) -> (r: bool)
    ensures
        r == contains_seq(hay@, needle@),
{
    let h = str_to_chars(hay);
    let n = str_to_chars(needle);
    contains_chars(&h, &n)
}

/// Prefix test over string slices.
pub fn str_starts_with(s: &str, p: &str) -> (r: bool)
    ensures
        r == has_prefix(s@, p@),
{
    let np = p.unicode_len();
    let ns = s.unicode_len();
    if np > ns {
        return false;
    }
    let mut i: usize = 0;
    while i < np
        invariant
            np == p@.len(),
            ns == s@.len(),
            np <= ns,
            i <= np,
            forall|j: int| 0 <= j < i ==> s@[j] == p@[j],
        decreases np - i,
    {
        if s.get_char(i) != p.get_char(i) {
            return false;
        }
        i += 1;
    }
    proof {
        assert(s@.subrange(0, p@.len() as int) =~= p@);
    }
    true
}

/// Lexicographic comparison of two string slices, by code point.
pub fn str_lex_le(a: &str, b: &str) -> (r: bool)
    ensures
        r == lex_le(a@, b@),
{
    let na = a.unicode_len();
    let nb = b.unicode_len();
    let mut i: usize = 0;
    proof {
        assert(a@.skip(0) =~= a@);
        assert(b@.skip(0) =~= b@);
    }
    loop
        invariant
            na == a@.len(),
            nb == b@.len(),
            i <= na,
            i <= nb,
            lex_le(a@, b@) == lex_le(a@.skip(i as int), b@.skip(i as int)),
        decreases na - i,
    {
        if i == na {
            return true;
        }
        if i == nb {
            return false;
        }
        let ca = a.get_char(i);
        let cb = b.get_char(i);
        proof {
            assert(a@.skip(i as int)[0] == a@[i as int]);
            assert(b@.skip(i as int)[0] == b@[i as int]);
            assert(a@.skip(i as int).subrange(1, a@.skip(i as int).len() as int) =~= a@.skip(
                i as int + 1,
            ));
            assert(b@.skip(i as int).subrange(1, b@.skip(i as int).len() as int) =~= b@.skip(
                i as int + 1,
            ));
        }
        if (ca as u32) < (cb as u32) {
            return true;
        }
        if (cb as u32) < (ca as u32) {
            return false;
        }
        i += 1;
    }
}

/// Suffix test over string slices.
pub fn str_ends_with(s: &str, p: &str) -> (r: bool)
    ensures
        r == has_suffix(s@, p@),
{
    let np = p.unicode_len();
    let ns = s.unicode_len();
    if np > ns {
        return false;
    }
    let base = ns - np;
    let mut i: usize = 0;
    while i < np
        invariant
            np == p@.len(),
            ns == s@.len(),
            np <= ns,
            base == ns - np,
            i <= np,
            forall|j: int| 0 <= j < i ==> s@[base + j] == p@[j],
        decreases np - i,
    {
        if s.get_char(base + i) != p.get_char(i) {
            return false;
        }
        i += 1;
    }
    proof {
        assert(s@.subrange(s@.len() - p@.len(), s@.len() as int) =~= p@);
    }
    true
}

/// The strings joined with `sep` between them.
pub fn join_strings(parts: &Vec<String>, sep: &str) -> (r: String)
    ensures
        r@ == spec_join_sep(parts.deep_view(), sep@),
{
    let ghost pv = parts.deep_view();
    let n = parts.len();
    let sepc = str_to_chars(sep);
    let mut out: Vec<char> = Vec::new();
    let mut i: usize = 0;
    proof {
        assert(pv.len() == n);
    }
    while i < n
        invariant
            n == parts@.len(),
            pv == parts.deep_view(),
            pv.len() == n,
            sepc@ == sep@,
            i <= n,
            out@ == spec_join_sep(pv.subrange(0, i as int), sep@),
        decreases n - i,
    {
        let ghost out0 = out@;
        if i > 0 {
            let mut k: usize = 0;
            let ms = sepc.len();
            while k < ms
                invariant
                    ms == sepc@.len(),
                    k <= ms,
                    out@ == out0 + sepc@.subrange(0, k as int),
                decreases ms - k,
            {
                out.push(sepc[k]);
                k += 1;
                proof {
                    assert(sepc@.subrange(0, k as int) =~= sepc@.subrange(0, k - 1).push(
                        sepc@[k - 1],
                    ));
                    assert(out@ =~= out0 + sepc@.subrange(0, k as int));
                }
            }
            proof {
                assert(sepc@.subrange(0, ms as int) =~= sepc@);
            }
        }
        let ghost out1 = out@;
        let cs = str_to_chars(parts[i].as_str());
        proof {
            assert(cs@ == pv[i as int]);
        }
        let m = cs.len();
        let mut j: usize = 0;
        while j < m
            invariant
                m == cs@.len(),
                j <= m,
                out@ == out1 + cs@.subrange(0, j as int),
            decreases m - j,
        {
            out.push(cs[j]);
            j += 1;
            proof {
                assert(cs@.subrange(0, j as int) =~= cs@.subrange(0, j - 1).push(cs@[j - 1]));
                assert(out@ =~= out1 + cs@.subrange(0, j as int));
            }
        }
        i += 1;
        proof {
            let p = pv.subrange(0, i as int);
            assert(p.drop_last() =~= pv.subrange(0, i - 1));
            assert(p.last() == pv[i - 1]);
            assert(cs@.subrange(0, m as int) =~= cs@);
            if i == 1 {
                assert(spec_join_sep(pv.subrange(0, 0), sep@) =~= Seq::<char>::empty());
                assert(out@ =~= cs@);
                assert(out@ =~= spec_join_sep(p, sep@));
            } else {
                assert(spec_join_sep(p, sep@) == spec_join_sep(p.drop_last(), sep@) + sep@
                    + p.last());
                assert(out@ =~= spec_join_sep(p, sep@));
            }
        }
    }
    proof {
        assert(pv.subrange(0, n as int) =~= pv);
    }
    string_from_chars(&out)
}

/// The single-line, single-spaced form of a source snippet, as
/// [`spec_cleaned_text`] describes it.
pub fn cleaned_text(s: &str) -> (r: String)
    ensures
        r@ == spec_cleaned_text(s@),
{
    let cs = str_to_chars(s);
    let n = cs.len();
    let mut a: usize = 0;
    proof {
        assert(cs@.skip(0) =~= cs@);
    }
    while a < n && is_whitespace_char(cs[a])
        invariant
            n == cs@.len(),
            cs@ == s@,
            a <= n,
            spec_trim_start(s@) == spec_trim_start(s@.skip(a as int)),
        decreases n - a,
    {
        a += 1;
        proof {
            assert(s@.skip(a - 1).drop_first() =~= s@.skip(a as int));
            assert(s@.skip(a - 1)[0] == s@[a - 1]);
        }
    }
    proof {
        if a < n {
            assert(s@.skip(a as int)[0] == s@[a as int]);
        }
        assert(spec_trim_start(s@.skip(a as int)) == s@.skip(a as int));
    }
    let mut b: usize = n;
    proof {
        assert(s@.subrange(a as int, n as int) =~= s@.skip(a as int));
    }
    while b > a && is_whitespace_char(cs[b - 1])
        invariant
            n == cs@.len(),
            cs@ == s@,
            a <= b <= n,
            spec_trim_end(spec_trim_start(s@)) == spec_trim_end(
                s@.subrange(a as int, b as int),
            ),
        decreases b,
    {
        b -= 1;
        proof {
            assert(s@.subrange(a as int, b + 1).drop_last() =~= s@.subrange(a as int, b as int));
            assert(s@.subrange(a as int, b + 1).last() == s@[b as int]);
        }
    }
    let ghost t = s@.subrange(a as int, b as int);
    proof {
        if b > a {
            assert(t.last() == s@[b - 1]);
        }
        assert(spec_trim_end(t) == t);
    }
    let ghost detab = |c: char|
        if c == '\t' {
            ' '
        } else {
            c
        };
    let ghost keep = |c: char| c != '\r' && c != '\n';
    let mut mid: Vec<char> = Vec::new();
    let mut p = a;
    proof {
        reveal(Seq::filter);
        assert(t.take(0) =~= Seq::<char>::empty());
        assert(t.take(0).map_values(detab) =~= Seq::<char>::empty());
        assert(mid@ =~= t.take(0).map_values(detab).filter(keep));
    }
    while p < b
        invariant
            n == cs@.len(),
            cs@ == s@,
            a <= p <= b <= n,
            t == s@.subrange(a as int, b as int),
            detab == (|c: char|
                if c == '\t' {
                    ' '
                } else {
                    c
                }),
            keep == (|c: char| c != '\r' && c != '\n'),
            mid@ == t.take(p - a).map_values(detab).filter(keep),
        decreases b - p,
    {
        let c = cs[p];
        let c2: char = if c == '\t' {
            ' '
        } else {
            c
        };
        let ghost mid0 = mid@;
        if c2 != '\r' && c2 != '\n' {
            mid.push(c2);
        }
        p += 1;
        proof {
            reveal(Seq::filter);
            let k = p - a - 1;
            assert(t[k] == s@[p - 1]);
            assert(t.take(k + 1) =~= t.take(k).push(t[k]));
            assert(t.take(k + 1).map_values(detab) =~= t.take(k).map_values(detab).push(
                detab(t[k]),
            ));
            let u = t.take(k).map_values(detab);
            let x = detab(t[k]);
            assert(u.push(x).drop_last() =~= u);
            assert(u.push(x).last() == x);
            assert(u.push(x).filter(keep) == (if keep(x) {
                u.filter(keep).push(x)
            } else {
                u.filter(keep)
            }));
            if keep(detab(t[k])) {
                assert(t.take(k + 1).map_values(detab).filter(keep) =~= t.take(k).map_values(
                    detab,
                ).filter(keep).push(detab(t[k])));
                assert(mid@ =~= mid0.push(detab(t[k])));
            } else {
                assert(t.take(k + 1).map_values(detab).filter(keep) =~= t.take(k).map_values(
                    detab,
                ).filter(keep));
            }
        }
    }
    proof {
        assert(t.take(b - a) =~= t);
    }
    let ghost stripped = t.map_values(detab).filter(keep);
    let m = mid.len();
    let mut words: Vec<String> = Vec::new();
    let ghost mut done: Seq<Seq<char>> = Seq::empty();
    let mut cur: Vec<char> = Vec::new();
    let mut i: usize = 0;
    proof {
        assert(Seq::<Seq<char>>::empty() + spec_words_from(stripped, 0, Seq::empty())
            =~= spec_words(stripped));
    }
    while i < m
        invariant
            m == mid@.len(),
            mid@ == stripped,
            i <= m,
            words@.len() == done.len(),
            forall|j: int| 0 <= j < done.len() ==> (#[trigger] words@[j])@ == done[j],
            spec_words(stripped) == done + spec_words_from(stripped, i as int, cur@),
        decreases m - i,
    {
        let ghost old_cur = cur@;
        let c = mid[i];
        if c == ' ' {
            if cur.len() > 0 {
                let seg = string_from_chars(&cur);
                words.push(seg);
                cur = Vec::new();
                proof {
                    assert(cur@ =~= Seq::<char>::empty());
                    assert(spec_words_from(stripped, i as int, old_cur) == seq![old_cur]
                        + spec_words_from(stripped, i + 1, Seq::empty()));
                    assert(done + (seq![old_cur] + spec_words_from(stripped, i + 1, Seq::empty()))
                        =~= done.push(old_cur) + spec_words_from(stripped, i + 1, Seq::empty()));
                    done = done.push(old_cur);
                }
            } else {
                proof {
                    assert(old_cur =~= Seq::<char>::empty());
                    assert(spec_words_from(stripped, i as int, old_cur)
                        == Seq::<Seq<char>>::empty() + spec_words_from(
                        stripped,
                        i + 1,
                        Seq::empty(),
                    ));
                    assert(Seq::<Seq<char>>::empty() + spec_words_from(
                        stripped,
                        i + 1,
                        Seq::empty(),
                    ) =~= spec_words_from(stripped, i + 1, Seq::empty()));
                }
            }
        } else {
            cur.push(c);
            proof {
                assert(cur@ =~= old_cur.push(stripped[i as int]));
                assert(spec_words_from(stripped, i as int, old_cur) == spec_words_from(
                    stripped,
                    i + 1,
                    old_cur.push(stripped[i as int]),
                ));
            }
        }
        i += 1;
    }
    let ghost old_cur = cur@;
    if cur.len() > 0 {
        let seg = string_from_chars(&cur);
        words.push(seg);
        proof {
            assert(spec_words_from(stripped, m as int, old_cur) == seq![old_cur]);
            assert(done + seq![old_cur] =~= done.push(old_cur));
            done = done.push(old_cur);
        }
    } else {
        proof {
            assert(spec_words_from(stripped, m as int, old_cur) == Seq::<Seq<char>>::empty());
            assert(done + Seq::<Seq<char>>::empty() =~= done);
        }
    }
    proof {
        assert forall|j: int| 0 <= j < words.deep_view().len() implies words.deep_view()[j]
            == done[j] by {
            assert(words.deep_view()[j] == words@[j]@);
        }
        assert(words.deep_view() =~= done);
        reveal_strlit(" ");
    }
    join_strings(&words, " ")
}

/// Decimal rendering of a machine integer.
pub fn usize_to_chars(n: usize) -> (r: Vec<char>)
    ensures
        r@ == spec_decimal(n as nat),
    decreases n,
{
    if n < 10 {
        let mut r: Vec<char> = Vec::new();
        let d: u8 = 48 + (n as u8);
        r.push(d as char);
        r
    } else {
        let mut r = usize_to_chars(n / 10);
        let d: u8 = 48 + ((n % 10) as u8);
        r.push(d as char);
        r
    }
}

/// Decimal rendering of a machine integer as a `String`.
pub fn usize_to_string(n: usize) -> (r: String)
    ensures
        r@ == spec_decimal(n as nat),
{
    let v = usize_to_chars(n);
    string_from_chars(&v)
}

} // verus!
