//! The autolink engine: rewrites word-tokens of prose that name a known
//! entity into markdown links to that entity's absolute docs URL, and
//! replaces `:shortcode:` emoji references.
//!
//! Rewrites are computed as one read-only pass over the text: a word-token
//! is a maximal run of alphanumeric or `_` characters; a token that is not
//! entirely lowercase links to the last entity in depth-first tree order
//! whose display name equals it and whose URL resolves.

use vstd::prelude::*;
use vstd::string::*;
use crate::ast::Ast;
use crate::config::Config;
use crate::namespace::CppItem;
use crate::namespace::Namespace;
use crate::namespace::item_bounded;
use crate::namespace::ns_bounded;
use crate::resolver::spec_abs_docs_url;
use crate::text::char_is_alphanumeric;
use crate::text::char_is_lowercase;
use crate::text::is_alphanumeric_char;
use crate::text::is_lowercase_char;
use crate::text::string_from_chars;
use crate::text::str_to_chars;
use crate::url::spec_join;

verus! {

/// A character that can be part of a word-token or an emoji shortcode.
pub open spec fn word_char(c: char) -> bool {
    char_is_alphanumeric(c) || c == '_'
}

/// The end of the maximal word-char run starting at `i`.
pub open spec fn run_end(s: Seq<char>, i: int) -> int
    decreases s.len() - i,
{
    if i < 0 || i >= s.len() || !word_char(s[i]) {
        i
    } else {
        run_end(s, i + 1)
    }
}

/// The run extends forward and stays within the text.
pub proof fn lemma_run_end_bounds(s: Seq<char>, i: int)
    requires
        0 <= i <= s.len(),
    ensures
        i <= run_end(s, i) <= s.len(),
        i < s.len() && word_char(s[i]) ==> run_end(s, i) > i,
    decreases s.len() - i,
{
    if i < s.len() && word_char(s[i]) {
        lemma_run_end_bounds(s, i + 1);
    }
}

/// A token composed entirely of lowercase characters; such common words are
/// never autolinked.
pub open spec fn all_lowercase(tok: Seq<char>) -> bool {
    forall|i: int| 0 <= i < tok.len() ==> char_is_lowercase(#[trigger] tok[i])
}

/// The names and entities of the tree in depth-first order: a namespace
/// itself, then its entries in turn.
pub open spec fn item_dfs(ast: Ast, it: CppItem) -> Seq<(Seq<char>, usize)>
    decreases it,
{
    match it {
        CppItem::Namespace(ns) => seq![(it.spec_name(ast), ns.entity)] + entries_dfs(
            ast,
            ns.entries@,
        ),
        _ => seq![(it.spec_name(ast), it.spec_entity())],
    }
}

/// The depth-first name/entity pairs under an entry list.
pub open spec fn entries_dfs(ast: Ast, s: Seq<(String, CppItem)>) -> Seq<(Seq<char>, usize)>
    decreases s,
{
    if s.len() == 0 {
        Seq::empty()
    } else {
        entries_dfs(ast, s.drop_last()) + item_dfs(ast, s.last().1)
    }
}

/// The URL that the token `tok` links to: the last entity in depth-first
/// order whose name equals the token and whose absolute URL resolves.
pub open spec fn link_for(
    ast: Ast,
    config: Config,
    dfs: Seq<(Seq<char>, usize)>,
    tok: Seq<char>,
) -> Option<Seq<char>>
    decreases dfs.len(),
{
    if dfs.len() == 0 {
        None
    } else if dfs.last().0 == tok && spec_abs_docs_url(ast, config, dfs.last().1) is Some {
        Some(spec_join(spec_abs_docs_url(ast, config, dfs.last().1)->Some_0))
    } else {
        link_for(ast, config, dfs.drop_last(), tok)
    }
}

/// The autolinked rendering of `s` from offset `i` on: non-word characters
/// pass through; an eligible word-token becomes `[token](url)`.
pub open spec fn spec_auto(
    ast: Ast,
    config: Config,
    dfs: Seq<(Seq<char>, usize)>,
    s: Seq<char>,
    i: int,
) -> Seq<char>
    decreases s.len() - i,
    when 0 <= i
    via spec_auto_dec
{
    if i >= s.len() {
        Seq::empty()
    } else if !word_char(s[i]) {
        seq![s[i]] + spec_auto(ast, config, dfs, s, i + 1)
    } else {
        let j = run_end(s, i);
        let tok = s.subrange(i, j);
        (if !all_lowercase(tok) && link_for(ast, config, dfs, tok) is Some {
            seq!['['] + tok + seq![']', '('] + link_for(ast, config, dfs, tok)->Some_0 + seq![
                ')',
            ]
        } else {
            tok
        }) + spec_auto(ast, config, dfs, s, j)
    }
}

#[via_fn]
proof fn spec_auto_dec(
    ast: Ast,
    config: Config,
    dfs: Seq<(Seq<char>, usize)>,
    s: Seq<char>,
    i: int,
) {
    if 0 <= i < s.len() {
        lemma_run_end_bounds(s, i);
    }
}

/// A token of nothing but lowercase word characters is never rewritten:
/// autolinking a text that is one such token leaves it unchanged, whatever
/// entities exist.
pub proof fn lemma_lowercase_never_links(
    ast: Ast,
    config: Config,
    dfs: Seq<(Seq<char>, usize)>,
    s: Seq<char>,
)
    requires
        s.len() > 0,
        forall|i: int| 0 <= i < s.len() ==> word_char(#[trigger] s[i]) && char_is_lowercase(
            s[i],
        ),
    ensures
        spec_auto(ast, config, dfs, s, 0) == s,
{
    lemma_run_end_all_word(s, 0);
    lemma_run_end_bounds(s, 0);
    let j = run_end(s, 0);
    assert(j == s.len());
    let tok = s.subrange(0, j);
    assert(tok =~= s);
    assert(all_lowercase(tok));
    assert(spec_auto(ast, config, dfs, s, j) =~= Seq::<char>::empty());
    assert(spec_auto(ast, config, dfs, s, 0) =~= tok + Seq::<char>::empty());
    assert(tok + Seq::<char>::empty() =~= s);
}

/// When every character from `i` on is a word character, the run reaches
/// the end of the text.
pub proof fn lemma_run_end_all_word(s: Seq<char>, i: int)
    requires
        0 <= i <= s.len(),
        forall|t: int| i <= t < s.len() ==> word_char(#[trigger] s[t]),
    ensures
        run_end(s, i) == s.len(),
    decreases s.len() - i,
{
    if i < s.len() {
        lemma_run_end_all_word(s, i + 1);
    }
}

/// The emoji the shortcode names, if any; the result depends on the
/// shortcode alone (a static table).
pub uninterp spec fn emoji_lookup(shortcode: Seq<char>) -> Option<Seq<char>>;

/// Relies on `emojis::get_by_shortcode`: a constant-table lookup from a
/// GitHub shortcode to the emoji's character sequence.
#[verifier::external_body]
fn lookup_emoji(s: &str) -> (r: Option<String>)
    ensures
        match emoji_lookup(s@) {
            Some(e) => r matches Some(t) && t@ == e,
            None => r is None,
        },
{
    emojis::get_by_shortcode(s).map(|e| String::from(e.as_str()))
}

/// The emoji-substituted rendering of `s` from offset `i` on: a `:` that
/// starts a word-char run closed by another `:` (or by the end of the text)
/// whose shortcode names an emoji is replaced by that emoji; everything
/// else passes through.
pub open spec fn spec_emoji(s: Seq<char>, i: int) -> Seq<char>
    decreases s.len() - i,
    when 0 <= i
    via spec_emoji_dec
{
    if i >= s.len() {
        Seq::empty()
    } else if s[i] != ':' {
        seq![s[i]] + spec_emoji(s, i + 1)
    } else {
        let j = run_end(s, i + 1);
        if (j >= s.len() || s[j] == ':') && emoji_lookup(s.subrange(i + 1, j)) is Some {
            emoji_lookup(s.subrange(i + 1, j))->Some_0 + spec_emoji(
                s,
                if j < s.len() {
                    j + 1
                } else {
                    j
                },
            )
        } else {
            seq![':'] + spec_emoji(s, i + 1)
        }
    }
}

#[via_fn]
proof fn spec_emoji_dec(s: Seq<char>, i: int) {
    if 0 <= i < s.len() && s[i] == ':' {
        lemma_run_end_bounds(s, i + 1);
    }
}

/// Replaces `:shortcode:` emoji references in `text` by the emoji itself;
/// unknown or unterminated shortcodes stay as written.
pub fn fmt_emoji(text: &str) -> (r: String)
    ensures
        r@ == spec_emoji(text@, 0),
{
    let s = str_to_chars(text);
    let sn = s.len();
    let mut out: Vec<char> = Vec::new();
    let mut p: usize = 0;
    proof {
        assert(Seq::<char>::empty() + spec_emoji(s@, 0) =~= spec_emoji(s@, 0));
    }
    while p < sn
        invariant
            sn == s@.len(),
            s@ == text@,
            p <= sn,
            spec_emoji(s@, 0) == out@ + spec_emoji(s@, p as int),
        decreases sn - p,
    {
        let c = s[p];
        if c != ':' {
            out.push(c);
            p += 1;
            proof {
                assert((out@ + spec_emoji(s@, p as int)) =~= out@.drop_last() + (seq![s@[p - 1]]
                    + spec_emoji(s@, p as int)));
            }
        } else {
            let start = p + 1;
            let mut q = start;
            proof {
                lemma_run_end_bounds(s@, start as int);
            }
            while q < sn && word_char_x(s[q])
                invariant
                    sn == s@.len(),
                    start <= q <= sn,
                    run_end(s@, start as int) == run_end(s@, q as int),
                decreases sn - q,
            {
                q += 1;
            }
            proof {
                assert(run_end(s@, q as int) == q);
            }
            let closed = q >= sn || s[q] == ':';
            let mut code: Vec<char> = Vec::new();
            let mut t = start;
            while t < q
                invariant
                    sn == s@.len(),
                    start <= t <= q <= sn,
                    code@ == s@.subrange(start as int, t as int),
                decreases q - t,
            {
                code.push(s[t]);
                t += 1;
                proof {
                    assert(code@ =~= s@.subrange(start as int, t as int));
                }
            }
            let found: Option<String> = if closed {
                let code_s = string_from_chars(&code);
                lookup_emoji(code_s.as_str())
            } else {
                None
            };
            let ghost out0 = out@;
            match found {
                Some(e) => {
                    let ec = str_to_chars(e.as_str());
                    let me = ec.len();
                    let mut t3: usize = 0;
                    while t3 < me
                        invariant
                            me == ec@.len(),
                            t3 <= me,
                            out@ == out0 + ec@.subrange(0, t3 as int),
                        decreases me - t3,
                    {
                        out.push(ec[t3]);
                        t3 += 1;
                        proof {
                            assert(ec@.subrange(0, t3 as int) =~= ec@.subrange(0, t3 - 1).push(
                                ec@[t3 - 1],
                            ));
                            assert(out@ =~= out0 + ec@.subrange(0, t3 as int));
                        }
                    }
                    let next = if q < sn {
                        q + 1
                    } else {
                        q
                    };
                    p = next;
                    proof {
                        assert(ec@.subrange(0, ec@.len() as int) =~= ec@);
                        assert((out0 + spec_emoji(s@, (start - 1) as int)) =~= out@ + spec_emoji(
                            s@,
                            p as int,
                        ));
                    }
                },
                None => {
                    out.push(':');
                    p = start;
                    proof {
                        assert((out0 + spec_emoji(s@, (start - 1) as int)) =~= out@ + spec_emoji(
                            s@,
                            p as int,
                        ));
                    }
                },
            }
        }
    }
    proof {
        assert(spec_emoji(s@, sn as int) =~= Seq::<char>::empty());
        assert(out@ + Seq::<char>::empty() =~= out@);
    }
    string_from_chars(&out)
}

/// The depth-first pairs a `(String, usize)` vector denotes.
pub open spec fn pairs_view(s: Seq<(String, usize)>) -> Seq<(Seq<char>, usize)> {
    s.map_values(|p: (String, usize)| (p.0@, p.1))
}

/// Appends the depth-first name/entity pairs of `it` to `out`.
fn dfs_into(ast: &Ast, it: &CppItem, out: &mut Vec<(String, usize)>)
    requires
        ast.wf(),
        item_bounded(*it, ast.nodes@.len()),
    ensures
        pairs_view(final(out)@) == pairs_view(old(out)@) + item_dfs(*ast, *it),
        forall|j: int|
            old(out)@.len() <= j < final(out)@.len() ==> (#[trigger] final(out)@[j]).1
                < ast.nodes@.len(),
        forall|j: int| 0 <= j < old(out)@.len() ==> #[trigger] final(out)@[j] == old(out)@[j],
    decreases *it,
{
    let name = it.name(ast);
    let e = it.entity();
    out.push((name, e));
    proof {
        assert(pairs_view(out@) =~= pairs_view(old(out)@).push((it.spec_name(*ast), e)));
    }
    match it {
        CppItem::Namespace(ns) => {
            let ghost base = pairs_view(out@);
            let ghost prefix_len = out@.len() as int;
            let n = ns.entries.len();
            let mut i: usize = 0;
            proof {
                assert(ns.entries@.take(0) =~= Seq::<(String, CppItem)>::empty());
                assert(base + entries_dfs(*ast, ns.entries@.take(0)) =~= base);
            }
            while i < n
                invariant
                    ast.wf(),
                    *it is Namespace,
                    it->Namespace_0 == *ns,
                    ns_bounded(*ns, ast.nodes@.len()),
                    n == ns.entries@.len(),
                    i <= n,
                    prefix_len == old(out)@.len() + 1,
                    prefix_len <= out@.len(),
                    pairs_view(out@) == base + entries_dfs(*ast, ns.entries@.take(i as int)),
                    forall|j: int|
                        old(out)@.len() <= j < out@.len() ==> (#[trigger] out@[j]).1
                            < ast.nodes@.len(),
                    forall|j: int| 0 <= j < old(out)@.len() ==> #[trigger] out@[j] == old(
                        out,
                    )@[j],
                decreases n - i,
            {
                proof {
                    assert(decreases_to!(*it => *ns));
                    assert(decreases_to!(*ns => ns.entries));
                    assert(decreases_to!(ns.entries => ns.entries@[i as int].1));
                    assert(item_bounded(ns.entries@[i as int].1, ast.nodes@.len()));
                }
                dfs_into(ast, &ns.entries[i].1, out);
                i += 1;
                proof {
                    let t = ns.entries@.take(i as int);
                    assert(t.drop_last() =~= ns.entries@.take(i - 1));
                    assert(t.last() == ns.entries@[i - 1]);
                    assert(pairs_view(out@) =~= base + entries_dfs(*ast, t));
                }
            }
            proof {
                assert(ns.entries@.take(n as int) =~= ns.entries@);
                assert(pairs_view(out@) =~= pairs_view(old(out)@) + item_dfs(*ast, *it));
            }
        },
        _ => {
            proof {
                assert(pairs_view(out@) =~= pairs_view(old(out)@) + item_dfs(*ast, *it));
            }
        },
    }
}

/// The URL string for `tok`, if any entity carries it.
fn link_for_x(ast: &Ast, config: &Config, dfs: &Vec<(String, usize)>, tok: &Vec<char>) -> (r:
    Option<String>)
    requires
        ast.wf(),
        forall|j: int| 0 <= j < dfs@.len() ==> (#[trigger] dfs@[j]).1 < ast.nodes@.len(),
    ensures
        match link_for(*ast, *config, pairs_view(dfs@), tok@) {
            Some(u) => r matches Some(s) && s@ == u,
            None => r is None,
        },
{
    let mut idx = dfs.len();
    proof {
        assert(pairs_view(dfs@).take(idx as int) =~= pairs_view(dfs@));
    }
    while idx > 0
        invariant
            ast.wf(),
            idx <= dfs@.len(),
            forall|j: int| 0 <= j < dfs@.len() ==> (#[trigger] dfs@[j]).1 < ast.nodes@.len(),
            link_for(*ast, *config, pairs_view(dfs@), tok@) == link_for(
                *ast,
                *config,
                pairs_view(dfs@).take(idx as int),
                tok@,
            ),
        decreases idx,
    {
        idx -= 1;
        let ghost pv = pairs_view(dfs@);
        proof {
            assert(pv.take(idx + 1).last() == pv[idx as int]);
            assert(pv.take(idx + 1).drop_last() =~= pv.take(idx as int));
            assert(pv[idx as int] == (dfs@[idx as int].0@, dfs@[idx as int].1));
        }
        let tok_s = string_from_chars(tok);
        if crate::text::string_eq_str(&dfs[idx].0, tok_s.as_str()) {
            match ast.abs_docs_url(dfs[idx].1, config) {
                Some(u) => {
                    return Some(u.to_string());
                },
                None => {},
            }
        }
    }
    None
}

/// Whether every character of `tok` is lowercase.
fn all_lowercase_x(tok: &Vec<char>) -> (r: bool)
    ensures
        r == all_lowercase(tok@),
{
    let n = tok.len();
    let mut i: usize = 0;
    while i < n
        invariant
            n == tok@.len(),
            i <= n,
            forall|t: int| 0 <= t < i ==> char_is_lowercase(#[trigger] tok@[t]),
        decreases n - i,
    {
        if !is_lowercase_char(tok[i]) {
            return false;
        }
        i += 1;
    }
    true
}

/// Whether `c` can be part of a word-token.
fn word_char_x(c: char) -> (r: bool)
    ensures
        r == word_char(c),
{
    is_alphanumeric_char(c) || c == '_'
}

/// Rewrites the word-tokens of `text` that name a known entity into
/// markdown links, one read-only pass over the whole tree's names; a token
/// entirely in lowercase is never linked, and among entities sharing a name
/// the one latest in depth-first order wins.
pub fn fmt_autolinks(ast: &Ast, config: &Config, root: &Namespace, text: &str) -> (r: String)
    requires
        ast.wf(),
        ns_bounded(*root, ast.nodes@.len()),
    ensures
        r@ == spec_auto(
            *ast,
            *config,
            entries_dfs(*ast, root.entries@),
            text@,
            0,
        ),
{
    let mut dfs: Vec<(String, usize)> = Vec::new();
    let n = root.entries.len();
    let mut i: usize = 0;
    proof {
        assert(root.entries@.take(0) =~= Seq::<(String, CppItem)>::empty());
        assert(pairs_view(dfs@) =~= entries_dfs(*ast, root.entries@.take(0)));
    }
    while i < n
        invariant
            ast.wf(),
            ns_bounded(*root, ast.nodes@.len()),
            n == root.entries@.len(),
            i <= n,
            pairs_view(dfs@) == entries_dfs(*ast, root.entries@.take(i as int)),
            forall|j: int| 0 <= j < dfs@.len() ==> (#[trigger] dfs@[j]).1 < ast.nodes@.len(),
        decreases n - i,
    {
        proof {
            assert(item_bounded(root.entries@[i as int].1, ast.nodes@.len()));
        }
        dfs_into(ast, &root.entries[i].1, &mut dfs);
        i += 1;
        proof {
            let t = root.entries@.take(i as int);
            assert(t.drop_last() =~= root.entries@.take(i - 1));
            assert(t.last() == root.entries@[i - 1]);
            assert(pairs_view(dfs@) =~= entries_dfs(*ast, t));
        }
    }
    proof {
        assert(root.entries@.take(n as int) =~= root.entries@);
    }
    let ghost dv = entries_dfs(*ast, root.entries@);
    let s = str_to_chars(text);
    let sn = s.len();
    let mut out: Vec<char> = Vec::new();
    let mut p: usize = 0;
    proof {
        assert(Seq::<char>::empty() + spec_auto(*ast, *config, dv, s@, 0) =~= spec_auto(
            *ast,
            *config,
            dv,
            s@,
            0,
        ));
    }
    while p < sn
        invariant
            ast.wf(),
            sn == s@.len(),
            s@ == text@,
            p <= sn,
            pairs_view(dfs@) == dv,
            forall|j: int| 0 <= j < dfs@.len() ==> (#[trigger] dfs@[j]).1 < ast.nodes@.len(),
            spec_auto(*ast, *config, dv, s@, 0) == out@ + spec_auto(
                *ast,
                *config,
                dv,
                s@,
                p as int,
            ),
        decreases sn - p,
    {
        let c = s[p];
        if !word_char_x(c) {
            out.push(c);
            p += 1;
            proof {
                assert((out@ + spec_auto(*ast, *config, dv, s@, p as int)) =~= out@.drop_last()
                    + (seq![s@[p - 1]] + spec_auto(*ast, *config, dv, s@, p as int)));
            }
        } else {
            let start = p;
            let mut q = p;
            proof {
                lemma_run_end_bounds(s@, p as int);
            }
            while q < sn && word_char_x(s[q])
                invariant
                    sn == s@.len(),
                    start <= q <= sn,
                    run_end(s@, start as int) == run_end(s@, q as int),
                decreases sn - q,
            {
                q += 1;
            }
            proof {
                assert(run_end(s@, q as int) == q);
                lemma_run_end_bounds(s@, start as int);
            }
            let mut tok: Vec<char> = Vec::new();
            let mut t = start;
            while t < q
                invariant
                    sn == s@.len(),
                    start <= t <= q <= sn,
                    tok@ == s@.subrange(start as int, t as int),
                decreases q - t,
            {
                tok.push(s[t]);
                t += 1;
                proof {
                    assert(tok@ =~= s@.subrange(start as int, t as int));
                }
            }
            let ghost tokv = s@.subrange(start as int, q as int);
            let linked: Option<String> = if !all_lowercase_x(&tok) {
                link_for_x(ast, config, &dfs, &tok)
            } else {
                None
            };
            let ghost out0 = out@;
            match linked {
                Some(u) => {
                    out.push('[');
                    let mut t2: usize = 0;
                    let m2 = tok.len();
                    while t2 < m2
                        invariant
                            m2 == tok@.len(),
                            t2 <= m2,
                            out@ == out0 + seq!['['] + tok@.subrange(0, t2 as int),
                        decreases m2 - t2,
                    {
                        out.push(tok[t2]);
                        t2 += 1;
                        proof {
                            assert(tok@.subrange(0, t2 as int) =~= tok@.subrange(
                                0,
                                t2 - 1,
                            ).push(tok@[t2 - 1]));
                            assert(out@ =~= out0 + seq!['['] + tok@.subrange(0, t2 as int));
                        }
                    }
                    out.push(']');
                    out.push('(');
                    let ghost out1 = out@;
                    let uc = str_to_chars(u.as_str());
                    let mu = uc.len();
                    let mut t3: usize = 0;
                    while t3 < mu
                        invariant
                            mu == uc@.len(),
                            t3 <= mu,
                            out@ == out1 + uc@.subrange(0, t3 as int),
                        decreases mu - t3,
                    {
                        out.push(uc[t3]);
                        t3 += 1;
                        proof {
                            assert(uc@.subrange(0, t3 as int) =~= uc@.subrange(0, t3 - 1).push(
                                uc@[t3 - 1],
                            ));
                            assert(out@ =~= out1 + uc@.subrange(0, t3 as int));
                        }
                    }
                    out.push(')');
                    proof {
                        assert(tok@.subrange(0, tok@.len() as int) =~= tok@);
                        assert(uc@.subrange(0, uc@.len() as int) =~= uc@);
                        assert(out@ =~= out0 + (seq!['['] + tokv + seq![']', '('] + link_for(
                            *ast,
                            *config,
                            dv,
                            tokv,
                        )->Some_0 + seq![')']));
                    }
                },
                None => {
                    let mut t4: usize = 0;
                    let m4 = tok.len();
                    while t4 < m4
                        invariant
                            m4 == tok@.len(),
                            t4 <= m4,
                            out@ == out0 + tok@.subrange(0, t4 as int),
                        decreases m4 - t4,
                    {
                        out.push(tok[t4]);
                        t4 += 1;
                        proof {
                            assert(tok@.subrange(0, t4 as int) =~= tok@.subrange(
                                0,
                                t4 - 1,
                            ).push(tok@[t4 - 1]));
                            assert(out@ =~= out0 + tok@.subrange(0, t4 as int));
                        }
                    }
                    proof {
                        assert(tok@.subrange(0, tok@.len() as int) =~= tok@);
                        assert(out@ =~= out0 + tokv);
                    }
                },
            }
            p = q;
            proof {
                assert((out0 + spec_auto(*ast, *config, dv, s@, start as int)) =~= out@
                    + spec_auto(*ast, *config, dv, s@, p as int));
            }
        }
    }
    proof {
        assert(spec_auto(*ast, *config, dv, s@, sn as int) =~= Seq::<char>::empty());
        assert(out@ + Seq::<char>::empty() =~= out@);
    }
    string_from_chars(&out)
}

} // verus!
