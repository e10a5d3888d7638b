//! Name-keyed entry lists.
//!
//! A namespace's entries, and other name-keyed collections here, are lists of
//! `(name, value)` pairs with pairwise distinct keys. Their mathematical
//! meaning is the finite map [`entries_map`]; the lemmas below let the list
//! operations be read as map operations.

use vstd::prelude::*;
use crate::text::string_eq_str;

verus! {

/// The map an entry list denotes; a later pair with the same key shadows an
/// earlier one.
pub open spec fn entries_map<V>(s: Seq<(String, V)>) -> Map<Seq<char>, V>
    decreases s.len(),
{
    if s.len() == 0 {
        Map::empty()
    } else {
        entries_map(s.drop_last()).insert(s.last().0@, s.last().1)
    }
}

/// Pairwise distinct keys.
pub open spec fn unique_keys<V>(s: Seq<(String, V)>) -> bool {
    forall|i: int, j: int|
        0 <= i < j < s.len() ==> (#[trigger] s[i]).0@ != (#[trigger] s[j]).0@
}

/// A key is in the map iff some pair holds it.
pub proof fn lemma_entries_map_contains<V>(s: Seq<(String, V)>, k: Seq<char>)
    ensures
        entries_map(s).contains_key(k) <==> exists|i: int|
            0 <= i < s.len() && (#[trigger] s[i]).0@ == k,
    decreases s.len(),
{
    if s.len() > 0 {
        lemma_entries_map_contains(s.drop_last(), k);
        if s.last().0@ == k {
            assert(s[s.len() - 1].0@ == k);
        } else {
            if entries_map(s).contains_key(k) {
                let i = choose|i: int|
                    0 <= i < s.drop_last().len() && (#[trigger] s.drop_last()[i]).0@ == k;
                assert(s[i].0@ == k);
            }
            if exists|i: int| 0 <= i < s.len() && (#[trigger] s[i]).0@ == k {
                let i = choose|i: int| 0 <= i < s.len() && (#[trigger] s[i]).0@ == k;
                assert(i < s.len() - 1);
                assert(s.drop_last()[i].0@ == k);
            }
        }
    }
}

/// Under unique keys, the pair at `i` gives the map's value at its key.
pub proof fn lemma_entries_map_index<V>(s: Seq<(String, V)>, i: int)
    requires
        unique_keys(s),
        0 <= i < s.len(),
    ensures
        entries_map(s).contains_key(s[i].0@),
        entries_map(s)[s[i].0@] == s[i].1,
    decreases s.len(),
{
    if i == s.len() - 1 {
    } else {
        assert(unique_keys(s.drop_last()));
        lemma_entries_map_index(s.drop_last(), i);
        assert(s.drop_last()[i] == s[i]);
        assert(s[i].0@ != s.last().0@);
    }
}

/// Appending a pair inserts into the map.
pub proof fn lemma_entries_map_push<V>(s: Seq<(String, V)>, name: String, v: V)
    ensures
        entries_map(s.push((name, v))) == entries_map(s).insert(name@, v),
{
    assert(s.push((name, v)).drop_last() =~= s);
    assert(s.push((name, v)).last() == (name, v));
}

/// Under unique keys, removing the pair at `i` removes its key from the map.
pub proof fn lemma_entries_map_remove<V>(s: Seq<(String, V)>, i: int)
    requires
        unique_keys(s),
        0 <= i < s.len(),
    ensures
        unique_keys(s.remove(i)),
        entries_map(s.remove(i)) == entries_map(s).remove(s[i].0@),
        !entries_map(s.remove(i)).contains_key(s[i].0@),
    decreases s.len(),
{
    let k = s[i].0@;
    assert forall|x: int, y: int| 0 <= x < y < s.remove(i).len() implies (#[trigger] s.remove(
        i,
    )[x]).0@ != (#[trigger] s.remove(i)[y]).0@ by {
        let sx = if x < i {
            x
        } else {
            x + 1
        };
        let sy = if y < i {
            y
        } else {
            y + 1
        };
        assert(s.remove(i)[x] == s[sx]);
        assert(s.remove(i)[y] == s[sy]);
    }
    if i == s.len() - 1 {
        assert(s.remove(i) =~= s.drop_last());
        lemma_entries_map_contains(s.drop_last(), k);
        if entries_map(s.drop_last()).contains_key(k) {
            let j = choose|j: int|
                0 <= j < s.drop_last().len() && (#[trigger] s.drop_last()[j]).0@ == k;
            assert(s[j].0@ == k);
            assert(false);
        }
        assert(entries_map(s).remove(k) =~= entries_map(s.drop_last()));
    } else {
        assert(unique_keys(s.drop_last()));
        lemma_entries_map_remove(s.drop_last(), i);
        assert(s.remove(i).drop_last() =~= s.drop_last().remove(i));
        assert(s.remove(i).last() == s.last());
        assert(s.last().0@ != k);
        assert(entries_map(s.remove(i)) == entries_map(s.drop_last().remove(i)).insert(
            s.last().0@,
            s.last().1,
        ));
        assert(entries_map(s).remove(k) =~= entries_map(s.drop_last()).remove(k).insert(
            s.last().0@,
            s.last().1,
        ));
        lemma_entries_map_contains(s.remove(i), k);
        if entries_map(s.remove(i)).contains_key(k) {
            let j = choose|j: int|
                0 <= j < s.remove(i).len() && (#[trigger] s.remove(i)[j]).0@ == k;
            let sj = if j < i {
                j
            } else {
                j + 1
            };
            assert(s.remove(i)[j] == s[sj]);
            assert(false);
        }
    }
}

/// The index of the pair holding `name`, if any.
pub fn entries_find<V>(list: &Vec<(String, V)>, name: &str) -> (r: Option<usize>)
    ensures
        match r {
            Some(i) => i < list@.len() && list@[i as int].0@ == name@,
            None => forall|i: int| 0 <= i < list@.len() ==> (#[trigger] list@[i]).0@ != name@,
        },
{
    let n = list.len();
    let mut i: usize = 0;
    while i < n
        invariant
            n == list@.len(),
            i <= n,
            forall|j: int| 0 <= j < i ==> (#[trigger] list@[j]).0@ != name@,
        decreases n - i,
    {
        if string_eq_str(&list[i].0, name) {
            return Some(i);
        }
        i += 1;
    }
    None
}

/// Puts `val` under `name`, replacing any existing pair with that key; on the
/// map this is exactly `insert`. Every resulting pair is an old pair or the
/// new one.
pub fn entries_insert<V>(list: &mut Vec<(String, V)>, name: String, val: V)
    requires
        unique_keys(old(list)@),
    ensures
        unique_keys(final(list)@),
        entries_map(final(list)@) == entries_map(old(list)@).insert(name@, val),
        forall|i: int|
            0 <= i < final(list)@.len() ==> (exists|j: int|
                0 <= j < old(list)@.len() && #[trigger] final(list)@[i] == old(list)@[j]) || (
            (#[trigger] final(list)@[i]).0@ == name@ && final(list)@[i].1 == val),
{
    let ghost s0 = list@;
    let found = entries_find(list, name.as_str());
    match found {
        Some(i) => {
            let ghost k = s0[i as int].0@;
            list.remove(i);
            proof {
                lemma_entries_map_remove(s0, i as int);
            }
            let ghost s1 = list@;
            list.push((name, val));
            proof {
                lemma_entries_map_push(s1, list@.last().0, val);
                assert(list@.last().0@ == name@);
                assert(entries_map(list@) == entries_map(s1).insert(name@, val));
                assert(entries_map(list@) =~= entries_map(s0).insert(name@, val));
                lemma_entries_map_contains(s1, name@);
                assert forall|x: int, y: int| 0 <= x < y < list@.len() implies (
                #[trigger] list@[x]).0@ != (#[trigger] list@[y]).0@ by {
                    if y == list@.len() - 1 {
                        assert(list@[x] == s1[x]);
                    } else {
                        assert(list@[x] == s1[x]);
                        assert(list@[y] == s1[y]);
                    }
                }
                assert forall|t: int| 0 <= t < list@.len() implies (exists|j: int|
                    0 <= j < s0.len() && #[trigger] list@[t] == s0[j]) || ((
                #[trigger] list@[t]).0@ == name@ && list@[t].1 == val) by {
                    if t < list@.len() - 1 {
                        let sj = if t < i as int {
                            t
                        } else {
                            t + 1
                        };
                        assert(list@[t] == s1[t]);
                        assert(s1[t] == s0[sj]);
                    }
                }
            }
        },
        None => {
            let ghost s1 = list@;
            list.push((name, val));
            proof {
                lemma_entries_map_push(s1, list@.last().0, val);
                assert(list@.last().0@ == name@);
                assert(entries_map(list@) == entries_map(s1).insert(name@, val));
                assert forall|x: int, y: int| 0 <= x < y < list@.len() implies (
                #[trigger] list@[x]).0@ != (#[trigger] list@[y]).0@ by {
                    if y == list@.len() - 1 {
                        assert(list@[x] == s1[x]);
                    } else {
                        assert(list@[x] == s1[x]);
                        assert(list@[y] == s1[y]);
                    }
                }
                assert forall|t: int| 0 <= t < list@.len() implies (exists|j: int|
                    0 <= j < s0.len() && #[trigger] list@[t] == s0[j]) || ((
                #[trigger] list@[t]).0@ == name@ && list@[t].1 == val) by {
                    if t < list@.len() - 1 {
                        assert(list@[t] == s0[t]);
                    }
                }
            }
        },
    }
}

} // verus!
