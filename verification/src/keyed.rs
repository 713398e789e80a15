//! A map from text keys to values kept as a vector of entries with distinct
//! keys, read through its model as a mathematical map.
use vstd::prelude::*;

verus! {

/// The entries' models: each key by its text, each value by its view.
pub open spec fn entry_models<V: View>(v: Seq<(String, V)>) -> Seq<(Seq<char>, V::V)> {
    v.map_values(|e: (String, V)| (e.0@, e.1@))
}

/// The value of the last entry with the key.
pub open spec fn lookup<W>(m: Seq<(Seq<char>, W)>, k: Seq<char>) -> Option<W>
    decreases m.len(),
{
    if m.len() == 0 {
        None
    } else if m.last().0 == k {
        Some(m.last().1)
    } else {
        lookup(m.drop_last(), k)
    }
}

/// The map that the entries stand for.
pub open spec fn as_map<W>(m: Seq<(Seq<char>, W)>) -> Map<Seq<char>, W> {
    Map::new(|k: Seq<char>| lookup(m, k) is Some, |k: Seq<char>| lookup(m, k)->Some_0)
}

/// No two entries share a key.
pub open spec fn keys_distinct<W>(m: Seq<(Seq<char>, W)>) -> bool {
    forall|i: int, j: int| 0 <= i < j < m.len() ==> m[i].0 != m[j].0
}

/// With distinct keys, the entry at `j` is what the key reads.
pub proof fn lemma_lookup_at<W>(m: Seq<(Seq<char>, W)>, j: int)
    requires
        keys_distinct(m),
        0 <= j < m.len(),
    ensures
        lookup(m, m[j].0) == Some(m[j].1),
    decreases m.len(),
{
    if j < m.len() - 1 {
        assert(keys_distinct(m.drop_last()));
        lemma_lookup_at(m.drop_last(), j);
    }
}

/// A key that no entry has reads nothing.
pub proof fn lemma_lookup_absent<W>(m: Seq<(Seq<char>, W)>, k: Seq<char>)
    requires
        forall|i: int| 0 <= i < m.len() ==> m[i].0 != k,
    ensures
        lookup(m, k) is None,
    decreases m.len(),
{
    if m.len() > 0 {
        lemma_lookup_absent(m.drop_last(), k);
    }
}

/// Reading entries whose key is another than `k` after a change of the entries
/// that only touches key `k`.
proof fn lemma_lookup_update<W>(m: Seq<(Seq<char>, W)>, j: int, v: W, q: Seq<char>)
    requires
        keys_distinct(m),
        0 <= j < m.len(),
    ensures
        lookup(m.update(j, (m[j].0, v)), q) == (if q == m[j].0 {
            Some(v)
        } else {
            lookup(m, q)
        }),
    decreases m.len(),
{
    let u = m.update(j, (m[j].0, v));
    if j == m.len() - 1 {
        assert(u.drop_last() =~= m.drop_last());
        if q != m[j].0 {
        }
    } else {
        assert(u.drop_last() =~= m.drop_last().update(j, (m[j].0, v)));
        assert(keys_distinct(m.drop_last()));
        lemma_lookup_update(m.drop_last(), j, v, q);
    }
}

proof fn lemma_lookup_remove<W>(m: Seq<(Seq<char>, W)>, j: int, q: Seq<char>)
    requires
        keys_distinct(m),
        0 <= j < m.len(),
    ensures
        lookup(m.remove(j), q) == (if q == m[j].0 {
            None
        } else {
            lookup(m, q)
        }),
        keys_distinct(m.remove(j)),
    decreases m.len(),
{
    let u = m.remove(j);
    if j == m.len() - 1 {
        assert(u =~= m.drop_last());
        if q == m[j].0 {
            assert forall|i: int| 0 <= i < u.len() implies u[i].0 != q by {
                assert(u[i] == m[i]);
            }
            lemma_lookup_absent(u, q);
        }
    } else {
        assert(u.drop_last() =~= m.drop_last().remove(j));
        assert(u.last() == m.last());
        assert(keys_distinct(m.drop_last()));
        lemma_lookup_remove(m.drop_last(), j, q);
    }
    assert forall|a: int, b: int| 0 <= a < b < u.len() implies u[a].0 != u[b].0 by {
        let a2 = if a < j { a } else { a + 1 };
        let b2 = if b < j { b } else { b + 1 };
        assert(u[a] == m[a2] && u[b] == m[b2]);
    }
}

/// Where the entry with the key stands.
pub fn position<V: View>(v: &Vec<(String, V)>, k: &String) -> (r: Option<usize>)
    ensures
        match r {
            Some(j) => j < v@.len() && v@[j as int].0@ == k@,
            None => forall|i: int| 0 <= i < v@.len() ==> v@[i].0@ != k@,
        },
{
    let mut j: usize = 0;
    while j < v.len()
        invariant
            j <= v@.len(),
            forall|i: int| 0 <= i < j ==> v@[i].0@ != k@,
        decreases v@.len() - j,
    {
        if v[j].0 == *k {
            return Some(j);
        }
        j = j + 1;
    }
    None
}

/// Sets the value of a key: replaces the entry with the key, or adds one.
pub fn set_entry<V: View>(v: &mut Vec<(String, V)>, k: String, x: V)
    requires
        keys_distinct(entry_models(old(v)@)),
    ensures
        keys_distinct(entry_models(final(v)@)),
        as_map(entry_models(final(v)@)) == as_map(entry_models(old(v)@)).insert(k@, x@),
{
    let ghost m0 = entry_models(v@);
    let ghost kv = k@;
    let ghost xv = x@;
    match position(v, &k) {
        Some(j) => {
            v.set(j, (k, x));
            proof {
                assert(entry_models(v@) =~= m0.update(j as int, (m0[j as int].0, xv)));
                assert forall|q: Seq<char>| true implies lookup(entry_models(v@), q) == (if q == kv {
                    Some(xv)
                } else {
                    lookup(m0, q)
                }) by {
                    lemma_lookup_update(m0, j as int, xv, q);
                }
                assert forall|a: int, b: int|
                    0 <= a < b < entry_models(v@).len() implies entry_models(v@)[a].0 != entry_models(
                    v@,
                )[b].0 by {
                    assert(entry_models(v@)[a].0 == m0[a].0);
                    assert(entry_models(v@)[b].0 == m0[b].0);
                }
                assert(as_map(entry_models(v@)) =~= as_map(m0).insert(kv, xv));
            }
        },
        None => {
            v.push((k, x));
            proof {
                assert(entry_models(v@) =~= m0.push((kv, xv)));
                assert(entry_models(v@).drop_last() =~= m0);
                assert forall|a: int, b: int|
                    0 <= a < b < entry_models(v@).len() implies entry_models(v@)[a].0 != entry_models(
                    v@,
                )[b].0 by {
                    if b == m0.len() {
                        assert(entry_models(v@)[a].0 == m0[a].0);
                    }
                }
                assert(as_map(entry_models(v@)) =~= as_map(m0).insert(kv, xv));
            }
        },
    }
}

/// Removes the entry with the key, if there is one.
pub fn remove_entry<V: View>(v: &mut Vec<(String, V)>, k: &String)
    requires
        keys_distinct(entry_models(old(v)@)),
    ensures
        keys_distinct(entry_models(final(v)@)),
        as_map(entry_models(final(v)@)) == as_map(entry_models(old(v)@)).remove(k@),
{
    let ghost m0 = entry_models(v@);
    match position(v, k) {
        Some(j) => {
            v.remove(j);
            proof {
                assert(entry_models(v@) =~= m0.remove(j as int));
                assert forall|q: Seq<char>| true implies lookup(entry_models(v@), q) == (if q == k@ {
                    None
                } else {
                    lookup(m0, q)
                }) by {
                    lemma_lookup_remove(m0, j as int, q);
                }
                lemma_lookup_remove(m0, j as int, k@);
                assert(as_map(entry_models(v@)) =~= as_map(m0).remove(k@));
            }
        },
        None => {
            proof {
                lemma_lookup_absent(m0, k@);
                assert(as_map(entry_models(v@)) =~= as_map(m0).remove(k@));
            }
        },
    }
}

/// The value of a key, if an entry has it.
pub fn get_entry<'a, V: View>(v: &'a Vec<(String, V)>, k: &String) -> (r: Option<&'a V>)
    requires
        keys_distinct(entry_models(v@)),
    ensures
        match r {
            Some(x) => as_map(entry_models(v@)).contains_key(k@) && as_map(entry_models(v@))[k@]
                == x@,
            None => !as_map(entry_models(v@)).contains_key(k@),
        },
{
    match position(v, k) {
        Some(j) => {
            proof {
                lemma_lookup_at(entry_models(v@), j as int);
            }
            Some(&v[j].1)
        },
        None => {
            proof {
                lemma_lookup_absent(entry_models(v@), k@);
            }
            None
        },
    }
}

} // verus!
