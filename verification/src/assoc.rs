//! Small association lists keyed by `i32`, used for the client's entity
//! mirror and the server's per-client tables. Lookup takes the first entry
//! with the key; `upsert` keeps keys unique, so first-match lookup has map
//! semantics.

use vstd::prelude::*;

verus! {

/// The index of the first entry with key `key`, or -1 if there is none.
pub open spec fn find_index<V>(s: Seq<(i32, V)>, key: i32) -> int
    decreases s.len(),
{
    if s.len() == 0 {
        -1
    } else if s[0].0 == key {
        0
    } else {
        let r = find_index(s.drop_first(), key);
        if r < 0 {
            -1
        } else {
            r + 1
        }
    }
}

/// The value of the first entry with key `key`, if any.
pub open spec fn lookup<V>(s: Seq<(i32, V)>, key: i32) -> Option<V> {
    if find_index(s, key) < 0 {
        None
    } else {
        Some(s[find_index(s, key)].1)
    }
}

/// The list after setting `key` to `val`: the first entry with the key is
/// overwritten, or a new entry is appended if the key is absent.
pub open spec fn set_entry<V>(s: Seq<(i32, V)>, key: i32, val: V) -> Seq<(i32, V)> {
    if find_index(s, key) >= 0 {
        s.update(find_index(s, key), (key, val))
    } else {
        s.push((key, val))
    }
}

/// `find_index` finds the first matching entry: it is in range, carries the
/// key, nothing before it does; and it is -1 exactly when no entry carries
/// the key.
pub proof fn lemma_find_index_properties<V>(s: Seq<(i32, V)>, key: i32)
    ensures
        find_index(s, key) == -1 || 0 <= find_index(s, key) < s.len(),
        find_index(s, key) >= 0 ==> s[find_index(s, key)].0 == key,
        forall|j: int| 0 <= j < s.len() && j < find_index(s, key) ==> (#[trigger] s[j]).0 != key,
        find_index(s, key) == -1 ==> forall|j: int|
            0 <= j < s.len() ==> (#[trigger] s[j]).0 != key,
    decreases s.len(),
{
    if s.len() > 0 && s[0].0 != key {
        lemma_find_index_properties(s.drop_first(), key);
        assert(forall|j: int|
            1 <= j < s.len() ==> (#[trigger] s[j]) == s.drop_first()[j - 1]);
    }
}

/// A scan that saw no match up to `i` and a match at `i` has found exactly
/// `find_index`.
pub proof fn lemma_find_index_of_scan<V>(s: Seq<(i32, V)>, key: i32, i: int)
    requires
        0 <= i <= s.len(),
        forall|j: int| 0 <= j < i ==> (#[trigger] s[j]).0 != key,
    ensures
        i < s.len() && s[i].0 == key ==> find_index(s, key) == i,
        i == s.len() ==> find_index(s, key) == -1,
{
    lemma_find_index_properties(s, key);
    let fi = find_index(s, key);
    if i < s.len() && s[i].0 == key {
        if fi == -1 {
        } else if fi < i {
        } else if fi > i {
        }
    } else if i == s.len() && fi >= 0 {
    }
}

/// Updating the entry at a key's own index leaves every other key's lookup
/// unchanged and sets this key's.
pub proof fn lemma_lookup_update<V>(s: Seq<(i32, V)>, i: int, key: i32, val: V)
    requires
        0 <= i < s.len(),
        s[i].0 == key,
        i == find_index(s, key),
    ensures
        lookup(s.update(i, (key, val)), key) == Some(val),
        forall|k: i32| k != key ==> lookup(s.update(i, (key, val)), k) == lookup(s, k),
        forall|k: i32| find_index(s.update(i, (key, val)), k) == find_index(s, k),
    decreases s.len(),
{
    let t = s.update(i, (key, val));
    assert forall|k: i32| find_index(t, k) == find_index(s, k) by {
        lemma_find_index_keys_equal(s, t, k);
    }
    assert forall|k: i32| k != key implies lookup(t, k) == lookup(s, k) by {
        lemma_find_index_properties(s, k);
        let fi = find_index(s, k);
        if fi >= 0 {
            assert(fi != i);
            assert(t[fi] == s[fi]);
        }
    }
}

/// `find_index` depends only on the key column.
pub proof fn lemma_find_index_keys_equal<V>(s: Seq<(i32, V)>, t: Seq<(i32, V)>, key: i32)
    requires
        s.len() == t.len(),
        forall|j: int| 0 <= j < s.len() ==> (#[trigger] s[j]).0 == (#[trigger] t[j]).0,
    ensures
        find_index(s, key) == find_index(t, key),
    decreases s.len(),
{
    if s.len() > 0 && s[0].0 != key {
        assert(forall|j: int|
            0 <= j < s.len() - 1 ==> (#[trigger] s.drop_first()[j]).0 == (
            #[trigger] t.drop_first()[j]).0);
        lemma_find_index_keys_equal(s.drop_first(), t.drop_first(), key);
    }
}

/// Appending an entry with a fresh key leaves every present key's lookup
/// unchanged and gives the fresh key the new value.
pub proof fn lemma_lookup_push<V>(s: Seq<(i32, V)>, key: i32, val: V)
    requires
        find_index(s, key) == -1,
    ensures
        lookup(s.push((key, val)), key) == Some(val),
        forall|k: i32| k != key ==> lookup(s.push((key, val)), k) == lookup(s, k),
    decreases s.len(),
{
    let t = s.push((key, val));
    lemma_find_index_properties(s, key);
    lemma_find_index_of_scan(t, key, s.len() as int);
    assert(find_index(t, key) == s.len());
    assert forall|k: i32| k != key implies lookup(t, k) == lookup(s, k) by {
        lemma_find_index_properties(s, k);
        let fi = find_index(s, k);
        if fi >= 0 {
            assert(forall|j: int| 0 <= j < fi ==> (#[trigger] t[j]).0 != k);
            lemma_find_index_of_scan(t, k, fi);
            assert(find_index(t, k) == fi);
        } else {
            assert(forall|j: int| 0 <= j < s.len() ==> (#[trigger] t[j]).0 != k);
            lemma_find_index_of_scan(t, k, t.len() as int);
        }
    }
}

/// Find the index of the first entry with key `key` in `v`, if any.
pub fn find_entry<V: Copy>(v: &Vec<(i32, V)>, key: i32) -> (r: Option<usize>)
    ensures
        match r {
            Some(i) => 0 <= i < v@.len() && find_index(v@, key) == i,
            None => find_index(v@, key) == -1,
        },
{
    let mut i: usize = 0;
    while i < v.len()
        invariant
            0 <= i <= v@.len(),
            forall|j: int| 0 <= j < i ==> (#[trigger] v@[j]).0 != key,
        decreases v@.len() - i,
    {
        if v[i].0 == key {
            proof {
                lemma_find_index_of_scan(v@, key, i as int);
            }
            return Some(i);
        }
        i = i + 1;
    }
    proof {
        lemma_find_index_of_scan(v@, key, i as int);
    }
    None
}

/// Set `key` to `val`: overwrite the first entry with that key, or append a
/// new entry if the key is absent. Every other key's lookup is unchanged.
pub fn upsert<V: Copy>(v: &mut Vec<(i32, V)>, key: i32, val: V)
    ensures
        final(v)@ == set_entry(old(v)@, key, val),
        lookup(final(v)@, key) == Some(val),
        forall|k: i32| k != key ==> lookup(final(v)@, k) == lookup(old(v)@, k),
{
    let found = find_entry(v, key);
    match found {
        Some(i) => {
            proof {
                lemma_find_index_properties(v@, key);
            }
            v[i] = (key, val);
            proof {
                lemma_lookup_update(old(v)@, i as int, key, val);
            }
        },
        None => {
            v.push((key, val));
            proof {
                lemma_lookup_push(old(v)@, key, val);
            }
        },
    }
}

} // verus!
