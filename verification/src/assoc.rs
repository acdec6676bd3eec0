//! Sequences of keyed entries, read as maps that remember the order in
//! which their keys came.
use crate::text::str_eq;
use vstd::prelude::*;

verus! {

/// The index of the first entry of `s` under `key`, or the length of `s`.
pub open spec fn index_of<K, V>(s: Seq<(K, V)>, key: K) -> int
    decreases s.len(),
{
    if s.len() == 0 || s[0].0 == key {
        0
    } else {
        1 + index_of(s.skip(1), key)
    }
}

/// What stands under `key`.
pub open spec fn get<K, V>(s: Seq<(K, V)>, key: K) -> Option<V> {
    if 0 <= index_of(s, key) < s.len() {
        Some(s[index_of(s, key)].1)
    } else {
        None
    }
}

/// `s` with `value` under `key`: in the place of what stood there, or at
/// the end.
pub open spec fn put<K, V>(s: Seq<(K, V)>, key: K, value: V) -> Seq<(K, V)> {
    if 0 <= index_of(s, key) < s.len() {
        s.update(index_of(s, key), (key, value))
    } else {
        s.push((key, value))
    }
}

/// `s` without the entry under `key`.
pub open spec fn del<K, V>(s: Seq<(K, V)>, key: K) -> Seq<(K, V)> {
    if 0 <= index_of(s, key) < s.len() {
        s.remove(index_of(s, key))
    } else {
        s
    }
}

/// No key has two entries.
pub open spec fn distinct_keys<K, V>(s: Seq<(K, V)>) -> bool {
    forall|i: int, j: int| 0 <= i < j < s.len() ==> (#[trigger] s[i]).0 != (#[trigger] s[j]).0
}

/// No entry before the index of a key stands under it; the entry at the
/// index does, if there is one.
pub proof fn lemma_index_of<K, V>(s: Seq<(K, V)>, key: K)
    ensures
        0 <= index_of(s, key) <= s.len(),
        forall|i: int| 0 <= i < index_of(s, key) ==> (#[trigger] s[i]).0 != key,
        index_of(s, key) < s.len() ==> s[index_of(s, key)].0 == key,
    decreases s.len(),
{
    if s.len() == 0 || s[0].0 == key {
    } else {
        lemma_index_of(s.skip(1), key);
        assert forall|i: int| 0 <= i < index_of(s, key) implies (#[trigger] s[i]).0 != key by {
            if i > 0 {
                assert(s[i] == s.skip(1)[i - 1]);
            }
        }
    }
}

/// The index of a key, by search.
pub proof fn lemma_index_unique<K, V>(s: Seq<(K, V)>, key: K, i: int)
    requires
        0 <= i <= s.len(),
        forall|k: int| 0 <= k < i ==> (#[trigger] s[k]).0 != key,
        i < s.len() ==> s[i].0 == key,
    ensures
        index_of(s, key) == i,
{
    lemma_index_of(s, key);
    let t = index_of(s, key);
    if t < i {
        assert(s[t].0 != key);
    } else if t > i {
        assert(s[i].0 != key);
    }
}

/// Putting a value changes what stands under its key and nothing else.
pub proof fn lemma_put<K, V>(s: Seq<(K, V)>, key: K, value: V)
    ensures
        get(put(s, key, value), key) == Some(value),
        forall|other: K| other != key ==> get(put(s, key, value), other) == get(s, other),
        distinct_keys(s) ==> distinct_keys(put(s, key, value)),
{
    lemma_index_of(s, key);
    let i = index_of(s, key);
    let r = put(s, key, value);
    assert forall|k: int| 0 <= k < i implies (#[trigger] r[k]).0 != key by {
        assert(r[k] == s[k]);
    }
    lemma_index_unique(r, key, i);
    assert forall|other: K| other != key implies get(r, other) == get(s, other) by {
        lemma_index_of(s, other);
        let j = index_of(s, other);
        assert forall|k: int| 0 <= k < j && k < r.len() implies (#[trigger] r[k]).0 != other by {
            if k < s.len() {
                assert(r[k].0 == s[k].0);
            }
        }
        if j < s.len() {
            assert(r[j] == s[j]);
            lemma_index_unique(r, other, j);
        } else {
            lemma_index_unique(r, other, r.len() as int);
        }
    }
    if distinct_keys(s) {
        assert forall|a: int, b: int| 0 <= a < b < r.len() implies (#[trigger] r[a]).0 != (
        #[trigger] r[b]).0 by {
            if b < s.len() {
                assert(r[a].0 == s[a].0 && r[b].0 == s[b].0);
            } else {
                assert(r[a].0 == s[a].0);
            }
        }
    }
}

/// Taking an entry out leaves nothing under its key and changes nothing else.
pub proof fn lemma_del<K, V>(s: Seq<(K, V)>, key: K)
    requires
        distinct_keys(s),
    ensures
        distinct_keys(del(s, key)),
        get(del(s, key), key).is_none(),
        forall|other: K| other != key ==> get(del(s, key), other) == get(s, other),
{
    lemma_index_of(s, key);
    let i = index_of(s, key);
    let r = del(s, key);
    if i < s.len() {
        assert forall|a: int, b: int| 0 <= a < b < r.len() implies (#[trigger] r[a]).0 != (
        #[trigger] r[b]).0 by {
            let pa = if a < i { a } else { a + 1 };
            let pb = if b < i { b } else { b + 1 };
            assert(r[a] == s[pa] && r[b] == s[pb]);
        }
        assert forall|k: int| 0 <= k < r.len() implies (#[trigger] r[k]).0 != key by {
            let pk = if k < i { k } else { k + 1 };
            assert(r[k] == s[pk]);
            if pk < i {
                assert(s[pk].0 != s[i].0);
            } else {
                assert(s[i].0 != s[pk].0);
            }
        }
    }
    lemma_index_unique(r, key, r.len() as int);
    assert forall|other: K| other != key implies get(r, other) == get(s, other) by {
        lemma_index_of(s, other);
        let j = index_of(s, other);
        if i < s.len() {
            if j < s.len() {
                let pj = if j < i { j } else { j - 1 };
                assert(r[pj] == s[j]);
                assert forall|k: int| 0 <= k < pj implies (#[trigger] r[k]).0 != other by {
                    let pk = if k < i { k } else { k + 1 };
                    assert(r[k] == s[pk]);
                }
                lemma_index_unique(r, other, pj);
            } else {
                assert forall|k: int| 0 <= k < r.len() implies (#[trigger] r[k]).0 != other by {
                    let pk = if k < i { k } else { k + 1 };
                    assert(r[k] == s[pk]);
                }
                lemma_index_unique(r, other, r.len() as int);
            }
        }
    }
}

/// The views of keyed strings.
pub open spec fn pairs_view(v: Seq<(String, String)>) -> Seq<(Seq<char>, Seq<char>)> {
    Seq::new(v.len(), |i: int| (v[i].0@, v[i].1@))
}

/// Puts `value` under `key`.
pub fn put_pair(pairs: &mut Vec<(String, String)>, key: String, value: String)
    ensures
        pairs_view(final(pairs)@) == put(pairs_view(old(pairs)@), key@, value@),
{
    let ghost before = pairs_view(pairs@);
    let mut i: usize = 0;
    while i < pairs.len() && !str_eq(pairs[i].0.as_str(), key.as_str())
        invariant
            0 <= i <= pairs.len(),
            before == pairs_view(pairs@),
            forall|j: int| 0 <= j < i ==> (#[trigger] before[j]).0 != key@,
        decreases pairs.len() - i,
    {
        i += 1;
    }
    proof {
        if i < pairs.len() {
            assert(before[i as int].0 == key@);
        }
        lemma_index_unique(before, key@, i as int);
    }
    if i < pairs.len() {
        pairs.set(i, (key, value));
        assert(pairs_view(pairs@) =~= before.update(i as int, (key@, value@)));
    } else {
        pairs.push((key, value));
        assert(pairs_view(pairs@) =~= before.push((key@, value@)));
    }
}

/// What stands under `key`.
pub fn get_pair<'a>(pairs: &'a Vec<(String, String)>, key: &str) -> (r: Option<&'a String>)
    ensures
        match r {
            Some(v) => get(pairs_view(pairs@), key@) == Some(v@),
            None => get(pairs_view(pairs@), key@).is_none(),
        },
{
    let ghost cv = pairs_view(pairs@);
    let mut i: usize = 0;
    while i < pairs.len() && !str_eq(pairs[i].0.as_str(), key)
        invariant
            0 <= i <= pairs.len(),
            cv == pairs_view(pairs@),
            forall|j: int| 0 <= j < i ==> (#[trigger] cv[j]).0 != key@,
        decreases pairs.len() - i,
    {
        i += 1;
    }
    proof {
        if i < pairs.len() {
            assert(cv[i as int].0 == key@);
        }
        lemma_index_unique(cv, key@, i as int);
    }
    if i < pairs.len() {
        Some(&pairs[i].1)
    } else {
        None
    }
}

} // verus!
