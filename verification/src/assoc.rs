//! String-keyed entry lists, the library's form of the original's
//! name-keyed maps. Lookup takes the first entry with the key.
use vstd::prelude::*;
use crate::text::{chars_eq, chars_of, lemma_seq_lt_total, lemma_seq_lt_trans, seq_lt};

verus! {

/// Position of the first entry whose key is `key`.
pub open spec fn key_index<T>(m: Seq<(String, T)>, key: Seq<char>) -> Option<int>
    decreases m.len(),
{
    if m.len() == 0 {
        None
    } else {
        match key_index(m.drop_last(), key) {
            Some(i) => Some(i),
            None => if m.last().0@ == key {
                Some(m.len() - 1)
            } else {
                None
            },
        }
    }
}

/// The value stored under `key`.
pub open spec fn lookup<T>(m: Seq<(String, T)>, key: Seq<char>) -> Option<T> {
    match key_index(m, key) {
        Some(i) => Some(m[i].1),
        None => None,
    }
}

pub proof fn lemma_key_index<T>(m: Seq<(String, T)>, key: Seq<char>)
    ensures
        match key_index(m, key) {
            Some(i) => 0 <= i < m.len() && m[i].0@ == key && forall|j: int|
                0 <= j < i ==> (#[trigger] m[j]).0@ != key,
            None => forall|j: int| 0 <= j < m.len() ==> (#[trigger] m[j]).0@ != key,
        },
    decreases m.len(),
{
    if m.len() > 0 {
        let t = m.drop_last();
        lemma_key_index(t, key);
        assert forall|j: int| 0 <= j < t.len() implies (#[trigger] m[j]).0@ == t[j].0@ by {}
    }
}

/// Entries with pairwise distinct keys.
pub open spec fn keys_unique<T>(m: Seq<(String, T)>) -> bool {
    forall|i: int, j: int| 0 <= i < j < m.len() ==> (#[trigger] m[i]).0@ != (#[trigger] m[j]).0@
}

/// Position of the first entry keyed `key`.
pub fn find_key<T>(m: &Vec<(String, T)>, key: &[char]) -> (r: Option<usize>)
    ensures
        match r {
            Some(i) => key_index(m@, key@) == Some(i as int),
            None => key_index(m@, key@) is None,
        },
{
    proof {
        lemma_key_index(m@, key@);
    }
    let mut i: usize = 0;
    while i < m.len()
        invariant
            i <= m.len(),
            forall|j: int| 0 <= j < i ==> (#[trigger] m@[j]).0@ != key@,
            match key_index(m@, key@) {
                Some(k) => 0 <= k < m@.len() && m@[k].0@ == key@ && forall|j: int|
                    0 <= j < k ==> (#[trigger] m@[j]).0@ != key@,
                None => forall|j: int| 0 <= j < m@.len() ==> (#[trigger] m@[j]).0@ != key@,
            },
        decreases m.len() - i,
    {
        let k = chars_of(m[i].0.as_str());
        if chars_eq(&k, key) {
            return Some(i);
        }
        i += 1;
    }
    None
}

/// Position of the first entry keyed by the string `key`.
pub fn find_key_str<T>(m: &Vec<(String, T)>, key: &str) -> (r: Option<usize>)
    ensures
        match r {
            Some(i) => key_index(m@, key@) == Some(i as int),
            None => key_index(m@, key@) is None,
        },
{
    let k = chars_of(key);
    find_key(m, &k)
}

/// Reads a copyable value by key.
pub fn get_copy<T: Copy>(m: &Vec<(String, T)>, key: &str) -> (r: Option<T>)
    ensures
        r == lookup(m@, key@),
{
    proof {
        lemma_key_index(m@, key@);
    }
    match find_key_str(m, key) {
        Some(i) => Some(m[i].1),
        None => None,
    }
}

/// Where `key` goes in key-sorted entries: before the first key not below it.
pub open spec fn insert_pos<T>(m: Seq<(String, T)>, key: Seq<char>) -> int
    decreases m.len(),
{
    if m.len() == 0 {
        0
    } else if crate::text::seq_lt(m[0].0@, key) {
        1 + insert_pos(m.subrange(1, m.len() as int), key)
    } else {
        0
    }
}

/// The entries of a key-ordered map after inserting `key`: an entry with
/// the key is replaced in place, else the new entry goes where the order
/// puts it.
pub open spec fn map_insert<T>(m: Seq<(String, T)>, key: String, v: T) -> Seq<(String, T)> {
    let p = insert_pos(m, key@);
    if p < m.len() && m[p].0@ == key@ {
        m.update(p, (key, v))
    } else {
        m.insert(p, (key, v))
    }
}

proof fn lemma_insert_pos<T>(m: Seq<(String, T)>, key: Seq<char>, i: int)
    requires
        0 <= i <= m.len(),
        forall|j: int| 0 <= j < i ==> crate::text::seq_lt(#[trigger] m[j].0@, key),
        i == m.len() || !crate::text::seq_lt(m[i].0@, key),
    ensures
        insert_pos(m, key) == i,
    decreases m.len(),
{
    if m.len() > 0 && i > 0 {
        let t = m.subrange(1, m.len() as int);
        assert forall|j: int| 0 <= j < i - 1 implies crate::text::seq_lt(#[trigger] t[j].0@, key) by {
            assert(t[j] == m[j + 1]);
        }
        if i < m.len() {
            assert(t[i - 1] == m[i]);
        }
        lemma_insert_pos(t, key, i - 1);
    }
}

/// Entries in strictly increasing key order (so no key occurs twice).
pub open spec fn keys_sorted<T>(m: Seq<(String, T)>) -> bool {
    forall|a: int, b: int| 0 <= a < b < m.len() ==> seq_lt((#[trigger] m[a]).0@, (#[trigger] m[b]).0@)
}

proof fn lemma_insert_pos_props<T>(m: Seq<(String, T)>, key: Seq<char>)
    ensures
        0 <= insert_pos(m, key) <= m.len(),
        forall|j: int| 0 <= j < insert_pos(m, key) ==> seq_lt((#[trigger] m[j]).0@, key),
        insert_pos(m, key) < m.len() ==> !seq_lt(m[insert_pos(m, key)].0@, key),
    decreases m.len(),
{
    if m.len() > 0 && seq_lt(m[0].0@, key) {
        let t = m.subrange(1, m.len() as int);
        lemma_insert_pos_props(t, key);
        assert forall|j: int| 1 <= j < m.len() implies #[trigger] m[j] == t[j - 1] by {}
    }
}

/// Inserting keeps the entries key-ordered, and a lookup of the key then
/// gives the inserted value while every other key keeps its value.
pub proof fn lemma_map_insert_sorted<T>(m: Seq<(String, T)>, key: String, v: T)
    requires
        keys_sorted(m),
    ensures
        keys_sorted(map_insert(m, key, v)),
        lookup(map_insert(m, key, v), key@) == Some(v),
        forall|k: Seq<char>| k != key@ ==> #[trigger] lookup(map_insert(m, key, v), k) == lookup(m, k),
{
    let k = key@;
    let p = insert_pos(m, k);
    lemma_insert_pos_props(m, k);
    let r = map_insert(m, key, v);
    if p < m.len() && m[p].0@ == k {
        assert forall|a: int, b: int| 0 <= a < b < r.len() implies seq_lt((#[trigger] r[a]).0@, (#[trigger] r[b]).0@) by {
            assert(r[a].0@ == m[a].0@);
            assert(r[b].0@ == m[b].0@);
        }
    } else {
        if p < m.len() {
            lemma_seq_lt_total(m[p].0@, k);
        }
        assert forall|x: int| p <= x < m.len() implies seq_lt(k, (#[trigger] m[x]).0@) by {
            lemma_seq_lt_total(m[p].0@, k);
            if x > p {
                lemma_seq_lt_trans(k, m[p].0@, m[x].0@);
            }
        }
        assert forall|a: int, b: int| 0 <= a < b < r.len() implies seq_lt((#[trigger] r[a]).0@, (#[trigger] r[b]).0@) by {
            if a < p && b > p {
                assert(r[a] == m[a]);
                assert(r[b] == m[b - 1]);
                lemma_seq_lt_trans(m[a].0@, k, m[b - 1].0@);
            } else if a > p {
                assert(r[a] == m[a - 1]);
                assert(r[b] == m[b - 1]);
            } else if a < p {
                assert(r[a] == m[a]);
                if b < p {
                    assert(r[b] == m[b]);
                }
            } else {
                assert(r[b] == m[b - 1]);
            }
        }
    }
    lemma_key_index(r, k);
    assert(r[p].0@ == k);
    if let Some(i) = key_index(r, k) {
        if i != p {
            if i < p {
                lemma_seq_lt_total(r[i].0@, r[p].0@);
            } else {
                lemma_seq_lt_total(r[p].0@, r[i].0@);
            }
        }
    }
    assert forall|kk: Seq<char>| kk != k implies #[trigger] lookup(r, kk) == lookup(m, kk) by {
        lemma_key_index(r, kk);
        lemma_key_index(m, kk);
        match key_index(m, kk) {
            Some(i) => {
                let ri = if p < m.len() && m[p].0@ == k { i } else if i < p { i } else { i + 1 };
                assert(r[ri] == m[i]);
                if let Some(q) = key_index(r, kk) {
                    if q != ri {
                        if q < ri {
                            lemma_seq_lt_total(r[q].0@, r[ri].0@);
                        } else {
                            lemma_seq_lt_total(r[ri].0@, r[q].0@);
                        }
                    }
                }
            },
            None => {
                if let Some(q) = key_index(r, kk) {
                    if q != p {
                        let mi = if p < m.len() && m[p].0@ == k { q } else if q < p { q } else { q - 1 };
                        assert(r[q] == m[mi]);
                    }
                }
            },
        }
    }
}

/// Inserts into key-ordered entries as an ordered map does; key-ordered
/// entries stay key-ordered (see `lemma_map_insert_sorted`).
pub fn entries_insert<T>(m: &mut Vec<(String, T)>, key: String, v: T)
    ensures
        final(m)@ == map_insert(old(m)@, key, v),
{
    let k = chars_of(key.as_str());
    let mut i: usize = 0;
    while i < m.len() && crate::text::chars_lt(&chars_of(m[i].0.as_str()), &k)
        invariant
            i <= m@.len(),
            k@ == key@,
            forall|j: int| 0 <= j < i ==> crate::text::seq_lt(#[trigger] m@[j].0@, key@),
        decreases m.len() - i,
    {
        i += 1;
    }
    proof {
        lemma_insert_pos(m@, key@, i as int);
    }
    if i < m.len() && chars_eq(&chars_of(m[i].0.as_str()), &k) {
        m.set(i, (key, v));
    } else {
        m.insert(i, (key, v));
    }
}


/// Where key `k` goes in key-sorted spec entries.
pub open spec fn vpos<V>(m: Seq<(Seq<char>, V)>, k: Seq<char>) -> int
    decreases m.len(),
{
    if m.len() == 0 {
        0
    } else if crate::text::seq_lt(m[0].0, k) {
        1 + vpos(m.subrange(1, m.len() as int), k)
    } else {
        0
    }
}

/// Key-sorted spec entries after inserting `k`: an entry with the key is
/// replaced in place, else the new one goes where the order puts it.
pub open spec fn vinsert<V>(m: Seq<(Seq<char>, V)>, k: Seq<char>, v: V) -> Seq<(Seq<char>, V)> {
    let p = vpos(m, k);
    if p < m.len() && m[p].0 == k {
        m.update(p, (k, v))
    } else {
        m.insert(p, (k, v))
    }
}

/// Entries with their keys as character sequences and values seen through `f`.
pub open spec fn keyed_view<T, V>(m: Seq<(String, T)>, f: spec_fn(T) -> V) -> Seq<(Seq<char>, V)> {
    m.map_values(|e: (String, T)| (e.0@, f(e.1)))
}

proof fn lemma_pos_view<T, V>(m: Seq<(String, T)>, k: Seq<char>, f: spec_fn(T) -> V)
    ensures
        insert_pos(m, k) == vpos(keyed_view(m, f), k),
    decreases m.len(),
{
    if m.len() > 0 {
        let t = m.subrange(1, m.len() as int);
        lemma_pos_view(t, k, f);
        assert(keyed_view(m, f).subrange(1, m.len() as int) =~= keyed_view(t, f));
    }
}

proof fn lemma_pos_bounds<T>(m: Seq<(String, T)>, k: Seq<char>)
    ensures
        0 <= insert_pos(m, k) <= m.len(),
    decreases m.len(),
{
    if m.len() > 0 {
        lemma_pos_bounds(m.subrange(1, m.len() as int), k);
    }
}

/// Inserting into a map and then viewing it is viewing it and then inserting.
pub proof fn lemma_map_insert_view<T, V>(m: Seq<(String, T)>, key: String, v: T, f: spec_fn(T) -> V)
    ensures
        keyed_view(map_insert(m, key, v), f) == vinsert(keyed_view(m, f), key@, f(v)),
{
    lemma_pos_view(m, key@, f);
    lemma_pos_bounds(m, key@);
    let p = insert_pos(m, key@);
    let a = keyed_view(map_insert(m, key, v), f);
    let b = vinsert(keyed_view(m, f), key@, f(v));
    if p < m.len() && m[p].0@ == key@ {
        assert(a =~= b);
    } else {
        let mi = m.insert(p, (key, v));
        assert(a.len() == b.len());
        assert forall|i: int| 0 <= i < a.len() implies a[i] == b[i] by {
            if i < p {
                assert(mi[i] == m[i]);
            } else if i > p {
                assert(mi[i] == m[i - 1]);
            }
        }
        assert(a =~= b);
    }
}

} // verus!
