//! Insertion-ordered maps and sets of the `indexmap` crate, seen through their entries.
//!
//! Each map type used by the rules gets a name for its entry sequence (keys in
//! insertion order with their values) and one trusted wrapper per method that
//! the rules call. Keys are compared by spec equality, or by their character
//! sequence for `String` keys.

use vstd::prelude::*;
use indexmap::{IndexMap, IndexSet};
use crate::rooms::{same_participant, Participant, RoomState};
use crate::types::{Card, CardRank, Combination, SemanticKey, Seat, WildcardAssignment};

verus! {

/// The `indexmap` crate's `IndexMap`, seen only through the entry names below.
#[verifier::external_type_specification]
#[verifier::external_body]
#[verifier::reject_recursive_types(K)]
#[verifier::reject_recursive_types(V)]
#[verifier::reject_recursive_types(S)]
pub struct ExIndexMap<K, V, S>(IndexMap<K, V, S>);

/// The `indexmap` crate's `IndexSet`, seen only through the entry names below.
#[verifier::external_type_specification]
#[verifier::external_body]
#[verifier::reject_recursive_types(T)]
#[verifier::reject_recursive_types(S)]
pub struct ExIndexSet<T, S>(IndexSet<T, S>);

/// Position of the first entry whose key is `k`, or -1 when there is none.
pub open spec fn key_index<K, V>(s: Seq<(K, V)>, k: K) -> int
    decreases s.len(),
{
    if s.len() == 0 {
        -1
    } else if s[0].0 == k {
        0
    } else {
        let r = key_index(s.drop_first(), k);
        if r < 0 {
            -1
        } else {
            r + 1
        }
    }
}

/// The value stored under `k`, if any.
pub open spec fn lookup<K, V>(s: Seq<(K, V)>, k: K) -> Option<V> {
    let i = key_index(s, k);
    if i >= 0 {
        Some(s[i].1)
    } else {
        None
    }
}

/// Whether some entry has key `k`.
pub open spec fn has_key<K, V>(s: Seq<(K, V)>, k: K) -> bool {
    key_index(s, k) >= 0
}

/// The entries after inserting `(k, v)`: an existing key keeps its place and takes the
/// new value; a new key goes last.
pub open spec fn insert_entry<K, V>(s: Seq<(K, V)>, k: K, v: V) -> Seq<(K, V)> {
    let i = key_index(s, k);
    if i >= 0 {
        s.update(i, (k, v))
    } else {
        s.push((k, v))
    }
}

/// The entries after removing key `k`, the later entries keeping their order.
pub open spec fn remove_entry<K, V>(s: Seq<(K, V)>, k: K) -> Seq<(K, V)> {
    let i = key_index(s, k);
    if i >= 0 {
        s.remove(i)
    } else {
        s
    }
}

/// No key occurs twice.
pub open spec fn distinct_keys<K, V>(s: Seq<(K, V)>) -> bool {
    forall|i: int, j: int| 0 <= i < s.len() && 0 <= j < s.len() && i != j ==> s[i].0 != s[j].0
}

/// The keys in entry order.
pub open spec fn keys_of<K, V>(s: Seq<(K, V)>) -> Seq<K> {
    s.map_values(|e: (K, V)| e.0)
}

/// `key_index` finds the first entry with the key, or reports that none has it.
pub proof fn lemma_key_index<K, V>(s: Seq<(K, V)>, k: K)
    ensures
        -1 <= key_index(s, k) < s.len(),
        key_index(s, k) >= 0 ==> s[key_index(s, k)].0 == k,
        key_index(s, k) >= 0 ==> forall|j: int| 0 <= j < key_index(s, k) ==> s[j].0 != k,
        key_index(s, k) < 0 ==> forall|j: int| 0 <= j < s.len() ==> s[j].0 != k,
    decreases s.len(),
{
    if s.len() > 0 && s[0].0 != k {
        lemma_key_index(s.drop_first(), k);
        assert forall|j: int| 1 <= j < s.len() implies s[j] == s.drop_first()[j - 1] by {}
    }
}

/// Inserting under one key leaves what every other key finds unchanged; no
/// distinctness is needed.
pub proof fn lemma_insert_lookup_other<K, V>(s: Seq<(K, V)>, k: K, v: V, k2: K)
    requires
        k2 != k,
    ensures
        lookup(insert_entry(s, k, v), k2) == lookup(s, k2),
{
    let t = insert_entry(s, k, v);
    lemma_key_index(s, k);
    lemma_key_index(s, k2);
    lemma_key_index(t, k2);
    let a = key_index(t, k2);
    let b = key_index(s, k2);
    assert(forall|j: int| 0 <= j < s.len() && #[trigger] s[j].0 != k ==> t[j] == s[j]);
    assert(forall|j: int| 0 <= j < t.len() && #[trigger] t[j].0 == k2 ==> j < s.len() && t[j] == s[j]);
    if b >= 0 {
        assert(t[b] == s[b]);
        if a < b {
            assert(t[a] == s[a]);
        }
    } else if a >= 0 {
        assert(t[a] == s[a]);
    }
}

/// With distinct keys, the key of an entry is found at that entry.
pub proof fn lemma_key_index_at<K, V>(s: Seq<(K, V)>, i: int)
    requires
        distinct_keys(s),
        0 <= i < s.len(),
    ensures
        key_index(s, s[i].0) == i,
{
    lemma_key_index(s, s[i].0);
}

/// After an insert, the key is found where it was, or last when it was new, with the
/// inserted value; no distinctness is needed.
pub proof fn lemma_insert_lookup<K, V>(s: Seq<(K, V)>, k: K, v: V)
    ensures
        key_index(insert_entry(s, k, v), k) == if key_index(s, k) < 0 { s.len() as int } else { key_index(s, k) },
        lookup(insert_entry(s, k, v), k) == Some(v),
        insert_entry(s, k, v).len() == if key_index(s, k) < 0 { s.len() + 1 } else { s.len() + 0 },
{
    lemma_key_index(s, k);
    let t = insert_entry(s, k, v);
    lemma_key_index(t, k);
    if key_index(s, k) < 0 {
        assert(t[s.len() as int].0 == k);
        if key_index(t, k) < s.len() {
            assert(t[key_index(t, k)] == s[key_index(t, k)]);
        }
    } else {
        let i = key_index(s, k);
        assert(t[i].0 == k);
        if key_index(t, k) < i {
            assert(t[key_index(t, k)] == s[key_index(t, k)]);
        }
    }
}

/// Replacing the value at a key's position keeps every key's position; the key then
/// finds the new value and every other key its old one.
pub proof fn lemma_update_at_key<K, V>(s: Seq<(K, V)>, k: K, v: V)
    requires
        key_index(s, k) >= 0,
    ensures
        key_index(s.update(key_index(s, k), (k, v)), k) == key_index(s, k),
        lookup(s.update(key_index(s, k), (k, v)), k) == Some(v),
        forall|k2: K| #[trigger] key_index(s.update(key_index(s, k), (k, v)), k2) == key_index(s, k2),
        forall|k2: K| k2 != k ==> #[trigger] lookup(s.update(key_index(s, k), (k, v)), k2) == lookup(s, k2),
{
    lemma_key_index(s, k);
    let i = key_index(s, k);
    let t = s.update(i, (k, v));
    assert forall|k2: K| #[trigger] key_index(t, k2) == key_index(s, k2) by {
        lemma_key_index(s, k2);
        lemma_key_index(t, k2);
        assert(forall|j: int| 0 <= j < s.len() ==> #[trigger] t[j].0 == s[j].0);
        if key_index(t, k2) >= 0 && key_index(s, k2) >= 0 {
            assert(t[key_index(s, k2)].0 == k2);
            assert(s[key_index(t, k2)].0 == k2);
        } else if key_index(t, k2) >= 0 {
            assert(s[key_index(t, k2)].0 == k2);
        } else if key_index(s, k2) >= 0 {
            assert(t[key_index(s, k2)].0 == k2);
        }
    }
    assert forall|k2: K| k2 != k implies #[trigger] lookup(t, k2) == lookup(s, k2) by {
        lemma_key_index(s, k2);
        assert(key_index(t, k2) == key_index(s, k2));
        if key_index(s, k2) >= 0 {
            assert(key_index(s, k2) != i);
            assert(t[key_index(s, k2)] == s[key_index(s, k2)]);
        }
    }
}

/// The entries whose keys are not in `ks`, in order.
pub open spec fn without_keys<K, V>(s: Seq<(K, V)>, ks: Set<K>) -> Seq<(K, V)>
    decreases s.len(),
{
    if s.len() == 0 {
        s
    } else {
        let rest = without_keys(s.drop_last(), ks);
        if ks.contains(s.last().0) {
            rest
        } else {
            rest.push(s.last())
        }
    }
}

/// Every entry left by `without_keys` is an entry of `s` whose key is not in `ks`,
/// and the keys of `s` outside `ks` are still found, with their values.
pub proof fn lemma_without_keys<K, V>(s: Seq<(K, V)>, ks: Set<K>)
    ensures
        without_keys(s, ks).len() <= s.len(),
        forall|i: int|
            0 <= i < without_keys(s, ks).len() ==> s.contains(#[trigger] without_keys(s, ks)[i]) && !ks.contains(
                without_keys(s, ks)[i].0,
            ),
        forall|k: K| ks.contains(k) ==> #[trigger] key_index(without_keys(s, ks), k) < 0,
        distinct_keys(s) ==> distinct_keys(without_keys(s, ks)),
        distinct_keys(s) ==> forall|k: K| !ks.contains(k) ==> #[trigger] lookup(without_keys(s, ks), k) == lookup(s, k),
    decreases s.len(),
{
    let w = without_keys(s, ks);
    if s.len() > 0 {
        let p = s.drop_last();
        lemma_without_keys(p, ks);
        let r = without_keys(p, ks);
        assert forall|i: int| 0 <= i < w.len() implies s.contains(#[trigger] w[i]) && !ks.contains(w[i].0) by {
            if i < r.len() {
                assert(w[i] == r[i]);
                let j = choose|j: int| 0 <= j < p.len() && p[j] == r[i];
                assert(s[j] == p[j]);
            } else {
                assert(w[i] == s.last());
                assert(s[s.len() - 1] == s.last());
            }
        }
        assert forall|k: K| ks.contains(k) implies #[trigger] key_index(w, k) < 0 by {
            lemma_key_index(w, k);
            if key_index(w, k) >= 0 {
                assert(!ks.contains(w[key_index(w, k)].0));
            }
        }
        if distinct_keys(s) {
            assert(distinct_keys(p));
            assert forall|i: int, j: int| 0 <= i < w.len() && 0 <= j < w.len() && i != j implies w[i].0 != w[j].0 by {
                if i < r.len() && j < r.len() {
                    assert(w[i] == r[i] && w[j] == r[j]);
                } else if i < r.len() {
                    assert(w[j] == s.last());
                    let a = choose|a: int| 0 <= a < p.len() && p[a] == r[i];
                    assert(w[i] == s[a]);
                    assert(s.last() == s[s.len() - 1]);
                } else if j < r.len() {
                    assert(w[i] == s.last());
                    let a = choose|a: int| 0 <= a < p.len() && p[a] == r[j];
                    assert(w[j] == s[a]);
                    assert(s.last() == s[s.len() - 1]);
                }
            }
            assert forall|k: K| !ks.contains(k) implies #[trigger] lookup(w, k) == lookup(s, k) by {
                lemma_key_index(s, k);
                lemma_key_index(p, k);
                lemma_key_index(w, k);
                lemma_key_index(r, k);
                assert(lookup(r, k) == lookup(p, k));
                if k == s.last().0 {
                    assert(s[s.len() - 1].0 == k);
                    assert(key_index(p, k) < 0) by {
                        if key_index(p, k) >= 0 {
                            assert(s[key_index(p, k)] == p[key_index(p, k)]);
                        }
                    }
                    assert(key_index(s, k) == s.len() - 1) by {
                        if key_index(s, k) < s.len() - 1 {
                            assert(s[key_index(s, k)] == p[key_index(s, k)]);
                        }
                    }
                    assert(key_index(r, k) < 0);
                    assert(w == r.push(s.last()));
                    assert(w[r.len() as int].0 == k);
                    assert(key_index(w, k) == r.len()) by {
                        if key_index(w, k) < r.len() {
                            assert(w[key_index(w, k)] == r[key_index(w, k)]);
                        }
                    }
                } else {
                    if key_index(p, k) >= 0 {
                        assert(s[key_index(p, k)] == p[key_index(p, k)]);
                        assert(key_index(s, k) == key_index(p, k)) by {
                            if key_index(s, k) < key_index(p, k) {
                                assert(s[key_index(s, k)] == p[key_index(s, k)]);
                            }
                        }
                    } else {
                        assert(key_index(s, k) < 0) by {
                            if key_index(s, k) >= 0 && key_index(s, k) < s.len() - 1 {
                                assert(s[key_index(s, k)] == p[key_index(s, k)]);
                            }
                        }
                    }
                    if !ks.contains(s.last().0) {
                        assert(w == r.push(s.last()));
                        if key_index(r, k) >= 0 {
                            assert(w[key_index(r, k)] == r[key_index(r, k)]);
                            assert(key_index(w, k) == key_index(r, k)) by {
                                if key_index(w, k) < key_index(r, k) {
                                    assert(w[key_index(w, k)] == r[key_index(w, k)]);
                                }
                            }
                        } else {
                            assert(key_index(w, k) < 0) by {
                                if key_index(w, k) >= 0 && key_index(w, k) < r.len() {
                                    assert(w[key_index(w, k)] == r[key_index(w, k)]);
                                }
                            }
                        }
                    }
                }
            }
        }
    }
}

/// Excluding no key leaves every entry.
pub proof fn lemma_without_no_keys<K, V>(s: Seq<(K, V)>)
    ensures
        without_keys(s, Set::<K>::empty()) == s,
    decreases s.len(),
{
    if s.len() > 0 {
        lemma_without_no_keys(s.drop_last());
        assert(s.drop_last().push(s.last()) =~= s);
    }
}

/// Removing a key not yet excluded is excluding it too.
pub proof fn lemma_remove_without_keys<K, V>(s: Seq<(K, V)>, ks: Set<K>, k: K)
    requires
        distinct_keys(s),
        !ks.contains(k),
    ensures
        remove_entry(without_keys(s, ks), k) == without_keys(s, ks.insert(k)),
    decreases s.len(),
{
    if s.len() > 0 {
        let p = s.drop_last();
        assert(distinct_keys(p));
        lemma_remove_without_keys(p, ks, k);
        let r = without_keys(p, ks);
        let r2 = without_keys(p, ks.insert(k));
        let e = s.last();
        lemma_key_index(r, k);
        if ks.contains(e.0) {
        } else if e.0 == k {
            lemma_without_keys(p, ks);
            assert(key_index(r, k) < 0) by {
                if key_index(r, k) >= 0 {
                    let a = choose|a: int| 0 <= a < p.len() && p[a] == r[key_index(r, k)];
                    assert(s[a] == p[a]);
                    assert(s[s.len() - 1] == e);
                }
            }
            let w = r.push(e);
            lemma_key_index(w, k);
            assert(key_index(w, k) == r.len()) by {
                assert(w[r.len() as int].0 == k);
                if key_index(w, k) < r.len() {
                    assert(w[key_index(w, k)] == r[key_index(w, k)]);
                }
            }
            assert(w.remove(r.len() as int) =~= r);
        } else {
            let w = r.push(e);
            lemma_key_index(w, k);
            if key_index(r, k) >= 0 {
                assert(w[key_index(r, k)] == r[key_index(r, k)]);
                assert(key_index(w, k) == key_index(r, k)) by {
                    if key_index(w, k) < key_index(r, k) {
                        assert(w[key_index(w, k)] == r[key_index(w, k)]);
                    }
                }
                assert(w.remove(key_index(r, k)) =~= r.remove(key_index(r, k)).push(e));
            } else {
                assert(key_index(w, k) < 0) by {
                    if key_index(w, k) >= 0 && key_index(w, k) < r.len() {
                        assert(w[key_index(w, k)] == r[key_index(w, k)]);
                    }
                }
            }
        }
    }
}

/// Inserting keeps the keys distinct, stores the value under the key and changes no
/// other key.
pub proof fn lemma_insert_entry<K, V>(s: Seq<(K, V)>, k: K, v: V)
    requires
        distinct_keys(s),
    ensures
        distinct_keys(insert_entry(s, k, v)),
        has_key(insert_entry(s, k, v), k),
        lookup(insert_entry(s, k, v), k) == Some(v),
        forall|k2: K| k2 != k ==> lookup(insert_entry(s, k, v), k2) == lookup(s, k2),
        forall|k2: K| k2 != k ==> has_key(insert_entry(s, k, v), k2) == has_key(s, k2),
        insert_entry(s, k, v).len() == if has_key(s, k) { s.len() } else { s.len() + 1 },
{
    lemma_key_index(s, k);
    let t = insert_entry(s, k, v);
    assert(distinct_keys(t));
    lemma_key_index(t, k);
    if key_index(s, k) < 0 {
        lemma_key_index_at(t, s.len() as int);
    } else {
        lemma_key_index_at(t, key_index(s, k));
    }
    assert forall|k2: K| k2 != k implies lookup(t, k2) == lookup(s, k2) && has_key(t, k2) == has_key(s, k2) by {
        lemma_key_index(s, k2);
        lemma_key_index(t, k2);
        if key_index(s, k2) >= 0 {
            lemma_key_index_at(t, key_index(s, k2));
        }
        if key_index(t, k2) >= 0 {
            let j = key_index(t, k2);
            assert(j < s.len());
            assert(t[j] == s[j]);
            lemma_key_index_at(s, j);
        }
    }
}

/// Removing keeps the keys distinct, drops the key and changes no other key.
pub proof fn lemma_remove_entry<K, V>(s: Seq<(K, V)>, k: K)
    requires
        distinct_keys(s),
    ensures
        distinct_keys(remove_entry(s, k)),
        !has_key(remove_entry(s, k), k),
        forall|k2: K| k2 != k ==> lookup(remove_entry(s, k), k2) == lookup(s, k2),
        forall|k2: K| k2 != k ==> has_key(remove_entry(s, k), k2) == has_key(s, k2),
        remove_entry(s, k).len() == if has_key(s, k) { s.len() - 1 } else { s.len() as int },
{
    lemma_key_index(s, k);
    let t = remove_entry(s, k);
    let i = key_index(s, k);
    if i >= 0 {
        assert forall|a: int, b: int| 0 <= a < t.len() && 0 <= b < t.len() && a != b implies t[a].0 != t[b].0 by {
            let a2 = if a < i { a } else { a + 1 };
            let b2 = if b < i { b } else { b + 1 };
            assert(t[a] == s[a2]);
            assert(t[b] == s[b2]);
        }
    }
    lemma_key_index(t, k);
    if key_index(t, k) >= 0 {
        let j = key_index(t, k);
        let j2 = if j < i { j } else { j + 1 };
        assert(t[j] == s[j2]);
    }
    assert forall|k2: K| k2 != k implies lookup(t, k2) == lookup(s, k2) && has_key(t, k2) == has_key(s, k2) by {
        lemma_key_index(s, k2);
        lemma_key_index(t, k2);
        if key_index(s, k2) >= 0 {
            let j = key_index(s, k2);
            if i >= 0 {
                let j2 = if j < i { j } else { j - 1 };
                assert(t[j2] == s[j]);
                lemma_key_index_at(t, j2);
            } else {
                lemma_key_index_at(t, j);
            }
        }
        if key_index(t, k2) >= 0 {
            let j = key_index(t, k2);
            let j2 = if i >= 0 && j >= i { j + 1 } else { j };
            assert(t[j] == s[j2]);
            lemma_key_index_at(s, j2);
        }
    }
}

// ---------------------------------------------------------------------------
// Wildcard assignments: card id -> stood-for rank and suit.

/// The entries of a wildcard assignment map, keys taken by their characters.
pub uninterp spec fn wildcard_entries(m: IndexMap<String, WildcardAssignment>) -> Seq<(Seq<char>, WildcardAssignment)>;

/// `IndexMap::new`: the new map has no entries.
#[verifier::external_body]
pub(crate) fn wildcard_map_new() -> (m: IndexMap<String, WildcardAssignment>)
    ensures
        wildcard_entries(m) == Seq::<(Seq<char>, WildcardAssignment)>::empty(),
{
    IndexMap::new()
}

/// `IndexMap::insert`: an existing key keeps its place and takes the new value; a new
/// key is appended.
#[verifier::external_body]
pub(crate) fn wildcard_map_insert(m: &mut IndexMap<String, WildcardAssignment>, k: String, v: WildcardAssignment)
    ensures
        wildcard_entries(*final(m)) == insert_entry(wildcard_entries(*old(m)), k@, v),
{
    m.insert(k, v);
}

/// `IndexMap::shift_remove`: the entry with the key is removed, later entries keep
/// their order.
#[verifier::external_body]
pub(crate) fn wildcard_map_shift_remove(m: &mut IndexMap<String, WildcardAssignment>, k: &String)
    ensures
        wildcard_entries(*final(m)) == remove_entry(wildcard_entries(*old(m)), k@),
{
    m.shift_remove(k);
}

/// `IndexMap::get`, copying out the stored assignment.
#[verifier::external_body]
pub(crate) fn wildcard_map_get(m: &IndexMap<String, WildcardAssignment>, k: &String) -> (r: Option<WildcardAssignment>)
    ensures
        r == lookup(wildcard_entries(*m), k@),
{
    m.get(k).copied()
}

/// `IndexMap::clone`: the copy has the same entries.
#[verifier::external_body]
pub(crate) fn wildcard_map_clone(m: &IndexMap<String, WildcardAssignment>) -> (r: IndexMap<String, WildcardAssignment>)
    ensures
        wildcard_entries(r) == wildcard_entries(*m),
{
    m.clone()
}

// ---------------------------------------------------------------------------
// Rank counts of a selection of cards.

/// The entries of a rank-count map.
pub uninterp spec fn rank_count_entries(m: IndexMap<CardRank, usize>) -> Seq<(CardRank, usize)>;

/// `IndexMap::new`: the new map has no entries.
#[verifier::external_body]
pub(crate) fn rank_count_new() -> (m: IndexMap<CardRank, usize>)
    ensures
        rank_count_entries(m) == Seq::<(CardRank, usize)>::empty(),
{
    IndexMap::new()
}

/// `IndexMap::get`, copying out the count.
#[verifier::external_body]
pub(crate) fn rank_count_get(m: &IndexMap<CardRank, usize>, k: CardRank) -> (r: Option<usize>)
    ensures
        r == lookup(rank_count_entries(*m), k),
{
    m.get(&k).copied()
}

/// `IndexMap::insert`: an existing key keeps its place and takes the new value; a new
/// key is appended.
#[verifier::external_body]
pub(crate) fn rank_count_insert(m: &mut IndexMap<CardRank, usize>, k: CardRank, v: usize)
    ensures
        rank_count_entries(*final(m)) == insert_entry(rank_count_entries(*old(m)), k, v),
{
    m.insert(k, v);
}

/// `IndexMap::len`.
#[verifier::external_body]
pub(crate) fn rank_count_len(m: &IndexMap<CardRank, usize>) -> (n: usize)
    ensures
        n == rank_count_entries(*m).len(),
{
    m.len()
}

/// `IndexMap::iter`, copying out the entries in order.
#[verifier::external_body]
pub(crate) fn rank_count_to_vec(m: &IndexMap<CardRank, usize>) -> (v: Vec<(CardRank, usize)>)
    ensures
        v@ == rank_count_entries(*m),
{
    m.iter().map(|(k, n)| (*k, *n)).collect()
}

// ---------------------------------------------------------------------------
// Combinations keyed by their meaning.

/// The entries of a map from meaning to combination.
pub uninterp spec fn semantic_entries(m: IndexMap<SemanticKey, Combination>) -> Seq<(SemanticKey, Combination)>;

/// `IndexMap::new`: the new map has no entries.
#[verifier::external_body]
pub(crate) fn semantic_map_new() -> (m: IndexMap<SemanticKey, Combination>)
    ensures
        semantic_entries(m) == Seq::<(SemanticKey, Combination)>::empty(),
{
    IndexMap::new()
}

/// `IndexMap::contains_key`.
#[verifier::external_body]
pub(crate) fn semantic_map_contains(m: &IndexMap<SemanticKey, Combination>, k: &SemanticKey) -> (b: bool)
    ensures
        b == has_key(semantic_entries(*m), *k),
{
    m.contains_key(k)
}

/// `IndexMap::insert`: an existing key keeps its place and takes the new value; a new
/// key is appended.
#[verifier::external_body]
pub(crate) fn semantic_map_insert(m: &mut IndexMap<SemanticKey, Combination>, k: SemanticKey, v: Combination)
    ensures
        semantic_entries(*final(m)) == insert_entry(semantic_entries(*old(m)), k, v),
{
    m.insert(k, v);
}

/// `IndexMap::into_values`: the values in entry order.
#[verifier::external_body]
pub(crate) fn semantic_map_into_values(m: IndexMap<SemanticKey, Combination>) -> (v: Vec<Combination>)
    ensures
        v@.len() == semantic_entries(m).len(),
        forall|i: int| 0 <= i < v@.len() ==> #[trigger] v@[i] == semantic_entries(m)[i].1,
{
    m.into_values().collect()
}

// ---------------------------------------------------------------------------
// Cards keyed by seat (tribute contributions and returns).

/// The entries of a seat-to-card map.
pub uninterp spec fn seat_card_entries(m: IndexMap<Seat, Card>) -> Seq<(Seat, Card)>;

/// `IndexMap::new`: the new map has no entries.
#[verifier::external_body]
pub(crate) fn seat_card_map_new() -> (m: IndexMap<Seat, Card>)
    ensures
        seat_card_entries(m) == Seq::<(Seat, Card)>::empty(),
{
    IndexMap::new()
}

/// `IndexMap::contains_key`.
#[verifier::external_body]
pub(crate) fn seat_card_map_contains(m: &IndexMap<Seat, Card>, k: Seat) -> (b: bool)
    ensures
        b == has_key(seat_card_entries(*m), k),
{
    m.contains_key(&k)
}

/// `IndexMap::insert`: an existing key keeps its place and takes the new value; a new
/// key is appended.
#[verifier::external_body]
pub(crate) fn seat_card_map_insert(m: &mut IndexMap<Seat, Card>, k: Seat, v: Card)
    ensures
        seat_card_entries(*final(m)) == insert_entry(seat_card_entries(*old(m)), k, v),
{
    m.insert(k, v);
}

/// `IndexMap::get`, copying out the card.
#[verifier::external_body]
pub(crate) fn seat_card_map_get(m: &IndexMap<Seat, Card>, k: Seat) -> (r: Option<Card>)
    ensures
        r == lookup(seat_card_entries(*m), k),
{
    m.get(&k).cloned()
}

/// `IndexMap::len`.
#[verifier::external_body]
pub(crate) fn seat_card_map_len(m: &IndexMap<Seat, Card>) -> (n: usize)
    ensures
        n == seat_card_entries(*m).len(),
{
    m.len()
}

/// `IndexMap::iter`, copying out the entries in order.
#[verifier::external_body]
pub(crate) fn seat_card_map_to_vec(m: &IndexMap<Seat, Card>) -> (v: Vec<(Seat, Card)>)
    ensures
        v@ == seat_card_entries(*m),
{
    m.iter().map(|(k, c)| (*k, c.clone())).collect()
}

/// `IndexMap::clone`: the copy has the same entries.
#[verifier::external_body]
pub(crate) fn seat_card_map_clone(m: &IndexMap<Seat, Card>) -> (r: IndexMap<Seat, Card>)
    ensures
        seat_card_entries(r) == seat_card_entries(*m),
{
    m.clone()
}

// ---------------------------------------------------------------------------
// Seats keyed by seat (who receives each tribute).

/// The entries of a seat-to-seat map.
pub uninterp spec fn seat_seat_entries(m: IndexMap<Seat, Seat>) -> Seq<(Seat, Seat)>;

/// `IndexMap::new`: the new map has no entries.
#[verifier::external_body]
pub(crate) fn seat_seat_map_new() -> (m: IndexMap<Seat, Seat>)
    ensures
        seat_seat_entries(m) == Seq::<(Seat, Seat)>::empty(),
{
    IndexMap::new()
}

/// `IndexMap::insert`: an existing key keeps its place and takes the new value; a new
/// key is appended.
#[verifier::external_body]
pub(crate) fn seat_seat_map_insert(m: &mut IndexMap<Seat, Seat>, k: Seat, v: Seat)
    ensures
        seat_seat_entries(*final(m)) == insert_entry(seat_seat_entries(*old(m)), k, v),
{
    m.insert(k, v);
}

/// `IndexMap::get`, copying out the seat.
#[verifier::external_body]
pub(crate) fn seat_seat_map_get(m: &IndexMap<Seat, Seat>, k: Seat) -> (r: Option<Seat>)
    ensures
        r == lookup(seat_seat_entries(*m), k),
{
    m.get(&k).copied()
}

/// `IndexMap::len`.
#[verifier::external_body]
pub(crate) fn seat_seat_map_len(m: &IndexMap<Seat, Seat>) -> (n: usize)
    ensures
        n == seat_seat_entries(*m).len(),
{
    m.len()
}

/// `IndexMap::iter`, copying out the entries in order.
#[verifier::external_body]
pub(crate) fn seat_seat_map_to_vec(m: &IndexMap<Seat, Seat>) -> (v: Vec<(Seat, Seat)>)
    ensures
        v@ == seat_seat_entries(*m),
{
    m.iter().map(|(k, r)| (*k, *r)).collect()
}

/// `IndexMap::clone`: the copy has the same entries.
#[verifier::external_body]
pub(crate) fn seat_seat_map_clone(m: &IndexMap<Seat, Seat>) -> (r: IndexMap<Seat, Seat>)
    ensures
        seat_seat_entries(r) == seat_seat_entries(*m),
{
    m.clone()
}

// ---------------------------------------------------------------------------
// Insertion-ordered sets of seats (the players still holding cards).

/// Position of the first occurrence of `v`, or -1 when it does not occur.
pub open spec fn elem_index<A>(s: Seq<A>, v: A) -> int
    decreases s.len(),
{
    if s.len() == 0 {
        -1
    } else if s[0] == v {
        0
    } else {
        let r = elem_index(s.drop_first(), v);
        if r < 0 {
            -1
        } else {
            r + 1
        }
    }
}

/// `elem_index` finds the first occurrence of the element, or reports that there is none.
pub proof fn lemma_elem_index<A>(s: Seq<A>, v: A)
    ensures
        -1 <= elem_index(s, v) < s.len(),
        elem_index(s, v) >= 0 ==> s[elem_index(s, v)] == v,
        elem_index(s, v) >= 0 ==> forall|j: int| 0 <= j < elem_index(s, v) ==> s[j] != v,
        elem_index(s, v) < 0 ==> !s.contains(v),
        s.contains(v) <==> elem_index(s, v) >= 0,
    decreases s.len(),
{
    if s.len() > 0 && s[0] != v {
        lemma_elem_index(s.drop_first(), v);
        assert forall|j: int| 1 <= j < s.len() implies s[j] == s.drop_first()[j - 1] by {}
        if s.contains(v) {
            let j = choose|j: int| 0 <= j < s.len() && s[j] == v;
            assert(s.drop_first()[j - 1] == v);
        }
    }
    if s.len() > 0 && s[0] == v {
        assert(s.contains(v));
    }
}

/// The sequence without the first occurrence of `v`.
pub open spec fn remove_elem<A>(s: Seq<A>, v: A) -> Seq<A> {
    let i = elem_index(s, v);
    if i >= 0 {
        s.remove(i)
    } else {
        s
    }
}

/// The elements of a seat set in insertion order.
pub uninterp spec fn seat_set_entries(s: IndexSet<Seat>) -> Seq<Seat>;

/// `IndexSet::new`: the new set is empty.
#[verifier::external_body]
pub(crate) fn seat_set_new() -> (s: IndexSet<Seat>)
    ensures
        seat_set_entries(s) == Seq::<Seat>::empty(),
{
    IndexSet::new()
}

/// `IndexSet::insert`: a seat already present is left in place; a new seat goes last.
#[verifier::external_body]
pub(crate) fn seat_set_insert(s: &mut IndexSet<Seat>, v: Seat)
    ensures
        seat_set_entries(*final(s)) == if seat_set_entries(*old(s)).contains(v) {
            seat_set_entries(*old(s))
        } else {
            seat_set_entries(*old(s)).push(v)
        },
{
    s.insert(v);
}

/// `IndexSet::contains`.
#[verifier::external_body]
pub(crate) fn seat_set_contains(s: &IndexSet<Seat>, v: Seat) -> (b: bool)
    ensures
        b == seat_set_entries(*s).contains(v),
{
    s.contains(&v)
}

/// `IndexSet::shift_remove`: the seat is removed, later seats keep their order.
#[verifier::external_body]
pub(crate) fn seat_set_shift_remove(s: &mut IndexSet<Seat>, v: Seat)
    ensures
        seat_set_entries(*final(s)) == remove_elem(seat_set_entries(*old(s)), v),
{
    s.shift_remove(&v);
}

/// `IndexSet::len`.
#[verifier::external_body]
pub(crate) fn seat_set_len(s: &IndexSet<Seat>) -> (n: usize)
    ensures
        n == seat_set_entries(*s).len(),
{
    s.len()
}

/// `IndexSet::first`.
#[verifier::external_body]
pub(crate) fn seat_set_first(s: &IndexSet<Seat>) -> (r: Option<Seat>)
    ensures
        seat_set_entries(*s).len() > 0 ==> r == Some(seat_set_entries(*s)[0]),
        seat_set_entries(*s).len() == 0 ==> r is None,
{
    s.first().copied()
}

/// `IndexSet::iter`, copying out the seats in order.
#[verifier::external_body]
pub(crate) fn seat_set_to_vec(s: &IndexSet<Seat>) -> (v: Vec<Seat>)
    ensures
        v@ == seat_set_entries(*s),
{
    s.iter().copied().collect()
}

/// `IndexSet::clone`: the copy has the same seats in the same order.
#[verifier::external_body]
pub(crate) fn seat_set_clone(s: &IndexSet<Seat>) -> (c: IndexSet<Seat>)
    ensures
        seat_set_entries(c) == seat_set_entries(*s),
{
    s.clone()
}

impl Clone for Combination {
    fn clone(&self) -> (c: Self)
        ensures
            c.kind == self.kind,
            c.size == self.size,
            c.primary_rank == self.primary_rank,
            c.sequence_top == self.sequence_top,
            c.suit == self.suit,
            wildcard_entries(c.wildcard_assignments) == wildcard_entries(self.wildcard_assignments),
    {
        Combination {
            kind: self.kind,
            size: self.size,
            primary_rank: self.primary_rank,
            sequence_top: self.sequence_top,
            suit: self.suit,
            wildcard_assignments: wildcard_map_clone(&self.wildcard_assignments),
        }
    }
}

} // verus!

verus! {

// ---------------------------------------------------------------------------
// Participants of a room, keyed by participant id.

/// The entries of a participant map, keys taken by their characters.
pub uninterp spec fn participant_entries(m: IndexMap<String, Participant>) -> Seq<(Seq<char>, Participant)>;

/// `IndexMap::new`: the new map has no entries.
#[verifier::external_body]
pub(crate) fn participant_map_new() -> (m: IndexMap<String, Participant>)
    ensures
        participant_entries(m) == Seq::<(Seq<char>, Participant)>::empty(),
{
    IndexMap::new()
}

/// `IndexMap::insert`: an existing key keeps its place and takes the new value; a new
/// key is appended.
#[verifier::external_body]
pub(crate) fn participant_map_insert(m: &mut IndexMap<String, Participant>, k: String, v: Participant)
    ensures
        participant_entries(*final(m)) == insert_entry(participant_entries(*old(m)), k@, v),
{
    m.insert(k, v);
}

/// `IndexMap::get`.
#[verifier::external_body]
pub(crate) fn participant_map_get<'a>(m: &'a IndexMap<String, Participant>, k: &str) -> (r: Option<&'a Participant>)
    ensures
        match r {
            Some(p) => lookup(participant_entries(*m), k@) == Some(*p),
            None => lookup(participant_entries(*m), k@) is None,
        },
{
    m.get(k)
}

/// `IndexMap::get_mut`: the entry of the key, changed in place through the reference.
#[verifier::external_body]
pub(crate) fn participant_map_get_mut<'a>(m: &'a mut IndexMap<String, Participant>, k: &str) -> (r: Option<&'a mut Participant>)
    ensures
        match lookup(participant_entries(*old(m)), k@) {
            Some(p) => r.is_some() && *r.unwrap() == p && participant_entries(*final(m)) == participant_entries(
                *old(m),
            ).update(key_index(participant_entries(*old(m)), k@), (k@, *final(r.unwrap()))),
            None => r.is_none() && participant_entries(*final(m)) == participant_entries(*old(m)),
        },
{
    m.get_mut(k)
}

/// `IndexMap::shift_remove`: the entry with the key is removed, later entries keep
/// their order; the removed value is returned.
#[verifier::external_body]
pub(crate) fn participant_map_shift_remove(m: &mut IndexMap<String, Participant>, k: &str) -> (r: Option<Participant>)
    ensures
        participant_entries(*final(m)) == remove_entry(participant_entries(*old(m)), k@),
        r == lookup(participant_entries(*old(m)), k@),
{
    m.shift_remove(k)
}

/// `IndexMap::len`.
#[verifier::external_body]
pub(crate) fn participant_map_len(m: &IndexMap<String, Participant>) -> (n: usize)
    ensures
        n == participant_entries(*m).len(),
{
    m.len()
}

/// `IndexMap::clone`: the copy has the same keys in the same order, each value cloned
/// by `Participant::clone`.
#[verifier::external_body]
pub(crate) fn participant_map_clone(m: &IndexMap<String, Participant>) -> (c: IndexMap<String, Participant>)
    ensures
        participant_entries(c).len() == participant_entries(*m).len(),
        forall|i: int|
            0 <= i < participant_entries(*m).len() ==> #[trigger] participant_entries(c)[i].0
                == participant_entries(*m)[i].0 && same_participant(participant_entries(c)[i].1, participant_entries(*m)[i].1),
{
    m.clone()
}

/// `IndexMap` indexed by position (`Index<usize>`): the value of the entry there; past
/// the end it panics, hence the bound.
#[verifier::external_body]
pub(crate) fn participant_map_index<'a>(m: &'a IndexMap<String, Participant>, i: usize) -> (p: &'a Participant)
    requires
        i < participant_entries(*m).len(),
    ensures
        *p == participant_entries(*m)[i as int].1,
{
    &m[i]
}

/// `IndexMap` indexed mutably by position (`IndexMut<usize>`): the value of the entry
/// there, changed in place through the reference; past the end it panics, hence the bound.
#[verifier::external_body]
pub(crate) fn participant_map_index_mut<'a>(m: &'a mut IndexMap<String, Participant>, i: usize) -> (p: &'a mut Participant)
    requires
        i < participant_entries(*old(m)).len(),
    ensures
        *p == participant_entries(*old(m))[i as int].1,
        participant_entries(*final(m)) == participant_entries(*old(m)).update(
            i as int,
            (participant_entries(*old(m))[i as int].0, *final(p)),
        ),
{
    &mut m[i]
}

// ---------------------------------------------------------------------------
// Processed commands of a room: command key -> version it produced.

/// The entries of a processed-command map, keys taken by their characters.
pub uninterp spec fn processed_entries(m: IndexMap<String, u64>) -> Seq<(Seq<char>, u64)>;

/// `IndexMap::new`: the new map has no entries.
#[verifier::external_body]
pub(crate) fn processed_map_new() -> (m: IndexMap<String, u64>)
    ensures
        processed_entries(m) == Seq::<(Seq<char>, u64)>::empty(),
{
    IndexMap::new()
}

/// `IndexMap::get`, copying out the version.
#[verifier::external_body]
pub(crate) fn processed_map_get(m: &IndexMap<String, u64>, k: &str) -> (r: Option<u64>)
    ensures
        r == lookup(processed_entries(*m), k@),
{
    m.get(k).copied()
}

/// `IndexMap::insert`: an existing key keeps its place and takes the new value; a new
/// key is appended.
#[verifier::external_body]
pub(crate) fn processed_map_insert(m: &mut IndexMap<String, u64>, k: String, v: u64)
    ensures
        processed_entries(*final(m)) == insert_entry(processed_entries(*old(m)), k@, v),
{
    m.insert(k, v);
}

/// `IndexMap::len`.
#[verifier::external_body]
pub(crate) fn processed_map_len(m: &IndexMap<String, u64>) -> (n: usize)
    ensures
        n == processed_entries(*m).len(),
{
    m.len()
}

/// `IndexMap::clone`: the copy has the same entries.
#[verifier::external_body]
pub(crate) fn processed_map_clone(m: &IndexMap<String, u64>) -> (c: IndexMap<String, u64>)
    ensures
        processed_entries(c) == processed_entries(*m),
{
    m.clone()
}

/// `IndexMap::shift_remove_index`: the entry at the position is removed, later entries
/// keep their order.
#[verifier::external_body]
pub(crate) fn processed_map_shift_remove_index(m: &mut IndexMap<String, u64>, i: usize)
    requires
        i < processed_entries(*old(m)).len(),
    ensures
        processed_entries(*final(m)) == processed_entries(*old(m)).remove(i as int),
{
    m.shift_remove_index(i);
}

// ---------------------------------------------------------------------------
// Rooms, keyed by room code.

/// The entries of a room map, keys taken by their characters.
pub uninterp spec fn room_entries(m: IndexMap<String, RoomState>) -> Seq<(Seq<char>, RoomState)>;

/// `IndexMap::contains_key`.
#[verifier::external_body]
pub(crate) fn room_map_contains_key(m: &IndexMap<String, RoomState>, k: &str) -> (b: bool)
    ensures
        b == has_key(room_entries(*m), k@),
{
    m.contains_key(k)
}

/// `IndexMap::insert`: an existing key keeps its place and takes the new value; a new
/// key is appended.
#[verifier::external_body]
pub(crate) fn room_map_insert(m: &mut IndexMap<String, RoomState>, k: String, v: RoomState)
    ensures
        room_entries(*final(m)) == insert_entry(room_entries(*old(m)), k@, v),
{
    m.insert(k, v);
}

} // verus!
