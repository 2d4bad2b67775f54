//! Pairs kept sorted by a string key, each key once: the ordered map that
//! entity properties and inspector tallies are stored in.
use vstd::prelude::*;
use crate::text::{key_lt, lemma_key_lt_irreflexive, lemma_key_lt_total, lemma_key_lt_transitive};

verus! {

/// The position of `key` among the pairs, searching from `from`.
pub open spec fn key_index_from<V>(p: Seq<(Seq<char>, V)>, key: Seq<char>, from: int) -> Option<
    int,
>
    decreases p.len() - from,
{
    if from < 0 || from >= p.len() {
        None
    } else if p[from].0 == key {
        Some(from)
    } else {
        key_index_from(p, key, from + 1)
    }
}

/// The value stored under `key`.
pub open spec fn key_get<V>(p: Seq<(Seq<char>, V)>, key: Seq<char>) -> Option<V> {
    match key_index_from(p, key, 0) {
        Some(i) => Some(p[i].1),
        None => None,
    }
}

/// Where a new `key` goes: before the first pair, from `from` on, whose key
/// does not sort before it.
pub open spec fn insert_pos<V>(p: Seq<(Seq<char>, V)>, key: Seq<char>, from: int) -> int
    decreases p.len() - from,
{
    if from < 0 || from >= p.len() {
        p.len() as int
    } else if !key_lt(p[from].0, key) {
        from
    } else {
        insert_pos(p, key, from + 1)
    }
}

/// Store `value` under `key`: an earlier value is replaced in place, a new
/// key goes where it sorts.
pub open spec fn key_insert<V>(p: Seq<(Seq<char>, V)>, key: Seq<char>, value: V) -> Seq<(Seq<char>, V)> {
    match key_index_from(p, key, 0) {
        Some(i) => p.update(i, (key, value)),
        None => p.insert(insert_pos(p, key, 0), (key, value)),
    }
}

/// The keys strictly increase, as `String`s order them.
pub open spec fn keys_sorted<V>(p: Seq<(Seq<char>, V)>) -> bool {
    forall|i: int, j: int| 0 <= i < j < p.len() ==> key_lt(#[trigger] p[i].0, #[trigger] p[j].0)
}

/// Strictly increasing keys are pairwise different.
pub proof fn lemma_sorted_keys_unique<V>(p: Seq<(Seq<char>, V)>)
    requires
        keys_sorted(p),
    ensures
        forall|i: int, j: int| 0 <= i < j < p.len() ==> #[trigger] p[i].0 != #[trigger] p[j].0,
{
    assert forall|i: int, j: int| 0 <= i < j < p.len() implies #[trigger] p[i].0 != #[trigger] p[j].0 by {
        lemma_key_lt_irreflexive(p[i].0);
    }
}

/// A found position is in range and holds the key; no earlier one does.
pub proof fn lemma_key_index<V>(p: Seq<(Seq<char>, V)>, key: Seq<char>, from: int)
    requires
        0 <= from,
    ensures
        key_index_from(p, key, from) matches Some(i) ==> from <= i < p.len() && p[i].0 == key
            && forall|j: int| from <= j < i ==> p[j].0 != key,
        key_index_from(p, key, from) is None ==> forall|j: int| from <= j < p.len() ==> p[j].0 != key,
    decreases p.len() - from,
{
    if from < p.len() && p[from].0 != key {
        lemma_key_index(p, key, from + 1);
    }
}

/// Every key before the insertion point sorts before `key`; the one at it,
/// if any, does not.
proof fn lemma_insert_pos<V>(p: Seq<(Seq<char>, V)>, key: Seq<char>, from: int)
    requires
        0 <= from <= p.len(),
    ensures
        from <= insert_pos(p, key, from) <= p.len(),
        forall|j: int| from <= j < insert_pos(p, key, from) ==> key_lt(#[trigger] p[j].0, key),
        insert_pos(p, key, from) < p.len() ==> !key_lt(p[insert_pos(p, key, from)].0, key),
    decreases p.len() - from,
{
    if from < p.len() && key_lt(p[from].0, key) {
        lemma_insert_pos(p, key, from + 1);
    }
}

/// Storing a pair keeps the keys strictly increasing, so each key stays
/// unique and the pairs stay in key order.
pub proof fn lemma_key_insert_sorted<V>(p: Seq<(Seq<char>, V)>, key: Seq<char>, value: V)
    requires
        keys_sorted(p),
    ensures
        keys_sorted(key_insert(p, key, value)),
{
    lemma_key_index(p, key, 0);
    let q = key_insert(p, key, value);
    match key_index_from(p, key, 0) {
        Some(i) => {
            assert forall|a: int, c: int| 0 <= a < c < q.len() implies key_lt(
                #[trigger] q[a].0,
                #[trigger] q[c].0,
            ) by {
                assert(q[a].0 == p[a].0 && q[c].0 == p[c].0);
            }
        },
        None => {
            let pos = insert_pos(p, key, 0);
            lemma_insert_pos(p, key, 0);
            if pos < p.len() {
                lemma_key_lt_total(key, p[pos].0);
            }
            assert forall|a: int, c: int| 0 <= a < c < q.len() implies key_lt(
                #[trigger] q[a].0,
                #[trigger] q[c].0,
            ) by {
                if c < pos {
                    assert(q[a] == p[a] && q[c] == p[c]);
                } else if c == pos {
                    assert(q[a] == p[a]);
                } else if a < pos {
                    assert(q[a] == p[a] && q[c] == p[c - 1]);
                } else if a == pos {
                    assert(q[c] == p[c - 1]);
                    if c - 1 > pos {
                        lemma_key_lt_transitive(key, p[pos].0, p[c - 1].0);
                    }
                } else {
                    assert(q[a] == p[a - 1] && q[c] == p[c - 1]);
                }
            }
        },
    }
}


/// The first position holding `key` is the one found.
pub proof fn lemma_key_index_at<V>(p: Seq<(Seq<char>, V)>, key: Seq<char>, j: int)
    requires
        0 <= j < p.len(),
        p[j].0 == key,
        forall|m: int| 0 <= m < j ==> p[m].0 != key,
    ensures
        key_index_from(p, key, 0) == Some(j),
{
    lemma_key_index(p, key, 0);
    if let Some(i) = key_index_from(p, key, 0) {
        if i < j {
            assert(p[i].0 == key);
        } else if i > j {
            assert(p[j].0 != key);
        }
    }
}

/// After storing `value` under `key`, `key` reads back `value` and every
/// other key reads back what it read before.
pub proof fn lemma_key_insert_get<V>(p: Seq<(Seq<char>, V)>, key: Seq<char>, value: V, other: Seq<char>)
    ensures
        key_get(key_insert(p, key, value), key) == Some(value),
        other != key ==> key_get(key_insert(p, key, value), other) == key_get(p, other),
{
    lemma_key_index(p, key, 0);
    lemma_key_index(p, other, 0);
    let q = key_insert(p, key, value);
    match key_index_from(p, key, 0) {
        Some(i) => {
            lemma_key_index_at(q, key, i);
            if other != key {
                match key_index_from(p, other, 0) {
                    Some(j) => {
                        lemma_key_index_at(q, other, j);
                    },
                    None => {
                        lemma_key_index(q, other, 0);
                        if let Some(j) = key_index_from(q, other, 0) {
                            assert(q[j].0 == p[j].0);
                        }
                    },
                }
            }
        },
        None => {
            let pos = insert_pos(p, key, 0);
            lemma_insert_pos(p, key, 0);
            assert forall|m: int| 0 <= m < pos implies q[m].0 != key by {
                assert(q[m] == p[m]);
            }
            lemma_key_index_at(q, key, pos);
            if other != key {
                match key_index_from(p, other, 0) {
                    Some(j) => {
                        if j < pos {
                            assert forall|m: int| 0 <= m < j implies q[m].0 != other by {
                                assert(q[m] == p[m]);
                            }
                            assert(q[j] == p[j]);
                            lemma_key_index_at(q, other, j);
                        } else {
                            assert forall|m: int| 0 <= m < j + 1 implies q[m].0 != other by {
                                if m < pos {
                                    assert(q[m] == p[m]);
                                } else if m > pos {
                                    assert(q[m] == p[m - 1]);
                                }
                            }
                            assert(q[j + 1] == p[j]);
                            lemma_key_index_at(q, other, j + 1);
                        }
                    },
                    None => {
                        lemma_key_index(q, other, 0);
                        if let Some(j) = key_index_from(q, other, 0) {
                            if j < pos {
                                assert(q[j] == p[j]);
                            } else if j > pos {
                                assert(q[j] == p[j - 1]);
                            }
                        }
                    },
                }
            }
        },
    }
}

} // verus!
