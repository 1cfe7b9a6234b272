use vstd::prelude::*;

use crate::text::{chars_lt, chars_of, lemma_seq_lt_irreflexive, lemma_seq_lt_total, lemma_seq_lt_transitive, seq_lt, str_eq};

verus! {

broadcast use vstd::string::group_string_axioms;

/// The position of the entry with key `k`, if any.
pub open spec fn find_key<V>(s: Seq<(Seq<char>, V)>, k: Seq<char>) -> Option<int> {
    if exists|i: int| 0 <= i < s.len() && #[trigger] s[i].0 == k {
        Some(choose|i: int| 0 <= i < s.len() && #[trigger] s[i].0 == k)
    } else {
        None
    }
}

/// Keys strictly increase in the order of `str`.
pub open spec fn keys_sorted<V>(s: Seq<(Seq<char>, V)>) -> bool {
    forall|i: int, j: int| 0 <= i < j < s.len() ==> seq_lt(#[trigger] s[i].0, #[trigger] s[j].0)
}

/// No key occurs twice.
pub open spec fn keys_unique<V>(s: Seq<(Seq<char>, V)>) -> bool {
    forall|i: int, j: int| 0 <= i < j < s.len() ==> #[trigger] s[i].0 != #[trigger] s[j].0
}

/// How many keys of `s` come before `k`: where `k` belongs in sorted `s`.
pub open spec fn insert_position<V>(s: Seq<(Seq<char>, V)>, k: Seq<char>) -> nat
    decreases s.len(),
{
    if s.len() == 0 {
        0
    } else if seq_lt(s[0].0, k) {
        1 + insert_position(s.drop_first(), k)
    } else {
        0
    }
}

/// `s` with `(k, v)` put in its place: replacing the entry for `k`, or inserted in key order.
pub open spec fn put_sorted<V>(s: Seq<(Seq<char>, V)>, k: Seq<char>, v: V) -> Seq<(Seq<char>, V)> {
    let p = insert_position(s, k) as int;
    if p < s.len() && s[p].0 == k {
        s.update(p, (k, v))
    } else {
        s.insert(p, (k, v))
    }
}


pub proof fn lemma_sorted_unique<V>(s: Seq<(Seq<char>, V)>)
    requires
        keys_sorted(s),
    ensures
        keys_unique(s),
{
    assert forall|i: int, j: int| 0 <= i < j < s.len() implies #[trigger] s[i].0 != #[trigger] s[j].0 by {
        lemma_seq_lt_irreflexive(s[i].0);
        assert(seq_lt(s[i].0, s[j].0));
    }
}

pub proof fn lemma_find_key_at<V>(s: Seq<(Seq<char>, V)>, i: int)
    requires
        keys_unique(s),
        0 <= i < s.len(),
    ensures
        find_key(s, s[i].0) == Some(i),
{
    assert(s[i].0 == s[i].0);
    let c = choose|c: int| 0 <= c < s.len() && #[trigger] s[c].0 == s[i].0;
    if c < i {
        assert(s[c].0 != s[i].0);
    } else if c > i {
        assert(s[i].0 != s[c].0);
    }
}

pub proof fn lemma_insert_position<V>(s: Seq<(Seq<char>, V)>, k: Seq<char>)
    requires
        keys_sorted(s),
    ensures
        insert_position(s, k) <= s.len(),
        forall|i: int| 0 <= i < insert_position(s, k) ==> seq_lt(#[trigger] s[i].0, k),
        forall|i: int| insert_position(s, k) <= i < s.len() ==> !seq_lt(#[trigger] s[i].0, k),
    decreases s.len(),
{
    if s.len() > 0 {
        let t = s.drop_first();
        assert(keys_sorted(t)) by {
            assert forall|i: int, j: int| 0 <= i < j < t.len() implies seq_lt(#[trigger] t[i].0, #[trigger] t[j].0) by {
                assert(t[i] == s[i + 1] && t[j] == s[j + 1]);
            }
        }
        lemma_insert_position(t, k);
        if seq_lt(s[0].0, k) {
            assert forall|i: int| 0 <= i < insert_position(s, k) implies seq_lt(#[trigger] s[i].0, k) by {
                if i > 0 {
                    assert(s[i] == t[i - 1]);
                }
            }
            assert forall|i: int| insert_position(s, k) <= i < s.len() implies !seq_lt(#[trigger] s[i].0, k) by {
                assert(s[i] == t[i - 1]);
            }
        } else {
            assert forall|i: int| insert_position(s, k) <= i < s.len() implies !seq_lt(#[trigger] s[i].0, k) by {
                if i > 0 && seq_lt(s[i].0, k) {
                    assert(seq_lt(s[0].0, s[i].0));
                    lemma_seq_lt_transitive(s[0].0, s[i].0, k);
                }
            }
        }
    }
}

pub proof fn lemma_put_sorted<V>(s: Seq<(Seq<char>, V)>, k: Seq<char>, v: V)
    requires
        keys_sorted(s),
    ensures
        keys_sorted(put_sorted(s, k, v)),
{
    lemma_insert_position(s, k);
    let p = insert_position(s, k) as int;
    let r = put_sorted(s, k, v);
    if p < s.len() && s[p].0 == k {
        assert forall|i: int, j: int| 0 <= i < j < r.len() implies seq_lt(#[trigger] r[i].0, #[trigger] r[j].0) by {
            assert(r[i].0 == s[i].0 && r[j].0 == s[j].0);
        }
    } else {
        assert forall|i: int| p < i < r.len() implies seq_lt(k, #[trigger] r[i].0) by {
            assert(r[i] == s[i - 1]);
            assert(!seq_lt(s[p].0, k));
            lemma_seq_lt_total(s[p].0, k);
            if i - 1 > p {
                lemma_seq_lt_transitive(k, s[p].0, s[i - 1].0);
            }
        }
        assert forall|i: int, j: int| 0 <= i < j < r.len() implies seq_lt(#[trigger] r[i].0, #[trigger] r[j].0) by {
            if j < p {
                assert(r[i] == s[i] && r[j] == s[j]);
            } else if j == p {
                assert(r[i] == s[i]);
            } else if i < p {
                assert(r[i] == s[i] && r[j] == s[j - 1]);
            } else if i == p {
            } else {
                assert(r[i] == s[i - 1] && r[j] == s[j - 1]);
            }
        }
    }
}


/// Entries with their keys as characters.
pub open spec fn entries_view<V>(s: Seq<(String, V)>) -> Seq<(Seq<char>, V)> {
    s.map_values(|e: (String, V)| (e.0@, e.1))
}

/// The position of the entry with key `key`.
pub fn index_of_key<V>(entries: &Vec<(String, V)>, key: &str) -> (r: Option<usize>)
    requires
        keys_unique(entries_view(entries@)),
    ensures
        match r {
            Some(i) => find_key(entries_view(entries@), key@) == Some(i as int),
            None => find_key(entries_view(entries@), key@) is None,
        },
{
    let ghost ev = entries_view(entries@);
    for i in 0..entries.len()
        invariant
            ev == entries_view(entries@),
            keys_unique(ev),
            forall|k: int| 0 <= k < i ==> #[trigger] ev[k].0 != key@,
    {
        assert(ev[i as int].0 == entries@[i as int].0@);
        if str_eq(entries[i].0.as_str(), key) {
            proof {
                lemma_find_key_at(ev, i as int);
            }
            return Some(i);
        }
    }
    None
}

/// Puts `value` under `key`, keeping the keys sorted: replaces the value of
/// an existing key, else inserts the entry where its key belongs.
pub fn put_entry<V>(entries: &mut Vec<(String, V)>, key: String, value: V)
    requires
        keys_sorted(entries_view(old(entries)@)),
    ensures
        entries_view(final(entries)@) == put_sorted(entries_view(old(entries)@), key@, value),
        keys_sorted(entries_view(final(entries)@)),
{
    let ghost pre = entries_view(entries@);
    let ghost k = key@;
    let key_chars = chars_of(key.as_str());
    let n = entries.len();
    let mut p: usize = 0;
    assert(pre.skip(0) =~= pre);
    while p < n && chars_lt(&chars_of(entries[p].0.as_str()), &key_chars)
        invariant
            n == entries.len(),
            entries_view(entries@) == pre,
            key_chars@ == k,
            p <= n,
            insert_position(pre, k) == p + insert_position(pre.skip(p as int), k),
        decreases n - p,
    {
        assert(pre[p as int].0 == entries@[p as int].0@);
        assert(pre.skip(p as int)[0] == pre[p as int]);
        assert(pre.skip(p as int).drop_first() =~= pre.skip(p + 1));
        p = p + 1;
    }
    proof {
        if p < n {
            assert(pre[p as int].0 == entries@[p as int].0@);
            assert(pre.skip(p as int)[0] == pre[p as int]);
        }
    }
    assert(insert_position(pre, k) == p);
    let same = p < n && str_eq(entries[p].0.as_str(), key.as_str());
    proof {
        if p < n {
            assert(pre[p as int].0 == entries@[p as int].0@);
        }
    }
    if same {
        entries.set(p, (key, value));
    } else {
        entries.insert(p, (key, value));
    }
    proof {
        assert(entries_view(entries@) =~= put_sorted(pre, k, value));
        lemma_put_sorted(pre, k, value);
    }
}

/// After putting `value` under `key`, the key maps to `value` and every
/// other key keeps its value.
pub proof fn lemma_put_sorted_lookup<V>(s: Seq<(Seq<char>, V)>, k: Seq<char>, v: V, other: Seq<char>)
    requires
        keys_sorted(s),
    ensures
        find_key(put_sorted(s, k, v), k) matches Some(i) && put_sorted(s, k, v)[i].1 == v,
        other != k ==> match find_key(s, other) {
            Some(i) => find_key(put_sorted(s, k, v), other) matches Some(j) && put_sorted(s, k, v)[j].1 == s[i].1,
            None => find_key(put_sorted(s, k, v), other) is None,
        },
{
    lemma_insert_position(s, k);
    lemma_put_sorted(s, k, v);
    let r = put_sorted(s, k, v);
    let p = insert_position(s, k) as int;
    lemma_sorted_unique(r);
    lemma_sorted_unique(s);
    lemma_find_key_at(r, p);
    let replaced = p < s.len() && s[p].0 == k;
    if other != k {
        match find_key(s, other) {
            Some(i) => {
                assert(s[i].0 == other);
                let j = if replaced || i < p { i } else { i + 1 };
                assert(r[j] == s[i]);
                lemma_find_key_at(r, j);
            },
            None => {
                assert forall|j: int| 0 <= j < r.len() implies #[trigger] r[j].0 != other by {
                    if j != p {
                        let i = if replaced || j < p { j } else { j - 1 };
                        assert(r[j] == s[i]);
                        assert(s[i].0 != other);
                    }
                }
            },
        }
    }
}

} // verus!

verus! {

/// Where a key belongs depends on the keys only, not on the values.
pub proof fn lemma_insert_position_keys<V, W>(a: Seq<(Seq<char>, V)>, b: Seq<(Seq<char>, W)>, k: Seq<char>)
    requires
        a.len() == b.len(),
        forall|i: int| 0 <= i < a.len() ==> #[trigger] a[i].0 == b[i].0,
    ensures
        insert_position(a, k) == insert_position(b, k),
    decreases a.len(),
{
    if a.len() > 0 {
        lemma_insert_position_keys(a.drop_first(), b.drop_first(), k);
    }
}

} // verus!
