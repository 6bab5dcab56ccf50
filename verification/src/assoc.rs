//! Maps keyed by path, held as vectors of entries in which no key occurs
//! twice.

use vstd::prelude::*;

verus! {

/// No key occurs twice.
pub open spec fn distinct_keys<V>(entries: Seq<(String, V)>) -> bool {
    forall|i: int, j: int| 0 <= i < entries.len() && 0 <= j < entries.len() && i != j ==> entries[i].0@ != entries[j].0@
}

/// The map that a vector of entries holds (a later entry wins over an earlier
/// one with the same key, which cannot happen when keys are distinct).
pub open spec fn entries_view<V: View>(entries: Seq<(String, V)>) -> Map<Seq<char>, V::V>
    decreases entries.len(),
{
    if entries.len() == 0 {
        Map::empty()
    } else {
        entries_view(entries.drop_last()).insert(entries.last().0@, entries.last().1@)
    }
}

pub proof fn lemma_entries_view_dom<V: View>(entries: Seq<(String, V)>, k: Seq<char>)
    ensures
        entries_view(entries).contains_key(k) <==> exists|i: int| 0 <= i < entries.len() && #[trigger] entries[i].0@ == k,
    decreases entries.len(),
{
    if entries.len() > 0 {
        let init = entries.drop_last();
        lemma_entries_view_dom(init, k);
        if entries_view(entries).contains_key(k) {
            if k == entries.last().0@ {
                assert(entries[entries.len() - 1].0@ == k);
            } else {
                let i = choose|i: int| 0 <= i < init.len() && #[trigger] init[i].0@ == k;
                assert(entries[i].0@ == k);
            }
        }
        if exists|i: int| 0 <= i < entries.len() && #[trigger] entries[i].0@ == k {
            let i = choose|i: int| 0 <= i < entries.len() && #[trigger] entries[i].0@ == k;
            if i < entries.len() - 1 {
                assert(init[i].0@ == k);
            }
        }
    }
}

pub proof fn lemma_entries_view_value<V: View>(entries: Seq<(String, V)>, i: int)
    requires
        distinct_keys(entries),
        0 <= i < entries.len(),
    ensures
        entries_view(entries).contains_key(entries[i].0@),
        entries_view(entries)[entries[i].0@] == entries[i].1@,
    decreases entries.len(),
{
    let init = entries.drop_last();
    if i < entries.len() - 1 {
        assert(init[i] == entries[i]);
        lemma_entries_view_value(init, i);
    }
}

pub proof fn lemma_entries_view_update<V: View>(entries: Seq<(String, V)>, i: int, value: V)
    requires
        distinct_keys(entries),
        0 <= i < entries.len(),
    ensures
        distinct_keys(entries.update(i, (entries[i].0, value))),
        entries_view(entries.update(i, (entries[i].0, value))) == entries_view(entries).insert(entries[i].0@, value@),
{
    let updated = entries.update(i, (entries[i].0, value));
    let before = entries_view(entries);
    let after = entries_view(updated);
    let k = entries[i].0@;
    assert forall|q: Seq<char>| after.contains_key(q) <==> before.insert(k, value@).contains_key(q) by {
        lemma_entries_view_dom(entries, q);
        lemma_entries_view_dom(updated, q);
        if exists|j: int| 0 <= j < entries.len() && #[trigger] entries[j].0@ == q {
            let j = choose|j: int| 0 <= j < entries.len() && #[trigger] entries[j].0@ == q;
            assert(updated[j].0@ == q);
        }
        if exists|j: int| 0 <= j < updated.len() && #[trigger] updated[j].0@ == q {
            let j = choose|j: int| 0 <= j < updated.len() && #[trigger] updated[j].0@ == q;
            assert(entries[j].0@ == q);
        }
    }
    assert forall|q: Seq<char>| after.contains_key(q) implies after[q] == before.insert(k, value@)[q] by {
        lemma_entries_view_dom(updated, q);
        let j = choose|j: int| 0 <= j < updated.len() && #[trigger] updated[j].0@ == q;
        lemma_entries_view_value(updated, j);
        if j != i {
            lemma_entries_view_value(entries, j);
        }
    }
    assert(after =~= before.insert(k, value@));
}

/// Where `key` stands in `entries`, if it does.
pub fn find_key<V>(entries: &Vec<(String, V)>, key: &String) -> (r: Option<usize>)
    ensures
        match r {
            Some(i) => i < entries@.len() && entries@[i as int].0@ == key@,
            None => forall|i: int| 0 <= i < entries@.len() ==> entries@[i].0@ != key@,
        },
{
    let mut i: usize = 0;
    while i < entries.len()
        invariant
            i <= entries@.len(),
            forall|j: int| 0 <= j < i ==> entries@[j].0@ != key@,
        decreases entries.len() - i,
    {
        if entries[i].0 == *key {
            return Some(i);
        }
        i = i + 1;
    }
    None
}

/// Whether no key occurs twice.
pub fn has_distinct_keys<V>(entries: &Vec<(String, V)>) -> (r: bool)
    ensures
        r == distinct_keys(entries@),
{
    let mut i: usize = 0;
    while i < entries.len()
        invariant
            i <= entries@.len(),
            forall|a: int, b: int| 0 <= a < i && 0 <= b < entries@.len() && a != b ==> entries@[a].0@ != entries@[b].0@,
        decreases entries.len() - i,
    {
        let mut j: usize = 0;
        while j < entries.len()
            invariant
                i < entries@.len(),
                j <= entries@.len(),
                forall|b: int| 0 <= b < j && b != i ==> entries@[i as int].0@ != entries@[b].0@,
            decreases entries.len() - j,
        {
            if j != i && entries[i].0 == entries[j].0 {
                assert(entries@[i as int].0@ == entries@[j as int].0@);
                return false;
            }
            j = j + 1;
        }
        i = i + 1;
    }
    true
}

/// Sets the value of `key`, adding the entry if the key is not there yet.
pub fn set_entry<V: View>(entries: &mut Vec<(String, V)>, key: String, value: V)
    requires
        distinct_keys(old(entries)@),
    ensures
        distinct_keys(final(entries)@),
        entries_view(final(entries)@) == entries_view(old(entries)@).insert(key@, value@),
{
    let ghost before = entries@;
    match find_key(entries, &key) {
        Some(i) => {
            let (k, _) = entries.remove(i);
            entries.insert(i, (k, value));
            assert(entries@ =~= before.update(i as int, (before[i as int].0, value)));
            proof {
                lemma_entries_view_update(before, i as int, value);
            }
        },
        None => {
            entries.push((key, value));
            assert(entries@.drop_last() =~= before);
        },
    }
}

} // verus!
