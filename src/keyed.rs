//! Small associations from text keys to values, kept as vectors of pairs in
//! which the latest entry for a key is the one that counts.
use vstd::prelude::*;
use crate::text::same_text;

verus! {

pub open spec fn entries_view<V>(v: Seq<(String, V)>) -> Seq<(Seq<char>, V)> {
    v.map_values(|e: (String, V)| (e.0@, e.1))
}

/// The value recorded for `key`: that of its latest entry.
pub open spec fn last_seen<V>(v: Seq<(Seq<char>, V)>, key: Seq<char>) -> Option<V>
    decreases v.len(),
{
    if v.len() == 0 {
        None
    } else if v.last().0 == key {
        Some(v.last().1)
    } else {
        last_seen(v.drop_last(), key)
    }
}

pub proof fn lemma_last_seen_prefix<V>(v: Seq<(Seq<char>, V)>, key: Seq<char>, i: int)
    requires
        0 <= i <= v.len(),
        forall|j: int| i <= j < v.len() ==> v[j].0 != key,
    ensures
        last_seen(v, key) == last_seen(v.take(i), key),
    decreases v.len() - i,
{
    if i < v.len() {
        assert(v.drop_last().take(i) =~= v.take(i));
        lemma_last_seen_prefix(v.drop_last(), key, i);
    } else {
        assert(v.take(i) =~= v);
    }
}

pub proof fn lemma_last_seen_update<V>(v: Seq<(Seq<char>, V)>, idx: int, key: Seq<char>, t: V, other: Seq<char>)
    requires
        0 <= idx < v.len(),
        v[idx].0 == key,
        forall|j: int| idx < j < v.len() ==> v[j].0 != key,
    ensures
        last_seen(v.update(idx, (key, t)), other) == if other == key {
            Some(t)
        } else {
            last_seen(v, other)
        },
    decreases v.len(),
{
    let w = v.update(idx, (key, t));
    if idx < v.len() - 1 {
        assert(w.drop_last() =~= v.drop_last().update(idx, (key, t)));
        lemma_last_seen_update(v.drop_last(), idx, key, t, other);
    } else {
        assert(w.drop_last() =~= v.drop_last());
    }
}

/// The index of the latest entry for `key`.
pub fn find_last<V>(entries: &Vec<(String, V)>, key: &str) -> (r: Option<usize>)
    ensures
        match r {
            Some(i) => i < entries@.len() && entries_view(entries@)[i as int].0 == key@
                && last_seen(entries_view(entries@), key@) == Some(entries@[i as int].1),
            None => last_seen(entries_view(entries@), key@) is None,
        },
        r matches Some(i) ==> forall|j: int|
            i < j < entries@.len() ==> entries_view(entries@)[j].0 != key@,
{
    let ghost ev = entries_view(entries@);
    let mut i = entries.len();
    while i > 0
        invariant
            i <= entries@.len(),
            ev == entries_view(entries@),
            forall|j: int| i <= j < ev.len() ==> ev[j].0 != key@,
        decreases i,
    {
        if same_text(entries[i - 1].0.as_str(), key) {
            proof {
                lemma_last_seen_prefix(ev, key@, i as int);
                assert(ev.take(i as int).last() == ev[i - 1]);
                assert(ev.take(i as int).drop_last() =~= ev.take(i - 1));
            }
            return Some(i - 1);
        }
        i = i - 1;
    }
    proof {
        lemma_last_seen_prefix(ev, key@, 0);
    }
    None
}

/// Sets the value of `key`: its latest entry is updated, or a new one added.
pub fn set_entry<V>(entries: &mut Vec<(String, V)>, key: &str, value: V)
    ensures
        last_seen(entries_view(final(entries)@), key@) == Some(value),
        forall|k: Seq<char>| k != key@ ==> #[trigger] last_seen(entries_view(final(entries)@), k) == last_seen(entries_view(old(entries)@), k),
{
    let ghost before = entries_view(entries@);
    match find_last(entries, key) {
        Some(i) => {
            proof {
                assert forall|k: Seq<char>|
                    #[trigger] last_seen(before.update(i as int, (key@, value)), k) == if k == key@ {
                        Some(value)
                    } else {
                        last_seen(before, k)
                    } by {
                    lemma_last_seen_update(before, i as int, key@, value, k);
                }
            }
            let name = entries[i].0.clone();
            entries.set(i, (name, value));
            assert(entries_view(entries@) =~= before.update(i as int, (key@, value)));
        },
        None => {
            entries.push((key.to_owned(), value));
            assert(entries_view(entries@) =~= before.push((key@, value)));
            assert(entries_view(entries@).drop_last() =~= before);
        },
    }
}

} // verus!
