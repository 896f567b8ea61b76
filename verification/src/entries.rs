//! Lists of named entries that are read as maps: a name finds the first entry of that
//! name, and the entries keep the order in which their names came.

use vstd::prelude::*;

verus! {

/// The entries of a list as pairs of a name and the view of a value.
pub open spec fn entries_view<V: View>(entries: Seq<(String, V)>) -> Seq<(Seq<char>, V::V)> {
    Seq::new(entries.len(), |i: int| (entries[i].0@, entries[i].1@))
}

/// Position of the first entry called `key`, or the number of entries where none is called
/// so.
pub open spec fn key_position<T>(entries: Seq<(Seq<char>, T)>, key: Seq<char>) -> int
    decreases entries.len(),
{
    if entries.len() == 0 || entries[0].0 == key {
        0
    } else {
        1 + key_position(entries.drop_first(), key)
    }
}

/// Whether some entry is called `key`.
pub open spec fn has_key<T>(entries: Seq<(Seq<char>, T)>, key: Seq<char>) -> bool {
    key_position(entries, key) < entries.len()
}

/// The value of the first entry called `key`, if there is one.
pub open spec fn lookup<T>(entries: Seq<(Seq<char>, T)>, key: Seq<char>) -> Option<T> {
    if has_key(entries, key) {
        Some(entries[key_position(entries, key)].1)
    } else {
        None
    }
}

/// The entries with `key` set to `value`: in the place of the first entry called `key`
/// where there is one, behind the others where there is none.
pub open spec fn upsert<T>(entries: Seq<(Seq<char>, T)>, key: Seq<char>, value: T) -> Seq<
    (Seq<char>, T),
> {
    if has_key(entries, key) {
        entries.update(key_position(entries, key), (key, value))
    } else {
        entries.push((key, value))
    }
}

/// Whether no two entries have the same name.
pub open spec fn distinct_keys<T>(entries: Seq<(Seq<char>, T)>) -> bool {
    forall|i: int, j: int|
        0 <= i < j < entries.len() ==> (#[trigger] entries[i]).0 != (#[trigger] entries[j]).0
}

/// What `key_position` finds: the first entry of that name, or the end.
pub proof fn lemma_key_position<T>(entries: Seq<(Seq<char>, T)>, key: Seq<char>)
    ensures
        0 <= key_position(entries, key) <= entries.len(),
        has_key(entries, key) ==> entries[key_position(entries, key)].0 == key,
        forall|i: int| 0 <= i < key_position(entries, key) ==> (#[trigger] entries[i]).0 != key,
    decreases entries.len(),
{
    if entries.len() == 0 || entries[0].0 == key {
    } else {
        let rest = entries.drop_first();
        lemma_key_position(rest, key);
        assert forall|i: int| 0 <= i < key_position(entries, key) implies (
        #[trigger] entries[i]).0 != key by {
            if i > 0 {
                assert(entries[i] == rest[i - 1]);
            }
        }
    }
}

/// `at` is what `key_position` gives where it is the first entry of that name, or the end
/// where there is none.
pub proof fn lemma_key_position_is<T>(entries: Seq<(Seq<char>, T)>, key: Seq<char>, at: int)
    requires
        0 <= at <= entries.len(),
        at < entries.len() ==> entries[at].0 == key,
        forall|i: int| 0 <= i < at ==> (#[trigger] entries[i]).0 != key,
    ensures
        key_position(entries, key) == at,
{
    lemma_key_position(entries, key);
}

/// Setting a name keeps the names distinct, and makes the name find the value.
pub proof fn lemma_upsert<T>(entries: Seq<(Seq<char>, T)>, key: Seq<char>, value: T)
    ensures
        distinct_keys(entries) ==> distinct_keys(upsert(entries, key, value)),
        lookup(upsert(entries, key, value), key) == Some(value),
        forall|other: Seq<char>|
            other != key ==> #[trigger] lookup(upsert(entries, key, value), other) == lookup(
                entries,
                other,
            ),
{
    let after = upsert(entries, key, value);
    let at = key_position(entries, key);
    lemma_key_position(entries, key);
    lemma_key_position_is(after, key, at);
    assert forall|other: Seq<char>| other != key implies #[trigger] lookup(after, other)
        == lookup(entries, other) by {
        lemma_key_position(entries, other);
        let there = key_position(entries, other);
        lemma_key_position_is(after, other, if there < entries.len() {
            there
        } else {
            after.len() as int
        });
    }
    if distinct_keys(entries) {
        assert forall|i: int, j: int| 0 <= i < j < after.len() implies (#[trigger] after[i]).0 != (
        #[trigger] after[j]).0 by {
            if i < entries.len() && i != at {
                assert(after[i] == entries[i]);
            }
            if j < entries.len() && j != at {
                assert(after[j] == entries[j]);
            }
            if at < entries.len() {
                assert(entries[at].0 == key);
            }
        }
    }
}

/// Position of the first entry called `key`, or the number of entries.
pub fn find_key<V: View>(entries: &Vec<(String, V)>, key: &str) -> (at: usize)
    ensures
        at == key_position(entries_view(entries@), key@),
        at <= entries.len(),
{
    let wanted = key.to_owned();
    let mut i: usize = 0;
    while i < entries.len() && entries[i].0 != wanted
        invariant
            i <= entries.len(),
            wanted@ == key@,
            forall|j: int| 0 <= j < i ==> (#[trigger] entries@[j]).0@ != key@,
        decreases entries.len() - i,
    {
        i += 1;
    }
    proof {
        let views = entries_view(entries@);
        assert forall|j: int| 0 <= j < i implies (#[trigger] views[j]).0 != key@ by {
            assert(views[j].0 == entries@[j].0@);
        }
        lemma_key_position_is(views, key@, i as int);
    }
    i
}

/// The value of the first entry called `key`, if there is one.
pub fn get<'a, V: View>(entries: &'a Vec<(String, V)>, key: &str) -> (r: Option<&'a V>)
    ensures
        match r {
            Some(value) => lookup(entries_view(entries@), key@) == Some(value@),
            None => lookup(entries_view(entries@), key@) is None,
        },
{
    let at = find_key(entries, key);
    if at < entries.len() {
        Some(&entries[at].1)
    } else {
        None
    }
}

/// Sets `key` to `value`.
pub fn insert<V: View>(entries: &mut Vec<(String, V)>, key: String, value: V)
    ensures
        entries_view(final(entries)@) == upsert(entries_view(old(entries)@), key@, value@),
{
    let at = find_key(entries, key.as_str());
    let ghost before = entries@;
    if at < entries.len() {
        entries.set(at, (key, value));
        assert(entries_view(entries@) =~= entries_view(before).update(
            at as int,
            (key@, value@),
        ));
    } else {
        entries.push((key, value));
        assert(entries_view(entries@) =~= entries_view(before).push((key@, value@)));
    }
}

} // verus!
