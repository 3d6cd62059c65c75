//! Name-keyed association tables kept as vectors of pairs: insertion order
//! is preserved and keys are looked up by their character sequence.

use vstd::prelude::*;
use crate::strutil::str_eq;

verus! {

/// The value under `key`: the first entry whose name reads `key`.
pub open spec fn assoc_get<V>(entries: Seq<(String, V)>, key: Seq<char>) -> Option<V>
    decreases entries.len(),
{
    if entries.len() == 0 {
        None
    } else if entries.first().0@ == key {
        Some(entries.first().1)
    } else {
        assoc_get(entries.drop_first(), key)
    }
}

/// Whether some entry's name reads `key`.
pub open spec fn assoc_contains<V>(entries: Seq<(String, V)>, key: Seq<char>) -> bool {
    assoc_get(entries, key) is Some
}

/// Looking up skips any prefix of entries whose names all differ from `key`.
pub proof fn lemma_assoc_get_skip<V>(entries: Seq<(String, V)>, key: Seq<char>, i: int)
    requires
        0 <= i <= entries.len(),
        forall|j: int| 0 <= j < i ==> (#[trigger] entries[j]).0@ != key,
    ensures
        assoc_get(entries, key) == assoc_get(entries.skip(i), key),
    decreases i,
{
    if i == 0 {
        assert(entries.skip(0) =~= entries);
    } else {
        lemma_assoc_get_skip(entries, key, i - 1);
        assert(entries.skip(i - 1).first() == entries[i - 1]);
        assert(entries.skip(i - 1).drop_first() =~= entries.skip(i));
    }
}

/// Appending entries does not change what an existing key maps to.
pub proof fn lemma_assoc_get_push<V>(entries: Seq<(String, V)>, key: Seq<char>, item: (String, V))
    ensures
        assoc_get(entries.push(item), key) == if assoc_contains(entries, key) {
            assoc_get(entries, key)
        } else if item.0@ == key {
            Some(item.1)
        } else {
            None
        },
    decreases entries.len(),
{
    if entries.len() == 0 {
        assert(entries.push(item).first() == item);
        assert(entries.push(item).drop_first() =~= Seq::<(String, V)>::empty());
        if item.0@ == key {
            assert(assoc_get(entries.push(item), key) == Some(item.1));
        } else {
            assert(assoc_get(entries.push(item), key) == assoc_get(
                Seq::<(String, V)>::empty(),
                key,
            ));
        }
        assert(!assoc_contains(entries, key));
    } else {
        assert(entries.push(item).first() == entries.first());
        assert(entries.push(item).drop_first() =~= entries.drop_first().push(item));
        lemma_assoc_get_push(entries.drop_first(), key, item);
        if entries.first().0@ == key {
            assert(assoc_get(entries, key) == Some(entries.first().1));
            assert(assoc_get(entries.push(item), key) == Some(entries.first().1));
        } else {
            assert(assoc_get(entries.push(item), key) == assoc_get(
                entries.drop_first().push(item),
                key,
            ));
            assert(assoc_get(entries, key) == assoc_get(entries.drop_first(), key));
        }
    }
}

/// Replacing the entry at `i` changes only what its key maps to, provided
/// the key is kept; if the key at `i` is the first occurrence of its name,
/// the new value is what the name then maps to.
pub proof fn lemma_assoc_get_update<V>(entries: Seq<(String, V)>, i: int, item: (String, V), key: Seq<char>)
    requires
        0 <= i < entries.len(),
        entries[i].0@ == item.0@,
    ensures
        item.0@ != key ==> assoc_get(entries.update(i, item), key) == assoc_get(entries, key),
        (item.0@ == key && (forall|j: int| 0 <= j < i ==> (#[trigger] entries[j]).0@ != key))
            ==> assoc_get(entries.update(i, item), key) == Some(item.1),
    decreases entries.len(),
{
    if entries.len() > 0 {
        if i == 0 {
            assert(entries.update(0, item).first() == item);
            assert(entries.update(0, item).drop_first() =~= entries.drop_first());
        } else {
            assert(entries.update(i, item).first() == entries.first());
            assert(entries.update(i, item).drop_first() =~= entries.drop_first().update(
                i - 1,
                item,
            ));
            lemma_assoc_get_update(entries.drop_first(), i - 1, item, key);
        }
    }
}

/// A successful lookup yields one of the entries.
pub proof fn lemma_assoc_get_is_element<V>(entries: Seq<(String, V)>, key: Seq<char>)
    ensures
        assoc_get(entries, key) is Some ==> exists|i: int|
            0 <= i < entries.len() && (#[trigger] entries[i]).0@ == key && entries[i].1
                == assoc_get(entries, key)->0,
    decreases entries.len(),
{
    if entries.len() > 0 && assoc_get(entries, key) is Some {
        if entries.first().0@ == key {
            assert(entries[0] == entries.first());
        } else {
            lemma_assoc_get_is_element(entries.drop_first(), key);
            let i = choose|i: int|
                0 <= i < entries.drop_first().len() && (#[trigger] entries.drop_first()[i]).0@
                    == key && entries.drop_first()[i].1 == assoc_get(
                    entries.drop_first(),
                    key,
                )->0;
            assert(entries[i + 1] == entries.drop_first()[i]);
        }
    }
}

/// Finds the first entry named `key` and returns a reference to its value.
pub fn assoc_find<'a, V>(entries: &'a Vec<(String, V)>, key: &str) -> (r: Option<&'a V>)
    ensures
        match r {
            Some(v) => assoc_get(entries@, key@) == Some(*v),
            None => assoc_get(entries@, key@) is None,
        },
{
    let n = entries.len();
    let mut i: usize = 0;
    while i < n
        invariant
            n == entries@.len(),
            i <= n,
            forall|j: int| 0 <= j < i ==> (#[trigger] entries@[j]).0@ != key@,
        decreases n - i,
    {
        if str_eq(entries[i].0.as_str(), key) {
            proof {
                lemma_assoc_get_skip(entries@, key@, i as int);
                assert(entries@.skip(i as int).first() == entries@[i as int]);
            }
            return Some(&entries[i].1);
        }
        i = i + 1;
    }
    proof {
        lemma_assoc_get_skip(entries@, key@, n as int);
        assert(entries@.skip(n as int) =~= Seq::<(String, V)>::empty());
    }
    None
}

/// Finds the index of the first entry named `key`.
pub fn assoc_index<V>(entries: &Vec<(String, V)>, key: &str) -> (r: Option<usize>)
    ensures
        match r {
            Some(i) => i < entries@.len() && entries@[i as int].0@ == key@ && (forall|j: int|
                0 <= j < i ==> (#[trigger] entries@[j]).0@ != key@) && assoc_get(entries@, key@)
                == Some(entries@[i as int].1),
            None => assoc_get(entries@, key@) is None,
        },
{
    let n = entries.len();
    let mut i: usize = 0;
    while i < n
        invariant
            n == entries@.len(),
            i <= n,
            forall|j: int| 0 <= j < i ==> (#[trigger] entries@[j]).0@ != key@,
        decreases n - i,
    {
        if str_eq(entries[i].0.as_str(), key) {
            proof {
                lemma_assoc_get_skip(entries@, key@, i as int);
                assert(entries@.skip(i as int).first() == entries@[i as int]);
            }
            return Some(i);
        }
        i = i + 1;
    }
    proof {
        lemma_assoc_get_skip(entries@, key@, n as int);
        assert(entries@.skip(n as int) =~= Seq::<(String, V)>::empty());
    }
    None
}

/// Whether some entry is named `key`.
pub fn assoc_has<V>(entries: &Vec<(String, V)>, key: &str) -> (r: bool)
    ensures
        r == assoc_contains(entries@, key@),
{
    match assoc_find(entries, key) {
        Some(_) => true,
        None => false,
    }
}

/// Whether some string in the list reads `key`.
pub open spec fn names_contain(names: Seq<String>, key: Seq<char>) -> bool {
    exists|i: int| 0 <= i < names.len() && (#[trigger] names[i])@ == key
}

/// Finds whether some string in the list reads `key`.
pub fn names_find(names: &Vec<String>, key: &str) -> (r: bool)
    ensures
        r == names_contain(names@, key@),
{
    let n = names.len();
    let mut i: usize = 0;
    while i < n
        invariant
            n == names@.len(),
            i <= n,
            forall|j: int| 0 <= j < i ==> (#[trigger] names@[j])@ != key@,
        decreases n - i,
    {
        if str_eq(names[i].as_str(), key) {
            return true;
        }
        i = i + 1;
    }
    false
}

} // verus!
