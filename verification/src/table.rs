//! Tables from names to values, held as a row of names beside a row of
//! values, with no name twice.

use crate::effects::{same_text, views};
use vstd::prelude::*;

verus! {

/// Whether no name stands twice in a row of names.
pub open spec fn distinct(keys: Seq<Seq<char>>) -> bool {
    forall|i: int, j: int| 0 <= i < j < keys.len() ==> keys[i] != keys[j]
}

/// The table that a row of names and a row of values of the same length
/// stand for: each name leads to the value at its place.
pub open spec fn table<T>(keys: Seq<Seq<char>>, values: Seq<T>) -> Map<Seq<char>, T>
    decreases keys.len(),
{
    if keys.len() == 0 || values.len() == 0 {
        Map::empty()
    } else {
        table(keys.drop_last(), values.drop_last()).insert(keys.last(), values.last())
    }
}

/// A name that is not in the row is not in the table.
pub proof fn lemma_table_absent<T>(keys: Seq<Seq<char>>, values: Seq<T>, name: Seq<char>)
    requires
        keys.len() == values.len(),
        forall|i: int| 0 <= i < keys.len() ==> keys[i] != name,
    ensures
        !table(keys, values).contains_key(name),
    decreases keys.len(),
{
    if keys.len() > 0 {
        lemma_table_absent(keys.drop_last(), values.drop_last(), name);
    }
}

/// The name at a place of the row leads to the value at that place.
pub proof fn lemma_table_at<T>(keys: Seq<Seq<char>>, values: Seq<T>, i: int)
    requires
        keys.len() == values.len(),
        distinct(keys),
        0 <= i < keys.len(),
    ensures
        table(keys, values).contains_key(keys[i]),
        table(keys, values)[keys[i]] == values[i],
    decreases keys.len(),
{
    if i < keys.len() - 1 {
        lemma_table_at(keys.drop_last(), values.drop_last(), i);
    }
}

/// Every name of the table stands in the row.
pub proof fn lemma_table_has<T>(keys: Seq<Seq<char>>, values: Seq<T>, name: Seq<char>)
    requires
        keys.len() == values.len(),
        table(keys, values).contains_key(name),
    ensures
        exists|i: int| 0 <= i < keys.len() && keys[i] == name,
    decreases keys.len(),
{
    if keys.len() > 0 {
        if keys.last() == name {
            assert(keys[keys.len() - 1] == name);
        } else {
            lemma_table_has(keys.drop_last(), values.drop_last(), name);
            let i = choose|i: int| 0 <= i < keys.drop_last().len() && keys.drop_last()[i] == name;
            assert(keys[i] == name);
        }
    }
}

/// The table has as many names as the row.
pub proof fn lemma_table_len<T>(keys: Seq<Seq<char>>, values: Seq<T>)
    requires
        keys.len() == values.len(),
        distinct(keys),
    ensures
        table(keys, values).dom().finite(),
        table(keys, values).dom().len() == keys.len(),
    decreases keys.len(),
{
    if keys.len() > 0 {
        lemma_table_len(keys.drop_last(), values.drop_last());
        lemma_table_absent(keys.drop_last(), values.drop_last(), keys.last());
    }
}

/// A new name at the end of the row is a new entry of the table.
pub proof fn lemma_table_push<T>(keys: Seq<Seq<char>>, values: Seq<T>, name: Seq<char>, value: T)
    requires
        keys.len() == values.len(),
    ensures
        table(keys.push(name), values.push(value)) == table(keys, values).insert(name, value),
{
    assert(keys.push(name).drop_last() =~= keys);
    assert(values.push(value).drop_last() =~= values);
}

/// A new value at a place of the row is a new value under the name at that
/// place.
pub proof fn lemma_table_update<T>(keys: Seq<Seq<char>>, values: Seq<T>, i: int, value: T)
    requires
        keys.len() == values.len(),
        distinct(keys),
        0 <= i < keys.len(),
    ensures
        table(keys, values.update(i, value)) =~= table(keys, values).insert(keys[i], value),
    decreases keys.len(),
{
    let last = keys.len() - 1;
    if i < last {
        lemma_table_update(keys.drop_last(), values.drop_last(), i, value);
        assert(values.update(i, value).drop_last() =~= values.drop_last().update(i, value));
    } else {
        assert(values.update(i, value).drop_last() =~= values.drop_last());
    }
}

/// A row without the place `i` is the table without the name at that
/// place.
pub proof fn lemma_table_remove<T>(keys: Seq<Seq<char>>, values: Seq<T>, i: int)
    requires
        keys.len() == values.len(),
        distinct(keys),
        0 <= i < keys.len(),
    ensures
        table(keys.remove(i), values.remove(i)) =~= table(keys, values).remove(keys[i]),
        distinct(keys.remove(i)),
    decreases keys.len(),
{
    let last = keys.len() - 1;
    if i < last {
        lemma_table_remove(keys.drop_last(), values.drop_last(), i);
        assert(keys.remove(i).drop_last() =~= keys.drop_last().remove(i));
        assert(values.remove(i).drop_last() =~= values.drop_last().remove(i));
        assert(keys.remove(i).last() == keys.last());
        assert(values.remove(i).last() == values.last());
    } else {
        assert(keys.remove(i) =~= keys.drop_last());
        assert(values.remove(i) =~= values.drop_last());
        lemma_table_absent(keys.drop_last(), values.drop_last(), keys[i]);
    }
}

/// The place of a name in a row of names, if it stands there.
pub fn position(keys: &Vec<String>, name: &str) -> (r: Option<usize>)
    ensures
        match r {
            Some(i) => i < keys.len() && keys@[i as int]@ == name@,
            None => forall|i: int| 0 <= i < keys.len() ==> keys@[i]@ != name@,
        },
{
    let mut i: usize = 0;
    while i < keys.len()
        invariant
            i <= keys.len(),
            forall|k: int| 0 <= k < i ==> keys@[k]@ != name@,
        decreases keys.len() - i,
    {
        if same_text(keys[i].as_str(), name) {
            return Some(i);
        }
        i += 1;
    }
    None
}

/// Puts a value under a name: in place of the value that the name had, or,
/// for a new name, at the end of the rows.
pub fn put<V>(keys: &mut Vec<String>, values: &mut Vec<V>, name: &str, value: V) -> (at: usize)
    requires
        old(keys).len() == old(values).len(),
        distinct(views(old(keys)@)),
    ensures
        final(keys).len() == final(values).len(),
        distinct(views(final(keys)@)),
        at < final(keys).len(),
        final(keys)@[at as int]@ == name@,
        final(values)@ == if at < old(values).len() {
            old(values)@.update(at as int, value)
        } else {
            old(values)@.push(value)
        },
        views(final(keys)@) == if at < old(values).len() {
            views(old(keys)@)
        } else {
            views(old(keys)@).push(name@)
        },
        at < old(values).len() <==> exists|i: int|
            0 <= i < old(keys).len() && old(keys)@[i]@ == name@,
{
    match position(keys, name) {
        Some(i) => {
            values[i] = value;
            i
        },
        None => {
            let ghost before = views(keys@);
            keys.push(name.to_owned());
            values.push(value);
            proof {
                assert(views(keys@) =~= before.push(name@));
            }
            keys.len() - 1
        },
    }
}

} // verus!
