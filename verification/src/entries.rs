//! The entries of an ordered map: values under names, in the order of the
//! map.
use vstd::prelude::*;

verus! {

/// Whether some entry carries `name`.
pub open spec fn has_name<V>(entries: Seq<(Seq<char>, V)>, name: Seq<char>) -> bool {
    exists|i: int| 0 <= i < entries.len() && (#[trigger] entries[i]).0 == name
}

/// Whether no two entries carry the same name.
pub open spec fn distinct_names<V>(entries: Seq<(Seq<char>, V)>) -> bool {
    forall|i: int, j: int|
        0 <= i < entries.len() && 0 <= j < entries.len() && i != j ==> (#[trigger] entries[i]).0
            != (#[trigger] entries[j]).0
}

/// Whether an entry called `first` stands before one called `second`.
pub open spec fn stands_before<V>(
    entries: Seq<(Seq<char>, V)>,
    first: Seq<char>,
    second: Seq<char>,
) -> bool {
    exists|i: int, j: int|
        0 <= i < j < entries.len() && (#[trigger] entries[i]).0 == first && (
        #[trigger] entries[j]).0 == second
}

/// What inserting `value` under `name` makes of the entries of an ordered map:
/// a name already present keeps its place and takes the new value, a new name
/// goes last.
pub open spec fn inserted<V>(entries: Seq<(Seq<char>, V)>, name: Seq<char>, value: V) -> Seq<
    (Seq<char>, V),
> {
    if has_name(entries, name) {
        Seq::new(
            entries.len(),
            |i: int|
                if entries[i].0 == name {
                    (name, value)
                } else {
                    entries[i]
                },
        )
    } else {
        entries.push((name, value))
    }
}

/// The value under `name`, if an entry carries that name.
pub open spec fn value_of<V>(entries: Seq<(Seq<char>, V)>, name: Seq<char>) -> Option<V> {
    if has_name(entries, name) {
        Some(entries[choose|i: int| 0 <= i < entries.len() && (#[trigger] entries[i]).0 == name].1)
    } else {
        None
    }
}

/// Inserting into entries with distinct names leaves the names distinct and
/// the places of the entries as they were. Afterwards `name` holds `value`,
/// and every other name holds what it held before.
pub proof fn lemma_inserted<V>(entries: Seq<(Seq<char>, V)>, name: Seq<char>, value: V)
    requires
        distinct_names(entries),
    ensures
        distinct_names(inserted(entries, name, value)),
        inserted(entries, name, value).len() >= entries.len(),
        forall|i: int|
            0 <= i < entries.len() ==> (#[trigger] inserted(entries, name, value)[i]).0
                == entries[i].0,
        value_of(inserted(entries, name, value), name) == Some(value),
        forall|other: Seq<char>|
            other != name ==> #[trigger] value_of(inserted(entries, name, value), other)
                == value_of(entries, other),
{
    let after = inserted(entries, name, value);
    assert forall|i: int| 0 <= i < entries.len() implies (#[trigger] after[i]).0
        == entries[i].0 by {}
    assert(distinct_names(after)) by {
        assert forall|i: int, j: int|
            0 <= i < after.len() && 0 <= j < after.len() && i != j implies (#[trigger] after[i]).0
            != (#[trigger] after[j]).0 by {
            if i < entries.len() && j < entries.len() {
                assert(entries[i].0 != entries[j].0);
            } else if i < entries.len() {
                assert(entries[i].0 != name);
            } else if j < entries.len() {
                assert(entries[j].0 != name);
            }
        }
    }
    assert(has_name(after, name) && value_of(after, name) == Some(value)) by {
        if has_name(entries, name) {
            let i = choose|i: int| 0 <= i < entries.len() && (#[trigger] entries[i]).0 == name;
            assert(after[i].0 == name);
        } else {
            assert(after[entries.len() as int].0 == name);
        }
        let k = choose|k: int| 0 <= k < after.len() && (#[trigger] after[k]).0 == name;
        assert(after[k].1 == value);
    }
    assert forall|other: Seq<char>| other != name implies #[trigger] value_of(after, other)
        == value_of(entries, other) by {
        if has_name(entries, other) {
            let i = choose|i: int| 0 <= i < entries.len() && (#[trigger] entries[i]).0 == other;
            assert(after[i] == entries[i]);
            let k = choose|k: int| 0 <= k < after.len() && (#[trigger] after[k]).0 == other;
            assert(k == i) by {
                if k != i {
                    assert(after[k].0 != after[i].0);
                }
            }
        } else if has_name(after, other) {
            let k = choose|k: int| 0 <= k < after.len() && (#[trigger] after[k]).0 == other;
            if k < entries.len() {
                assert(entries[k].0 == other);
            }
        }
    }
}

} // verus!
