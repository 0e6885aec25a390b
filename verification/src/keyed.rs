//! Sequences of records that are found by a key.

use vstd::prelude::*;

verus! {

/// A record that is filed under a key.
pub trait Keyed {
    type Key;

    spec fn key(&self) -> Self::Key;
}

/// The items without those filed under `key`, in their old order.
pub open spec fn without<T: Keyed>(items: Seq<T>, key: T::Key) -> Seq<T>
    decreases items.len(),
{
    if items.len() == 0 {
        items
    } else if items.last().key() == key {
        without(items.drop_last(), key)
    } else {
        without(items.drop_last(), key).push(items.last())
    }
}

/// No two items are filed under the same key.
pub open spec fn distinct_keys<T: Keyed>(items: Seq<T>) -> bool {
    forall|i: int, j: int| 0 <= i < j < items.len() ==> items[i].key() != items[j].key()
}

/// Some item is filed under `key`.
pub open spec fn has_key<T: Keyed>(items: Seq<T>, key: T::Key) -> bool {
    exists|i: int| 0 <= i < items.len() && items[i].key() == key
}

/// Taking a key out leaves no item under it, keeps every other item, and
/// keeps keys distinct.
pub proof fn lemma_without<T: Keyed>(items: Seq<T>, key: T::Key)
    ensures
        !has_key(without(items, key), key),
        without(items, key).len() <= items.len(),
        forall|i: int|
            0 <= i < without(items, key).len() ==> items.contains(
                #[trigger] without(items, key)[i],
            ),
        forall|j: int|
            0 <= j < items.len() && (#[trigger] items[j]).key() != key ==> without(
                items,
                key,
            ).contains(items[j]),
        distinct_keys(items) ==> distinct_keys(without(items, key)),
        !has_key(items, key) ==> without(items, key) == items,
        distinct_keys(items) && has_key(items, key) ==> without(items, key).len() + 1
            == items.len(),
    decreases items.len(),
{
    let out = without(items, key);
    if items.len() > 0 {
        let front = items.drop_last();
        let last = items.last();
        let n = front.len() as int;
        lemma_without(front, key);
        let front_out = without(front, key);
        assert forall|i: int| 0 <= i < out.len() implies (#[trigger] out[i]).key() != key
            && items.contains(out[i]) by {
            if last.key() != key && i == out.len() - 1 {
                assert(items[n] == out[i]);
            } else {
                assert(front_out[i] == out[i]);
                assert(front.contains(front_out[i]));
                let j = choose|j: int| 0 <= j < front.len() && front[j] == front_out[i];
                assert(items[j] == out[i]);
                if front_out[i].key() == key {
                    assert(has_key(front_out, key));
                }
            }
        }
        assert forall|j: int| 0 <= j < items.len() && (#[trigger] items[j]).key()
            != key implies out.contains(items[j]) by {
            if j == n {
                assert(out[out.len() - 1] == items[j]);
            } else {
                assert(front[j] == items[j]);
                assert(front_out.contains(front[j]));
                let i = choose|i: int| 0 <= i < front_out.len() && front_out[i] == front[j];
                assert(out[i] == items[j]);
            }
        }
        assert(!has_key(out, key));
        if distinct_keys(items) {
            assert(distinct_keys(front)) by {
                assert forall|i: int, j: int| 0 <= i < j < front.len() implies front[i].key()
                    != front[j].key() by {
                    assert(items[i].key() != items[j].key());
                }
            }
            assert forall|i: int, j: int| 0 <= i < j < out.len() implies out[i].key()
                != out[j].key() by {
                if last.key() != key && j == out.len() - 1 {
                    assert(front_out[i] == out[i]);
                    assert(front.contains(front_out[i]));
                    let k = choose|k: int| 0 <= k < front.len() && front[k] == front_out[i];
                    assert(items[k].key() != items[n].key());
                } else {
                    assert(front_out[i].key() != front_out[j].key());
                }
            }
            if has_key(items, key) {
                let k = choose|k: int| 0 <= k < items.len() && items[k].key() == key;
                if last.key() == key {
                    assert(!has_key(front, key)) by {
                        if has_key(front, key) {
                            let a = choose|a: int| 0 <= a < front.len() && front[a].key() == key;
                            assert(items[a].key() != items[n].key());
                        }
                    }
                } else {
                    assert(front[k].key() == key);
                    assert(has_key(front, key));
                }
            }
        }
        if !has_key(items, key) {
            assert(!has_key(front, key)) by {
                if has_key(front, key) {
                    let a = choose|a: int| 0 <= a < front.len() && front[a].key() == key;
                    assert(items[a].key() == key);
                }
            }
            assert(items[n].key() != key);
            assert(out =~= items);
        }
    }
}

/// Removing the one item filed under `key` by its place is taking the key out.
pub proof fn lemma_remove_is_without<T: Keyed>(items: Seq<T>, key: T::Key, i: int)
    requires
        distinct_keys(items),
        0 <= i < items.len(),
        items[i].key() == key,
    ensures
        items.remove(i) == without(items, key),
    decreases items.len(),
{
    let front = items.drop_last();
    if i == items.len() - 1 {
        assert(!has_key(front, key)) by {
            if has_key(front, key) {
                let a = choose|a: int| 0 <= a < front.len() && front[a].key() == key;
                assert(items[a].key() != items[i].key());
            }
        }
        lemma_without(front, key);
        assert(items.remove(i) =~= front);
    } else {
        assert(items[i].key() != items[items.len() - 1].key());
        assert(distinct_keys(front)) by {
            assert forall|a: int, b: int| 0 <= a < b < front.len() implies front[a].key()
                != front[b].key() by {
                assert(items[a].key() != items[b].key());
            }
        }
        lemma_remove_is_without(front, key, i);
        assert(items.remove(i) =~= front.remove(i).push(items.last()));
    }
}

} // verus!
