//! The first position at which a list holds a value.

use vstd::prelude::*;

verus! {

/// The first position of `items` that holds `wanted`.
pub open spec fn first_position<T>(items: Seq<T>, wanted: T) -> Option<int>
    decreases items.len(),
{
    if items.len() == 0 {
        None
    } else {
        match first_position(items.drop_last(), wanted) {
            Some(i) => Some(i),
            None => if items.last() == wanted {
                Some(items.len() - 1)
            } else {
                None
            },
        }
    }
}

/// The first position holds the value, and no position before it does.
pub proof fn lemma_first_position<T>(items: Seq<T>, wanted: T)
    ensures
        match first_position(items, wanted) {
            Some(i) => 0 <= i < items.len() && items[i] == wanted && forall|k: int|
                0 <= k < i ==> items[k] != wanted,
            None => !items.contains(wanted),
        },
    decreases items.len(),
{
    if items.len() > 0 {
        lemma_first_position(items.drop_last(), wanted);
        let init = items.drop_last();
        match first_position(init, wanted) {
            Some(i) => {
                assert(items[i] == init[i]);
                assert forall|k: int| 0 <= k < i implies items[k] != wanted by {
                    assert(items[k] == init[k]);
                }
            },
            None => {
                assert forall|k: int| 0 <= k < items.len() - 1 implies items[k] != wanted by {
                    assert(items[k] == init[k]);
                    assert(init.contains(init[k]));
                }
            },
        }
    }
}

/// Once the first `n` items hold the value, the first position in the whole
/// list is the first position among these.
pub proof fn lemma_first_position_stays<T>(items: Seq<T>, n: int, wanted: T)
    requires
        0 <= n <= items.len(),
        first_position(items.take(n), wanted) is Some,
    ensures
        first_position(items, wanted) == first_position(items.take(n), wanted),
    decreases items.len(),
{
    if n == items.len() {
        assert(items.take(n) =~= items);
    } else {
        assert(items.drop_last().take(n) =~= items.take(n));
        lemma_first_position_stays(items.drop_last(), n, wanted);
    }
}

/// A position that holds the value, with none before it that does, is the
/// first position.
pub proof fn lemma_is_first_position<T>(items: Seq<T>, wanted: T, i: int)
    requires
        0 <= i < items.len(),
        items[i] == wanted,
        forall|k: int| 0 <= k < i ==> items[k] != wanted,
    ensures
        first_position(items, wanted) == Some(i),
{
    lemma_first_position(items, wanted);
    assert(items.contains(wanted));
}

/// A list that does not hold the value has no first position.
pub proof fn lemma_no_first_position<T>(items: Seq<T>, wanted: T)
    requires
        forall|k: int| 0 <= k < items.len() ==> items[k] != wanted,
    ensures
        first_position(items, wanted) is None,
{
    lemma_first_position(items, wanted);
}

} // verus!
