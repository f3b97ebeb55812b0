//! Facts about sequences that the laws share.

use vstd::prelude::*;

verus! {

/// A sequence with an item more contains that item and what it contained before.
pub(crate) proof fn lemma_contains_after_push<T>(items: Seq<T>, item: T)
    ensures
        items.push(item).contains(item),
        forall|other: T| items.contains(other) ==> items.push(item).contains(other),
        forall|other: T|
            items.push(item).contains(other) ==> items.contains(other) || other == item,
{
    assert(items.push(item)[items.len() as int] == item);
    assert forall|other: T| items.contains(other) implies items.push(item).contains(other) by {
        let k = choose|k: int| 0 <= k < items.len() && items[k] == other;
        assert(items.push(item)[k] == other);
    }
}

} // verus!
