//! Facts about sequences without repeated items, as the sets of a graph are.

use crate::index_set::swap_remove;
use vstd::prelude::*;

verus! {

/// A pushed item is found, and nothing else changes.
pub proof fn lemma_push_contains<A>(items: Seq<A>, item: A)
    ensures
        forall|other: A| #[trigger]
            items.push(item).contains(other) <==> (other == item || items.contains(other)),
{
    let pushed = items.push(item);
    assert forall|other: A| #[trigger]
        pushed.contains(other) <==> (other == item || items.contains(other)) by {
        if items.contains(other) {
            let i = choose|i: int| 0 <= i < items.len() && items[i] == other;
            assert(pushed[i] == other);
        }
        if other == item {
            assert(pushed[items.len() as int] == other);
        }
        if pushed.contains(other) {
            let i = choose|i: int| 0 <= i < pushed.len() && pushed[i] == other;
            if i < items.len() {
                assert(items[i] == other);
            }
        }
    }
}

/// Pushing an item that is not yet there repeats nothing.
pub proof fn lemma_push_no_duplicates<A>(items: Seq<A>, item: A)
    requires
        items.no_duplicates(),
        !items.contains(item),
    ensures
        items.push(item).no_duplicates(),
{
    let pushed = items.push(item);
    assert forall|i: int, j: int|
        0 <= i < pushed.len() && 0 <= j < pushed.len() && i != j implies pushed[i] != pushed[j] by {
        if i < items.len() && j < items.len() {
        } else if i < items.len() {
            assert(items[i] == pushed[i]);
        } else {
            assert(items[j] == pushed[j]);
        }
    }
}

/// Where nothing is repeated, an item is found only at its own place.
pub proof fn lemma_index_of<A>(items: Seq<A>, index: int)
    requires
        items.no_duplicates(),
        0 <= index < items.len(),
    ensures
        items.index_of(items[index]) == index,
{
    let item = items[index];
    let found = items.index_of(item);
    assert(0 <= found < items.len() && items[found] == item);
}

/// Removing one item by swapping the last into its place takes exactly
/// that item away.
pub proof fn lemma_swap_remove<A>(items: Seq<A>, index: int)
    requires
        items.no_duplicates(),
        0 <= index < items.len(),
    ensures
        swap_remove(items, index).len() == items.len() - 1,
        swap_remove(items, index).no_duplicates(),
        forall|other: A| #[trigger]
            swap_remove(items, index).contains(other) <==> (other != items[index]
                && items.contains(other)),
{
    let rest = swap_remove(items, index);
    let last = items.len() - 1;
    assert forall|i: int| 0 <= i < rest.len() implies rest[i] == (if i == index {
        items[last]
    } else {
        items[i]
    }) by {}
    assert forall|i: int, j: int|
        0 <= i < rest.len() && 0 <= j < rest.len() && i != j implies rest[i] != rest[j] by {}
    assert forall|other: A| #[trigger]
        rest.contains(other) <==> (other != items[index] && items.contains(other)) by {
        if rest.contains(other) {
            let i = choose|i: int| 0 <= i < rest.len() && rest[i] == other;
            if i == index {
                assert(items[last] == other);
            } else {
                assert(items[i] == other);
            }
        }
        if other != items[index] && items.contains(other) {
            let i = choose|i: int| 0 <= i < items.len() && items[i] == other;
            if i == last {
                assert(rest[index] == other);
            } else {
                assert(rest[i] == other);
            }
        }
    }
}

/// Fewer than `bound` different labels miss a label below `bound`.
pub proof fn lemma_missing_label(labels: Seq<usize>, bound: nat)
    requires
        labels.no_duplicates(),
        labels.len() < bound <= usize::MAX + 1,
    ensures
        exists|label: usize| label < bound && !labels.contains(label),
    decreases bound,
{
    let last = (bound - 1) as usize;
    if labels.contains(last) {
        let index = labels.index_of(last);
        let rest = swap_remove(labels, index);
        lemma_swap_remove(labels, index);
        lemma_missing_label(rest, (bound - 1) as nat);
        let label = choose|label: usize| label < bound - 1 && !rest.contains(label);
        assert(label < bound && !labels.contains(label));
    } else {
        assert(last < bound && !labels.contains(last));
    }
}

/// Different labels below `bound` are at most `bound` labels.
pub proof fn lemma_bounded_labels(labels: Seq<usize>, bound: nat)
    requires
        labels.no_duplicates(),
        bound <= usize::MAX + 1,
        forall|i: int| 0 <= i < labels.len() ==> #[trigger] labels[i] < bound,
    ensures
        labels.len() <= bound,
    decreases bound,
{
    if labels.len() > 0 {
        assert(labels[0] < bound);
        let last = (bound - 1) as usize;
        if labels.contains(last) {
            let index = labels.index_of(last);
            let rest = swap_remove(labels, index);
            lemma_swap_remove(labels, index);
            assert forall|i: int| 0 <= i < rest.len() implies #[trigger] rest[i] < bound - 1 by {
                assert(rest.contains(rest[i]));
                assert(labels.contains(rest[i]));
                let place = labels.index_of(rest[i]);
                assert(labels[place] < bound);
            }
            lemma_bounded_labels(rest, (bound - 1) as nat);
        } else {
            assert forall|i: int| 0 <= i < labels.len() implies #[trigger] labels[i] < bound
                - 1 by {
                assert(labels.contains(labels[i]));
            }
            lemma_bounded_labels(labels, (bound - 1) as nat);
        }
    }
}

/// Different items that are all among some others, but for one of those,
/// are fewer than those.
pub proof fn lemma_fewer<A>(fewer: Seq<A>, more: Seq<A>, spared: A)
    requires
        fewer.no_duplicates(),
        more.no_duplicates(),
        more.contains(spared),
        forall|i: int|
            0 <= i < fewer.len() ==> more.contains(#[trigger] fewer[i]) && fewer[i] != spared,
    ensures
        fewer.len() < more.len(),
{
    broadcast use vstd::seq_lib::seq_to_set_is_finite;
    broadcast use vstd::set::group_set_axioms;

    fewer.unique_seq_to_set();
    more.unique_seq_to_set();
    let others = more.to_set().remove(spared);
    assert(more.to_set().contains(spared));
    assert(fewer.to_set().subset_of(others)) by {
        assert forall|item: A| fewer.to_set().contains(item) implies others.contains(item) by {
            let i = choose|i: int| 0 <= i < fewer.len() && fewer[i] == item;
            assert(more.contains(fewer[i]));
        }
    }
    vstd::set_lib::lemma_len_subset(fewer.to_set(), others);
}

} // verus!
