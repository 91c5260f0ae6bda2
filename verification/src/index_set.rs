//! The insertion-ordered hash sets of `indexmap`, as the graph uses them.
//!
//! The verifier does not look inside an `IndexSet`.
//! What a set holds is named by [`labels`] and [`pairs`],
//! and each method that the graph calls has a wrapper here whose contract
//! is taken from the documentation of `indexmap` and is not proved.
//! A set of labels and a set of pairs are different types to the verifier,
//! so each method has one wrapper for each.
//!
//! `indexmap` documents that the order of a set is determined by the
//! insertions and removals alone, and depends neither on the values nor on
//! the hash function.

use indexmap::IndexSet;
use vstd::prelude::*;

verus! {

/// `indexmap::IndexSet`, a hash set that iterates in a consistent order:
/// the order of insertion, but for what `remove` moves.
#[verifier::external_type_specification]
#[verifier::external_body]
#[verifier::reject_recursive_types(T)]
#[verifier::reject_recursive_types(S)]
pub struct ExIndexSet<T, S>(IndexSet<T, S>);

/// The labels that a set of labels holds, in the order in which the set iterates.
pub uninterp spec fn labels(set: IndexSet<usize>) -> Seq<usize>;

/// The (variable, constraint) pairs that a set of pairs holds,
/// in the order in which the set iterates.
pub uninterp spec fn pairs(set: IndexSet<(usize, usize)>) -> Seq<(usize, usize)>;

/// The sequence without the item at `index`, whose place is taken by the last item.
pub open spec fn swap_remove<A>(items: Seq<A>, index: int) -> Seq<A> {
    items.update(index, items.last()).drop_last()
}

/// `IndexSet::new` for labels: the new set is empty.
#[verifier::external_body]
pub(crate) fn labels_new() -> (set: IndexSet<usize>)
    ensures
        labels(set) == Seq::<usize>::empty(),
{
    IndexSet::new()
}

/// `IndexSet::clone` for labels: the copy holds the same labels in the same order.
#[verifier::external_body]
pub(crate) fn labels_clone(set: &IndexSet<usize>) -> (copy: IndexSet<usize>)
    ensures
        labels(copy) == labels(*set),
{
    set.clone()
}

/// `IndexSet::len` for labels: the number of labels in the set.
#[verifier::external_body]
pub(crate) fn labels_len(set: &IndexSet<usize>) -> (len: usize)
    ensures
        len == labels(*set).len(),
{
    set.len()
}

/// `IndexSet::contains` for labels: whether the set holds the label.
#[verifier::external_body]
pub(crate) fn labels_contains(set: &IndexSet<usize>, label: usize) -> (found: bool)
    ensures
        found == labels(*set).contains(label),
{
    set.contains(&label)
}

/// `IndexSet::insert` for labels: a label that the set holds already leaves
/// the set as it was, and a new one comes last.
#[verifier::external_body]
pub(crate) fn labels_insert(set: &mut IndexSet<usize>, label: usize) -> (added: bool)
    ensures
        added == !labels(*old(set)).contains(label),
        added ==> labels(*final(set)) == labels(*old(set)).push(label),
        !added ==> labels(*final(set)) == labels(*old(set)),
{
    set.insert(label)
}

/// `IndexSet::remove` for labels: a label that the set does not hold leaves
/// the set as it was, and one that it holds is replaced by the last label.
#[verifier::external_body]
pub(crate) fn labels_remove(set: &mut IndexSet<usize>, label: usize) -> (removed: bool)
    ensures
        removed == labels(*old(set)).contains(label),
        removed ==> exists|index: int|
            0 <= index < labels(*old(set)).len() && labels(*old(set))[index] == label
                && labels(*final(set)) == #[trigger] swap_remove(labels(*old(set)), index),
        !removed ==> labels(*final(set)) == labels(*old(set)),
{
    set.remove(&label)
}

/// `IndexSet::new` for pairs: the new set is empty.
#[verifier::external_body]
pub(crate) fn pairs_new() -> (set: IndexSet<(usize, usize)>)
    ensures
        pairs(set) == Seq::<(usize, usize)>::empty(),
{
    IndexSet::new()
}

/// `IndexSet::clone` for pairs: the copy holds the same pairs in the same order.
#[verifier::external_body]
pub(crate) fn pairs_clone(set: &IndexSet<(usize, usize)>) -> (copy: IndexSet<(usize, usize)>)
    ensures
        pairs(copy) == pairs(*set),
{
    set.clone()
}

/// `IndexSet::len` for pairs: the number of pairs in the set.
#[verifier::external_body]
pub(crate) fn pairs_len(set: &IndexSet<(usize, usize)>) -> (len: usize)
    ensures
        len == pairs(*set).len(),
{
    set.len()
}

/// `IndexSet::contains` for pairs: whether the set holds the pair.
#[verifier::external_body]
pub(crate) fn pairs_contains(set: &IndexSet<(usize, usize)>, pair: (usize, usize)) -> (found: bool)
    ensures
        found == pairs(*set).contains(pair),
{
    set.contains(&pair)
}

/// `IndexSet::get_index` for pairs: the pair at a position of the iteration
/// order, and nothing from the length of the set on.
#[verifier::external_body]
pub(crate) fn pairs_get_index(set: &IndexSet<(usize, usize)>, index: usize) -> (pair: Option<
    (usize, usize),
>)
    ensures
        index < pairs(*set).len() ==> pair == Some(pairs(*set)[index as int]),
        index >= pairs(*set).len() ==> pair.is_none(),
{
    set.get_index(index).copied()
}

/// `IndexSet::insert` for pairs: a pair that the set holds already leaves
/// the set as it was, and a new one comes last.
#[verifier::external_body]
pub(crate) fn pairs_insert(set: &mut IndexSet<(usize, usize)>, pair: (usize, usize)) -> (added:
    bool)
    ensures
        added == !pairs(*old(set)).contains(pair),
        added ==> pairs(*final(set)) == pairs(*old(set)).push(pair),
        !added ==> pairs(*final(set)) == pairs(*old(set)),
{
    set.insert(pair)
}

/// `IndexSet::remove` for pairs: a pair that the set does not hold leaves
/// the set as it was, and one that it holds is replaced by the last pair.
#[verifier::external_body]
pub(crate) fn pairs_remove(set: &mut IndexSet<(usize, usize)>, pair: (usize, usize)) -> (removed:
    bool)
    ensures
        removed == pairs(*old(set)).contains(pair),
        removed ==> exists|index: int|
            0 <= index < pairs(*old(set)).len() && pairs(*old(set))[index] == pair
                && pairs(*final(set)) == #[trigger] swap_remove(pairs(*old(set)), index),
        !removed ==> pairs(*final(set)) == pairs(*old(set)),
{
    set.remove(&pair)
}

} // verus!
