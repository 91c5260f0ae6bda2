//! Stubs: the edge ends that the nodes of one side offer.

use vstd::multiset::Multiset;
use vstd::prelude::*;
use vstd::seq_lib::lemma_multiset_commutative;

verus! {

/// One stub of a node, `degree` times.
pub open spec fn block(label: usize, degree: nat) -> Seq<usize> {
    Seq::new(degree, |i: int| label)
}

/// The stubs of `count` nodes of the same degree: each label below `count`,
/// `degree` times, in increasing order.
pub open spec fn stubs(count: nat, degree: nat) -> Seq<usize>
    decreases count,
{
    if count == 0 {
        Seq::empty()
    } else {
        stubs((count - 1) as nat, degree) + block((count - 1) as usize, degree)
    }
}

/// How often a label occurs among some labels.
pub open spec fn occurrences(labels: Seq<usize>, label: usize) -> nat {
    labels.to_multiset().count(label)
}

/// A block holds its label as often as it is long, and nothing else.
pub proof fn lemma_block(label: usize, degree: nat)
    ensures
        forall|other: usize| #[trigger]
            occurrences(block(label, degree), other) == if other == label {
                degree
            } else {
                0
            },
    decreases degree,
{
    broadcast use vstd::multiset::group_multiset_axioms;
    broadcast use vstd::seq_lib::group_to_multiset_ensures;

    if degree == 0 {
        assert(block(label, degree) =~= Seq::<usize>::empty());
        assert(block(label, degree).to_multiset() =~= Multiset::<usize>::empty());
    } else {
        let shorter = block(label, (degree - 1) as nat);
        lemma_block(label, (degree - 1) as nat);
        assert(block(label, degree) =~= shorter.push(label));
        assert(block(label, degree).to_multiset() =~= shorter.to_multiset().insert(label));
        assert forall|other: usize| #[trigger]
            occurrences(block(label, degree), other) == if other == label {
                degree
            } else {
                0
            } by {
            assert(occurrences(shorter, other) == if other == label {
                (degree - 1) as nat
            } else {
                0
            });
        }
    }
}

/// The stubs of `count` nodes of degree `degree` are `count * degree` labels
/// below `count`, and each label below `count` occurs `degree` times.
pub proof fn lemma_stubs(count: nat, degree: nat)
    requires
        count <= usize::MAX,
    ensures
        stubs(count, degree).len() == count * degree,
        forall|i: int| 0 <= i < stubs(count, degree).len() ==> #[trigger] stubs(count, degree)[i] < count,
        forall|label: usize| #[trigger]
            occurrences(stubs(count, degree), label) == if label < count {
                degree
            } else {
                0
            },
    decreases count,
{
    broadcast use vstd::multiset::group_multiset_axioms;

    if count == 0 {
        assert(stubs(count, degree).to_multiset() =~= Multiset::<usize>::empty()) by {
            broadcast use vstd::seq_lib::group_to_multiset_ensures;

        }
    } else {
        let fewer = stubs((count - 1) as nat, degree);
        let last = block((count - 1) as usize, degree);
        lemma_stubs((count - 1) as nat, degree);
        lemma_block((count - 1) as usize, degree);
        lemma_multiset_commutative(fewer, last);
        assert((count - 1) * degree + degree == count * degree) by (nonlinear_arith);
        assert forall|label: usize| #[trigger]
            occurrences(stubs(count, degree), label) == if label < count {
                degree
            } else {
                0
            } by {
            assert(occurrences(fewer, label) == if label < count - 1 {
                degree
            } else {
                0
            });
            assert(occurrences(last, label) == if label == count - 1 {
                degree
            } else {
                0
            });
        }
    }
}

/// Each label occurs in a sequence as often as after its first item, once
/// more if it is the first item.
pub proof fn lemma_occurrences_first(labels: Seq<usize>)
    requires
        labels.len() > 0,
    ensures
        forall|label: usize| #[trigger]
            occurrences(labels, label) == occurrences(labels.drop_first(), label) + if label
                == labels[0] {
                1nat
            } else {
                0nat
            },
{
    broadcast use vstd::multiset::group_multiset_axioms;
    broadcast use vstd::seq_lib::group_to_multiset_ensures;

    assert(labels.remove(0) =~= labels.drop_first());
    assert(labels.contains(labels[0]));
    assert(labels.drop_first().to_multiset() =~= labels.to_multiset().remove(labels[0]));
}

/// Each label occurs in a sequence with one more item as often as before,
/// once more if it is the new item.
pub proof fn lemma_occurrences_push(labels: Seq<usize>, last: usize)
    ensures
        forall|label: usize| #[trigger]
            occurrences(labels.push(last), label) == occurrences(labels, label) + if label
                == last {
                1nat
            } else {
                0nat
            },
{
    broadcast use vstd::multiset::group_multiset_axioms;
    broadcast use vstd::seq_lib::group_to_multiset_ensures;

    assert(labels.push(last).to_multiset() =~= labels.to_multiset().insert(last));
}

/// Stubs in any order are still `count * degree` labels below `count`, each
/// label below `count` occurs `degree` times, and with a degree of at most 1
/// no label occurs twice.
pub proof fn lemma_shuffled_stubs(labels: Seq<usize>, count: nat, degree: nat)
    requires
        count <= usize::MAX,
        labels.to_multiset() == stubs(count, degree).to_multiset(),
    ensures
        labels.len() == count * degree,
        forall|i: int| 0 <= i < labels.len() ==> #[trigger] labels[i] < count,
        forall|label: usize| #[trigger]
            occurrences(labels, label) == if label < count {
                degree
            } else {
                0
            },
        degree <= 1 ==> labels.no_duplicates(),
{
    broadcast use vstd::multiset::group_multiset_axioms;
    broadcast use vstd::seq_lib::group_to_multiset_ensures;

    lemma_stubs(count, degree);
    assert(labels.len() == labels.to_multiset().len());
    assert(stubs(count, degree).len() == stubs(count, degree).to_multiset().len());
    assert forall|i: int| 0 <= i < labels.len() implies #[trigger] labels[i] < count by {
        assert(labels.contains(labels[i]));
        assert(occurrences(labels, labels[i]) > 0);
        assert(occurrences(stubs(count, degree), labels[i]) > 0);
    }
    assert forall|label: usize| #[trigger]
        occurrences(labels, label) == if label < count {
            degree
        } else {
            0
        } by {
        assert(occurrences(labels, label) == occurrences(stubs(count, degree), label));
    }
    if degree <= 1 {
        assert forall|label: usize| labels.to_multiset().contains(label) implies labels.to_multiset().count(
            label,
        ) == 1 by {
            assert(occurrences(labels, label) == occurrences(stubs(count, degree), label));
        }
        labels.lemma_multiset_has_no_duplicates_conv();
    }
}

/// Builds the stubs of `count` nodes of degree `degree`.
pub fn make_stubs(count: usize, degree: usize) -> (labels: Vec<usize>)
    requires
        count * degree <= usize::MAX,
    ensures
        labels@ == stubs(count as nat, degree as nat),
{
    let mut labels: Vec<usize> = Vec::new();
    let mut label: usize = 0;
    while label < count
        invariant
            label <= count,
            labels@ == stubs(label as nat, degree as nat),
        decreases count - label,
    {
        let ghost done = labels@;
        let mut made: usize = 0;
        while made < degree
            invariant
                made <= degree,
                labels@ == done + block(label, made as nat),
            decreases degree - made,
        {
            labels.push(label);
            made += 1;
            assert(labels@ =~= done + block(label, made as nat));
        }
        label += 1;
    }
    labels
}

} // verus!
