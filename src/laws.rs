use vstd::prelude::*;

use crate::specification::{
    count_satisfied, AndSpecification, OrSpecification, Specification, XorSpecification,
};

verus! {

/// `after` holds the children of `before` in another order: child `i` of
/// `after` is child `order[i]` of `before`, and no child is taken twice.
pub open spec fn is_reordering<T>(
    before: Seq<Box<dyn Specification<T>>>,
    after: Seq<Box<dyn Specification<T>>>,
    order: Seq<int>,
) -> bool {
    &&& after.len() == before.len()
    &&& order.len() == before.len()
    &&& forall|i: int| 0 <= i < order.len() ==> 0 <= #[trigger] order[i] < before.len()
    &&& forall|i: int, j: int| 0 <= i < order.len() && 0 <= j < order.len() && i != j ==> order[i] != order[j]
    &&& forall|i: int| 0 <= i < after.len() ==> #[trigger] after[i] == before[order[i]]
}

/// Removing one child lowers the count of satisfied children by that child's verdict.
proof fn lemma_count_remove<T>(children: Seq<Box<dyn Specification<T>>>, k: int, candidate: &T)
    requires
        0 <= k < children.len(),
    ensures
        count_satisfied(children, candidate) == count_satisfied(children.remove(k), candidate) + if children[k].satisfied(candidate) {
            1nat
        } else {
            0nat
        },
    decreases children.len(),
{
    let rest = children.remove(k);
    if k == children.len() - 1 {
        assert(rest =~= children.drop_last());
    } else {
        assert(rest.drop_last() =~= children.drop_last().remove(k));
        assert(rest.last() == children.last());
        lemma_count_remove(children.drop_last(), k, candidate);
    }
}

/// Reordering children keeps the count of satisfied children.
proof fn lemma_count_reordered<T>(
    before: Seq<Box<dyn Specification<T>>>,
    after: Seq<Box<dyn Specification<T>>>,
    order: Seq<int>,
    candidate: &T,
)
    requires
        is_reordering(before, after, order),
    ensures
        count_satisfied(before, candidate) == count_satisfied(after, candidate),
    decreases before.len(),
{
    if before.len() > 0 {
        let n = before.len() - 1;
        let k = order[n];
        let before2 = before.remove(k);
        let after2 = after.drop_last();
        let order2 = Seq::new(n as nat, |i: int| if order[i] < k { order[i] } else { order[i] - 1 });
        assert forall|i: int| 0 <= i < after2.len() implies #[trigger] after2[i] == before2[order2[i]] by {
            assert(order[i] != order[n]);
            assert(after2[i] == after[i]);
        }
        assert forall|i: int, j: int|
            0 <= i < order2.len() && 0 <= j < order2.len() && i != j implies order2[i] != order2[j] by {
            assert(order[i] != order[j]);
            assert(order[i] != k);
            assert(order[j] != k);
        }
        assert forall|i: int| 0 <= i < order2.len() implies 0 <= #[trigger] order2[i] < before2.len() by {
            assert(order[i] != k);
            assert(0 <= order[i] < before.len());
        }
        assert(is_reordering(before2, after2, order2));
        lemma_count_reordered(before2, after2, order2, candidate);
        lemma_count_remove(before, k, candidate);
        assert(after.last() == before[k]);
    }
}

/// No child is satisfied exactly when the count of satisfied children is zero.
proof fn lemma_count_zero<T>(children: Seq<Box<dyn Specification<T>>>, candidate: &T)
    ensures
        count_satisfied(children, candidate) == 0 <==> forall|i: int|
            0 <= i < children.len() ==> !(#[trigger] children[i].satisfied(candidate)),
    decreases children.len(),
{
    if children.len() > 0 {
        let init = children.drop_last();
        let n = children.len() - 1;
        lemma_count_zero(init, candidate);
        assert forall|i: int| 0 <= i < n implies init[i].satisfied(candidate) == #[trigger] children[i].satisfied(candidate) by {
            assert(init[i] == children[i]);
        }
        assert(children.last() == children[n]);
    }
}

/// Child `i` is satisfied and no other child is.
pub open spec fn only_satisfied<T>(children: Seq<Box<dyn Specification<T>>>, i: int, candidate: &T) -> bool {
    &&& 0 <= i < children.len()
    &&& children[i].satisfied(candidate)
    &&& forall|j: int| 0 <= j < children.len() && j != i ==> !(#[trigger] children[j].satisfied(candidate))
}

/// The count of satisfied children is one exactly when a single child is satisfied.
proof fn lemma_count_one<T>(children: Seq<Box<dyn Specification<T>>>, candidate: &T)
    ensures
        count_satisfied(children, candidate) == 1 <==> exists|i: int| #[trigger] only_satisfied(children, i, candidate),
    decreases children.len(),
{
    if children.len() > 0 {
        let init = children.drop_last();
        let n = children.len() - 1;
        lemma_count_zero(init, candidate);
        lemma_count_one(init, candidate);
        assert forall|i: int| 0 <= i < n implies #[trigger] init[i] == children[i] by {}
        assert(children.last() == children[n]);
        if children[n].satisfied(candidate) {
            if count_satisfied(children, candidate) == 1 {
                assert forall|j: int| 0 <= j < children.len() && j != n implies !(#[trigger] children[j].satisfied(candidate)) by {
                    assert(init[j] == children[j]);
                }
                assert(only_satisfied(children, n, candidate));
            }
            if exists|i: int| #[trigger] only_satisfied(children, i, candidate) {
                let i = choose|i: int| #[trigger] only_satisfied(children, i, candidate);
                assert(i == n);
                assert forall|j: int| 0 <= j < init.len() implies !(#[trigger] init[j].satisfied(candidate)) by {
                    assert(init[j] == children[j]);
                    assert(j != i);
                }
            }
        } else {
            if count_satisfied(children, candidate) == 1 {
                let i = choose|i: int| #[trigger] only_satisfied(init, i, candidate);
                assert forall|j: int| 0 <= j < children.len() && j != i implies !(#[trigger] children[j].satisfied(candidate)) by {
                    if j < n {
                        assert(init[j] == children[j]);
                    }
                }
                assert(only_satisfied(children, i, candidate));
            }
            if exists|i: int| #[trigger] only_satisfied(children, i, candidate) {
                let i = choose|i: int| #[trigger] only_satisfied(children, i, candidate);
                assert(i != n);
                assert forall|j: int| 0 <= j < init.len() && j != i implies !(#[trigger] init[j].satisfied(candidate)) by {
                    assert(init[j] == children[j]);
                }
                assert(only_satisfied(init, i, candidate));
            }
        }
    }
}

/// Every combinator with no children is unsatisfied, whatever the candidate.
pub proof fn lemma_no_children_unsatisfied<T>(
    and: &AndSpecification<T>,
    or: &OrSpecification<T>,
    xor: &XorSpecification<T>,
    candidate: &T,
)
    requires
        and@.len() == 0,
        or@.len() == 0,
        xor@.len() == 0,
    ensures
        !and.satisfied(candidate),
        !or.satisfied(candidate),
        !xor.satisfied(candidate),
{
}

/// With at least one child, AND holds exactly when every child holds; one
/// unsatisfied child makes it fail.
pub proof fn lemma_and_is_conjunction<T>(spec: &AndSpecification<T>, candidate: &T)
    requires
        spec@.len() > 0,
    ensures
        spec.satisfied(candidate) <==> forall|i: int|
            0 <= i < spec@.len() ==> #[trigger] spec@[i].satisfied(candidate),
        (exists|i: int| 0 <= i < spec@.len() && !(#[trigger] spec@[i].satisfied(candidate)))
            ==> !spec.satisfied(candidate),
{
}

/// With at least one child, OR holds exactly when some child holds.
pub proof fn lemma_or_is_disjunction<T>(spec: &OrSpecification<T>, candidate: &T)
    requires
        spec@.len() > 0,
    ensures
        spec.satisfied(candidate) <==> exists|i: int|
            0 <= i < spec@.len() && #[trigger] spec@[i].satisfied(candidate),
{
}

/// XOR holds exactly when one child, and no other, holds.
pub proof fn lemma_xor_is_exactly_one<T>(spec: &XorSpecification<T>, candidate: &T)
    ensures
        spec.satisfied(candidate) <==> count_satisfied(spec@, candidate) == 1,
        spec.satisfied(candidate) <==> exists|i: int| #[trigger] only_satisfied(spec@, i, candidate),
{
    lemma_count_one(spec@, candidate);
}

/// Two XOR combinators that hold the same children in different orders agree
/// on every candidate.
pub proof fn lemma_xor_order_insensitive<T>(
    a: &XorSpecification<T>,
    b: &XorSpecification<T>,
    order: Seq<int>,
    candidate: &T,
)
    requires
        is_reordering(a@, b@, order),
    ensures
        a.satisfied(candidate) == b.satisfied(candidate),
{
    lemma_count_reordered(a@, b@, order, candidate);
}

/// A combinator held as a child of another combinator decides there exactly
/// as it decides on its own.
pub proof fn lemma_nested_combinators_keep_verdict<T>(
    and: AndSpecification<T>,
    or: OrSpecification<T>,
    xor: XorSpecification<T>,
    candidate: &T,
)
    ensures
        ({
            let child: Box<dyn Specification<T>> = Box::new(and);
            child.satisfied(candidate)
        }) == and.satisfied(candidate),
        ({
            let child: Box<dyn Specification<T>> = Box::new(or);
            child.satisfied(candidate)
        }) == or.satisfied(candidate),
        ({
            let child: Box<dyn Specification<T>> = Box::new(xor);
            child.satisfied(candidate)
        }) == xor.satisfied(candidate),
{
}

} // verus!
