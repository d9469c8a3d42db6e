use vstd::prelude::*;

verus! {

/// A predicate over candidates of type `T`.
pub trait Specification<T> {
    /// The verdict of this predicate on `candidate`, as a mathematical function.
    spec fn satisfied(&self, candidate: &T) -> bool;

    /// Decides whether `candidate` satisfies this predicate.
    fn is_satisfied_by(&self, candidate: &T) -> (r: bool)
        ensures
            r == self.satisfied(candidate),
    ;
}

/// Number of children in `children` that `candidate` satisfies.
pub open spec fn count_satisfied<T>(children: Seq<Box<dyn Specification<T>>>, candidate: &T) -> nat
    decreases children.len(),
{
    if children.len() == 0 {
        0
    } else {
        count_satisfied(children.drop_last(), candidate) + if children.last().satisfied(candidate) {
            1nat
        } else {
            0nat
        }
    }
}

/// An ordered, append-only sequence of owned child predicates.
#[verifier::reject_recursive_types(T)]
pub struct CompositeSpecification<T> {
    child_specifications: Vec<Box<dyn Specification<T>>>,
}

impl<T> View for CompositeSpecification<T> {
    type V = Seq<Box<dyn Specification<T>>>;

    closed spec fn view(&self) -> Seq<Box<dyn Specification<T>>> {
        self.child_specifications@
    }
}

impl<T> CompositeSpecification<T> {
    /// A composite with no children.
    pub fn new() -> (r: CompositeSpecification<T>)
        ensures
            r@ == Seq::<Box<dyn Specification<T>>>::empty(),
    {
        CompositeSpecification { child_specifications: Vec::new() }
    }

    /// Appends `child` after the children already held.
    pub fn add_child_specifications(&mut self, child: Box<dyn Specification<T>>)
        ensures
            final(self)@ == old(self)@.push(child),
    {
        self.child_specifications.push(child);
    }

    /// The children, in the order they were added.
    pub fn children(&self) -> (r: &Vec<Box<dyn Specification<T>>>)
        ensures
            r@ == self@,
    {
        &self.child_specifications
    }
}

/// Satisfied when it has at least one child and every child is satisfied.
#[verifier::reject_recursive_types(T)]
pub struct AndSpecification<T> {
    specification: CompositeSpecification<T>,
}

impl<T> View for AndSpecification<T> {
    type V = Seq<Box<dyn Specification<T>>>;

    closed spec fn view(&self) -> Seq<Box<dyn Specification<T>>> {
        self.specification@
    }
}

impl<T> AndSpecification<T> {
    /// A combinator with no children.
    pub fn new() -> (r: AndSpecification<T>)
        ensures
            r@ == Seq::<Box<dyn Specification<T>>>::empty(),
    {
        AndSpecification { specification: CompositeSpecification::new() }
    }

    /// Appends `child` after the children already held.
    pub fn add_child_specifications(&mut self, child: Box<dyn Specification<T>>)
        ensures
            final(self)@ == old(self)@.push(child),
    {
        // Pushed here rather than through the composite's own method: Verus does
        // not carry a contract across a call that passes a boxed trait object on.
        self.specification.child_specifications.push(child);
    }

    /// The children, in the order they were added.
    pub fn children(&self) -> (r: &Vec<Box<dyn Specification<T>>>)
        ensures
            r@ == self@,
    {
        self.specification.children()
    }
}

/// Satisfied when at least one child is satisfied.
#[verifier::reject_recursive_types(T)]
pub struct OrSpecification<T> {
    specification: CompositeSpecification<T>,
}

impl<T> View for OrSpecification<T> {
    type V = Seq<Box<dyn Specification<T>>>;

    closed spec fn view(&self) -> Seq<Box<dyn Specification<T>>> {
        self.specification@
    }
}

impl<T> OrSpecification<T> {
    /// A combinator with no children.
    pub fn new() -> (r: OrSpecification<T>)
        ensures
            r@ == Seq::<Box<dyn Specification<T>>>::empty(),
    {
        OrSpecification { specification: CompositeSpecification::new() }
    }

    /// Appends `child` after the children already held.
    pub fn add_child_specifications(&mut self, child: Box<dyn Specification<T>>)
        ensures
            final(self)@ == old(self)@.push(child),
    {
        // Pushed here rather than through the composite's own method: Verus does
        // not carry a contract across a call that passes a boxed trait object on.
        self.specification.child_specifications.push(child);
    }

    /// The children, in the order they were added.
    pub fn children(&self) -> (r: &Vec<Box<dyn Specification<T>>>)
        ensures
            r@ == self@,
    {
        self.specification.children()
    }
}

/// Satisfied when exactly one child is satisfied.
#[verifier::reject_recursive_types(T)]
pub struct XorSpecification<T> {
    specification: CompositeSpecification<T>,
}

impl<T> View for XorSpecification<T> {
    type V = Seq<Box<dyn Specification<T>>>;

    closed spec fn view(&self) -> Seq<Box<dyn Specification<T>>> {
        self.specification@
    }
}

impl<T> XorSpecification<T> {
    /// A combinator with no children.
    pub fn new() -> (r: XorSpecification<T>)
        ensures
            r@ == Seq::<Box<dyn Specification<T>>>::empty(),
    {
        XorSpecification { specification: CompositeSpecification::new() }
    }

    /// Appends `child` after the children already held.
    pub fn add_child_specifications(&mut self, child: Box<dyn Specification<T>>)
        ensures
            final(self)@ == old(self)@.push(child),
    {
        // Pushed here rather than through the composite's own method: Verus does
        // not carry a contract across a call that passes a boxed trait object on.
        self.specification.child_specifications.push(child);
    }

    /// The children, in the order they were added.
    pub fn children(&self) -> (r: &Vec<Box<dyn Specification<T>>>)
        ensures
            r@ == self@,
    {
        self.specification.children()
    }
}

impl<T> Specification<T> for AndSpecification<T> {
    open spec fn satisfied(&self, candidate: &T) -> bool {
        self@.len() > 0 && forall|i: int| 0 <= i < self@.len() ==> #[trigger] self@[i].satisfied(candidate)
    }

    fn is_satisfied_by(&self, candidate: &T) -> (r: bool) {
        let children = self.children();
        if children.len() == 0 {
            return false;
        }
        let mut i: usize = 0;
        while i < children.len()
            invariant
                children@ == self@,
                0 <= i <= children@.len(),
                forall|j: int| 0 <= j < i ==> #[trigger] children@[j].satisfied(candidate),
            decreases children@.len() - i,
        {
            if !children[i].is_satisfied_by(candidate) {
                return false;
            }
            i = i + 1;
        }
        true
    }
}

impl<T> Specification<T> for OrSpecification<T> {
    open spec fn satisfied(&self, candidate: &T) -> bool {
        exists|i: int| 0 <= i < self@.len() && #[trigger] self@[i].satisfied(candidate)
    }

    fn is_satisfied_by(&self, candidate: &T) -> (r: bool) {
        let children = self.children();
        let mut i: usize = 0;
        while i < children.len()
            invariant
                children@ == self@,
                0 <= i <= children@.len(),
                forall|j: int| 0 <= j < i ==> !(#[trigger] children@[j].satisfied(candidate)),
            decreases children@.len() - i,
        {
            if children[i].is_satisfied_by(candidate) {
                return true;
            }
            i = i + 1;
        }
        false
    }
}

impl<T> Specification<T> for XorSpecification<T> {
    open spec fn satisfied(&self, candidate: &T) -> bool {
        count_satisfied(self@, candidate) == 1
    }

    fn is_satisfied_by(&self, candidate: &T) -> (r: bool) {
        let children = self.children();
        let mut found = false;
        let mut i: usize = 0;
        while i < children.len()
            invariant
                children@ == self@,
                0 <= i <= children@.len(),
                count_satisfied(children@.take(i as int), candidate) == if found { 1nat } else { 0nat },
            decreases children@.len() - i,
        {
            proof {
                assert(children@.take(i + 1).drop_last() =~= children@.take(i as int));
            }
            if children[i].is_satisfied_by(candidate) {
                if found {
                    proof {
                        lemma_count_prefix_le(children@, i + 1, candidate);
                    }
                    return false;
                }
                found = true;
            }
            i = i + 1;
        }
        proof {
            assert(children@.take(i as int) =~= children@);
        }
        found
    }
}

/// Satisfied children of a prefix are never more than those of the whole.
proof fn lemma_count_prefix_le<T>(children: Seq<Box<dyn Specification<T>>>, n: int, candidate: &T)
    requires
        0 <= n <= children.len(),
    ensures
        count_satisfied(children.take(n), candidate) <= count_satisfied(children, candidate),
    decreases children.len(),
{
    if n < children.len() {
        assert(children.drop_last().take(n) =~= children.take(n));
        lemma_count_prefix_le(children.drop_last(), n, candidate);
    } else {
        assert(children.take(n) =~= children);
    }
}

} // verus!
