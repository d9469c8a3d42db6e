use std::marker::PhantomData;

use specification::{
    AndSpecification, CompositeSpecification, OrSpecification, Specification, XorSpecification,
};

struct TrueSpecification<T> {
    phantom: PhantomData<T>,
}

struct FalseSpecification<T> {
    phantom: PhantomData<T>,
}

struct TestMessage {}

impl<T> TrueSpecification<T> {
    fn new() -> TrueSpecification<T> {
        TrueSpecification::<T> { phantom: PhantomData }
    }
}

impl<T> FalseSpecification<T> {
    fn new() -> FalseSpecification<T> {
        FalseSpecification::<T> { phantom: PhantomData }
    }
}

impl<T> Specification<T> for TrueSpecification<T> {
    fn satisfied(&self, _candidate: &T) -> bool {
        true
    }

    fn is_satisfied_by(&self, _candidate: &T) -> bool {
        true
    }
}

impl<T> Specification<T> for FalseSpecification<T> {
    fn satisfied(&self, _candidate: &T) -> bool {
        false
    }

    fn is_satisfied_by(&self, _candidate: &T) -> bool {
        false
    }
}

/// Satisfied by even numbers.
struct Even;

impl Specification<u32> for Even {
    fn satisfied(&self, candidate: &u32) -> bool {
        candidate % 2 == 0
    }

    fn is_satisfied_by(&self, candidate: &u32) -> bool {
        candidate % 2 == 0
    }
}

/// Satisfied by numbers above a threshold.
struct Above(u32);

impl Specification<u32> for Above {
    fn satisfied(&self, candidate: &u32) -> bool {
        *candidate > self.0
    }

    fn is_satisfied_by(&self, candidate: &u32) -> bool {
        *candidate > self.0
    }
}

fn yes() -> Box<dyn Specification<TestMessage>> {
    Box::new(TrueSpecification::<TestMessage>::new())
}

fn no() -> Box<dyn Specification<TestMessage>> {
    Box::new(FalseSpecification::<TestMessage>::new())
}

fn and_of(children: Vec<Box<dyn Specification<TestMessage>>>) -> AndSpecification<TestMessage> {
    let mut spec = AndSpecification::<TestMessage>::new();
    for child in children {
        spec.add_child_specifications(child);
    }
    spec
}

fn or_of(children: Vec<Box<dyn Specification<TestMessage>>>) -> OrSpecification<TestMessage> {
    let mut spec = OrSpecification::<TestMessage>::new();
    for child in children {
        spec.add_child_specifications(child);
    }
    spec
}

fn xor_of(children: Vec<Box<dyn Specification<TestMessage>>>) -> XorSpecification<TestMessage> {
    let mut spec = XorSpecification::<TestMessage>::new();
    for child in children {
        spec.add_child_specifications(child);
    }
    spec
}

#[test]
fn and() {
    let mut spec = AndSpecification::<TestMessage>::new();
    spec.add_child_specifications(Box::new(TrueSpecification::<TestMessage>::new()));
    spec.add_child_specifications(Box::new(TrueSpecification::<TestMessage>::new()));
    let message = TestMessage {};
    let result = spec.is_satisfied_by(&Box::new(message));

    assert_eq!(true, result);
}

#[test]
fn or() {
    let mut spec = OrSpecification::<TestMessage>::new();
    spec.add_child_specifications(Box::new(TrueSpecification::<TestMessage>::new()));
    spec.add_child_specifications(Box::new(FalseSpecification::<TestMessage>::new()));
    let message = TestMessage {};
    let result = spec.is_satisfied_by(&Box::new(message));

    assert_eq!(true, result);

    let mut spec = OrSpecification::<TestMessage>::new();
    spec.add_child_specifications(Box::new(TrueSpecification::<TestMessage>::new()));
    spec.add_child_specifications(Box::new(TrueSpecification::<TestMessage>::new()));
    let message = TestMessage {};
    let result = spec.is_satisfied_by(&Box::new(message));

    assert_eq!(true, result);
}

#[test]
fn xor() {
    let mut spec = XorSpecification::<TestMessage>::new();
    spec.add_child_specifications(Box::new(TrueSpecification::<TestMessage>::new()));
    spec.add_child_specifications(Box::new(FalseSpecification::<TestMessage>::new()));
    let result = spec.is_satisfied_by(&Box::new(TestMessage {}));
    assert_eq!(true, result);

    spec.add_child_specifications(Box::new(TrueSpecification::<TestMessage>::new()));
    let result = spec.is_satisfied_by(&Box::new(TestMessage {}));
    assert_eq!(false, result);
}

#[test]
fn empty_combinators_are_unsatisfied() {
    let m = TestMessage {};
    assert!(!and_of(vec![]).is_satisfied_by(&m));
    assert!(!or_of(vec![]).is_satisfied_by(&m));
    assert!(!xor_of(vec![]).is_satisfied_by(&m));
}

#[test]
fn and_truth_table() {
    let m = TestMessage {};
    assert!(and_of(vec![yes(), yes()]).is_satisfied_by(&m));
    assert!(!and_of(vec![yes(), no()]).is_satisfied_by(&m));
    assert!(!and_of(vec![no(), yes()]).is_satisfied_by(&m));
    assert!(and_of(vec![yes()]).is_satisfied_by(&m));
    assert!(!and_of(vec![yes(), yes(), no()]).is_satisfied_by(&m));
}

#[test]
fn or_truth_table() {
    let m = TestMessage {};
    assert!(or_of(vec![yes(), no()]).is_satisfied_by(&m));
    assert!(or_of(vec![no(), yes()]).is_satisfied_by(&m));
    assert!(!or_of(vec![no(), no()]).is_satisfied_by(&m));
    assert!(!or_of(vec![no()]).is_satisfied_by(&m));
}

#[test]
fn xor_counts_exactly_one() {
    let m = TestMessage {};
    assert!(xor_of(vec![yes(), no()]).is_satisfied_by(&m));
    assert!(!xor_of(vec![yes(), no(), yes()]).is_satisfied_by(&m));
    assert!(!xor_of(vec![no(), no()]).is_satisfied_by(&m));
    assert!(!xor_of(vec![yes(), yes(), yes()]).is_satisfied_by(&m));
    assert!(xor_of(vec![no(), no(), yes()]).is_satisfied_by(&m));
    assert!(xor_of(vec![yes()]).is_satisfied_by(&m));
}

#[test]
fn xor_ignores_order_of_children() {
    let m = TestMessage {};
    let orders: Vec<Vec<bool>> = vec![
        vec![true, false, false],
        vec![false, true, false],
        vec![false, false, true],
        vec![true, true, false],
        vec![true, false, true],
        vec![false, true, true],
    ];
    for order in orders {
        let expected = order.iter().filter(|b| **b).count() == 1;
        let children = order.iter().map(|b| if *b { yes() } else { no() }).collect();
        assert_eq!(expected, xor_of(children).is_satisfied_by(&m));
    }
}

#[test]
fn nested_combinator_as_child() {
    let m = TestMessage {};
    let mut outer = AndSpecification::<TestMessage>::new();
    outer.add_child_specifications(Box::new(or_of(vec![no(), yes()])));
    outer.add_child_specifications(yes());
    assert!(outer.is_satisfied_by(&m));

    let mut outer = OrSpecification::<TestMessage>::new();
    outer.add_child_specifications(Box::new(and_of(vec![yes(), no()])));
    outer.add_child_specifications(Box::new(xor_of(vec![yes(), yes()])));
    assert!(!outer.is_satisfied_by(&m));
}

#[test]
fn evaluation_keeps_children_and_repeats() {
    let m = TestMessage {};
    let spec = xor_of(vec![yes(), no()]);
    let first = spec.is_satisfied_by(&m);
    let second = spec.is_satisfied_by(&m);
    assert!(first);
    assert_eq!(first, second);
    assert_eq!(2, spec.children().len());
    assert!(spec.children()[0].is_satisfied_by(&m));
    assert!(!spec.children()[1].is_satisfied_by(&m));
}

#[test]
fn leaves_depend_on_candidate() {
    let mut spec = AndSpecification::<u32>::new();
    spec.add_child_specifications(Box::new(Even));
    spec.add_child_specifications(Box::new(Above(10)));
    assert!(spec.is_satisfied_by(&12));
    assert!(!spec.is_satisfied_by(&8));
    assert!(!spec.is_satisfied_by(&13));

    let mut spec = XorSpecification::<u32>::new();
    spec.add_child_specifications(Box::new(Even));
    spec.add_child_specifications(Box::new(Above(10)));
    assert!(spec.is_satisfied_by(&8));
    assert!(spec.is_satisfied_by(&13));
    assert!(!spec.is_satisfied_by(&12));
    assert!(!spec.is_satisfied_by(&7));
}

#[test]
fn composite_keeps_insertion_order() {
    let mut composite = CompositeSpecification::<TestMessage>::new();
    assert_eq!(0, composite.children().len());
    composite.add_child_specifications(no());
    composite.add_child_specifications(yes());
    let m = TestMessage {};
    assert_eq!(2, composite.children().len());
    assert!(!composite.children()[0].is_satisfied_by(&m));
    assert!(composite.children()[1].is_satisfied_by(&m));
}
