//! Composable business-rule predicates: a `Specification` decides whether a
//! candidate satisfies it, and the `And`, `Or` and `Xor` combinators fold the
//! verdicts of their children.

pub mod laws;
pub mod specification;

pub use specification::{
    AndSpecification, CompositeSpecification, OrSpecification, Specification, XorSpecification,
};
