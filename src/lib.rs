//! A priority-based fact-matching engine.
//!
//! A [`Query`] holds named fact values, a [`Rule`] is a conjunction of
//! per-fact predicates paired with an outcome, and a [`Ruleset`] selects the
//! outcome of the most specific satisfied rule, breaking ties at random.

pub mod evaluator;
pub mod query;
pub mod rule;
pub mod ruleset;

pub use evaluator::{Evaluator, IntEvaluator};
pub use query::Query;
pub use rule::Rule;
pub use ruleset::Ruleset;
