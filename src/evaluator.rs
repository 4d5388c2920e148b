use vstd::prelude::*;

verus! {

/// A pure predicate over one fact value.
pub trait Evaluator<FactType>: Sized {
    /// Whether `value` satisfies the predicate.
    spec fn holds(&self, value: FactType) -> bool;

    /// Tests `value` against the predicate.
    fn evaluate(&self, value: FactType) -> (r: bool)
        ensures
            r == self.holds(value),
    ;
}

/// Comparisons of an integer fact value against fixed bounds.
#[derive(Clone, Copy, Debug, PartialEq, Eq, Structural)]
pub enum IntEvaluator {
    /// The value equals the operand.
    EqualTo(i64),
    /// The value differs from the operand.
    NotEqualTo(i64),
    /// The value is below the operand.
    LessThan(i64),
    /// The value is above the operand.
    GreaterThan(i64),
    /// The value lies in `[low, high)`.
    InRange(i64, i64),
}

impl IntEvaluator {
    /// A predicate that holds of values above `value`.
    pub fn gt(value: i64) -> (r: IntEvaluator)
        ensures
            r == IntEvaluator::GreaterThan(value),
    {
        IntEvaluator::GreaterThan(value)
    }

    /// A predicate that holds of values below `value`.
    pub fn lt(value: i64) -> (r: IntEvaluator)
        ensures
            r == IntEvaluator::LessThan(value),
    {
        IntEvaluator::LessThan(value)
    }
}

impl Evaluator<i64> for IntEvaluator {
    open spec fn holds(&self, value: i64) -> bool {
        match *self {
            IntEvaluator::EqualTo(x) => value == x,
            IntEvaluator::NotEqualTo(x) => value != x,
            IntEvaluator::LessThan(x) => value < x,
            IntEvaluator::GreaterThan(x) => value > x,
            IntEvaluator::InRange(low, high) => low <= value && value < high,
        }
    }

    fn evaluate(&self, value: i64) -> (r: bool) {
        match *self {
            IntEvaluator::EqualTo(x) => value == x,
            IntEvaluator::NotEqualTo(x) => value != x,
            IntEvaluator::LessThan(x) => value < x,
            IntEvaluator::GreaterThan(x) => value > x,
            IntEvaluator::InRange(low, high) => low <= value && value < high,
        }
    }
}

} // verus!
