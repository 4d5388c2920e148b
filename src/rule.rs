use crate::evaluator::Evaluator;
use crate::query::Query;
use vstd::prelude::*;

verus! {

/// A conjunction of named conditions paired with an outcome.
///
/// Each fact name carries at most one condition, kept in the order in which
/// its name was first inserted.
pub struct Rule<FactEvaluator: Evaluator<i64>, Outcome> {
    evaluators: Vec<(String, FactEvaluator)>,
    pub outcome: Outcome,
}

impl<FactEvaluator: Evaluator<i64>, Outcome> Rule<FactEvaluator, Outcome> {
    /// The conditions: each fact name with the predicate its value must meet.
    pub closed spec fn conditions(self) -> Seq<(Seq<char>, FactEvaluator)> {
        self.evaluators@.map_values(|p: (String, FactEvaluator)| (p.0@, p.1))
    }

    /// The outcome that a match selects.
    pub closed spec fn result(self) -> Outcome {
        self.outcome
    }

    /// The fact names that the conditions speak of, in order.
    pub open spec fn names(self) -> Seq<Seq<char>> {
        self.conditions().map_values(|c: (Seq<char>, FactEvaluator)| c.0)
    }

    /// The number of conditions, which ranks the rule against others.
    pub open spec fn specificity(self) -> nat {
        self.conditions().len()
    }

    /// No fact name carries two conditions.
    pub open spec fn wf(self) -> bool {
        self.names().no_duplicates()
    }

    /// Every condition names a fact of `q` whose value meets its predicate.
    pub open spec fn matches(self, q: Query) -> bool {
        forall|i: int|
            0 <= i < self.specificity() ==> {
                let c = #[trigger] self.conditions()[i];
                q.facts().contains_key(c.0) && c.1.holds(q.facts()[c.0])
            }
    }

    /// A rule with no conditions and the given outcome.
    pub fn new(outcome: Outcome) -> (r: Self)
        ensures
            r.wf(),
            r.conditions().len() == 0,
            r.result() == outcome,
    {
        Rule { evaluators: Vec::new(), outcome }
    }

    /// The number of conditions.
    pub fn specificity_of(&self) -> (r: usize)
        ensures
            r == self.specificity(),
    {
        self.evaluators.len()
    }

    /// Sets the condition on `fact` to `evaluator`: an existing condition on
    /// that name is replaced in place, otherwise the condition is added last.
    pub fn insert(&mut self, fact: &str, evaluator: FactEvaluator)
        requires
            old(self).wf(),
        ensures
            final(self).wf(),
            final(self).result() == old(self).result(),
            old(self).names().contains(fact@) ==> final(self).conditions() == old(
                self,
            ).conditions().update(old(self).names().index_of(fact@), (fact@, evaluator)),
            !old(self).names().contains(fact@) ==> final(self).conditions() == old(
                self,
            ).conditions().push((fact@, evaluator)),
    {
        let key = fact.to_owned();
        let n = self.evaluators.len();
        let mut i: usize = 0;
        while i < n
            invariant
                n == self.evaluators.len(),
                *self == *old(self),
                old(self).wf(),
                key@ == fact@,
                i <= n,
                forall|j: int| 0 <= j < i ==> self.names()[j] != fact@,
            decreases n - i,
        {
            if self.evaluators[i].0 == key {
                proof {
                    assert(self.names()[i as int] == fact@);
                    assert(self.names().contains(fact@));
                    let k = self.names().index_of(fact@);
                    assert(self.names()[k] == fact@);
                    assert(k == i) by {
                        if k != i {
                            assert(self.names()[k] == self.names()[i as int]);
                        }
                    }
                }
                self.evaluators[i] = (key, evaluator);
                proof {
                    assert(self.conditions() =~= old(self).conditions().update(
                        i as int,
                        (fact@, evaluator),
                    ));
                    assert(self.names() =~= old(self).names());
                }
                return;
            }
            i = i + 1;
        }
        proof {
            assert(!self.names().contains(fact@));
        }
        self.evaluators.push((key, evaluator));
        proof {
            assert(self.conditions() =~= old(self).conditions().push((fact@, evaluator)));
            assert(self.names() =~= old(self).names().push(fact@));
        }
    }

    /// A rule without conditions is satisfied by every query.
    pub proof fn lemma_unconditional_rule_matches(self, q: Query)
        requires
            self.specificity() == 0,
        ensures
            self.matches(q),
    {
    }

    /// A rule with more conditions than the query has facts cannot match:
    /// each condition needs a fact of its own name.
    pub proof fn lemma_too_specific_never_matches(self, q: Query)
        requires
            self.wf(),
            q.wf(),
            self.specificity() > q.facts().len(),
        ensures
            !self.matches(q),
    {
        if self.matches(q) {
            self.names().unique_seq_to_set();
            assert(self.names().to_set().subset_of(q.facts().dom())) by {
                assert forall|n: Seq<char>| self.names().to_set().contains(n) implies q.facts().dom().contains(n) by {
                    let i = choose|i: int| 0 <= i < self.names().len() && self.names()[i] == n;
                    assert(self.conditions()[i].0 == n);
                }
            }
            vstd::set_lib::lemma_len_subset(self.names().to_set(), q.facts().dom());
        }
    }

    /// Whether every condition names a fact of `query` whose value meets it.
    ///
    /// A rule with more conditions than the query has facts is rejected at
    /// once; otherwise the conditions are tested in order and the first that
    /// fails ends the test.
    pub fn evaluate(&self, query: &Query) -> (r: bool)
        requires
            self.wf(),
            query.wf(),
        ensures
            r == self.matches(*query),
    {
        if self.evaluators.len() > query.len() {
            proof {
                self.lemma_too_specific_never_matches(*query);
            }
            return false;
        }
        let n = self.evaluators.len();
        let mut i: usize = 0;
        while i < n
            invariant
                n == self.specificity(),
                i <= n,
                forall|j: int|
                    0 <= j < i ==> {
                        let c = #[trigger] self.conditions()[j];
                        query.facts().contains_key(c.0) && c.1.holds(query.facts()[c.0])
                    },
            decreases n - i,
        {
            let c = &self.evaluators[i];
            assert(self.conditions()[i as int] == (c.0@, c.1));
            match query.get(&c.0) {
                Some(value) => {
                    if !c.1.evaluate(value) {
                        return false;
                    }
                },
                None => {
                    return false;
                },
            }
            i = i + 1;
        }
        true
    }
}

} // verus!
