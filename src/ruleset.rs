use crate::evaluator::Evaluator;
use crate::query::Query;
use crate::rule::Rule;
use rand::seq::SliceRandom;
use vstd::prelude::*;

verus! {

/// Rules are ordered most specific first.
pub open spec fn sorted_desc<E: Evaluator<i64>, O>(s: Seq<Rule<E, O>>) -> bool {
    forall|i: int, j: int|
        0 <= i < j < s.len() ==> #[trigger] s[i].specificity() >= #[trigger] s[j].specificity()
}

/// Every rule is well formed.
pub open spec fn all_wf<E: Evaluator<i64>, O>(s: Seq<Rule<E, O>>) -> bool {
    forall|i: int| 0 <= i < s.len() ==> #[trigger] s[i].wf()
}

/// The rules of specificity `k`, in their order in `s`.
pub open spec fn tier<E: Evaluator<i64>, O>(s: Seq<Rule<E, O>>, k: nat) -> Seq<Rule<E, O>> {
    s.filter(|r: Rule<E, O>| r.specificity() == k)
}

/// `x` is satisfied by `q`, and no satisfied rule of `s` is more specific.
pub open spec fn is_top<E: Evaluator<i64>, O>(s: Seq<Rule<E, O>>, q: Query, x: Rule<E, O>) -> bool {
    &&& x.matches(q)
    &&& forall|j: int|
        0 <= j < s.len() && (#[trigger] s[j]).matches(q) ==> s[j].specificity()
            <= x.specificity()
}

/// The satisfied rules of the winning tier, in their order in `s`.
pub open spec fn winners<E: Evaluator<i64>, O>(s: Seq<Rule<E, O>>, q: Query) -> Seq<Rule<E, O>> {
    s.filter(|x: Rule<E, O>| is_top(s, q, x))
}

/// The rules that a sequence of references points to.
pub open spec fn deref_all<E: Evaluator<i64>, O>(s: Seq<&Rule<E, O>>) -> Seq<Rule<E, O>> {
    s.map_values(|x: &Rule<E, O>| *x)
}

/// Splitting off the first rule splits its tier off the front.
proof fn lemma_tier_first<E: Evaluator<i64>, O>(s: Seq<Rule<E, O>>, k: nat)
    requires
        s.len() > 0,
    ensures
        tier(s, k) == (if s[0].specificity() == k {
            seq![s[0]]
        } else {
            Seq::empty()
        }) + tier(s.remove(0), k),
{
    let p = |r: Rule<E, O>| r.specificity() == k;
    assert(s =~= seq![s[0]] + s.remove(0));
    s.remove(0).lemma_filter_prepend(s[0], p);
}

/// Inserting `r` after every rule at least as specific and before every less
/// specific one puts `r` last in its tier and leaves other tiers alone.
proof fn lemma_tier_insert<E: Evaluator<i64>, O>(s: Seq<Rule<E, O>>, p: int, r: Rule<E, O>, k: nat)
    requires
        0 <= p <= s.len(),
        forall|j: int| 0 <= j < p ==> #[trigger] s[j].specificity() >= r.specificity(),
        forall|j: int| p <= j < s.len() ==> #[trigger] s[j].specificity() < r.specificity(),
    ensures
        tier(s.insert(p, r), k) == (if r.specificity() == k {
            tier(s, k).push(r)
        } else {
            tier(s, k)
        }),
{
    let pr = |x: Rule<E, O>| x.specificity() == k;
    let a = s.take(p);
    let b = s.skip(p);
    assert(s =~= a + b);
    assert(s.insert(p, r) =~= a + (seq![r] + b));
    Seq::filter_distributes_over_add(a, b, pr);
    Seq::filter_distributes_over_add(a, seq![r] + b, pr);
    b.lemma_filter_prepend(r, pr);
    if r.specificity() == k {
        assert(b.all(|x: Rule<E, O>| !pr(x)));
        b.lemma_all_neg_filter_empty(pr);
        assert(b.filter(pr) =~= Seq::empty());
        assert(tier(s.insert(p, r), k) =~= tier(s, k).push(r));
    }
}

/// Orders `rules` most specific first; rules of equal specificity keep their
/// relative order.
fn sort_rules<E: Evaluator<i64>, O>(rules: Vec<Rule<E, O>>) -> (r: Vec<Rule<E, O>>)
    requires
        all_wf(rules@),
    ensures
        sorted_desc(r@),
        all_wf(r@),
        forall|k: nat| #[trigger] tier(r@, k) == tier(rules@, k),
{
    let mut input = rules;
    let mut out: Vec<Rule<E, O>> = Vec::new();
    while input.len() > 0
        invariant
            sorted_desc(out@),
            all_wf(out@),
            all_wf(input@),
            forall|k: nat| #[trigger] tier(rules@, k) == tier(out@, k) + tier(input@, k),
        decreases input.len(),
    {
        let ghost before = input@;
        let rule = input.remove(0);
        let s = rule.specificity_of();
        let mut p: usize = 0;
        while p < out.len() && out[p].specificity_of() >= s
            invariant
                p <= out.len(),
                s == rule.specificity(),
                forall|j: int| 0 <= j < p ==> #[trigger] out@[j].specificity() >= s,
            decreases out.len() - p,
        {
            p = p + 1;
        }
        let ghost prev = out@;
        proof {
            assert forall|j: int| p <= j < prev.len() implies #[trigger] prev[j].specificity() < s by {
                assert(prev[p as int].specificity() < s);
            }
        }
        out.insert(p, rule);
        proof {
            assert forall|k: nat| #[trigger] tier(rules@, k) == tier(out@, k) + tier(input@, k) by {
                lemma_tier_first(before, k);
                lemma_tier_insert(prev, p as int, rule, k);
                assert(before.remove(0) == input@);
                if s == k {
                    assert(tier(prev, k) + (seq![rule] + tier(input@, k)) =~= tier(prev, k).push(
                        rule,
                    ) + tier(input@, k));
                } else {
                    assert(Seq::<Rule<E, O>>::empty() + tier(input@, k) =~= tier(input@, k));
                }
            }
            assert forall|i: int, j: int| 0 <= i < j < out@.len() implies #[trigger] out@[i].specificity()
                >= #[trigger] out@[j].specificity() by {
                if j < p {
                } else if j == p {
                } else if i < p {
                } else if i == p {
                } else {
                    assert(prev[i - 1].specificity() >= prev[j - 1].specificity());
                }
            }
            assert forall|i: int| 0 <= i < out@.len() implies #[trigger] out@[i].wf() by {
                if i < p {
                    assert(prev[i].wf());
                } else if i > p {
                    assert(prev[i - 1].wf());
                }
            }
            assert forall|i: int| 0 <= i < input@.len() implies #[trigger] input@[i].wf() by {
                assert(before[i + 1].wf());
            }
        }
    }
    proof {
        assert forall|k: nat| #[trigger] tier(out@, k) == tier(rules@, k) by {
            assert(input@ =~= Seq::empty());
            reveal(Seq::filter);
            assert(tier(out@, k) + tier(input@, k) =~= tier(out@, k));
        }
    }
    out
}

/// Filtering the first `i + 1` rules adds at most the rule at `i` to the
/// filtered first `i`.
proof fn lemma_filter_take_push<A>(s: Seq<A>, p: spec_fn(A) -> bool, i: int)
    requires
        0 <= i < s.len(),
    ensures
        s.take(i + 1).filter(p) == (if p(s[i]) {
            s.take(i).filter(p).push(s[i])
        } else {
            s.take(i).filter(p)
        }),
{
    reveal(Seq::filter);
    assert(s.take(i + 1).drop_last() =~= s.take(i));
}

/// Where no rule from `i` on passes `p`, filtering the first `i` rules
/// filters them all.
proof fn lemma_filter_prefix<A>(s: Seq<A>, p: spec_fn(A) -> bool, i: int)
    requires
        0 <= i <= s.len(),
        forall|j: int| i <= j < s.len() ==> !p(#[trigger] s[j]),
    ensures
        s.filter(p) == s.take(i).filter(p),
{
    let b = s.skip(i);
    assert(s =~= s.take(i) + b);
    Seq::filter_distributes_over_add(s.take(i), b, p);
    assert(b.all(|x: A| !p(x)));
    b.lemma_all_neg_filter_empty(p);
    assert(s.take(i).filter(p) + b.filter(p) =~= s.take(i).filter(p));
}

/// Two predicates that agree on every element of `s` filter it alike.
proof fn lemma_filter_agree<A>(s: Seq<A>, p: spec_fn(A) -> bool, q: spec_fn(A) -> bool)
    requires
        forall|i: int| 0 <= i < s.len() ==> p(#[trigger] s[i]) == q(s[i]),
    ensures
        s.filter(p) == s.filter(q),
    decreases s.len(),
{
    reveal(Seq::filter);
    if s.len() > 0 {
        let t = s.drop_last();
        assert forall|i: int| 0 <= i < t.len() implies p(#[trigger] t[i]) == q(t[i]) by {
            assert(t[i] == s[i]);
        }
        lemma_filter_agree(t, p, q);
    }
}

/// When a query satisfies every rule and the most specific rules have
/// specificity `k`, the winners are exactly the rules of specificity `k`, in
/// order: satisfied rules of lower specificity are never among them.
pub proof fn lemma_all_satisfied_top_tier_wins<E: Evaluator<i64>, O>(
    s: Seq<Rule<E, O>>,
    q: Query,
    k: nat,
)
    requires
        forall|i: int| 0 <= i < s.len() ==> (#[trigger] s[i]).matches(q),
        forall|i: int| 0 <= i < s.len() ==> (#[trigger] s[i]).specificity() <= k,
        exists|i: int| 0 <= i < s.len() && (#[trigger] s[i]).specificity() == k,
    ensures
        winners(s, q) == tier(s, k),
{
    let w = choose|i: int| 0 <= i < s.len() && (#[trigger] s[i]).specificity() == k;
    let top = |x: Rule<E, O>| is_top(s, q, x);
    let at_k = |x: Rule<E, O>| x.specificity() == k;
    assert forall|i: int| 0 <= i < s.len() implies top(#[trigger] s[i]) == at_k(s[i]) by {
        if top(s[i]) {
            assert(s[w].matches(q));
        }
    }
    lemma_filter_agree(s, top, at_k);
}

/// When a query satisfies no rule, there are no winners.
pub proof fn lemma_nothing_satisfied_no_winners<E: Evaluator<i64>, O>(s: Seq<Rule<E, O>>, q: Query)
    requires
        forall|i: int| 0 <= i < s.len() ==> !(#[trigger] s[i]).matches(q),
    ensures
        winners(s, q).len() == 0,
{
    let top = |x: Rule<E, O>| is_top(s, q, x);
    assert(s.all(|x: Rule<E, O>| !top(x)));
    s.lemma_all_neg_filter_empty(top);
}

/// Relies on rand's `SliceRandom::choose` with the thread-local generator:
/// `None` on an empty slice, otherwise one of its elements.
#[verifier::external_body]
fn choose_one<'a, T>(items: &Vec<&'a T>) -> (r: Option<&'a T>)
    ensures
        r is None <==> items@.len() == 0,
        r is Some ==> items@.contains(r->0),
{
    items.choose(&mut rand::thread_rng()).copied()
}

/// Rules kept most specific first, from which a query selects the satisfied
/// rules of the highest satisfied specificity.
///
/// Rules of equal specificity keep the order in which they were given, with
/// the rules of an appended ruleset after those already held.
pub struct Ruleset<FactEvaluator: Evaluator<i64>, Outcome> {
    rules: Vec<Rule<FactEvaluator, Outcome>>,
}

impl<FactEvaluator: Evaluator<i64>, Outcome> Ruleset<FactEvaluator, Outcome> {
    /// The rules, most specific first.
    pub closed spec fn rules(self) -> Seq<Rule<FactEvaluator, Outcome>> {
        self.rules@
    }

    /// The rules are well formed and ordered most specific first.
    pub open spec fn wf(self) -> bool {
        sorted_desc(self.rules()) && all_wf(self.rules())
    }

    /// A ruleset of `rules`, ordered most specific first; rules of equal
    /// specificity keep their order in `rules`.
    pub fn new(rules: Vec<Rule<FactEvaluator, Outcome>>) -> (r: Self)
        requires
            all_wf(rules@),
        ensures
            r.wf(),
            forall|k: nat| #[trigger] tier(r.rules(), k) == tier(rules@, k),
    {
        Ruleset { rules: sort_rules(rules) }
    }

    /// The number of rules.
    pub fn len(&self) -> (r: usize)
        ensures
            r == self.rules().len(),
    {
        self.rules.len()
    }

    /// Moves every rule of `ruleset` into this one, leaving `ruleset` empty;
    /// within each specificity the rules already held come first.
    pub fn append(&mut self, ruleset: &mut Self)
        requires
            old(self).wf(),
            old(ruleset).wf(),
        ensures
            final(self).wf(),
            final(ruleset).rules().len() == 0,
            forall|k: nat| #[trigger]
                tier(final(self).rules(), k) == tier(old(self).rules(), k) + tier(
                    old(ruleset).rules(),
                    k,
                ),
    {
        self.rules.append(&mut ruleset.rules);
        let mut all: Vec<Rule<FactEvaluator, Outcome>> = Vec::new();
        std::mem::swap(&mut all, &mut self.rules);
        proof {
            let a = old(self).rules();
            let b = old(ruleset).rules();
            assert(all@ == a + b);
            assert forall|i: int| 0 <= i < all@.len() implies #[trigger] all@[i].wf() by {
                if i < a.len() {
                    assert(a[i].wf());
                } else {
                    assert(b[i - a.len()].wf());
                }
            }
            assert forall|k: nat| #[trigger] tier(all@, k) == tier(a, k) + tier(b, k) by {
                Seq::filter_distributes_over_add(a, b, |r: Rule<FactEvaluator, Outcome>| r.specificity() == k);
            }
        }
        self.rules = sort_rules(all);
    }

    /// The satisfied rules of the highest specificity at which any rule is
    /// satisfied by `query`, most specific first and in ruleset order; empty
    /// when no rule is satisfied.
    ///
    /// The scan stops at the first rule less specific than the first match.
    pub fn evaluate_all(&self, query: &Query) -> (r: Vec<&Rule<FactEvaluator, Outcome>>)
        requires
            self.wf(),
            query.wf(),
        ensures
            deref_all(r@) == winners(self.rules(), *query),
            r@.len() == 0 <==> forall|i: int|
                0 <= i < self.rules().len() ==> !(#[trigger] self.rules()[i]).matches(*query),
    {
        let ghost s = self.rules();
        let ghost q = *query;
        let ghost pred = |x: Rule<FactEvaluator, Outcome>| is_top(s, q, x);
        let ghost mut first: int = 0;
        let mut matched: Vec<&Rule<FactEvaluator, Outcome>> = Vec::new();
        let n = self.rules.len();
        let mut i: usize = 0;
        while i < n
            invariant
                s == self.rules(),
                q == *query,
                pred == (|x: Rule<FactEvaluator, Outcome>| is_top(s, q, x)),
                sorted_desc(s),
                all_wf(s),
                query.wf(),
                n == s.len(),
                i <= n,
                deref_all(matched@) == s.take(i as int).filter(pred),
                matched@.len() == 0 ==> forall|j: int| 0 <= j < i ==> !(#[trigger] s[j]).matches(q),
                matched@.len() > 0 ==> {
                    &&& 0 <= first < i
                    &&& s[first].matches(q)
                    &&& matched@[0] == s[first]
                    &&& forall|j: int| 0 <= j < first ==> !(#[trigger] s[j]).matches(q)
                },
            decreases n - i,
        {
            let rule = &self.rules[i];
            let specificity = rule.specificity_of();
            let top: usize = if matched.len() > 0 {
                matched[0].specificity_of()
            } else {
                0
            };
            if top > specificity {
                proof {
                    assert forall|j: int| i <= j < s.len() implies !pred(#[trigger] s[j]) by {
                        assert(s[j].specificity() <= s[i as int].specificity());
                        assert(s[first].specificity() > s[j].specificity());
                    }
                    lemma_filter_prefix(s, pred, i as int);
                }
                return matched;
            }
            let ok = rule.evaluate(query);
            proof {
                lemma_filter_take_push(s, pred, i as int);
                if matched@.len() == 0 {
                    if ok {
                        assert forall|j: int| 0 <= j < s.len() && (#[trigger] s[j]).matches(q) implies s[j].specificity()
                            <= s[i as int].specificity() by {
                            if j > i {
                                assert(s[i as int].specificity() >= s[j].specificity());
                            }
                        }
                    }
                    assert(pred(s[i as int]) == ok);
                } else {
                    assert(s[first].specificity() >= s[i as int].specificity());
                    assert(s[first].specificity() == specificity);
                    if ok {
                        assert forall|j: int| 0 <= j < s.len() && (#[trigger] s[j]).matches(q) implies s[j].specificity()
                            <= s[i as int].specificity() by {
                            if j > first {
                                assert(s[first].specificity() >= s[j].specificity());
                            }
                        }
                    }
                    assert(pred(s[i as int]) == ok);
                }
            }
            if ok {
                proof {
                    if matched@.len() == 0 {
                        first = i as int;
                    }
                }
                let ghost before = matched@;
                matched.push(rule);
                proof {
                    assert(deref_all(matched@) =~= deref_all(before).push(s[i as int]));
                }
            }
            i = i + 1;
        }
        proof {
            assert(s.take(n as int) =~= s);
        }
        matched
    }

    /// One satisfied rule of the highest satisfied specificity, picked
    /// uniformly at random among them, or `None` when no rule is satisfied.
    pub fn evaluate(&self, query: &Query) -> (r: Option<&Rule<FactEvaluator, Outcome>>)
        requires
            self.wf(),
            query.wf(),
        ensures
            r is None <==> winners(self.rules(), *query).len() == 0,
            r is Some ==> winners(self.rules(), *query).contains(*r->0),
    {
        let matched = self.evaluate_all(query);
        let r = choose_one(&matched);
        proof {
            if r is Some {
                let i = choose|i: int| 0 <= i < matched@.len() && matched@[i] == r->0;
                assert(deref_all(matched@)[i] == *r->0);
            }
        }
        r
    }
}

} // verus!
