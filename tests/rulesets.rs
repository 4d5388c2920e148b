use mimir::{IntEvaluator, Query, Rule, Ruleset};

fn rule(outcome: &'static str, facts: &[&str]) -> Rule<IntEvaluator, &'static str> {
    let mut r = Rule::new(outcome);
    for f in facts {
        r.insert(f, IntEvaluator::EqualTo(1));
    }
    r
}

fn query(facts: &[&str]) -> Query {
    let mut q = Query::new();
    for f in facts {
        q.insert(f, 1);
    }
    q
}

fn outcomes(rules: Vec<&Rule<IntEvaluator, &'static str>>) -> Vec<&'static str> {
    rules.iter().map(|r| r.outcome).collect()
}

#[test]
fn highest_satisfied_tier_only() {
    let ruleset = Ruleset::new(vec![
        rule("one_a", &["a"]),
        rule("one_b", &["b"]),
        rule("two", &["a", "b"]),
    ]);
    let q = query(&["a", "b"]);
    assert_eq!(outcomes(ruleset.evaluate_all(&q)), vec!["two"]);
    assert_eq!(ruleset.evaluate(&q).unwrap().outcome, "two");
}

#[test]
fn lower_tier_used_when_higher_fails() {
    let ruleset = Ruleset::new(vec![
        rule("one_a", &["a"]),
        rule("two", &["a", "b"]),
        rule("one_c", &["c"]),
        rule("zero", &[]),
    ]);
    let q = query(&["a", "c"]);
    assert_eq!(outcomes(ruleset.evaluate_all(&q)), vec!["one_a", "one_c"]);
    let q = query(&["d"]);
    assert_eq!(outcomes(ruleset.evaluate_all(&q)), vec!["zero"]);
}

#[test]
fn nothing_satisfied_gives_nothing() {
    let ruleset = Ruleset::new(vec![rule("one_a", &["a"]), rule("two", &["a", "b"])]);
    let q = query(&["c"]);
    assert!(ruleset.evaluate_all(&q).is_empty());
    assert!(ruleset.evaluate(&q).is_none());
    let empty: Ruleset<IntEvaluator, &str> = Ruleset::new(vec![]);
    assert!(empty.evaluate_all(&q).is_empty());
    assert!(empty.evaluate(&q).is_none());
}

#[test]
fn evaluate_picks_from_evaluate_all() {
    let ruleset = Ruleset::new(vec![
        rule("x", &["a"]),
        rule("y", &["b"]),
        rule("z", &["c"]),
    ]);
    let q = query(&["a", "b"]);
    let all = outcomes(ruleset.evaluate_all(&q));
    assert_eq!(all, vec!["x", "y"]);
    for _ in 0..50 {
        let pick = ruleset.evaluate(&q).unwrap().outcome;
        assert!(all.contains(&pick));
    }
}

#[test]
fn evaluate_all_is_repeatable() {
    let ruleset = Ruleset::new(vec![
        rule("x", &["a"]),
        rule("y", &["b"]),
        rule("w", &["a", "b", "c"]),
    ]);
    let q = query(&["a", "b"]);
    let first = outcomes(ruleset.evaluate_all(&q));
    let second = outcomes(ruleset.evaluate_all(&q));
    assert_eq!(first, vec!["x", "y"]);
    assert_eq!(first, second);
}

#[test]
fn equal_specificity_keeps_given_order() {
    let ruleset = Ruleset::new(vec![
        rule("p", &["a"]),
        rule("big", &["a", "b"]),
        rule("q", &["b"]),
        rule("r", &["c"]),
    ]);
    let q = query(&["a", "b", "c", "d"]);
    assert_eq!(outcomes(ruleset.evaluate_all(&q)), vec!["big"]);
    let q = query(&["a", "c", "d"]);
    assert_eq!(outcomes(ruleset.evaluate_all(&q)), vec!["p", "r"]);
}

#[test]
fn append_moves_and_sorts() {
    let mut first = Ruleset::new(vec![rule("p", &["a"]), rule("zero", &[])]);
    let mut second = Ruleset::new(vec![rule("q", &["a"]), rule("two", &["a", "b"])]);
    first.append(&mut second);
    assert_eq!(second.len(), 0);
    assert_eq!(first.len(), 4);
    let q = query(&["a", "b"]);
    assert_eq!(outcomes(first.evaluate_all(&q)), vec!["two"]);
    let q = query(&["a"]);
    assert_eq!(outcomes(first.evaluate_all(&q)), vec!["p", "q"]);
    let q = query(&["z"]);
    assert_eq!(outcomes(first.evaluate_all(&q)), vec!["zero"]);
    assert!(second.evaluate(&q).is_none());
}

#[test]
fn append_twice_keeps_tie_order() {
    let mut first = Ruleset::new(vec![rule("p", &["a"])]);
    let mut second = Ruleset::new(vec![rule("q", &["a"])]);
    let mut third = Ruleset::new(vec![rule("r", &["a"])]);
    first.append(&mut second);
    first.append(&mut third);
    let q = query(&["a"]);
    assert_eq!(outcomes(first.evaluate_all(&q)), vec!["p", "q", "r"]);
}

#[test]
fn enemies_and_doors_scenario() {
    let mut a = Rule::new("A");
    a.insert("enemies_killed", IntEvaluator::EqualTo(5));
    let mut b = Rule::new("B");
    b.insert("enemies_killed", IntEvaluator::EqualTo(5));
    b.insert("doors_opened", IntEvaluator::gt(2));
    let ruleset = Ruleset::new(vec![a, b]);

    let mut q = Query::new();
    q.insert("enemies_killed", 5);
    assert_eq!(outcomes(ruleset.evaluate_all(&q)), vec!["A"]);

    q.insert("doors_opened", 10);
    assert_eq!(outcomes(ruleset.evaluate_all(&q)), vec!["B"]);
    assert_eq!(ruleset.evaluate(&q).unwrap().outcome, "B");
}

#[test]
fn equal_ties_picked_evenly() {
    let ruleset = Ruleset::new(vec![rule("left", &["a", "b"]), rule("right", &["a", "b"])]);
    let q = query(&["a", "b"]);
    assert_eq!(outcomes(ruleset.evaluate_all(&q)), vec!["left", "right"]);
    let mut left = 0;
    let trials = 2000;
    for _ in 0..trials {
        if ruleset.evaluate(&q).unwrap().outcome == "left" {
            left += 1;
        }
    }
    assert!(left > 800 && left < 1200, "left picked {} times", left);
}
