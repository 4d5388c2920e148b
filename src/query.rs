use indexmap::IndexMap;
use vstd::prelude::*;

verus! {

#[verifier::external_type_specification]
#[verifier::external_body]
#[verifier::reject_recursive_types(K)]
#[verifier::reject_recursive_types(V)]
#[verifier::reject_recursive_types(S)]
pub struct ExIndexMap<K, V, S>(IndexMap<K, V, S>);

/// An `IndexMap` from fact names to fact values.
pub type FactMap = IndexMap<String, i64>;

/// The facts that a `FactMap` holds, keyed by the characters of each name.
pub uninterp spec fn fact_map(m: FactMap) -> Map<Seq<char>, i64>;

/// Relies on `IndexMap::new`: the map starts empty.
#[verifier::external_body]
fn facts_new() -> (r: FactMap)
    ensures
        fact_map(r).dom() == Set::<Seq<char>>::empty(),
{
    IndexMap::new()
}

/// Relies on `IndexMap::len`: the number of key-value pairs in the map.
#[verifier::external_body]
fn facts_len(m: &FactMap) -> (r: usize)
    ensures
        r == fact_map(*m).len(),
{
    m.len()
}

/// Relies on `IndexMap::insert`: an existing key has its value replaced,
/// otherwise the pair is added.
#[verifier::external_body]
fn facts_insert(m: &mut FactMap, key: String, value: i64)
    ensures
        fact_map(*final(m)) == fact_map(*old(m)).insert(key@, value),
{
    m.insert(key, value);
}

/// Relies on `IndexMap::get`: the value stored under an equal key, if any.
#[verifier::external_body]
fn facts_get(m: &FactMap, key: &str) -> (r: Option<i64>)
    ensures
        r == (if fact_map(*m).contains_key(key@) {
            Some(fact_map(*m)[key@])
        } else {
            None::<i64>
        }),
{
    m.get(key).copied()
}

/// Relies on `IndexMap`'s `Extend` impl: each pair of `other` is inserted in
/// turn, so on a shared key the value of `other` prevails.
#[verifier::external_body]
fn facts_extend(m: &mut FactMap, other: FactMap)
    ensures
        fact_map(*final(m)) == fact_map(*old(m)).union_prefer_right(fact_map(other)),
{
    m.extend(other);
}

/// The facts presented for one evaluation: a mapping from fact names to
/// values in which each name appears at most once.
pub struct Query {
    facts: FactMap,
}

impl Query {
    /// The facts, keyed by name.
    pub closed spec fn facts(self) -> Map<Seq<char>, i64> {
        fact_map(self.facts)
    }

    /// The query holds finitely many facts, so its length is their count.
    pub open spec fn wf(self) -> bool {
        self.facts().dom().finite()
    }

    /// An empty query.
    pub fn new() -> (r: Query)
        ensures
            r.wf(),
            r.facts().dom() == Set::<Seq<char>>::empty(),
    {
        Query { facts: facts_new() }
    }

    /// Sets `fact` to `value`, replacing any earlier value of that name.
    pub fn insert(&mut self, fact: &str, value: i64)
        requires
            old(self).wf(),
        ensures
            final(self).wf(),
            final(self).facts() == old(self).facts().insert(fact@, value),
    {
        let key = fact.to_owned();
        facts_insert(&mut self.facts, key, value);
    }

    /// Merges the facts of `query` into this one; on a shared name the value
    /// of `query` wins.
    pub fn extend(&mut self, query: Query)
        requires
            old(self).wf(),
            query.wf(),
        ensures
            final(self).wf(),
            final(self).facts() == old(self).facts().union_prefer_right(query.facts()),
    {
        facts_extend(&mut self.facts, query.facts);
        proof {
            let a = old(self).facts();
            let b = query.facts();
            assert(self.facts().dom() =~= a.dom().union(b.dom()));
        }
    }

    /// The number of facts.
    pub fn len(&self) -> (r: usize)
        requires
            self.wf(),
        ensures
            r == self.facts().len(),
    {
        facts_len(&self.facts)
    }

    /// The value of `fact`, if the query holds it.
    pub fn get(&self, fact: &str) -> (r: Option<i64>)
        ensures
            r == (if self.facts().contains_key(fact@) {
                Some(self.facts()[fact@])
            } else {
                None::<i64>
            }),
    {
        facts_get(&self.facts, fact)
    }
}

impl Default for Query {
    /// An empty query.
    fn default() -> (r: Query)
        ensures
            r.wf(),
            r.facts().dom() == Set::<Seq<char>>::empty(),
    {
        Query::new()
    }
}

} // verus!
