//! The memoization cache of pairwise match results, held by `dashmap`.

use vstd::prelude::*;
use crate::cpd::graph_matching::MatchingResult;
use dashmap::DashMap;

verus! {

#[verifier::external_type_specification]
#[verifier::external_body]
#[verifier::reject_recursive_types(K)]
#[verifier::reject_recursive_types(V)]
#[verifier::reject_recursive_types(S)]
pub struct ExDashMap<K, V, S>(DashMap<K, V, S>);

/// The map that memoizes match results by pairs of ids.
pub type ResultMap = DashMap<(usize, usize), MatchingResult>;

/// The entries of a cache of match results.
pub uninterp spec fn cache_contents(m: ResultMap) -> Map<
    (usize, usize),
    MatchingResult,
>;

/// `dashmap::DashMap::new`: a map without entries.
#[verifier::external_body]
fn cache_new() -> (cache: ResultMap)
    ensures
        cache_contents(cache).dom() == Set::<(usize, usize)>::empty(),
{
    DashMap::new()
}

/// `dashmap::DashMap::get`: the value stored under the key, if there is one.
#[verifier::external_body]
fn cache_get(m: &ResultMap, key: (usize, usize)) -> (r: Option<MatchingResult>)
    ensures
        r == (if cache_contents(*m).contains_key(key) {
            Some(cache_contents(*m)[key])
        } else {
            None
        }),
{
    m.get(&key).map(|entry| *entry)
}

/// `dashmap::DashMap::insert`: the value is stored under the key, in place
/// of an earlier one, and the other entries stay.
#[verifier::external_body]
fn cache_insert(m: &mut ResultMap, key: (usize, usize), value: MatchingResult)
    ensures
        cache_contents(*final(m)) == cache_contents(*old(m)).insert(key, value),
{
    m.insert(key, value);
}

/// The memoization cache of pairwise match results, keyed by the ordered
/// pair of the ids of the two graphs.
pub struct MatchCache {
    map: ResultMap,
}

impl View for MatchCache {
    type V = Map<(usize, usize), MatchingResult>;

    closed spec fn view(&self) -> Map<(usize, usize), MatchingResult> {
        cache_contents(self.map)
    }
}

/// The key of an unordered pair of ids: the smaller id first.
pub open spec fn pair_key(a: usize, b: usize) -> (usize, usize) {
    if a < b {
        (a, b)
    } else {
        (b, a)
    }
}

impl MatchCache {
    pub fn new() -> (c: MatchCache)
        ensures
            c@ == Map::<(usize, usize), MatchingResult>::empty(),
    {
        MatchCache { map: cache_new() }
    }

    /// The result stored for the pair of ids, if there is one.
    pub fn get(&self, a: usize, b: usize) -> (r: Option<MatchingResult>)
        ensures
            r == (if self@.contains_key(pair_key(a, b)) {
                Some(self@[pair_key(a, b)])
            } else {
                None
            }),
    {
        let key = if a < b { (a, b) } else { (b, a) };
        cache_get(&self.map, key)
    }

    /// Stores the result for the pair of ids.
    pub fn insert(&mut self, a: usize, b: usize, value: MatchingResult)
        ensures
            final(self)@ == old(self)@.insert(pair_key(a, b), value),
    {
        let key = if a < b { (a, b) } else { (b, a) };
        cache_insert(&mut self.map, key, value);
    }
}

} // verus!
