use vstd::prelude::*;

use std::collections::BTreeMap;

verus! {

use vstd::std_specs::btree::increasing_seq;
use vstd::std_specs::cmp::OrdSpec;
use vstd::std_specs::iter::IteratorSpec;

broadcast use vstd::std_specs::btree::group_btree_axioms;

/// Values by year.
#[derive(Debug)]
pub struct YearMap<V> {
    pub map: BTreeMap<i32, V>,
}

impl<V> YearMap<V> {
    pub open spec fn view(&self) -> Map<i32, V> {
        self.map@
    }

    /// The map's key comparison is the integers' order.
    pub open spec fn wf(&self) -> bool {
        vstd::std_specs::btree::key_obeys_cmp_spec::<i32>()
    }

    pub fn new() -> (result: YearMap<V>)
        ensures
            result@ == Map::<i32, V>::empty(),
            result.wf(),
    {
        YearMap { map: BTreeMap::new() }
    }

    pub fn get(&self, year: i32) -> (result: Option<&V>)
        requires
            self.wf(),
        ensures
            match result {
                Some(value) => self@.contains_key(year) && self@[year] == *value,
                None => !self@.contains_key(year),
            },
    {
        self.map.get(&year)
    }

    pub fn contains_key(&self, year: i32) -> (result: bool)
        requires
            self.wf(),
        ensures
            result == self@.contains_key(year),
    {
        self.map.contains_key(&year)
    }

    /// Sets the value for a year, replacing the previous one.
    pub fn insert(&mut self, year: i32, value: V)
        requires
            old(self).wf(),
        ensures
            final(self).wf(),
            final(self)@ == old(self)@.insert(year, value),
    {
        self.map.insert(year, value);
    }

    /// The years that have values, in increasing order.
    pub fn years(&self) -> (result: Vec<i32>)
        requires
            self.wf(),
        ensures
            result@.no_duplicates(),
            forall|year: i32| self@.contains_key(year) <==> result@.contains(year),
            forall|i: int, j: int| 0 <= i < j < result@.len() ==> result@[i] < result@[j],
    {
        let ghost keys = vstd::std_specs::btree::spec_keys_iter(&self.map).remaining();
        let mut result: Vec<i32> = Vec::new();
        for year in it: self.map.keys()
            invariant
                it.seq() == keys,
                result@ == keys.unref().take(it.index() as int),
        {
            proof {
                assert(*year == keys.unref()[it.index() as int]);
            }
            result.push(*year);
            assert(result@ =~= keys.unref().take(it.index() as int + 1));
        }
        proof {
            assert(result@ =~= keys.unref());
            assert(increasing_seq(keys));
            assert(keys.unref().to_set() == self@.dom());
            assert forall|year: i32| self@.contains_key(year) <==> result@.contains(year) by {
                if result@.contains(year) {
                    assert(result@.to_set().contains(year));
                }
                if self@.contains_key(year) {
                    assert(keys.unref().to_set().contains(year));
                }
            }
            lemma_increasing_keys(keys);
            assert(result@.no_duplicates()) by {
                assert forall|i: int, j: int| 0 <= i < result@.len() && 0 <= j < result@.len() && i != j implies result@[i]
                    != result@[j] by {
                    if i < j {
                        assert(result@[i] < result@[j]);
                    } else {
                        assert(result@[j] < result@[i]);
                    }
                }
            }
        }
        result
    }
}

/// Keys that a map of years gives in increasing order are increasing years.
proof fn lemma_increasing_keys(keys: Seq<&i32>)
    requires
        increasing_seq(keys),
    ensures
        forall|i: int, j: int| 0 <= i < j < keys.len() ==> *keys[i] < *keys[j],
{
    broadcast use vstd::laws_cmp::group_laws_cmp;

    assert(vstd::laws_cmp::obeys_cmp::<i32>());
    assert(vstd::laws_cmp::obeys_cmp::<&i32>());
    assert forall|i: int, j: int| 0 <= i < j < keys.len() implies *keys[i] < *keys[j] by {
        lemma_increasing_pair(keys, i, j);
    }
}

proof fn lemma_increasing_pair<K: Ord>(keys: Seq<K>, i: int, j: int)
    requires
        increasing_seq(keys),
        vstd::laws_cmp::obeys_cmp::<K>(),
        0 <= i < j < keys.len(),
    ensures
        keys[i].cmp_spec(&keys[j]) is Less,
{
}

} // verus!
