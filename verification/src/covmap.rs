//! The result of a coverage measurement: for each variable name, the
//! ordered set of intervals over which the variable has a location.

use vstd::prelude::*;
use crate::interval::{ascending, Interval};
use crate::text::bytes_eq;

verus! {

/// A map from variable names to ordered sets of intervals.
#[derive(Clone, Debug)]
pub struct CoverageMap {
    names: Vec<Vec<u8>>,
    sets: Vec<Vec<Interval>>,
}

impl CoverageMap {
    /// The names stand in one-to-one relation with the sets, no name
    /// occurs twice, and every set is in strictly ascending order.
    pub closed spec fn wf(&self) -> bool {
        &&& self.names@.len() == self.sets@.len()
        &&& forall|i: int, j: int|
            0 <= i < j < self.names@.len() ==> self.names@[i]@ != self.names@[j]@
        &&& forall|i: int| 0 <= i < self.sets@.len() ==> ascending(#[trigger] self.sets@[i]@)
    }

    /// The number of variables.
    pub closed spec fn spec_len(&self) -> nat {
        self.names@.len()
    }

    /// The name of the variable at position `i`.
    pub closed spec fn name_at(&self, i: int) -> Seq<u8> {
        self.names@[i]@
    }

    /// The intervals of the variable at position `i`.
    pub closed spec fn set_at(&self, i: int) -> Seq<Interval> {
        self.sets@[i]@
    }

    /// Whether the map has a variable called `name`.
    pub open spec fn has(&self, name: Seq<u8>) -> bool {
        exists|i: int| 0 <= i < self.spec_len() && self.name_at(i) == name
    }

    /// The position of the variable called `name`.
    pub open spec fn position(&self, name: Seq<u8>) -> int {
        choose|i: int| 0 <= i < self.spec_len() && self.name_at(i) == name
    }

    /// No name occurs at two positions.
    pub proof fn names_differ(&self, i: int, j: int)
        requires
            self.wf(),
            0 <= i < self.spec_len(),
            0 <= j < self.spec_len(),
            self.name_at(i) == self.name_at(j),
        ensures
            i == j,
    {
        if i < j {
            assert(self.names@[i]@ != self.names@[j]@);
        } else if j < i {
            assert(self.names@[j]@ != self.names@[i]@);
        }
    }

    /// Every set of a well-formed map is in strictly ascending order.
    pub proof fn sets_ascend(&self, i: int)
        requires
            self.wf(),
            0 <= i < self.spec_len(),
        ensures
            ascending(self.set_at(i)),
    {
    }

    /// A map without variables.
    pub fn new() -> (map: CoverageMap)
        ensures
            map.wf(),
            map.spec_len() == 0,
            map@ == Map::<Seq<u8>, Seq<Interval>>::empty(),
    {
        let map = CoverageMap { names: Vec::new(), sets: Vec::new() };
        assert(map@ =~= Map::<Seq<u8>, Seq<Interval>>::empty());
        map
    }

    /// The number of variables.
    pub fn len(&self) -> (n: usize)
        requires
            self.wf(),
        ensures
            n == self.spec_len(),
    {
        self.names.len()
    }

    /// The name of the variable at position `i`.
    pub fn name(&self, i: usize) -> (name: &Vec<u8>)
        requires
            self.wf(),
            i < self.spec_len(),
        ensures
            name@ == self.name_at(i as int),
            self@.dom().contains(name@),
    {
        assert(self.name_at(i as int) == self.names@[i as int]@);
        assert(self.has(self.name_at(i as int)));
        &self.names[i]
    }

    /// The intervals of the variable at position `i`.
    pub fn intervals(&self, i: usize) -> (set: &Vec<Interval>)
        requires
            self.wf(),
            i < self.spec_len(),
        ensures
            set@ == self.set_at(i as int),
            set@ == self@[self.name_at(i as int)],
            ascending(set@),
    {
        proof {
            self.names_differ(i as int, self.position(self.name_at(i as int)));
        }
        &self.sets[i]
    }

    /// The position of the variable called `name`, if there is one.
    pub fn find(&self, name: &[u8]) -> (r: Option<usize>)
        requires
            self.wf(),
        ensures
            r.is_some() == self.has(name@),
            r matches Some(i) ==> i < self.spec_len() && self.name_at(i as int) == name@,
    {
        let mut i: usize = 0;
        while i < self.names.len()
            invariant
                i <= self.names.len(),
                forall|k: int| 0 <= k < i ==> self.names@[k]@ != name@,
            decreases self.names.len() - i,
        {
            if bytes_eq(self.names[i].as_slice(), name) {
                assert(self.name_at(i as int) == name@);
                return Some(i);
            }
            i += 1;
        }
        assert forall|k: int| 0 <= k < self.spec_len() implies self.name_at(k) != name@ by {
            assert(self.names@[k]@ != name@);
        }
        None
    }

    /// The intervals of the variable called `name`, if there is one.
    pub fn get(&self, name: &[u8]) -> (r: Option<&Vec<Interval>>)
        requires
            self.wf(),
        ensures
            r.is_some() == self@.dom().contains(name@),
            r matches Some(set) ==> set@ == self@[name@] && ascending(set@),
    {
        match self.find(name) {
            Some(i) => Some(self.intervals(i)),
            None => None,
        }
    }

    /// Sets the intervals of the variable called `name`. A variable that the
    /// map has keeps its position; a new one is added behind the others.
    pub fn insert(&mut self, name: Vec<u8>, set: Vec<Interval>)
        requires
            old(self).wf(),
            ascending(set@),
        ensures
            final(self).wf(),
            final(self)@ == old(self)@.insert(name@, set@),
            final(self).spec_len() == old(self).spec_len() + (if old(self).has(name@) {
                0nat
            } else {
                1nat
            }),
            final(self).has(name@) && final(self).set_at(final(self).position(name@)) == set@,
            !old(self).has(name@) ==> final(self).position(name@) == old(self).spec_len(),
            forall|i: int|
                0 <= i < old(self).spec_len() ==> #[trigger] final(self).name_at(i) == old(
                    self,
                ).name_at(i),
            forall|i: int|
                0 <= i < old(self).spec_len() && old(self).name_at(i) != name@
                    ==> #[trigger] final(self).set_at(i) == old(self).set_at(i),
    {
        match self.find(name.as_slice()) {
            Some(i) => {
                self.sets.set(i, set);
                proof {
                    let before = *old(self);
                    let after = *self;
                    assert(after.names@ == before.names@);
                    assert forall|k: int| 0 <= k < after.sets@.len() implies ascending(
                        #[trigger] after.sets@[k]@,
                    ) by {
                        if k != i {
                            assert(after.sets@[k] == before.sets@[k]);
                        }
                    }
                    assert(after.wf());
                    assert forall|k: Seq<u8>| after.has(k) == before.has(k) by {
                        if before.has(k) {
                            let p = before.position(k);
                            assert(after.name_at(p) == k);
                        }
                        if after.has(k) {
                            let p = after.position(k);
                            assert(before.name_at(p) == k);
                        }
                    }
                    assert forall|k: Seq<u8>| after.has(k) implies #[trigger] after@[k]
                        == before@.insert(name@, set@)[k] by {
                        let p = after.position(k);
                        let q = before.position(k);
                        assert(before.name_at(p) == k);
                        before.names_differ(p, q);
                        if k == name@ {
                            before.names_differ(p, i as int);
                        }
                    }
                    assert(after@ =~= before@.insert(name@, set@));
                    assert(after.name_at(i as int) == name@);
                    after.names_differ(i as int, after.position(name@));
                }
            },
            None => {
                self.names.push(name);
                self.sets.push(set);
                proof {
                    let before = *old(self);
                    let after = *self;
                    let n = before.names@.len() as int;
                    assert(!before.has(name@));
                    assert forall|a: int, b: int|
                        0 <= a < b < after.names@.len() implies after.names@[a]@
                        != after.names@[b]@ by {
                        if b == n {
                            assert(before.name_at(a) == after.names@[a]@);
                        } else {
                            assert(before.names@[a]@ != before.names@[b]@);
                        }
                    }
                    assert forall|k: int| 0 <= k < after.sets@.len() implies ascending(
                        #[trigger] after.sets@[k]@,
                    ) by {
                        if k < n {
                            assert(after.sets@[k] == before.sets@[k]);
                        }
                    }
                    assert(after.wf());
                    assert forall|k: Seq<u8>| after.has(k) == (before.has(k) || k == name@) by {
                        if before.has(k) {
                            let p = before.position(k);
                            assert(after.name_at(p) == k);
                        }
                        if k == name@ {
                            assert(after.name_at(n) == k);
                        }
                        if after.has(k) {
                            let p = after.position(k);
                            if p < n {
                                assert(before.name_at(p) == k);
                            }
                        }
                    }
                    assert forall|k: Seq<u8>| after.has(k) implies #[trigger] after@[k]
                        == before@.insert(name@, set@)[k] by {
                        let p = after.position(k);
                        if k == name@ {
                            after.names_differ(p, n);
                        } else {
                            assert(before.name_at(p) == k);
                            let q = before.position(k);
                            before.names_differ(p, q);
                        }
                    }
                    assert(after@ =~= before@.insert(name@, set@));
                    assert(after.name_at(n) == name@);
                    after.names_differ(n, after.position(name@));
                }
            },
        }
    }
}

impl View for CoverageMap {
    type V = Map<Seq<u8>, Seq<Interval>>;

    /// The map from each name to its intervals.
    open spec fn view(&self) -> Map<Seq<u8>, Seq<Interval>> {
        Map::new(|name: Seq<u8>| self.has(name), |name: Seq<u8>| self.set_at(self.position(name)))
    }
}

} // verus!
