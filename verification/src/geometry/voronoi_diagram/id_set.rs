//! Sets of at most two identifiers.
//!
//! A vertex lies on at most two sides of the bounding region, and an edge
//! separates at most two cells, so two slots hold every set the diagram needs.

use vstd::prelude::*;

verus! {

/// A set of at most two identifiers. `n` is the number of elements; `lo` is
/// the only or the smaller element and `hi` the larger one. Slots that are
/// not in use hold 0, so that equal sets are equal values.
#[derive(Debug, Clone, Copy, PartialEq, Eq, Structural)]
pub struct IdSet {
    pub n: u8,
    pub lo: u32,
    pub hi: u32,
}

impl View for IdSet {
    type V = Set<u32>;

    open spec fn view(&self) -> Set<u32> {
        if self.n == 0 {
            Set::empty()
        } else if self.n == 1 {
            Set::empty().insert(self.lo)
        } else {
            Set::empty().insert(self.lo).insert(self.hi)
        }
    }
}

impl IdSet {
    /// The representation is the one that the set's elements determine.
    pub open spec fn wf(self) -> bool {
        &&& self.n <= 2
        &&& self.n == 0 ==> self.lo == 0 && self.hi == 0
        &&& self.n == 1 ==> self.hi == 0
        &&& self.n == 2 ==> self.lo < self.hi
    }

    /// The set is in canonical form and every element is smaller than `count`.
    pub open spec fn below(self, count: int) -> bool {
        &&& self.wf()
        &&& self.n >= 1 ==> self.lo < count
        &&& self.n >= 2 ==> self.hi < count
    }

    /// `id` is an element.
    pub open spec fn has(self, id: u32) -> bool {
        (self.n >= 1 && self.lo == id) || (self.n >= 2 && self.hi == id)
    }

    /// The empty set.
    pub open spec fn empty_spec() -> IdSet {
        IdSet { n: 0, lo: 0, hi: 0 }
    }

    /// There is room for `id`: it is an element already, or fewer than two are.
    pub open spec fn admits(self, id: u32) -> bool {
        self.has(id) || self.n < 2
    }

    /// The set with `id` added, where `self.admits(id)`.
    pub open spec fn insert_spec(self, id: u32) -> IdSet {
        if self.has(id) || self.n >= 2 {
            self
        } else if self.n == 0 {
            IdSet { n: 1, lo: id, hi: 0 }
        } else if id < self.lo {
            IdSet { n: 2, lo: id, hi: self.lo }
        } else {
            IdSet { n: 2, lo: self.lo, hi: id }
        }
    }

    /// The elements of `self` that are elements of `other` too.
    pub open spec fn intersection_spec(self, other: IdSet) -> IdSet {
        let keep_lo = self.n >= 1 && other.has(self.lo);
        let keep_hi = self.n >= 2 && other.has(self.hi);
        if keep_lo && keep_hi {
            IdSet { n: 2, lo: self.lo, hi: self.hi }
        } else if keep_lo {
            IdSet { n: 1, lo: self.lo, hi: 0 }
        } else if keep_hi {
            IdSet { n: 1, lo: self.hi, hi: 0 }
        } else {
            IdSet::empty_spec()
        }
    }

    /// The first element that is not `id`.
    pub open spec fn other_than(self, id: u32) -> Option<u32> {
        if self.n >= 1 && self.lo != id {
            Some(self.lo)
        } else if self.n >= 2 && self.hi != id {
            Some(self.hi)
        } else {
            None
        }
    }

    /// The set of the first two entries of `ids`.
    pub open spec fn from_seq(ids: Seq<u32>) -> IdSet {
        if ids.len() == 0 {
            IdSet::empty_spec()
        } else if ids.len() == 1 {
            IdSet::empty_spec().insert_spec(ids[0])
        } else {
            IdSet::empty_spec().insert_spec(ids[0]).insert_spec(ids[1])
        }
    }

    /// `has` is membership in the view.
    pub proof fn lemma_has_is_member(self, id: u32)
        requires
            self.n <= 2,
        ensures
            self.has(id) == self@.contains(id),
    {
    }

    /// Two sets in canonical form with the same elements are the same value.
    pub proof fn lemma_canonical(self, other: IdSet)
        requires
            self.wf(),
            other.wf(),
            self@ == other@,
        ensures
            self == other,
    {
        assert(self.n >= 1 ==> self@.contains(self.lo));
        assert(self.n >= 2 ==> self@.contains(self.hi));
        assert(other.n >= 1 ==> other@.contains(other.lo));
        assert(other.n >= 2 ==> other@.contains(other.hi));
        if self.n == 0 {
            assert(!other@.contains(other.lo));
        }
        if other.n == 0 {
            assert(!self@.contains(self.lo));
        }
    }

    /// Inserting adds the element to the view and keeps the canonical form.
    pub proof fn lemma_insert(self, id: u32)
        requires
            self.wf(),
            self.admits(id),
        ensures
            self.insert_spec(id).wf(),
            self.insert_spec(id)@ == self@.insert(id),
            self.insert_spec(id).has(id),
    {
        assert(self.insert_spec(id)@ =~= self@.insert(id));
    }

    /// The intersection's view is the intersection of the views.
    pub proof fn lemma_intersection(self, other: IdSet)
        requires
            self.wf(),
            other.n <= 2,
        ensures
            self.intersection_spec(other).wf(),
            self.intersection_spec(other)@ == self@.intersect(other@),
    {
        assert(self.intersection_spec(other)@ =~= self@.intersect(other@));
    }

    /// The empty set.
    pub fn new() -> (s: IdSet)
        ensures
            s == IdSet::empty_spec(),
            s.wf(),
            s@ == Set::<u32>::empty(),
    {
        IdSet { n: 0, lo: 0, hi: 0 }
    }

    /// The set of the identifiers in `ids`, of which there are at most two.
    pub fn from_vec(ids: &Vec<u32>) -> (s: IdSet)
        requires
            ids.len() <= 2,
        ensures
            s == IdSet::from_seq(ids@),
            s.wf(),
            s@ == ids@.to_set(),
    {
        let mut s = IdSet::new();
        if ids.len() >= 1 {
            proof {
                s.lemma_insert(ids[0]);
            }
            s.insert(ids[0]);
        }
        if ids.len() >= 2 {
            proof {
                s.lemma_insert(ids[1]);
            }
            s.insert(ids[1]);
        }
        proof {
            assert forall|id: u32| s@.contains(id) == ids@.to_set().contains(id) by {
                if ids.len() >= 1 && ids[0] == id {
                    assert(ids@.contains(id));
                }
                if ids.len() >= 2 && ids[1] == id {
                    assert(ids@.contains(id));
                }
            }
            assert(s@ =~= ids@.to_set());
        }
        s
    }

    /// The number of elements.
    pub fn len(&self) -> (n: usize)
        ensures
            n == self.n,
    {
        self.n as usize
    }

    /// Whether the set has no element.
    pub fn is_empty(&self) -> (b: bool)
        ensures
            b == (self.n == 0),
    {
        self.n == 0
    }

    /// Whether `id` is an element.
    pub fn contains(&self, id: u32) -> (b: bool)
        ensures
            b == self.has(id),
    {
        (self.n >= 1 && self.lo == id) || (self.n >= 2 && self.hi == id)
    }

    /// Adds `id`. Returns whether it was new.
    pub fn insert(&mut self, id: u32) -> (added: bool)
        requires
            old(self).admits(id),
        ensures
            *final(self) == old(self).insert_spec(id),
            added == !old(self).has(id),
            final(self).has(id),
    {
        if self.contains(id) {
            false
        } else {
            if self.n == 0 {
                self.n = 1;
                self.lo = id;
                self.hi = 0;
            } else if id < self.lo {
                self.n = 2;
                self.hi = self.lo;
                self.lo = id;
            } else {
                self.n = 2;
                self.hi = id;
            }
            true
        }
    }

    /// The elements that `self` and `other` share.
    pub fn intersection(&self, other: &IdSet) -> (s: IdSet)
        ensures
            s == self.intersection_spec(*other),
    {
        let keep_lo: bool = self.n >= 1 && other.contains(self.lo);
        let keep_hi: bool = self.n >= 2 && other.contains(self.hi);
        if keep_lo && keep_hi {
            IdSet { n: 2, lo: self.lo, hi: self.hi }
        } else if keep_lo {
            IdSet { n: 1, lo: self.lo, hi: 0 }
        } else if keep_hi {
            IdSet { n: 1, lo: self.hi, hi: 0 }
        } else {
            IdSet::new()
        }
    }

    /// The first element that is not `id`, if there is one.
    pub fn another(&self, id: u32) -> (r: Option<u32>)
        ensures
            r == self.other_than(id),
    {
        if self.n >= 1 && self.lo != id {
            Some(self.lo)
        } else if self.n >= 2 && self.hi != id {
            Some(self.hi)
        } else {
            None
        }
    }
}

} // verus!
