//! A set of names, kept in strictly increasing lexicographic order.

use vstd::prelude::*;

use crate::smap::SortedMap;

verus! {

/// A deduplicated set of names with deterministic, lexicographic
/// enumeration order.
#[derive(Clone, Debug, PartialEq, Default)]
pub struct StringSet {
    /// The member names, as keys of a sorted map.
    pub items: SortedMap<()>,
}

impl StringSet {
    /// The member names, in increasing order.
    pub open spec fn view_names(&self) -> Seq<Seq<char>> {
        self.items.key_seq()
    }

    /// Whether `k` is a member.
    pub open spec fn spec_contains(&self, k: Seq<char>) -> bool {
        self.items.contains_key(k)
    }

    /// Members are strictly increasing.
    pub open spec fn wf(&self) -> bool {
        self.items.wf()
    }

    /// The empty set.
    pub fn new() -> (r: Self)
        ensures
            r.view_names() =~= Seq::<Seq<char>>::empty(),
            r.wf(),
            forall|k: Seq<char>| !r.spec_contains(k),
    {
        let r = StringSet { items: SortedMap::new() };
        proof {
            assert forall|k: Seq<char>| !r.spec_contains(k) by {
                crate::smap::lemma_get_from_exists(r.items.view_seq(), k);
            }
        }
        r
    }

    /// The number of members.
    pub fn len(&self) -> (r: usize)
        ensures
            r == self.view_names().len(),
    {
        self.items.len()
    }

    /// The member at position `i`.
    pub fn name_at(&self, i: usize) -> (r: &String)
        requires
            i < self.view_names().len(),
        ensures
            r@ == self.view_names()[i as int],
    {
        self.items.key_at(i)
    }

    /// Whether `name` is a member.
    pub fn contains(&self, name: &str) -> (r: bool)
        ensures
            r == self.spec_contains(name@),
    {
        match self.items.index_of(name) {
            Some(_) => true,
            None => false,
        }
    }

    /// Add a member; adding an existing member changes nothing.
    pub fn insert(&mut self, name: String)
        requires
            old(self).wf(),
        ensures
            final(self).wf(),
            forall|k: Seq<char>|
                #[trigger] final(self).spec_contains(k) <==> old(self).spec_contains(k) || k
                    == name@,
    {
        match self.items.index_of(name.as_str()) {
            Some(_) => {},
            None => self.items.put(name, ()),
        }
    }

    /// A member occupies exactly one position.
    pub proof fn lemma_member_unique(&self, i: int, j: int)
        requires
            self.wf(),
            0 <= i < j < self.view_names().len(),
        ensures
            self.view_names()[i] != self.view_names()[j],
    {
        crate::smap::lemma_sorted_distinct(self.items.view_seq(), j);
    }

    /// Every position holds a member; every member holds a position.
    pub proof fn lemma_member_at(&self, i: int)
        requires
            self.wf(),
            0 <= i < self.view_names().len(),
        ensures
            self.spec_contains(self.view_names()[i]),
    {
        self.items.lemma_get_at_index(i);
    }

    /// A member is found at some position.
    pub proof fn lemma_contains_position(&self, k: Seq<char>)
        requires
            self.spec_contains(k),
        ensures
            exists|i: int| 0 <= i < self.view_names().len() && self.view_names()[i] == k,
    {
        crate::smap::lemma_get_from_exists(self.items.view_seq(), k);
        let i = choose|i: int|
            0 <= i < self.items.view_seq().len() && self.items.view_seq()[i].0@ == k;
        assert(self.view_names()[i] == k);
    }
}

} // verus!
