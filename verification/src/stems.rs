//! A set of clip stems that can be walked in the order they were added.

use vstd::hash_set::StringHashSet;
use vstd::prelude::*;

use crate::text;

verus! {

pub struct StemSet {
    list: Vec<String>,
    set: StringHashSet,
}

impl View for StemSet {
    type V = Set<Seq<char>>;

    closed spec fn view(&self) -> Set<Seq<char>> {
        self.set@
    }
}

/// The strings of a list as a set.
pub open spec fn listed(list: Seq<String>) -> Set<Seq<char>> {
    Set::new(|s: Seq<char>| exists|i: int| 0 <= i < list.len() && #[trigger] list[i]@ == s)
}

impl StemSet {
    pub closed spec fn wf(&self) -> bool {
        &&& self.set@ == listed(self.list@)
        &&& forall|i: int, j: int|
            0 <= i < j < self.list@.len() ==> self.list@[i]@ != self.list@[j]@
    }

    /// The stems in the order they were added.
    pub closed spec fn order(&self) -> Seq<Seq<char>> {
        text::views(self.list@)
    }

    pub fn new() -> (r: StemSet)
        ensures
            r.wf(),
            r@ == Set::<Seq<char>>::empty(),
            r.order().len() == 0,
    {
        let r = StemSet { list: Vec::new(), set: StringHashSet::new() };
        assert(r.set@ =~= listed(r.list@));
        r
    }

    /// Returns false when the stem was already there.
    pub fn insert(&mut self, stem: String) -> (fresh: bool)
        requires
            old(self).wf(),
        ensures
            final(self).wf(),
            final(self)@ == old(self)@.insert(stem@),
            fresh == !old(self)@.contains(stem@),
            final(self).order() == if fresh {
                old(self).order().push(stem@)
            } else {
                old(self).order()
            },
    {
        if self.set.contains(&stem) {
            assert(self@.insert(stem@) =~= self@);
            return false;
        }
        let copy = stem.clone();
        let ghost before = self.list@;
        self.list.push(copy);
        self.set.insert(stem);
        proof {
            assert forall|s: Seq<char>| listed(self.list@).contains(s) <==> (listed(
                before,
            ).contains(s) || s == stem@) by {
                if listed(before).contains(s) {
                    let i = choose|i: int| 0 <= i < before.len() && #[trigger] before[i]@ == s;
                    assert(self.list@[i]@ == s);
                }
                if s == stem@ {
                    assert(self.list@[before.len() as int]@ == s);
                }
                if listed(self.list@).contains(s) {
                    let i = choose|i: int|
                        0 <= i < self.list@.len() && #[trigger] self.list@[i]@ == s;
                    if i < before.len() {
                        assert(before[i]@ == s);
                    }
                }
            }
            assert(self.set@ =~= listed(self.list@));
            assert(self.order() =~= old(self).order().push(stem@));
            assert forall|i: int, j: int| 0 <= i < j < self.list@.len() implies self.list@[i]@
                != self.list@[j]@ by {
                if j == before.len() {
                    assert(before[i]@ == self.list@[i]@);
                    assert(listed(before).contains(before[i]@));
                }
            }
        }
        true
    }

    pub fn contains(&self, stem: &str) -> (r: bool)
        ensures
            r == self@.contains(stem@),
    {
        self.set.contains(stem)
    }

    pub fn len(&self) -> (n: usize)
        ensures
            n == self.order().len(),
    {
        self.list.len()
    }

    pub fn is_empty(&self) -> (r: bool)
        ensures
            r == (self.order().len() == 0),
    {
        self.list.len() == 0
    }

    /// The stem that was added `i`-th.
    pub fn get(&self, i: usize) -> (stem: &String)
        requires
            i < self.order().len(),
        ensures
            stem@ == self.order()[i as int],
    {
        &self.list[i]
    }

    /// The order is as long as the set is large.
    pub proof fn lemma_len(&self)
        requires
            self.wf(),
        ensures
            self@.len() == self.order().len(),
    {
        self.lemma_order();
        self.order().unique_seq_to_set();
        assert(self.order().to_set() =~= self@);
    }

    /// What is in the set is in its order, once.
    pub proof fn lemma_order(&self)
        requires
            self.wf(),
        ensures
            forall|s: Seq<char>| self@.contains(s) <==> self.order().contains(s),
            self.order().no_duplicates(),
    {
        assert forall|s: Seq<char>| self@.contains(s) <==> self.order().contains(s) by {
            if self@.contains(s) {
                let i = choose|i: int| 0 <= i < self.list@.len() && #[trigger] self.list@[i]@ == s;
                assert(self.order()[i] == s);
            }
            if self.order().contains(s) {
                let i = choose|i: int| 0 <= i < self.order().len() && self.order()[i] == s;
                assert(self.list@[i]@ == s);
            }
        }
    }
}

} // verus!
