use vstd::prelude::*;

verus! {

/// The unsolved index: the answer credentials whose puzzle still awaits a
/// solver, kept in insertion order. It exists for enumeration and display
/// only; the claim protocol never looks puzzles up through it.
pub struct UnsolvedIndex {
    v: Vec<String>,
}

impl View for UnsolvedIndex {
    type V = Seq<Seq<char>>;

    closed spec fn view(&self) -> Seq<Seq<char>> {
        self.v.deep_view()
    }
}

impl UnsolvedIndex {
    pub fn new() -> (r: Self)
        ensures
            r@ == Seq::<Seq<char>>::empty(),
    {
        let r = UnsolvedIndex { v: Vec::new() };
        proof {
            assert(r@ =~= Seq::<Seq<char>>::empty());
        }
        r
    }

    /// Appends a credential; the caller keeps entries distinct.
    pub fn add(&mut self, credential: String)
        ensures
            final(self)@ == old(self)@.push(credential@),
    {
        self.v.push(credential);
        proof {
            assert(self@ =~= old(self)@.push(credential@));
        }
    }

    /// Removes the first entry equal to `credential`, if any.
    pub fn remove(&mut self, credential: &String)
        ensures
            final(self)@ == old(self)@.remove_value(credential@),
    {
        let mut i: usize = 0;
        while i < self.v.len()
            invariant
                0 <= i <= self.v.len(),
                forall|j: int| 0 <= j < i ==> self.v.deep_view()[j] != credential@,
                self.v.deep_view() == old(self)@,
            decreases self.v.len() - i,
        {
            if self.v[i] == *credential {
                proof {
                    assert(self.v.deep_view()[i as int] == self.v@[i as int]@);
                    assert(old(self)@[i as int] == credential@);
                    old(self)@.index_of_first_ensures(credential@);
                    match old(self)@.index_of_first(credential@) {
                        Some(k) => {
                            assert(old(self)@[k] == credential@);
                            assert(k == i as int);
                        },
                        None => {
                            assert(old(self)@[i as int] == credential@);
                            assert(false);
                        },
                    }
                }
                self.v.remove(i);
                proof {
                    old(self)@.remove_ensures(i as int);
                    assert(self@.len() == old(self)@.remove(i as int).len());
                    assert forall|j: int| 0 <= j < self.v@.len() implies self.v.deep_view()[j]
                        == old(self)@.remove(i as int)[j] by {
                        assert(self.v.deep_view()[j] == self.v@[j]@);
                    }
                    assert(self@ =~= old(self)@.remove(i as int));
                    assert(old(self)@.index_of_first(credential@) == Some(i as int));
                    assert(old(self)@.remove_value(credential@) == old(self)@.remove(i as int));
                    assert(self@ == old(self)@.remove_value(credential@));
                }
                return ;
            }
            i += 1;
        }
        proof {
            assert(!old(self)@.contains(credential@));
            old(self)@.index_of_first_ensures(credential@);
            assert(old(self)@.index_of_first(credential@) is None);
            assert(self@ == old(self)@.remove_value(credential@));
        }
    }

    pub fn len(&self) -> (r: usize)
        ensures
            r == self@.len(),
    {
        self.v.len()
    }

    /// The credential at position `i` of the snapshot order.
    pub fn get(&self, i: usize) -> (r: &String)
        requires
            i < self@.len(),
        ensures
            r@ == self@[i as int],
    {
        &self.v[i]
    }
}

} // verus!
