use crate::puzzle::{Puzzle, PuzzleV};
use vstd::hash_map::StringHashMap;
use vstd::prelude::*;

verus! {

/// The credential registry: a store mapping each answer credential to its
/// puzzle record. It offers insert-if-absent, point lookup and overwrite;
/// there is no iteration primitive.
pub struct PuzzleRegistry {
    m: StringHashMap<Puzzle>,
}

impl View for PuzzleRegistry {
    type V = Map<Seq<char>, PuzzleV>;

    closed spec fn view(&self) -> Map<Seq<char>, PuzzleV> {
        Map::new(|c: Seq<char>| self.m@.dom().contains(c), |c: Seq<char>| self.m@[c]@)
    }
}

impl PuzzleRegistry {
    pub fn new() -> (r: Self)
        ensures
            r@ == Map::<Seq<char>, PuzzleV>::empty(),
    {
        let r = PuzzleRegistry { m: StringHashMap::new() };
        proof {
            assert(r@ =~= Map::<Seq<char>, PuzzleV>::empty());
        }
        r
    }

    /// Stores `puzzle` under `credential` unless the credential is already
    /// taken; returns whether the insert happened. An existing record is
    /// never overwritten by this method.
    pub fn put_if_absent(&mut self, credential: String, puzzle: Puzzle) -> (r: bool)
        ensures
            r == !old(self)@.dom().contains(credential@),
            r ==> final(self)@ == old(self)@.insert(credential@, puzzle@),
            !r ==> *final(self) == *old(self),
    {
        if self.m.contains_key(credential.as_str()) {
            false
        } else {
            self.m.insert(credential, puzzle);
            proof {
                assert(self@ =~= old(self)@.insert(credential@, puzzle@));
            }
            true
        }
    }

    /// Looks the credential up.
    pub fn get(&self, credential: &String) -> (r: Option<&Puzzle>)
        ensures
            match r {
                Some(p) => self@.dom().contains(credential@) && p@ == self@[credential@],
                None => !self@.dom().contains(credential@),
            },
    {
        self.m.get(credential.as_str())
    }

    /// Whether the credential is taken.
    pub fn contains(&self, credential: &String) -> (r: bool)
        ensures
            r == self@.dom().contains(credential@),
    {
        self.m.contains_key(credential.as_str())
    }

    /// Unconditional overwrite; only the state machine calls this, after it
    /// has validated the transition it is recording.
    pub fn update(&mut self, credential: String, puzzle: Puzzle)
        ensures
            final(self)@ == old(self)@.insert(credential@, puzzle@),
    {
        self.m.insert(credential, puzzle);
        proof {
            assert(self@ =~= old(self)@.insert(credential@, puzzle@));
        }
    }
}

} // verus!
