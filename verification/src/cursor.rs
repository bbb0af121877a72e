//! A code-pair cursor with one element of look-ahead.
//!
//! Section handlers must be able to look at the next tagged value and hand it
//! back when it belongs to the enclosing context (a terminating marker, for
//! instance).  The cursor owns the sequence of pairs and a single push-back
//! slot; pushing back a second pair before the first is consumed is a
//! programming error and is ruled out by contract.

use vstd::prelude::*;
use crate::code_pair::{pairs_view, CodePair, SpecPair};

verus! {

/// A cursor over a sequence of tagged values with a one-slot push-back
/// buffer.  The pairs still to come are held in reverse, so that taking the
/// next one is a pop.
pub struct CodePairCursor {
    rev_pairs: Vec<CodePair>,
    slot: Option<CodePair>,
}

impl View for CodePairCursor {
    type V = Seq<SpecPair>;

    /// The pairs still to be consumed, the pushed-back pair first.
    closed spec fn view(&self) -> Seq<SpecPair> {
        let tail = pairs_view(self.rev_pairs@).reverse();
        match self.slot {
            Some(p) => seq![p@] + tail,
            None => tail,
        }
    }
}

impl CodePairCursor {
    /// True when the push-back slot is free.
    pub closed spec fn can_put_back(&self) -> bool {
        self.slot is None
    }

    /// Builds a cursor over the given pairs.
    pub fn new(mut pairs: Vec<CodePair>) -> (r: CodePairCursor)
        ensures
            r@ == pairs_view(pairs@),
            r.can_put_back(),
    {
        let ghost orig = pairs@;
        let mut rev_pairs: Vec<CodePair> = Vec::new();
        proof {
            assert(pairs_view(rev_pairs@) =~= pairs_view(orig).skip(pairs@.len() as int).reverse());
        }
        while pairs.len() > 0
            invariant
                pairs@.len() <= orig.len(),
                pairs@ == orig.subrange(0, pairs@.len() as int),
                pairs_view(rev_pairs@) == pairs_view(orig).skip(pairs@.len() as int).reverse(),
            decreases pairs@.len(),
        {
            let ghost m = pairs@.len() as int;
            let ghost rv0 = pairs_view(rev_pairs@);
            let p = pairs.pop().unwrap();
            rev_pairs.push(p);
            proof {
                assert(p@ == pairs_view(orig)[m - 1]);
                assert(pairs_view(rev_pairs@) =~= rv0.push(p@));
                assert(rv0.push(p@) =~= pairs_view(orig).skip(m - 1).reverse());
                assert(pairs@ =~= orig.subrange(0, pairs@.len() as int));
            }
        }
        let r = CodePairCursor { rev_pairs, slot: None };
        proof {
            assert(pairs_view(orig).skip(0) =~= pairs_view(orig));
            assert(pairs_view(rev_pairs@) == pairs_view(orig).reverse());
            assert(r@ =~= pairs_view(orig));
        }
        r
    }

    /// Takes the next pair: the pushed-back one if present, else the first
    /// pair still to come.
    pub fn next(&mut self) -> (r: Option<CodePair>)
        ensures
            old(self)@.len() == 0 ==> r is None && final(self)@ == old(self)@,
            old(self)@.len() > 0 ==> {
                &&& r matches Some(p) && p@ == old(self)@[0]
                &&& final(self)@ == old(self)@.skip(1)
            },
            final(self).can_put_back(),
    {
        let taken = self.slot.take();
        match taken {
            Some(p) => {
                proof {
                    assert(self@ =~= old(self)@.skip(1));
                }
                Some(p)
            },
            None => {
                let ghost n = self.rev_pairs@.len() as int;
                match self.rev_pairs.pop() {
                    Some(p) => {
                        proof {
                            assert(p@ == pairs_view(old(self).rev_pairs@).reverse()[0]);
                            assert(self@ =~= old(self)@.skip(1));
                        }
                        Some(p)
                    },
                    None => {
                        proof {
                            assert(self@ =~= old(self)@);
                        }
                        None
                    },
                }
            },
        }
    }

    /// Returns a pair to the front of the stream.  At most one pair may be
    /// pending at any time.
    pub fn put_back(&mut self, pair: CodePair)
        requires
            old(self).can_put_back(),
        ensures
            final(self)@ == seq![pair@] + old(self)@,
            !final(self).can_put_back(),
    {
        self.slot = Some(pair);
        proof {
            assert(self@ =~= seq![pair@] + old(self)@);
        }
    }
}

} // verus!
