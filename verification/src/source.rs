//! Single-consumer sources of fallible item yields.
//!
//! A [`Source`] hands out one `Result<Item, Error>` at a time and cannot be
//! rewound: consumed yields are gone. Its behaviour is specified against
//! [`Source::remaining`], the sequence of yields it will still produce.
//! [`VecSource`] is the in-memory implementation; pagination over a live
//! driver stream runs the same decisions outside the verified library,
//! since pulling from such a stream suspends on network work.

use vstd::prelude::*;

verus! {

/// A lazy, single-consumer sequence of fallible yields.
pub trait Source: Sized {
    /// The type of the items the source produces.
    type Item;

    /// The type of the per-yield failures the source reports.
    type Error;

    /// The yields this source will still produce, in order.
    spec fn remaining(&self) -> Seq<Result<Self::Item, Self::Error>>;

    /// A source never holds more yields than a buffer could.
    proof fn lemma_remaining_bounded(&self)
        ensures
            self.remaining().len() <= usize::MAX,
    ;

    /// Produces the next yield, or `None` once the source is exhausted.
    fn next(&mut self) -> (r: Option<Result<Self::Item, Self::Error>>)
        ensures
            old(self).remaining().len() == 0 ==> r is None
                && final(self).remaining() == old(self).remaining(),
            old(self).remaining().len() > 0 ==> r == Some(old(self).remaining()[0])
                && final(self).remaining() == old(self).remaining().skip(1),
    ;
}

/// An in-memory [`Source`] that yields a fixed sequence of results.
///
/// The yields are stored in reverse, so that producing the next one is a
/// pop from the back.
pub struct VecSource<E, F> {
    rev_entries: Vec<Result<E, F>>,
}

impl<E, F> VecSource<E, F> {
    /// Wraps `entries` as a source that yields them in order.
    pub fn new(mut entries: Vec<Result<E, F>>) -> (r: Self)
        ensures
            r.remaining() == entries@,
    {
        let ghost given = entries@;
        let mut rev: Vec<Result<E, F>> = Vec::new();
        while entries.len() > 0
            invariant
                given == entries@ + rev@.reverse(),
            decreases entries.len(),
        {
            let ghost pre_rev = rev@;
            let ghost pre_entries = entries@;
            let last = entries.pop().unwrap();
            rev.push(last);
            proof {
                assert(rev@.reverse() =~= seq![pre_entries.last()] + pre_rev.reverse());
                assert(given =~= entries@ + rev@.reverse());
            }
        }
        proof {
            assert(rev@.reverse() =~= given);
        }
        VecSource { rev_entries: rev }
    }
}

impl<E, F> Source for VecSource<E, F> {
    type Item = E;

    type Error = F;

    closed spec fn remaining(&self) -> Seq<Result<E, F>> {
        self.rev_entries@.reverse()
    }

    proof fn lemma_remaining_bounded(&self) {
        assert(self.rev_entries@.len() == vstd::std_specs::vec::spec_vec_len(&self.rev_entries))
            by {
            vstd::std_specs::vec::axiom_spec_len(&self.rev_entries);
        }
    }

    fn next(&mut self) -> (r: Option<Result<E, F>>) {
        let ghost pre = self.rev_entries@;
        let popped = self.rev_entries.pop();
        proof {
            if pre.len() > 0 {
                assert(self.rev_entries@.reverse() =~= pre.reverse().skip(1));
            } else {
                assert(self.rev_entries@.reverse() =~= pre.reverse());
            }
        }
        popped
    }
}

} // verus!
