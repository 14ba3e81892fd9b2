//! The verifiable parts of the Monte-Carlo tree search opponent: the
//! expansion policy interface and its Santorini instantiation, together with
//! the semi-greedy random playouts.

pub mod santorini;

use vstd::prelude::*;

verus! {

/// An expansion policy: yields the child states of a search state.
pub trait Expansion<T> {
    /// The states the policy may be asked about.
    spec fn pre(&self, state: T) -> bool;

    /// The child states, as specification.
    spec fn spec_expand(&self, state: T) -> Seq<T>;

    fn expand(&self, state: &T) -> (r: Vec<T>)
        requires
            self.pre(*state),
        ensures
            r@ == self.spec_expand(*state),
    ;
}

} // verus!
