//! Where nonces are drawn from.

use vstd::prelude::*;

verus! {

/// A source of random nonces, with a record of what was drawn from it. Nothing
/// but a draw adds to the record.
pub struct NonceSource {
    drawn: Ghost<Seq<Seq<u8>>>,
}

impl NonceSource {
    /// The nonces drawn so far, the first first.
    pub closed spec fn drawn(self) -> Seq<Seq<u8>> {
        self.drawn@
    }

    /// A source that nothing was drawn from.
    pub(crate) fn new() -> (source: NonceSource)
        ensures
            source.drawn() == Seq::<Seq<u8>>::empty(),
    {
        NonceSource { drawn: Ghost(Seq::empty()) }
    }
}

/// Sources are alike: each draws from the generator of the thread.
impl PartialEq for NonceSource {
    fn eq(&self, _other: &NonceSource) -> (same: bool) {
        true
    }
}

impl vstd::std_specs::cmp::PartialEqSpecImpl for NonceSource {
    open spec fn obeys_eq_spec() -> bool {
        true
    }

    open spec fn eq_spec(&self, _other: &NonceSource) -> bool {
        true
    }
}

impl Eq for NonceSource {

}

} // verus!
