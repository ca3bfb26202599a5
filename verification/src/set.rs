//! A collection of fonts, grouped into families.

use vstd::prelude::*;
use crate::family::{Face, Family};

verus! {

/// A collection of fonts, grouped into families.
pub struct FontSet<F: Face> {
    families: Vec<Family<F>>,
}

impl<F: Face> FontSet<F> {
    /// The families of the set, in the order in which they were added.
    pub closed spec fn family_seq(self) -> Seq<Family<F>> {
        self.families@
    }

    /// Creates a set with no families.
    pub fn new() -> (r: FontSet<F>)
        ensures
            r.family_seq() == Seq::<Family<F>>::empty(),
    {
        FontSet { families: Vec::new() }
    }

    /// Creates a set of the given families, in their order.
    pub fn from_families(families: Vec<Family<F>>) -> (r: FontSet<F>)
        ensures
            r.family_seq() == families@,
    {
        FontSet { families }
    }

    /// The families of the set.
    pub fn families(&self) -> (r: &[Family<F>])
        ensures
            r@ == self.family_seq(),
    {
        self.families.as_slice()
    }

    /// Adds a family at the end of the set.
    pub fn push(&mut self, family: Family<F>)
        ensures
            final(self).family_seq() == old(self).family_seq().push(family),
    {
        self.families.push(family)
    }
}

} // verus!
