//! Liquids that describe themselves. Each kind of liquid is a type of its
//! own, so that liquids held behind the trait can be told apart by type.
use vstd::prelude::*;

verus! {

/// A liquid that can say what it is.
pub trait Liquid {
    /// What the liquid is called.
    spec fn liquid_name(&self) -> Seq<char>;

    /// The description of the liquid: its name.
    fn description(&self) -> (r: &str)
        ensures
            r@ == self.liquid_name(),
    ;
}

/// Water.
pub struct Water;

/// Oil.
pub struct Oil;

impl Liquid for Water {
    open spec fn liquid_name(&self) -> Seq<char> {
        "water"@
    }

    fn description(&self) -> (r: &str) {
        "water"
    }
}

impl Liquid for Oil {
    open spec fn liquid_name(&self) -> Seq<char> {
        "oil"@
    }

    fn description(&self) -> (r: &str) {
        "oil"
    }
}

} // verus!
