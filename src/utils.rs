pub mod bounded_bit_vec;

use vstd::prelude::*;

verus! {

/// A share of a whole, read as a whole percentage rounded down.
pub trait ToPercent {
    /// The share in percent, rounded down.
    spec fn percent(&self) -> nat;

    fn to_percent(&self) -> (r: u8)
        ensures
            r as nat == self.percent(),
            r <= 100,
    ;
}

} // verus!
