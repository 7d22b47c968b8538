//! What can be asked of a record with performance statistics.

use vstd::prelude::*;

verus! {

/// The two threshold tests on a record's statistics.
pub trait FilterValidation {
    /// A candidate for removal.
    fn is_low_performing(&self) -> bool;

    /// A candidate for promotion.
    fn is_valid(&self) -> bool;
}

/// The ranking value of a record, in ten-thousandths of a point.
pub trait FilterScoring {
    fn get_score(&self) -> i64;
}

} // verus!
