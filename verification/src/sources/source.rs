use vstd::prelude::*;

use crate::food::Food;
use crate::sources::bam::RowError;

verus! {

/// Why a source could produce no records at all (its resource was gone or
/// unreadable before the first row).
#[derive(Debug, PartialEq, Eq)]
pub enum SourceError {
    Unavailable { detail: String },
}

/// The one capability a dataset adapter offers: produce the food records of
/// its dataset, each row's outcome reported on its own, so one malformed row
/// never hides the rows around it. The whole call fails only when the
/// underlying resource is unavailable.
pub trait Source {
    fn load_foods(&self) -> Result<Vec<Result<Food, RowError>>, SourceError>;
}

} // verus!
