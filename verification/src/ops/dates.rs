//! Date extraction.

use vstd::prelude::*;
use crate::ops::MapOp;
use crate::ops::unary::UnaryKind;
use crate::result::SqlResult;
use crate::table::Column;

verus! {

/// The calendar year, in UTC, of a timestamp in seconds since the Unix
/// epoch; `None` where the calendar does not reach that far.
pub uninterp spec fn year_of_timestamp(timestamp: i64) -> Option<i64>;

/// Builds chrono's `DateTime<Utc>` with `DateTime::from_timestamp` and reads
/// its year with `Datelike::year`; the result is named by
/// [`year_of_timestamp`].
#[verifier::external_body]
pub(crate) fn year_of(timestamp: i64) -> (r: Option<i64>)
    ensures
        r == year_of_timestamp(timestamp),
{
    chrono::DateTime::from_timestamp(timestamp, 0).map(|d| i64::from(chrono::Datelike::year(&d)))
}

/// The map operator `year`: the calendar year of each date.
pub struct Year {}

impl MapOp for Year {
    fn apply(&self, arguments: &Vec<&Column>) -> (r: SqlResult<Column>)
        ensures
            UnaryKind::Year.allows(arguments@, r),
    {
        UnaryKind::Year.apply(arguments)
    }
}

} // verus!
