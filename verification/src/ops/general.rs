//! Reducers that take a column of any type.

use vstd::prelude::*;
use crate::ops::ReduceOp;
use crate::ops::math::ReduceKind;
use crate::result::{ErrorType, SqlError, SqlResult};
use crate::table::Column;

verus! {

/// The reduce operator `count`: the number of entries, nulls included.
pub struct Count {}

/// The number of distinct values. The registry does not offer it, and
/// reducing with it is a `Runtime` error.
pub struct Distinct {}

impl ReduceOp for Count {
    fn reduce(&self, argument: &Column) -> (r: SqlResult<Column>)
        ensures
            ReduceKind::Count.allows(*argument, r),
    {
        Ok(ReduceKind::count(argument))
    }
}

impl ReduceOp for Distinct {
    fn reduce(&self, argument: &Column) -> (r: SqlResult<Column>)
        ensures
            r is Err && r->Err_0.type_ == ErrorType::Runtime,
    {
        Err(SqlError::new("distinct is not offered as a reducer", ErrorType::Runtime))
    }
}

} // verus!
