//! The ways in which computing or parsing a cost report can fail.

use vstd::prelude::*;

verus! {

/// Why a date, a response or a cost could not be turned into a report.
#[derive(Clone, Copy, Debug, PartialEq, Eq, Structural)]
pub enum ReportError {
    /// A calendar date or instant outside what can be represented.
    InvalidDate,
    /// A time zone name that the time zone database does not know.
    InvalidTimezone,
    /// A period bound that is not a `YYYY-MM-DD` date.
    InvalidTimestamp,
    /// A section of the response that the report needs is absent.
    MissingField,
    /// A cost amount that is not a decimal number.
    MalformedCost,
}

} // verus!
