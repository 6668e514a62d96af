//! Validation of the caller-supplied start and end dates.

use vstd::prelude::*;

use crate::date::{date_le, day_number, Date};
use crate::parse::{parse_date, parsed_date, valid_date_chars};

verus! {

/// Why a supplied pair of date strings was rejected.
#[derive(Clone, Copy, PartialEq, Eq, Structural, Debug)]
pub enum ValidationError {
    /// The start string is not a calendar-correct `YYYY-MM-DD` date.
    InvalidStartDate,
    /// The end string is not a calendar-correct `YYYY-MM-DD` date.
    InvalidEndDate,
    /// Both dates parse, but the end date lies before the start date.
    EndBeforeStart,
}

/// An inclusive, validated date range: both endpoints are well-formed and
/// the start is on or before the end.
#[derive(Clone, Copy, PartialEq, Eq, Structural, Debug)]
pub struct DateRange {
    pub start: Date,
    pub end: Date,
}

impl DateRange {
    pub open spec fn wf(self) -> bool {
        self.start.wf() && self.end.wf() && day_number(self.start) <= day_number(self.end)
    }

    /// Runtime check of [`DateRange::wf`], for callers outside verified code.
    pub fn is_well_formed(&self) -> (r: bool)
        ensures
            r == self.wf(),
    {
        self.start.is_well_formed() && self.end.is_well_formed() && date_le(&self.start, &self.end)
    }
}

/// Parses and validates a start/end date pair.
///
/// Fails with `InvalidStartDate` exactly when the start string is malformed,
/// with `InvalidEndDate` exactly when the start is fine but the end string is
/// malformed, and with `EndBeforeStart` exactly when both parse but the end
/// date is chronologically before the start date. Otherwise it succeeds and
/// returns the validated range carrying both parsed dates.
pub fn validate_supplied_date(start_date: &str, end_date: &str) -> (r: Result<
    DateRange,
    ValidationError,
>)
    ensures
        r == Err::<DateRange, _>(ValidationError::InvalidStartDate) <==> !valid_date_chars(
            start_date@,
        ),
        r == Err::<DateRange, _>(ValidationError::InvalidEndDate) <==> valid_date_chars(start_date@)
            && !valid_date_chars(end_date@),
        r == Err::<DateRange, _>(ValidationError::EndBeforeStart) <==> valid_date_chars(start_date@)
            && valid_date_chars(end_date@) && day_number(parsed_date(end_date@)) < day_number(
            parsed_date(start_date@),
        ),
        r is Ok <==> valid_date_chars(start_date@) && valid_date_chars(end_date@) && day_number(
            parsed_date(start_date@),
        ) <= day_number(parsed_date(end_date@)),
        r matches Ok(range) ==> range.wf() && range.start == parsed_date(start_date@) && range.end
            == parsed_date(end_date@),
{
    match parse_date(start_date) {
        None => Err(ValidationError::InvalidStartDate),
        Some(start) => match parse_date(end_date) {
            None => Err(ValidationError::InvalidEndDate),
            Some(end) => {
                if date_le(&start, &end) {
                    Ok(DateRange { start, end })
                } else {
                    Err(ValidationError::EndBeforeStart)
                }
            },
        },
    }
}

} // verus!
