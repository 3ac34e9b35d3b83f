//! Calendar dates carried by tasks.
//!
//! The core stores a due date as a plain year-month-day triple and never
//! computes with it; interpreting keywords such as "today" and checking
//! against a real calendar is the job of the surrounding command layer,
//! which hands the core an already-validated date or none.

use vstd::prelude::*;

verus! {

/// A calendar date with no time component, stored as `YYYY-MM-DD`.
#[derive(Clone, Copy, PartialEq, Eq, Structural, Debug)]
pub struct Date {
    pub year: u32,
    pub month: u32,
    pub day: u32,
}

impl Date {
    /// A date the core accepts: one that fits the `YYYY-MM-DD` form.
    pub open spec fn valid(self) -> bool {
        &&& self.year <= 9999
        &&& 1 <= self.month <= 12
        &&& 1 <= self.day <= 31
    }

    /// Builds a date when the fields fit the `YYYY-MM-DD` form.
    pub fn from_ymd(year: u32, month: u32, day: u32) -> (r: Option<Date>)
        ensures
            match r {
                Some(d) => d == (Date { year, month, day }) && d.valid(),
                None => !(Date { year, month, day }).valid(),
            },
    {
        if year <= 9999 && 1 <= month && month <= 12 && 1 <= day && day <= 31 {
            Some(Date { year, month, day })
        } else {
            None
        }
    }
}

} // verus!
