//! Generation of the inclusive daily sequence between two dates.

use vstd::prelude::*;

use crate::date::{date_le, day_number, next_day, Date};

verus! {

/// The inclusive daily sequence from `start` to `end`.
///
/// For a valid range (`start` on or before `end`) the result begins with
/// `start`, ends with `end`, has one entry per calendar day, and steps by
/// exactly one day between consecutive entries. For `start` after `end` the
/// result is empty rather than an error.
pub fn get_date_ranges(start: &Date, end: &Date) -> (r: Vec<Date>)
    requires
        start.wf(),
        end.wf(),
    ensures
        day_number(*start) <= day_number(*end) ==> r@.len() == day_number(*end) - day_number(*start)
            + 1,
        day_number(*start) > day_number(*end) ==> r@.len() == 0,
        forall|i: int|
            0 <= i < r@.len() ==> (#[trigger] r@[i]).wf() && day_number(r@[i]) == day_number(*start)
                + i,
        forall|i: int| 0 <= i < r@.len() - 1 ==> day_number(r@[i + 1]) == day_number(#[trigger] r@[i])
            + 1,
        r@.len() > 0 ==> r@[0] == *start && r@[r@.len() - 1] == *end,
        *start == *end ==> r@.len() == 1 && r@[0] == *start,
{
    let mut r: Vec<Date> = Vec::new();
    if !date_le(start, end) {
        return r;
    }
    let mut current: Date = *start;
    loop
        invariant_except_break
            day_number(*start) <= day_number(current) <= day_number(*end),
            r@.len() == day_number(current) - day_number(*start),
        invariant
            start.wf(),
            end.wf(),
            current.wf(),
            day_number(*start) <= day_number(*end),
            forall|i: int|
                0 <= i < r@.len() ==> (#[trigger] r@[i]).wf() && day_number(r@[i]) == day_number(
                    *start,
                ) + i,
            r@.len() > 0 ==> r@[0] == *start,
        ensures
            r@.len() == day_number(*end) - day_number(*start) + 1,
            r@[r@.len() - 1] == *end,
        decreases day_number(*end) - day_number(current),
    {
        proof {
            if r@.len() == 0 {
                crate::date::lemma_day_number_order(current, *start);
            }
        }
        r.push(current);
        if current == *end {
            break ;
        }
        proof {
            crate::date::lemma_day_number_order(current, *end);
        }
        current = next_day(&current);
    }
    r
}

} // verus!
