//! Attendance records and their validity.
use vstd::prelude::*;

use crate::chars::{chars_vec, string_from_chars, trim_chars, trim_spec};
use crate::dates::{hm_parse, lemma_hm_parse_bounds, parse_time_hm};

verus! {

/// One attendance record: the date as `day.month.four-digit-year` and the
/// recorded arrival and departure times as `HH:MM`.  Immutable after
/// creation.
pub struct Attendance {
    pub date: String,
    pub from_time: String,
    pub to_time: String,
}

/// Builds an attendance record from the raw cell texts of one table row,
/// trimming each.
pub fn attendance_from_texts(date: &str, from_time: &str, to_time: &str) -> (r: Attendance)
    ensures
        r.date@ == trim_spec(date@),
        r.from_time@ == trim_spec(from_time@),
        r.to_time@ == trim_spec(to_time@),
{
    let dv = chars_vec(date);
    let fv = chars_vec(from_time);
    let tv = chars_vec(to_time);
    let dt = trim_chars(&dv);
    let ft = trim_chars(&fv);
    let tt = trim_chars(&tv);
    Attendance {
        date: string_from_chars(&dt),
        from_time: string_from_chars(&ft),
        to_time: string_from_chars(&tt),
    }
}

/// Validity of an attendance record: both time fields parse as `HH:MM`
/// and the times are ordered within the day, arrival no later than
/// departure.
pub open spec fn attendance_valid(a: Attendance) -> bool {
    match (hm_parse(a.from_time@), hm_parse(a.to_time@)) {
        (Some(f), Some(t)) => f.0 * 60 + f.1 <= t.0 * 60 + t.1,
        _ => false,
    }
}

/// Checks an attendance record: both times must parse as `HH:MM` and fall
/// within the full-day bound, the arrival no later than the departure.
pub fn is_attendance_valid(attendance: &Attendance) -> (r: bool)
    ensures
        r == attendance_valid(*attendance),
{
    proof {
        lemma_hm_parse_bounds(attendance.from_time@);
        lemma_hm_parse_bounds(attendance.to_time@);
    }
    let from_time = parse_time_hm(attendance.from_time.as_str());
    let to_time = parse_time_hm(attendance.to_time.as_str());
    match (from_time, to_time) {
        (Some(from), Some(to)) => {
            let from_in_day = from.0 <= 23 && from.1 <= 59;
            let to_in_day = to.0 <= 23 && to.1 <= 59;
            from_in_day && to_in_day && from.0 * 60 + from.1 <= to.0 * 60 + to.1
        },
        _ => false,
    }
}

/// A record whose arrival or departure time does not parse as `HH:MM` is
/// never valid.
pub proof fn lemma_unparsable_time_invalid(a: Attendance)
    requires
        hm_parse(a.from_time@) is None || hm_parse(a.to_time@) is None,
    ensures
        !attendance_valid(a),
{
}

} // verus!
