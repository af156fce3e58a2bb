//! Times as text. A time is a number of microseconds since the epoch.

use crate::events::prune::MICROS_PER_DAY;
use crate::text;
use vstd::prelude::*;

verus! {

/// A time in the given form, or nothing where the calendar does not reach it.
pub uninterp spec fn utc_text(us: i64, form: Seq<char>) -> Option<Seq<char>>;

/// The form of a time in a query.
pub open spec fn literal_form() -> Seq<char> {
    "%Y-%m-%dT%H:%M:%S%.6f"@
}

/// The form of a date.
pub open spec fn date_form() -> Seq<char> {
    "%Y-%m-%d"@
}

/// The form of a time for people.
pub open spec fn minute_form() -> Seq<char> {
    "%Y-%m-%d %H:%M UTC"@
}

/// The forms in use.
pub open spec fn is_form(form: Seq<char>) -> bool {
    form == literal_form() || form == date_form() || form == minute_form()
}

/// The day of a time, counted from the epoch.
pub open spec fn day_of(us: i64) -> int {
    us as int / MICROS_PER_DAY as int
}

/// `chrono::DateTime::from_timestamp_micros` and `DateTime::format`. The result
/// depends on the time and the form alone. Every time from the epoch up to the end of
/// the year 9999 has one, and times of different days have different dates.
#[verifier::external_body]
fn utc_format(us: i64, form: &str) -> (r: Option<String>)
    requires
        is_form(form@),
    ensures
        text::opt_text(r) == utc_text(us, form@),
        0 <= us < 253_402_300_800_000_000 ==> r is Some,
        r is Some && form@ == date_form() ==> forall|other: i64|
            utc_text(other, form@) == Some(r->0@) ==> day_of(other) == day_of(us),
{
    chrono::DateTime::from_timestamp_micros(us).map(|t| t.format(form).to_string())
}

/// A time in the given form; one that the calendar does not reach is shown as the
/// epoch.
pub open spec fn shown(us: i64, form: Seq<char>) -> Seq<char> {
    match utc_text(us, form) {
        Some(t) => t,
        None => utc_text(0, form)->0,
    }
}

/// The time in the given form.
pub(crate) fn show(us: i64, form: &str) -> (r: String)
    requires
        is_form(form@),
    ensures
        r@ == shown(us, form@),
        utc_text(us, date_form()) is Some && form@ == date_form() ==> forall|other: i64|
            utc_text(other, date_form()) == Some(r@) ==> day_of(other) == day_of(us),
{
    match utc_format(us, form) {
        Some(t) => t,
        None => match utc_format(0, form) {
            Some(t) => t,
            None => String::new(),
        },
    }
}

/// A time that the calendar reaches is shown as it is, and every other one alike, as the
/// epoch.
pub proof fn a_time_out_of_reach_is_shown_as_the_epoch(us: i64, form: Seq<char>)
    ensures
        utc_text(us, form) matches Some(t) ==> shown(us, form) == t,
        utc_text(us, form) is None && utc_text(0, form) is Some ==> shown(us, form) == shown(
            0,
            form,
        ),
{
}

/// A day lasts from midnight to midnight: times less than a day apart are of one day or of
/// two that follow each other, and a day later is the next day.
pub proof fn days_follow_each_other(a: i64, b: i64)
    requires
        a <= b,
    ensures
        b - a < 24 * 3_600_000_000 ==> day_of(b) == day_of(a) || day_of(b) == day_of(a) + 1,
        b - a == 24 * 3_600_000_000 ==> day_of(b) == day_of(a) + 1,
        day_of(a) * 86_400_000_000 <= a < (day_of(a) + 1) * 86_400_000_000,
{
}

} // verus!
