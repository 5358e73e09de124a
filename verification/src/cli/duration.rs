//! Durations in words.

use crate::text::decimal;
use std::time::Duration;
use vstd::prelude::*;

verus! {

/// One unit of a duration, set off from what is before it; nothing for none.
pub open spec fn with_unit(before: Seq<char>, value: int, unit: Seq<char>, plural: bool) -> Seq<
    char,
> {
    if value <= 0 {
        before
    } else {
        let gap = if before.len() == 0 {
            Seq::empty()
        } else {
            " "@
        };
        before + gap + decimal(value as nat) + unit + if plural && value > 1 {
            "s"@
        } else {
            Seq::empty()
        }
    }
}

/// A number of seconds in years of 365.25 days, months of 30.44 days, days,
/// hours, minutes and seconds, without the units that are zero.
pub open spec fn duration_text(secs: nat) -> Seq<char> {
    if secs == 0 {
        "0s"@
    } else {
        let in_year = secs as int % 31_557_600;
        let in_month = in_year % 2_630_016;
        let in_day = in_month % 86_400;
        let years = with_unit(Seq::empty(), secs as int / 31_557_600, "year"@, true);
        let months = with_unit(years, in_year / 2_630_016, "month"@, true);
        let days = with_unit(months, in_month / 86_400, "day"@, true);
        let hours = with_unit(days, in_day / 3_600, "h"@, false);
        let minutes = with_unit(hours, in_day % 3_600 / 60, "m"@, false);
        with_unit(minutes, in_day % 60, "s"@, false)
    }
}

/// The text of `humantime::format_duration` for whole seconds: the units from
/// years down to seconds with their numbers, those that are zero left out, with
/// blanks between them; years, months and days take an `s` beyond one; zero is
/// `0s`.
#[verifier::external_body]
pub(crate) fn format_seconds(secs: u64) -> (r: String)
    ensures
        r@ == duration_text(secs as nat),
{
    humantime::format_duration(Duration::from_secs(secs)).to_string()
}

/// What `humantime` shows of a number of seconds when it is debugged.
pub uninterp spec fn debugged_duration(secs: u64) -> Seq<char>;

/// The text of `humantime::format_duration` for whole seconds when it is
/// debugged. It depends on the number alone; what it looks like is up to the
/// derived formatting of the type, and is left open.
#[verifier::external_body]
pub(crate) fn debug_seconds(secs: u64) -> (r: String)
    ensures
        r@ == debugged_duration(secs),
{
    format!("{:?}", humantime::format_duration(Duration::from_secs(secs)))
}

} // verus!
