//! Reading and writing the times of the log and of the user interface.
//!
//! A time is held as milliseconds since 1970-01-01 00:00 (the log's own
//! clock, no time zone). Turning it into calendar fields and back is left to
//! `chrono`.
use vstd::prelude::*;

verus! {

/// A record's time, with two zero digits appended to its tenths of a second.
pub const LOG_RECORD_LAYOUT: &'static str = "%y:%m:%d:%H:%M:%S%.3f";
/// Down to the minute, as typed into a date field.
pub const MINUTE_LAYOUT: &'static str = "%Y-%m-%d %H:%M";
/// The date.
pub const DATE_LAYOUT: &'static str = "%Y-%m-%d";
/// The time of day.
pub const CLOCK_LAYOUT: &'static str = "%T";
/// The time of day for a file name.
pub const FILE_CLOCK_LAYOUT: &'static str = "%H-%M-%S";

/// The layouts this program writes times in.
pub open spec fn is_layout(layout: Seq<char>) -> bool {
    layout == MINUTE_LAYOUT@ || layout == DATE_LAYOUT@ || layout == CLOCK_LAYOUT@ || layout
        == FILE_CLOCK_LAYOUT@ || layout == LOG_RECORD_LAYOUT@
}

/// The time `text` denotes in `layout`, as `chrono`'s
/// `NaiveDateTime::parse_from_str` reads it, in milliseconds since 1970.
pub uninterp spec fn parsed_time(text: Seq<char>, layout: Seq<char>) -> Option<i64>;

/// `millis` written out in `layout`, as `chrono` formats it; `None` when the
/// time is out of `chrono`'s range.
pub uninterp spec fn formatted_time(millis: i64, layout: Seq<char>) -> Option<Seq<char>>;

/// `chrono::NaiveDateTime::parse_from_str`, read back as milliseconds since
/// 1970. What it accepts (calendar checks, field widths) is `chrono`'s; the
/// result is named by [`parsed_time`].
#[verifier::external_body]
pub(crate) fn parse_time(text: &str, layout: &str) -> (r: Option<i64>)
    ensures
        r == parsed_time(text@, layout@),
{
    chrono::NaiveDateTime::parse_from_str(text, layout).ok().map(|t| t.and_utc().timestamp_millis())
}

/// `chrono`'s formatting of the time `millis` after 1970 with `layout`; `None`
/// when `chrono` cannot represent the time. Only the layouts of
/// [`is_layout`] are asked for, all of which `chrono` can write. The text is
/// named by [`formatted_time`].
#[verifier::external_body]
pub(crate) fn format_time(millis: i64, layout: &str) -> (r: Option<String>)
    requires
        is_layout(layout@),
    ensures
        match (r, formatted_time(millis, layout@)) {
            (None, None) => true,
            (Some(s), Some(t)) => s@ == t,
            _ => false,
        },
{
    chrono::DateTime::from_timestamp_millis(millis).map(|t| t.naive_utc().format(layout).to_string())
}

} // verus!
