//! Composition of the failure report: its timestamped file name and its
//! text.  The unverified shell supplies the clock reading and writes
//! the file.

use vstd::prelude::*;
use vstd::string::*;
use chrono::{Datelike, Timelike};
use crate::text::{padded_dec, render_padded};

verus! {

/// The last epoch second of year 9999; beyond it the calendar reading
/// is not taken.
pub const MAX_EPOCH_SECONDS: u64 = 253402300799;

/// A wall-clock reading in UTC, as the unverified shell supplies it.
#[derive(Debug)]
pub struct Timestamp {
    /// Calendar year.
    pub year: u16,
    /// Calendar month, `1..=12`.
    pub month: u8,
    /// Day of the month, `1..=31`.
    pub day: u8,
    /// Hour of the day, `0..=23`.
    pub hour: u8,
    /// Minute, `0..=59`.
    pub minute: u8,
    /// Second, `0..=59`.
    pub second: u8,
}

impl Timestamp {
    /// The ranges a calendar reading satisfies.
    pub open spec fn valid(&self) -> bool {
        &&& 1 <= self.month <= 12
        &&& 1 <= self.day <= 31
        &&& self.hour < 24
        &&& self.minute < 60
        &&& self.second < 60
    }
}

/// The timestamp rendering used in the log file name and as the first
/// report line: `YYYY-MM-DD_HHMMSS`.
pub open spec fn stamp_str(ts: Timestamp) -> Seq<char> {
    padded_dec(ts.year as nat, 4) + seq!['-'] + padded_dec(ts.month as nat, 2) + seq!['-']
        + padded_dec(ts.day as nat, 2) + seq!['_'] + padded_dec(ts.hour as nat, 2) + padded_dec(
        ts.minute as nat,
        2,
    ) + padded_dec(ts.second as nat, 2)
}

/// The failure log's file name for a given clock reading.
pub open spec fn log_name_spec(ts: Timestamp) -> Seq<char> {
    "rusty_picture_namer_"@ + stamp_str(ts) + ".log"@
}

/// The source line of a report: the filetype-source path, or "none".
pub open spec fn source_line(source: Option<Seq<char>>) -> Seq<char> {
    match source {
        Some(s) => s,
        None => "none"@,
    }
}

/// The report text: the timestamp line, then the requested folder, the
/// filetype source and the error message, each on a line of its own.
pub open spec fn report_text_spec(
    folder: Seq<char>,
    source: Option<Seq<char>>,
    message: Seq<char>,
    ts: Timestamp,
) -> Seq<char> {
    stamp_str(ts) + seq!['\n'] + folder + seq!['\n'] + source_line(source) + seq!['\n'] + message
        + seq!['\n']
}

/// View of an optional path.
pub open spec fn opt_str_view(o: Option<String>) -> Option<Seq<char>> {
    match o {
        Some(s) => Some(s@),
        None => None,
    }
}

/// The UTC calendar reading of an epoch instant, as year, month, day,
/// hour, minute and second.
pub uninterp spec fn civil_of_epoch(secs: u64) -> (u16, u8, u8, u8, u8, u8);

/// Relies on chrono's `DateTime::from_timestamp`: the UTC calendar
/// reading of an epoch instant is a function of the instant alone, and
/// within the admitted range it is a valid calendar date and time.
#[verifier::external_body]
pub(crate) fn timestamp_of_epoch(secs: u64) -> (r: Timestamp)
    requires
        secs <= MAX_EPOCH_SECONDS,
    ensures
        r.year == civil_of_epoch(secs).0,
        r.month == civil_of_epoch(secs).1,
        r.day == civil_of_epoch(secs).2,
        r.hour == civil_of_epoch(secs).3,
        r.minute == civil_of_epoch(secs).4,
        r.second == civil_of_epoch(secs).5,
        r.valid(),
{
    let dt = chrono::DateTime::from_timestamp(secs as i64, 0).unwrap();
    Timestamp {
        year: dt.year() as u16,
        month: dt.month() as u8,
        day: dt.day() as u8,
        hour: dt.hour() as u8,
        minute: dt.minute() as u8,
        second: dt.second() as u8,
    }
}

/// Renders the `YYYY-MM-DD_HHMMSS` stamp of a clock reading.
pub fn render_stamp(ts: &Timestamp) -> (r: String)
    ensures
        r@ == stamp_str(*ts),
{
    proof {
        reveal_strlit("-");
        reveal_strlit("_");
    }
    let mut s = render_padded(ts.year as usize, 4);
    s.append("-");
    s.append(render_padded(ts.month as usize, 2).as_str());
    s.append("-");
    s.append(render_padded(ts.day as usize, 2).as_str());
    s.append("_");
    s.append(render_padded(ts.hour as usize, 2).as_str());
    s.append(render_padded(ts.minute as usize, 2).as_str());
    s.append(render_padded(ts.second as usize, 2).as_str());
    assert(s@ =~= stamp_str(*ts));
    s
}

/// Composes the failure log's file name for a clock reading.
pub fn log_file_name(ts: &Timestamp) -> (r: String)
    ensures
        r@ == log_name_spec(*ts),
{
    let mut s = String::from_str("rusty_picture_namer_");
    s.append(render_stamp(ts).as_str());
    s.append(".log");
    assert(s@ =~= log_name_spec(*ts));
    s
}

/// Composes the failure report: the name of the log file to write into
/// the requested folder, and the report text itself.
pub fn compose_report(folder: &String, source: &Option<String>, message: &String, ts: &Timestamp)
    -> (r: (String, String))
    ensures
        r.0@ == log_name_spec(*ts),
        r.1@ == report_text_spec(folder@, opt_str_view(*source), message@, *ts),
{
    proof {
        reveal_strlit("\n");
    }
    let name = log_file_name(ts);
    let mut text = render_stamp(ts);
    text.append("\n");
    text.append(folder.as_str());
    text.append("\n");
    match source {
        Some(s) => text.append(s.as_str()),
        None => text.append("none"),
    }
    text.append("\n");
    text.append(message.as_str());
    text.append("\n");
    assert(text@ =~= report_text_spec(folder@, opt_str_view(*source), message@, *ts));
    (name, text)
}

/// Composes the failure report for the clock reading of an epoch
/// instant: the log file name and the report text, both carrying the
/// instant's UTC calendar stamp.
pub fn compose_report_at(folder: &String, source: &Option<String>, message: &String, secs: u64)
    -> (r: (String, String))
    requires
        secs <= MAX_EPOCH_SECONDS,
    ensures
        ({
            let c = civil_of_epoch(secs);
            let ts = Timestamp {
                year: c.0,
                month: c.1,
                day: c.2,
                hour: c.3,
                minute: c.4,
                second: c.5,
            };
            &&& r.0@ == log_name_spec(ts)
            &&& r.1@ == report_text_spec(folder@, opt_str_view(*source), message@, ts)
        }),
{
    let ts = timestamp_of_epoch(secs);
    compose_report(folder, source, message, &ts)
}

} // verus!
