//! Text of durations, and of the summaries as the detail pane shows them.

use crate::calendar::{date_text, date_text_of, in_calendar_range, in_time_range, time_text, time_text_of, valid_offset};
use crate::daily::{AppUsage, DailySummary};
use crate::sessions::Break;
use crate::weekly::WeeklySummary;
use vstd::prelude::*;
use vstd::string::StringExecFns;

verus! {

pub open spec fn digit_char(d: nat) -> char {
    if d == 0 { '0' } else if d == 1 { '1' } else if d == 2 { '2' } else if d == 3 { '3' } else if d == 4 { '4' }
    else if d == 5 { '5' } else if d == 6 { '6' } else if d == 7 { '7' } else if d == 8 { '8' } else { '9' }
}

/// The decimal digits of `n`, most significant first.
pub open spec fn digits(n: nat) -> Seq<char>
    decreases n,
{
    if n < 10 {
        seq![digit_char(n)]
    } else {
        digits(n / 10) + seq![digit_char(n % 10)]
    }
}

/// `n` in decimal, with a leading `-` when negative.
pub open spec fn decimal(n: int) -> Seq<char> {
    if n < 0 {
        seq!['-'] + digits((-n) as nat)
    } else {
        digits(n as nat)
    }
}

/// Relies on `ToString` for `i64`: its decimal form.
#[verifier::external_body]
pub(crate) fn int_text(n: i64) -> (r: String)
    ensures
        r@ == decimal(n as int),
{
    n.to_string()
}

/// A duration in seconds as hours and minutes, minutes and seconds, or
/// seconds alone, whichever is the largest unit that it reaches.
pub open spec fn duration_text(secs: int) -> Seq<char> {
    if secs >= 3600 {
        decimal(secs / 3600) + "h "@ + decimal((secs / 60) % 60) + "min"@
    } else if secs >= 60 {
        decimal(secs / 60) + "min "@ + decimal(secs % 60) + "s"@
    } else {
        decimal(secs) + "s"@
    }
}

/// Writes a duration given in seconds.
pub fn format_duration(secs: i64) -> (r: String)
    ensures
        r@ == duration_text(secs as int),
{
    if secs >= 3600 {
        let mut s = int_text(secs / 3600);
        s.append("h ");
        let m = int_text((secs / 60) % 60);
        s.append(m.as_str());
        s.append("min");
        s
    } else if secs >= 60 {
        let mut s = int_text(secs / 60);
        s.append("min ");
        let m = int_text(secs % 60);
        s.append(m.as_str());
        s.append("s");
        s
    } else {
        let mut s = int_text(secs);
        s.append("s");
        s
    }
}

/// One line of per-application time.
pub open spec fn app_line(x: AppUsage) -> Seq<char> {
    "    "@ + x.app@ + ": "@ + duration_text(x.usage as int) + "\n"@
}

pub open spec fn app_lines(a: Seq<AppUsage>) -> Seq<char>
    decreases a.len(),
{
    if a.len() == 0 {
        seq![]
    } else {
        app_lines(a.drop_last()) + app_line(a.last())
    }
}

/// One line per break; its instants are written at the given offset.
pub open spec fn break_line(b: Break, offset: int) -> Seq<char> {
    "    Break from "@ + time_text_of(b.start as int, offset) + " to "@ + time_text_of(b.end as int, offset) + " ("@
        + duration_text(b.duration as int) + ")\n"@
}

pub open spec fn break_lines(b: Seq<Break>, offset: int) -> Seq<char>
    decreases b.len(),
{
    if b.len() == 0 {
        seq![]
    } else {
        break_lines(b.drop_last(), offset) + break_line(b.last(), offset)
    }
}

/// The detail text of a day. Break instants are written at the offset in
/// force at the day's first use.
pub open spec fn daily_detail_text(d: DailySummary) -> Seq<char> {
    "Date: "@ + date_text_of(d.date as int) + "\n"@ + "  Total Usage: "@ + duration_text(d.total_usage as int) + "\n"@
        + "  First Usage: "@ + time_text_of(d.first_usage as int, d.first_offset as int) + "\n"@
        + "  Last Usage: "@ + time_text_of(d.last_usage as int, d.last_offset as int) + "\n"@
        + "  Net Active Hours: "@ + duration_text(d.net_active_time as int) + "\n"@ + "  Per App Usage:\n"@
        + app_lines(d.per_app_usage@) + "  Breaks:\n"@ + break_lines(d.breaks@, d.first_offset as int)
}

/// The detail text of a week.
pub open spec fn weekly_detail_text(w: WeeklySummary) -> Seq<char> {
    "Week "@ + decimal(w.week as int) + " (Starting "@ + date_text_of(w.first_day as int) + ") "@ + (if w.is_current_week {
        "(Current Week)"@
    } else {
        ""@
    }) + ":\n"@ + "  Total Usage: "@ + duration_text(w.total_usage as int) + "\n"@ + "  Net Active Time: "@
        + duration_text(w.net_active_hours as int) + "\n"@ + "  Per App Usage:\n"@ + app_lines(w.per_app_usage@)
}

/// The list label of a week.
pub open spec fn weekly_label_text(w: WeeklySummary) -> Seq<char> {
    "Week "@ + decimal(w.week as int) + " (Starting "@ + date_text_of(w.first_day as int) + ")"@
}

fn append_app_lines(s: &mut String, a: &Vec<AppUsage>)
    ensures
        final(s)@ == old(s)@ + app_lines(a@),
{
    let n = a.len();
    assert(a@.take(0) =~= seq![]);
    for i in 0..n
        invariant
            n == a.len(),
            s@ == old(s)@ + app_lines(a@.take(i as int)),
    {
        proof {
            assert(a@.take(i + 1).drop_last() =~= a@.take(i as int));
        }
        s.append("    ");
        s.append(a[i].app.as_str());
        s.append(": ");
        let t = format_duration(a[i].usage);
        s.append(t.as_str());
        s.append("\n");
        proof {
            assert(s@ =~= old(s)@ + app_lines(a@.take(i as int)) + app_line(a@[i as int]));
        }
    }
    assert(a@.take(n as int) =~= a@);
}

fn append_break_lines(s: &mut String, b: &Vec<Break>, offset: i32)
    requires
        valid_offset(offset as int),
        forall|i: int| 0 <= i < b@.len() ==> in_time_range((#[trigger] b@[i]).start as int) && in_time_range(b@[i].end as int),
    ensures
        final(s)@ == old(s)@ + break_lines(b@, offset as int),
{
    let n = b.len();
    assert(b@.take(0) =~= seq![]);
    for i in 0..n
        invariant
            n == b.len(),
            valid_offset(offset as int),
            forall|i: int| 0 <= i < b@.len() ==> in_time_range((#[trigger] b@[i]).start as int) && in_time_range(b@[i].end as int),
            s@ == old(s)@ + break_lines(b@.take(i as int), offset as int),
    {
        proof {
            assert(b@.take(i + 1).drop_last() =~= b@.take(i as int));
            assert(in_time_range(b@[i as int].start as int));
        }
        s.append("    Break from ");
        let t1 = time_text(b[i].start, offset);
        s.append(t1.as_str());
        s.append(" to ");
        let t2 = time_text(b[i].end, offset);
        s.append(t2.as_str());
        s.append(" (");
        let t3 = format_duration(b[i].duration);
        s.append(t3.as_str());
        s.append(")\n");
        proof {
            assert(s@ =~= old(s)@ + break_lines(b@.take(i as int), offset as int) + break_line(b@[i as int], offset as int));
        }
    }
    assert(b@.take(n as int) =~= b@);
}

/// Writes the detail text of a day.
pub fn daily_detail(d: &DailySummary) -> (r: String)
    requires
        d.printable(),
    ensures
        r@ == daily_detail_text(*d),
{
    let mut s = String::from_str("Date: ");
    let t = date_text(d.date);
    s.append(t.as_str());
    s.append("\n");
    s.append("  Total Usage: ");
    let t = format_duration(d.total_usage);
    s.append(t.as_str());
    s.append("\n");
    s.append("  First Usage: ");
    let t = time_text(d.first_usage, d.first_offset);
    s.append(t.as_str());
    s.append("\n");
    s.append("  Last Usage: ");
    let t = time_text(d.last_usage, d.last_offset);
    s.append(t.as_str());
    s.append("\n");
    s.append("  Net Active Hours: ");
    let t = format_duration(d.net_active_time);
    s.append(t.as_str());
    s.append("\n");
    s.append("  Per App Usage:\n");
    append_app_lines(&mut s, &d.per_app_usage);
    s.append("  Breaks:\n");
    append_break_lines(&mut s, &d.breaks, d.first_offset);
    s
}

/// Writes the detail text of a week.
pub fn weekly_detail(w: &WeeklySummary) -> (r: String)
    requires
        in_calendar_range(w.first_day as int),
    ensures
        r@ == weekly_detail_text(*w),
{
    let mut s = String::from_str("Week ");
    let t = int_text(w.week as i64);
    s.append(t.as_str());
    s.append(" (Starting ");
    let t = date_text(w.first_day);
    s.append(t.as_str());
    s.append(") ");
    if w.is_current_week {
        s.append("(Current Week)");
    } else {
        proof {
            reveal_strlit("");
            assert(s@ + ""@ =~= s@);
        }
    }
    s.append(":\n");
    s.append("  Total Usage: ");
    let t = format_duration(w.total_usage);
    s.append(t.as_str());
    s.append("\n");
    s.append("  Net Active Time: ");
    let t = format_duration(w.net_active_hours);
    s.append(t.as_str());
    s.append("\n");
    s.append("  Per App Usage:\n");
    append_app_lines(&mut s, &w.per_app_usage);
    s
}

/// Writes the list label of a day: its date.
pub fn daily_label(d: &DailySummary) -> (r: String)
    requires
        in_calendar_range(d.date as int),
    ensures
        r@ == date_text_of(d.date as int),
{
    date_text(d.date)
}

/// Writes the list label of a week.
pub fn weekly_label(w: &WeeklySummary) -> (r: String)
    requires
        in_calendar_range(w.first_day as int),
    ensures
        r@ == weekly_label_text(*w),
{
    let mut s = String::from_str("Week ");
    let t = int_text(w.week as i64);
    s.append(t.as_str());
    s.append(" (Starting ");
    let t = date_text(w.first_day);
    s.append(t.as_str());
    s.append(")");
    s
}

} // verus!
