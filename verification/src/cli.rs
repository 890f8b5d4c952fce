//! What the command-line client shows of a period.
use vstd::prelude::*;

use crate::api::legacy::{kind_debug, kind_to_debug};
use crate::datetime::{subsec_nanos_between, time_delta, whole_seconds_between, Time};
use crate::schedule::period::Period;
use crate::text::{nat_text, push_nat, push_str, string_of, strings_view};

verus! {

broadcast use vstd::string::group_string_axioms;

/// A span of time, given by its whole seconds, as the client writes it: hours
/// and minutes from an hour on, minutes and all its seconds from a minute on,
/// else seconds; the sign is dropped.
pub open spec fn ftime_text(seconds: int) -> Seq<char> {
    let w = if seconds < 0 { -seconds } else { seconds };
    let h = w / 3600;
    let m = w / 60;
    if h > 0 {
        nat_text(h as nat) + "h"@ + nat_text((m - h * 60) as nat) + "m"@
    } else if m - h * 60 > 0 {
        nat_text(m as nat) + "m"@ + nat_text(w as nat) + "s"@
    } else {
        nat_text((w - m * 60 - h * 3600) as nat) + "s"@
    }
}

/// Writes a span of time, given by its whole seconds, as the client does.
pub fn ftime(seconds: i64) -> (r: String)
    requires
        seconds > i64::MIN,
    ensures
        r@ == ftime_text(seconds as int),
{
    let w: u64 = if seconds < 0 { (-seconds) as u64 } else { seconds as u64 };
    let h = w / 3600;
    let m = w / 60;
    let mut out: Vec<char> = Vec::new();
    if h > 0 {
        push_nat(&mut out, h);
        push_str(&mut out, "h");
        push_nat(&mut out, m - h * 60);
        push_str(&mut out, "m");
    } else if m > 0 {
        push_nat(&mut out, m);
        push_str(&mut out, "m");
        push_nat(&mut out, w);
        push_str(&mut out, "s");
    } else {
        push_nat(&mut out, w);
        push_str(&mut out, "s");
    }
    string_of(out.as_slice())
}

/// The span from `b` to `a` is below zero.
pub open spec fn span_negative(a: Time, b: Time) -> bool {
    whole_seconds_between(a, b) < 0 || subsec_nanos_between(a, b) < 0
}

/// The line about the span from `now` to `t`: how long ago `t` was, with
/// `past`, or how long until it comes, with `future`.
pub open spec fn relative_line(t: Time, now: Time, past: Seq<char>, future: Seq<char>) -> Seq<char> {
    if span_negative(t, now) {
        past + " "@ + ftime_text(whole_seconds_between(t, now)) + " ago"@
    } else {
        future + " "@ + ftime_text(whole_seconds_between(t, now)) + " from now"@
    }
}

/// The word for the place of a period: the last, the current or the next.
pub open spec fn period_label(n: int) -> Seq<char> {
    if n == 0 {
        "Last"@
    } else if n == 1 {
        "Current"@
    } else {
        "Next"@
    }
}

/// The lines that the client prints about a period at `now`, the more of them
/// the less quiet it is asked to be, an empty line last.
pub open spec fn report_lines(q: u64, n: u8, p: Period, now: Time) -> Seq<Seq<char>> {
    let head = seq!["=== "@ + period_label(n as int) + " Period ==="@, "Name: "@ + p.friendly_name@];
    let start = if q < 2 { seq![relative_line(p.start, now, "Started"@, "Starts"@)] } else { Seq::empty() };
    let detail = if q < 1 {
        seq![ftime_text(whole_seconds_between(p.end, p.start)) + " long in total"@, "Period is "@ + kind_debug(p.kind)]
    } else {
        Seq::empty()
    };
    let end = if q < 2 { seq![relative_line(p.end, now, "Ended"@, "Ends"@)] } else { Seq::empty() };
    head + start + detail + end + seq![Seq::<char>::empty()]
}

/// Writes the line about the span from `now` to `t`.
fn relative_text(t: Time, now: Time, past: &str, future: &str) -> (r: String)
    requires
        t.wf(),
        now.wf(),
    ensures
        r@ == relative_line(t, now, past@, future@),
{
    let (secs, nanos) = time_delta(t, now);
    let span = ftime(secs);
    let mut out: Vec<char> = Vec::new();
    if secs < 0 || nanos < 0 {
        push_str(&mut out, past);
        push_str(&mut out, " ");
        push_str(&mut out, span.as_str());
        push_str(&mut out, " ago");
    } else {
        push_str(&mut out, future);
        push_str(&mut out, " ");
        push_str(&mut out, span.as_str());
        push_str(&mut out, " from now");
    }
    string_of(out.as_slice())
}

/// The lines that the client prints about a period at `now`: which period it
/// is (0 the last, 1 the current, 2 the next) and its name; unless quieter than
/// 2, when it starts and ends, seen from `now`; unless quieter than 1, how long
/// it lasts and its kind.
pub fn period_report(q: u64, n: u8, p: &Period, now: Time) -> (r: Vec<String>)
    requires
        n < 3,
        p.start.wf(),
        p.end.wf(),
        now.wf(),
    ensures
        strings_view(r@) == report_lines(q, n, *p, now),
{
    let mut lines: Vec<String> = Vec::new();
    let label = if n == 0 {
        "Last"
    } else if n == 1 {
        "Current"
    } else {
        "Next"
    };
    let mut head: Vec<char> = Vec::new();
    push_str(&mut head, "=== ");
    push_str(&mut head, label);
    push_str(&mut head, " Period ===");
    lines.push(string_of(head.as_slice()));
    let mut name: Vec<char> = Vec::new();
    push_str(&mut name, "Name: ");
    push_str(&mut name, p.friendly_name.as_str());
    lines.push(string_of(name.as_slice()));
    if q < 2 {
        lines.push(relative_text(p.start, now, "Started", "Starts"));
    }
    if q < 1 {
        let (secs, _nanos) = time_delta(p.end, p.start);
        let mut long: Vec<char> = Vec::new();
        push_str(&mut long, ftime(secs).as_str());
        push_str(&mut long, " long in total");
        lines.push(string_of(long.as_slice()));
        let mut kind: Vec<char> = Vec::new();
        push_str(&mut kind, "Period is ");
        push_str(&mut kind, kind_to_debug(&p.kind).as_str());
        lines.push(string_of(kind.as_slice()));
    }
    if q < 2 {
        lines.push(relative_text(p.end, now, "Ended", "Ends"));
    }
    lines.push(String::new());
    assert(strings_view(lines@) =~= report_lines(q, n, *p, now));
    lines
}

} // verus!
