//! Events read from iCalendar text.
use vstd::prelude::*;

use crate::datetime::{day_number, ymd_valid, Date, MAX_DAYS};
use crate::ical::format::{
    char_is_whitespace, copy_range, find_pat, find_pattern, lines_chars, lines_of, split_on,
    split_pattern, starts_with, texts_view, trim, trim_chars, trim_start, is_whitespace,
};
use crate::text::{all_digits, chars_of, is_digit, number_in, parse_number, string_of};

verus! {

/// An event in iCal.
#[derive(Debug)]
pub struct IcalEvent {
    /// The event's summary.
    pub summary: Option<String>,
    /// The event's description.
    pub description: Option<String>,
    /// The start of the event.
    pub start: Option<Date>,
    /// The end of the event.
    pub end: Option<Date>,
}

/// An event in iCal, its texts taken by their characters.
pub struct IcalEventView {
    /// The event's summary.
    pub summary: Option<Seq<char>>,
    /// The event's description.
    pub description: Option<Seq<char>>,
    /// The start of the event.
    pub start: Option<Date>,
    /// The end of the event.
    pub end: Option<Date>,
}

/// An optional text, by its characters.
pub open spec fn opt_text(o: Option<String>) -> Option<Seq<char>> {
    match o {
        Some(s) => Some(s@),
        None => None,
    }
}

impl View for IcalEvent {
    type V = IcalEventView;

    open spec fn view(&self) -> IcalEventView {
        IcalEventView {
            summary: opt_text(self.summary),
            description: opt_text(self.description),
            start: self.start,
            end: self.end,
        }
    }
}

/// The views of a list of events.
pub open spec fn ical_events_view(v: Seq<IcalEvent>) -> Seq<IcalEventView> {
    v.map_values(|e: IcalEvent| e@)
}

/// The place of the first `:` of a line.
pub open spec fn colon_at(line: Seq<char>) -> Option<int> {
    find_pat(line, seq![':'], 0)
}

/// What a line names: the text before its first `:`, or the whole line.
pub open spec fn field_name(line: Seq<char>) -> Seq<char> {
    match colon_at(line) {
        Some(k) => line.take(k),
        None => line,
    }
}

/// The value of a line: the text between its first and its second `:` (or its
/// end); `None` where the line has no `:`.
pub open spec fn field_value(line: Seq<char>) -> Option<Seq<char>> {
    match colon_at(line) {
        Some(k) => {
            let rest = line.skip(k + 1);
            Some(
                match colon_at(rest) {
                    Some(k2) => rest.take(k2),
                    None => rest,
                },
            )
        },
        None => None,
    }
}

/// The text after the first `:` of a line; empty where there is none.
pub open spec fn field_rest(line: Seq<char>) -> Seq<char> {
    match colon_at(line) {
        Some(k) => line.skip(k + 1),
        None => Seq::empty(),
    }
}

/// `n` where it is below `len`, else `len`.
pub open spec fn clamp(n: int, len: int) -> int {
    if n < len { n } else { len }
}

/// The date written as `YYYYMMDD` at the start of `v`: the year in its first
/// four characters, the month in the next two and the day in the two after.
pub open spec fn date_value(v: Seq<char>) -> Option<Date> {
    let len = v.len() as int;
    let y = number_in(v.take(clamp(4, len)), true, i32::MIN as int, i32::MAX as int);
    let m = number_in(v.subrange(clamp(4, len), clamp(6, len)), false, 0, u32::MAX as int);
    let d = number_in(v.subrange(clamp(6, len), clamp(8, len)), false, 0, u32::MAX as int);
    match (y, m, d) {
        (Some(y), Some(m), Some(d)) => if ymd_valid(y, m, d) {
            Some(Date { days: day_number(y, m, d) as i32 })
        } else {
            None
        },
        _ => None,
    }
}

/// The decimal digits of a text, in order.
pub open spec fn keep_digits(s: Seq<char>) -> Seq<char>
    decreases s.len(),
{
    if s.len() == 0 {
        s
    } else if is_digit(s.last()) {
        keep_digits(s.drop_last()).push(s.last())
    } else {
        keep_digits(s.drop_last())
    }
}

/// The end of an event that lasts the number of days written by the digits of
/// `v` from `start`; `None` where there is no start, no digit, or the end leaves
/// the calendar.
pub open spec fn duration_end(v: Seq<char>, start: Option<Date>) -> Option<Date> {
    match number_in(keep_digits(v), false, 0, i64::MAX as int) {
        Some(n) => match start {
            Some(s) => if s.days + n <= MAX_DAYS {
                Some(Date { days: (s.days + n) as i32 })
            } else {
                None
            },
            None => None,
        },
        None => None,
    }
}

/// The lines from place `m` on that continue a field (those that start with a
/// tab or a space), each without its leading white space, joined.
pub open spec fn continuation(lines: Seq<Seq<char>>, m: int) -> Seq<char>
    decreases lines.len() - m,
{
    if 0 <= m < lines.len() && lines[m].len() > 0 && (lines[m][0] == '\t' || lines[m][0] == ' ') {
        trim_start(lines[m]) + continuation(lines, m + 1)
    } else {
        Seq::empty()
    }
}

/// A text with every `\,` written as `,`.
pub open spec fn unescape_commas(s: Seq<char>) -> Seq<char>
    decreases s.len(),
{
    if s.len() == 0 {
        s
    } else if s.len() >= 2 && s[0] == '\\' && s[1] == ',' {
        seq![','] + unescape_commas(s.skip(2))
    } else {
        seq![s[0]] + unescape_commas(s.skip(1))
    }
}

/// An event with nothing set.
pub open spec fn empty_event() -> IcalEventView {
    IcalEventView { summary: None, description: None, start: None, end: None }
}

/// The event after line `n`: a `DTSTART…` or `DTEND…` line sets the start or the
/// end date, a `DURATION` line the end from the start and a number of days, a
/// `SUMMARY` line the summary, and a `DESCRIPTION` line the description with its
/// continuation lines; other lines change nothing. `None` where the line cannot
/// be read.
pub open spec fn line_step(st: IcalEventView, lines: Seq<Seq<char>>, n: int) -> Option<IcalEventView> {
    let line = lines[n];
    let kind = field_name(line);
    if starts_with(kind, "DTSTART"@) {
        match field_value(line) {
            Some(v) => match date_value(v) {
                Some(d) => Some(IcalEventView { summary: st.summary, description: st.description, start: Some(d), end: st.end }),
                None => None,
            },
            None => None,
        }
    } else if starts_with(kind, "DTEND"@) {
        match field_value(line) {
            Some(v) => match date_value(v) {
                Some(d) => Some(IcalEventView { summary: st.summary, description: st.description, start: st.start, end: Some(d) }),
                None => None,
            },
            None => None,
        }
    } else if kind == "DURATION"@ {
        match field_value(line) {
            Some(v) => match duration_end(v, st.start) {
                Some(d) => Some(IcalEventView { summary: st.summary, description: st.description, start: st.start, end: Some(d) }),
                None => None,
            },
            None => None,
        }
    } else if kind == "SUMMARY"@ {
        match field_value(line) {
            Some(v) => Some(IcalEventView { summary: Some(v), description: st.description, start: st.start, end: st.end }),
            None => None,
        }
    } else if kind == "DESCRIPTION"@ {
        Some(IcalEventView {
            summary: st.summary,
            description: Some(unescape_commas(field_rest(line) + continuation(lines, n + 1))),
            start: st.start,
            end: st.end,
        })
    } else {
        Some(st)
    }
}

/// The event after its first `n` lines.
pub open spec fn parse_lines(lines: Seq<Seq<char>>, n: int) -> Option<IcalEventView>
    decreases n,
{
    if n <= 0 {
        Some(empty_event())
    } else {
        match parse_lines(lines, n - 1) {
            Some(st) => line_step(st, lines, n - 1),
            None => None,
        }
    }
}

/// The event that a piece of iCalendar text describes, read from its lines once
/// its leading and trailing white space is gone.
pub open spec fn parse_vevent(text: Seq<char>) -> Option<IcalEventView> {
    let ls = lines_of(trim(text));
    parse_lines(ls, ls.len() as int)
}

/// An event is kept where it has a description or a summary, and a start.
pub open spec fn kept(e: IcalEventView) -> bool {
    (e.description is Some || e.summary is Some) && e.start is Some
}

/// The events that the pieces describe, those without a start and without a
/// text left out; `None` where a piece cannot be read.
pub open spec fn parse_pieces(pieces: Seq<Seq<char>>) -> Option<Seq<IcalEventView>>
    decreases pieces.len(),
{
    if pieces.len() == 0 {
        Some(Seq::empty())
    } else {
        match (parse_pieces(pieces.drop_last()), parse_vevent(pieces.last())) {
            (Some(es), Some(e)) => Some(if kept(e) { es.push(e) } else { es }),
            _ => None,
        }
    }
}

/// The events of an iCalendar text: it is cut at each `BEGIN:VEVENT`, and
/// every piece is read as an event.
pub open spec fn ical_events(data: Seq<char>) -> Option<Seq<IcalEventView>> {
    parse_pieces(split_on(data, "BEGIN:VEVENT"@))
}

/// Whether `s` begins with the characters of `prefix`.
pub fn chars_start_with(s: &Vec<char>, prefix: &str) -> (r: bool)
    ensures
        r == starts_with(s@, prefix@),
{
    let p = chars_of(prefix);
    if p.len() > s.len() {
        return false;
    }
    let mut i: usize = 0;
    while i < p.len()
        invariant
            p@ == prefix@,
            p@.len() <= s@.len(),
            i <= p@.len(),
            forall|k: int| 0 <= k < i ==> s@[k] == p@[k],
        decreases p@.len() - i,
    {
        if s[i] != p[i] {
            assert(s@.take(p@.len() as int)[i as int] != p@[i as int]);
            return false;
        }
        i = i + 1;
    }
    assert(s@.take(p@.len() as int) =~= p@);
    true
}

/// Whether `s` has the characters of `t`.
pub fn chars_equal(s: &Vec<char>, t: &str) -> (r: bool)
    ensures
        r == (s@ == t@),
{
    let p = chars_of(t);
    if p.len() != s.len() {
        return false;
    }
    let b = chars_start_with(s, t);
    assert(b ==> s@.take(p@.len() as int) =~= s@);
    proof {
        if s@ == t@ {
            assert(s@.take(p@.len() as int) =~= s@);
        }
    }
    b
}

/// The parts of a line: what it names, its value and the text after its first `:`.
fn field_parts(line: &Vec<char>) -> (r: (Vec<char>, Option<Vec<char>>, Vec<char>))
    ensures
        r.0@ == field_name(line@),
        match field_value(line@) {
            Some(v) => r.1 matches Some(w) && w@ == v,
            None => r.1 is None,
        },
        r.2@ == field_rest(line@),
{
    let colon: Vec<char> = vec![':'];
    assert(colon@ =~= seq![':']);
    match find_pattern(line, &colon, 0) {
        Some(k) => {
            proof {
                crate::ical::format::lemma_find_pat_range(line@, colon@, 0);
            }
            let len = line.len();
            assert(k < len);
            let name = copy_range(line, 0, k);
            let rest = copy_range(line, k + 1, len);
            assert(name@ =~= line@.take(k as int));
            assert(rest@ =~= line@.skip(k + 1));
            let value = match find_pattern(&rest, &colon, 0) {
                Some(k2) => {
                    proof {
                        crate::ical::format::lemma_find_pat_range(rest@, colon@, 0);
                    }
                    let v = copy_range(&rest, 0, k2);
                    assert(v@ =~= rest@.take(k2 as int));
                    v
                },
                None => copy_range(&rest, 0, rest.len()),
            };
            assert(value@ == field_value(line@)->0) by {
                if colon_at(rest@) is None {
                    assert(rest@.subrange(0, rest@.len() as int) =~= rest@);
                }
            }
            (name, Some(value), rest)
        },
        None => {
            let name = copy_range(line, 0, line.len());
            assert(name@ =~= line@);
            (name, None, Vec::new())
        },
    }
}

/// Reads the date written as `YYYYMMDD` at the start of `v`.
pub fn date_from_value(v: &Vec<char>) -> (r: Option<Date>)
    ensures
        r == date_value(v@),
        r matches Some(d) ==> d.wf(),
{
    let len = v.len();
    let a = if 4 < len { 4 } else { len };
    let b = if 6 < len { 6 } else { len };
    let c = if 8 < len { 8 } else { len };
    assert(v@.take(a as int) =~= v@.subrange(0, a as int));
    let y = parse_number(v, 0, a, true, 0x8000_0000, 0x7fff_ffff);
    let m = parse_number(v, a, b, false, 0, 0xffff_ffff);
    let d = parse_number(v, b, c, false, 0, 0xffff_ffff);
    match (y, m, d) {
        (Some(y), Some(m), Some(d)) => Date::from_ymd_opt(y as i32, m as u32, d as u32),
        _ => None,
    }
}

/// The decimal digits of `s`, in order.
pub fn keep_digit_chars(s: &Vec<char>) -> (r: Vec<char>)
    ensures
        r@ == keep_digits(s@),
{
    let mut r: Vec<char> = Vec::new();
    let mut i: usize = 0;
    while i < s.len()
        invariant
            i <= s@.len(),
            r@ == keep_digits(s@.take(i as int)),
        decreases s@.len() - i,
    {
        assert(s@.take(i + 1).drop_last() =~= s@.take(i as int));
        assert(s@.take(i + 1).last() == s@[i as int]);
        let c = s[i];
        if '0' <= c && c <= '9' {
            r.push(c);
        }
        i = i + 1;
    }
    assert(s@.take(s@.len() as int) =~= s@);
    r
}

/// The end of an event that lasts the days written by the digits of `v` from `start`.
pub fn duration_from_value(v: &Vec<char>, start: Option<Date>) -> (r: Option<Date>)
    requires
        start matches Some(s) ==> s.wf(),
    ensures
        r == duration_end(v@, start),
        r matches Some(d) ==> d.wf(),
{
    let digits = keep_digit_chars(v);
    assert(digits@.subrange(0, digits@.len() as int) =~= digits@);
    match parse_number(&digits, 0, digits.len(), false, 0, 0x7fff_ffff_ffff_ffff) {
        Some(n) => match start {
            Some(s) => s.add_days(n),
            None => None,
        },
        None => None,
    }
}

/// `s` without its leading white space.
pub fn trim_start_chars(s: &Vec<char>) -> (r: Vec<char>)
    ensures
        r@ == trim_start(s@),
{
    let mut a: usize = 0;
    assert(s@.skip(0) =~= s@);
    while a < s.len() && char_is_whitespace(s[a])
        invariant
            a <= s@.len(),
            trim_start(s@) == trim_start(s@.skip(a as int)),
        decreases s@.len() - a,
    {
        assert(s@.skip(a as int).drop_first() =~= s@.skip(a + 1));
        a = a + 1;
    }
    assert(trim_start(s@) == s@.skip(a as int)) by {
        if a < s@.len() {
            assert(s@.skip(a as int)[0] == s@[a as int]);
        }
    }
    let r = copy_range(s, a, s.len());
    assert(r@ =~= s@.skip(a as int));
    r
}

/// The continuation lines from place `m` on, joined.
pub fn continuation_chars(lines: &Vec<Vec<char>>, m: usize) -> (r: Vec<char>)
    ensures
        r@ == continuation(texts_view(lines@), m as int),
{
    let ghost ls = texts_view(lines@);
    let mut out: Vec<char> = Vec::new();
    let mut j = m;
    loop
        invariant
            ls == texts_view(lines@),
            m <= j,
            out@ + continuation(ls, j as int) == continuation(ls, m as int),
        decreases lines@.len() - j,
    {
        if j >= lines.len() {
            assert(continuation(ls, j as int) == Seq::<char>::empty());
            assert(out@ + Seq::<char>::empty() =~= out@);
            return out;
        }
        assert(ls[j as int] == lines@[j as int]@);
        let line = &lines[j];
        if line.len() > 0 && (line[0] == '\t' || line[0] == ' ') {
            let t = trim_start_chars(line);
            let mut k: usize = 0;
            let ghost before = out@;
            while k < t.len()
                invariant
                    k <= t@.len(),
                    out@ == before + t@.take(k as int),
                decreases t@.len() - k,
            {
                out.push(t[k]);
                k = k + 1;
                assert(out@ =~= before + t@.take(k as int));
            }
            assert(t@.take(t@.len() as int) =~= t@);
            assert(out@ + continuation(ls, j + 1) =~= before + continuation(ls, j as int));
            j = j + 1;
        } else {
            assert(continuation(ls, j as int) == Seq::<char>::empty());
            assert(out@ + Seq::<char>::empty() =~= out@);
            return out;
        }
    }
}

/// `s` with every `\,` written as `,`.
pub fn unescape_comma_chars(s: &Vec<char>) -> (r: Vec<char>)
    ensures
        r@ == unescape_commas(s@),
{
    let mut out: Vec<char> = Vec::new();
    let mut i: usize = 0;
    assert(s@.skip(0) =~= s@);
    while i < s.len()
        invariant
            i <= s@.len(),
            out@ + unescape_commas(s@.skip(i as int)) == unescape_commas(s@),
        decreases s@.len() - i,
    {
        let ghost rest = s@.skip(i as int);
        if i + 1 < s.len() && s[i] == '\\' && s[i + 1] == ',' {
            assert(rest[0] == '\\' && rest[1] == ',');
            assert(rest.skip(2) =~= s@.skip(i + 2));
            out.push(',');
            i = i + 2;
            assert(out@ + unescape_commas(s@.skip(i as int)) =~= unescape_commas(s@)) by {
                assert(unescape_commas(rest) == seq![','] + unescape_commas(rest.skip(2)));
            }
        } else {
            assert(rest[0] == s@[i as int]);
            assert(rest.skip(1) =~= s@.skip(i + 1));
            out.push(s[i]);
            i = i + 1;
            assert(out@ + unescape_commas(s@.skip(i as int)) =~= unescape_commas(s@)) by {
                assert(unescape_commas(rest) == seq![rest[0]] + unescape_commas(rest.skip(1)));
            }
        }
    }
    assert(s@.skip(i as int) =~= Seq::<char>::empty());
    assert(out@ + Seq::<char>::empty() =~= out@);
    out
}

/// Joins two lists of characters.
fn concat_chars(a: &Vec<char>, b: &Vec<char>) -> (r: Vec<char>)
    ensures
        r@ == a@ + b@,
{
    let mut r = copy_range(a, 0, a.len());
    let mut i: usize = 0;
    assert(r@ =~= a@ + b@.take(0));
    while i < b.len()
        invariant
            i <= b@.len(),
            r@ == a@ + b@.take(i as int),
        decreases b@.len() - i,
    {
        r.push(b[i]);
        i = i + 1;
        assert(r@ =~= a@ + b@.take(i as int));
    }
    assert(b@.take(b@.len() as int) =~= b@);
    r
}

impl IcalEvent {
    /// An event with nothing set.
    pub fn empty() -> (r: IcalEvent)
        ensures
            r@ == empty_event(),
    {
        IcalEvent { summary: None, description: None, start: None, end: None }
    }

    /// The event after line `n` of an event's lines.
    fn apply_line(self, lines: &Vec<Vec<char>>, n: usize) -> (r: Option<IcalEvent>)
        requires
            n < lines@.len(),
            self.start matches Some(s) ==> s.wf(),
        ensures
            match line_step(self@, texts_view(lines@), n as int) {
                Some(st) => r matches Some(e) && e@ == st && (e.start matches Some(s) ==> s.wf()),
                None => r is None,
            },
    {
        let ghost ls = texts_view(lines@);
        assert(ls[n as int] == lines@[n as int]@);
        let line = &lines[n];
        let (kind, value, rest) = field_parts(line);
        if chars_start_with(&kind, "DTSTART") {
            match value {
                Some(v) => match date_from_value(&v) {
                    Some(d) => Some(IcalEvent { summary: self.summary, description: self.description, start: Some(d), end: self.end }),
                    None => None,
                },
                None => None,
            }
        } else if chars_start_with(&kind, "DTEND") {
            match value {
                Some(v) => match date_from_value(&v) {
                    Some(d) => Some(IcalEvent { summary: self.summary, description: self.description, start: self.start, end: Some(d) }),
                    None => None,
                },
                None => None,
            }
        } else if chars_equal(&kind, "DURATION") {
            match value {
                Some(v) => match duration_from_value(&v, self.start) {
                    Some(d) => Some(IcalEvent { summary: self.summary, description: self.description, start: self.start, end: Some(d) }),
                    None => None,
                },
                None => None,
            }
        } else if chars_equal(&kind, "SUMMARY") {
            match value {
                Some(v) => Some(IcalEvent { summary: Some(string_of(v.as_slice())), description: self.description, start: self.start, end: self.end }),
                None => None,
            }
        } else if chars_equal(&kind, "DESCRIPTION") {
            let count = lines.len();
            assert(n < count);
            let more = continuation_chars(lines, n + 1);
            let text = unescape_comma_chars(&concat_chars(&rest, &more));
            Some(IcalEvent { summary: self.summary, description: Some(string_of(text.as_slice())), start: self.start, end: self.end })
        } else {
            Some(self)
        }
    }

    /// Reads the event that a piece of iCalendar text describes.
    pub fn from_piece(piece: &Vec<char>) -> (r: Option<IcalEvent>)
        ensures
            match parse_vevent(piece@) {
                Some(st) => r matches Some(e) && e@ == st,
                None => r is None,
            },
            r matches Some(e) ==> (e.start matches Some(s) ==> s.wf()),
    {
        let trimmed = trim_chars(piece);
        let lines = lines_chars(&trimmed);
        let ghost ls = texts_view(lines@);
        let mut ev = IcalEvent::empty();
        let mut n: usize = 0;
        while n < lines.len()
            invariant
                ls == texts_view(lines@),
                ls == lines_of(trim(piece@)),
                n <= lines@.len(),
                parse_lines(ls, n as int) == Some(ev@),
                ev.start matches Some(s) ==> s.wf(),
            decreases lines@.len() - n,
        {
            match ev.apply_line(&lines, n) {
                Some(e) => ev = e,
                None => {
                    proof {
                        lemma_lines_fail(ls, n as int + 1, ls.len() as int);
                    }
                    return None;
                },
            }
            n = n + 1;
        }
        Some(ev)
    }

    /// Parses the events of an iCalendar text; `None` where it cannot be read:
    /// a date, a duration or a summary line that does not hold what it should.
    pub fn try_from_string(data: &str) -> (r: Option<Vec<IcalEvent>>)
        ensures
            match ical_events(data@) {
                Some(es) => r matches Some(v) && ical_events_view(v@) == es,
                None => r is None,
            },
            r matches Some(v) ==> forall|i: int| 0 <= i < v@.len() ==> kept((#[trigger] v@[i])@)
                && v@[i].start->0.wf(),
    {
        let cs = chars_of(data);
        let pat = chars_of("BEGIN:VEVENT");
        proof {
            reveal_strlit("BEGIN:VEVENT");
        }
        let pieces = split_pattern(&cs, &pat);
        let ghost ps = texts_view(pieces@);
        let mut out: Vec<IcalEvent> = Vec::new();
        let mut i: usize = 0;
        assert(ical_events_view(out@) =~= Seq::<IcalEventView>::empty());
        while i < pieces.len()
            invariant
                ps == texts_view(pieces@),
                ps == split_on(data@, "BEGIN:VEVENT"@),
                i <= pieces@.len(),
                parse_pieces(ps.take(i as int)) == Some(ical_events_view(out@)),
                forall|k: int| 0 <= k < out@.len() ==> kept((#[trigger] out@[k])@) && out@[k].start->0.wf(),
            decreases pieces@.len() - i,
        {
            assert(ps.take(i + 1).drop_last() =~= ps.take(i as int));
            assert(ps.take(i + 1).last() == pieces@[i as int]@);
            match IcalEvent::from_piece(&pieces[i]) {
                Some(ev) => {
                    if (ev.description.is_some() || ev.summary.is_some()) && ev.start.is_some() {
                        let ghost before = out@;
                        out.push(ev);
                        assert(ical_events_view(out@) =~= ical_events_view(before).push(ev@));
                    }
                },
                None => {
                    proof {
                        lemma_pieces_fail(ps, i as int);
                    }
                    return None;
                },
            }
            i = i + 1;
        }
        assert(ps.take(ps.len() as int) =~= ps);
        Some(out)
    }

    /// Parses the events of an iCalendar text: the pieces between the
    /// `BEGIN:VEVENT` markers, each read line by line, keeping those that have a
    /// start and a summary or a description.
    pub fn from_string(data: &str) -> (r: Vec<IcalEvent>)
        requires
            ical_events(data@) is Some,
        ensures
            ical_events_view(r@) == ical_events(data@)->0,
    {
        match IcalEvent::try_from_string(data) {
            Some(v) => v,
            None => Vec::new(),
        }
    }
}

proof fn lemma_lines_fail(ls: Seq<Seq<char>>, n: int, m: int)
    requires
        0 <= n <= m,
        parse_lines(ls, n) is None,
    ensures
        parse_lines(ls, m) is None,
    decreases m - n,
{
    if n < m {
        lemma_lines_fail(ls, n + 1, m);
    }
}

proof fn lemma_pieces_fail(ps: Seq<Seq<char>>, i: int)
    requires
        0 <= i < ps.len(),
        parse_vevent(ps[i]) is None,
    ensures
        parse_pieces(ps) is None,
    decreases ps.len(),
{
    if i < ps.len() - 1 {
        assert(ps.drop_last()[i] == ps[i]);
        lemma_pieces_fail(ps.drop_last(), i);
    }
}

/// The text holds no backslash.
pub open spec fn no_backslash(s: Seq<char>) -> bool {
    forall|i: int| 0 <= i < s.len() ==> s[i] != '\\'
}

/// Text without a backslash comes through unchanged ahead of the rest.
proof fn lemma_unescape_plain_prefix(a: Seq<char>, x: Seq<char>)
    requires
        no_backslash(a),
    ensures
        unescape_commas(a + x) == a + unescape_commas(x),
    decreases a.len(),
{
    if a.len() > 0 {
        let t = a + x;
        assert(t[0] == a[0]);
        assert(t.skip(1) =~= a.skip(1) + x);
        assert forall|i: int| 0 <= i < a.skip(1).len() implies a.skip(1)[i] != '\\' by {
            assert(a.skip(1)[i] == a[i + 1]);
        }
        lemma_unescape_plain_prefix(a.skip(1), x);
        assert(a + x =~= seq![a[0]] + (a.skip(1) + x));
        assert(seq![a[0]] + (a.skip(1) + unescape_commas(x)) =~= a + unescape_commas(x));
    } else {
        assert(a + x =~= x);
        assert(a + unescape_commas(x) =~= unescape_commas(x));
    }
}

/// The first colon of a line that starts with a name without colons followed by
/// a colon is the one after the name.
proof fn lemma_colon_after_name(line: Seq<char>, k: int, i: int)
    requires
        0 <= i <= k < line.len(),
        line[k] == ':',
        forall|j: int| 0 <= j < k ==> line[j] != ':',
    ensures
        find_pat(line, seq![':'], i) == Some(k),
    decreases k - i,
{
    if i < k {
        assert(line.subrange(i, i + 1) != seq![':']) by {
            assert(line.subrange(i, i + 1)[0] == line[i]);
        }
        lemma_colon_after_name(line, k, i + 1);
    } else {
        assert(line.subrange(i, i + 1) =~= seq![':']);
    }
}

/// A description line writes a comma as `\,`, and the event reads it as a
/// comma: once the lines up to a `DESCRIPTION` line that holds `a`, an escaped
/// comma and `b` (texts without backslashes) are read, and no continuation line
/// follows it, the event's description is `a`, a comma and `b`, and the other
/// fields are as before that line.
pub proof fn law_description_unescapes_commas(lines: Seq<Seq<char>>, n: int, a: Seq<char>, b: Seq<char>)
    requires
        0 <= n < lines.len(),
        lines[n] == "DESCRIPTION:"@ + a + seq!['\\', ','] + b,
        no_backslash(a),
        no_backslash(b),
        n + 1 < lines.len() ==> lines[n + 1].len() == 0 || (lines[n + 1][0] != '\t' && lines[n + 1][0] != ' '),
        parse_lines(lines, n) is Some,
    ensures
        parse_lines(lines, n + 1) matches Some(e) && {
            &&& e.description == Some(a + seq![','] + b)
            &&& e.summary == parse_lines(lines, n)->0.summary
            &&& e.start == parse_lines(lines, n)->0.start
            &&& e.end == parse_lines(lines, n)->0.end
        },
{
    reveal_strlit("DESCRIPTION:");
    reveal_strlit("DESCRIPTION");
    reveal_strlit("DTSTART");
    reveal_strlit("DTEND");
    reveal_strlit("DURATION");
    reveal_strlit("SUMMARY");
    let line = lines[n];
    assert(line[11] == ':');
    assert forall|j: int| 0 <= j < 11 implies line[j] != ':' by {
        assert(line[j] == "DESCRIPTION:"@[j]);
    }
    lemma_colon_after_name(line, 11, 0);
    assert(field_name(line) =~= "DESCRIPTION"@);
    assert(field_rest(line) =~= a + (seq!['\\', ','] + b));
    assert(continuation(lines, n + 1) =~= Seq::<char>::empty());
    assert(field_rest(line) + continuation(lines, n + 1) =~= a + (seq!['\\', ','] + b));
    lemma_unescape_plain_prefix(a, seq!['\\', ','] + b);
    let t = seq!['\\', ','] + b;
    assert(t.skip(2) =~= b);
    assert(t[0] == '\\' && t[1] == ',');
    assert(b + Seq::<char>::empty() =~= b);
    lemma_unescape_plain_prefix(b, Seq::<char>::empty());
    assert(unescape_commas(t) == seq![','] + b);
    assert(a + (seq![','] + b) =~= a + seq![','] + b);
    assert(!starts_with(field_name(line), "DTSTART"@)) by {
        assert(field_name(line).take(7)[1] != "DTSTART"@[1]);
    }
    assert(!starts_with(field_name(line), "DTEND"@)) by {
        assert(field_name(line).take(5)[1] != "DTEND"@[1]);
    }
    assert(field_name(line) != "DURATION"@) by {
        assert(field_name(line).len() != "DURATION"@.len());
    }
    assert(field_name(line) != "SUMMARY"@) by {
        assert(field_name(line).len() != "SUMMARY"@.len());
    }
}

/// The text holds no colon.
pub open spec fn no_colon(s: Seq<char>) -> bool {
    forall|i: int| 0 <= i < s.len() ==> s[i] != ':'
}

/// A text without colons has none to find.
proof fn lemma_no_colon_found(s: Seq<char>, i: int)
    requires
        no_colon(s),
        0 <= i,
    ensures
        find_pat(s, seq![':'], i) is None,
    decreases s.len() + 1 - i,
{
    if i + 1 <= s.len() {
        assert(s.subrange(i, i + 1) != seq![':']) by {
            assert(s.subrange(i, i + 1)[0] == s[i]);
        }
        lemma_no_colon_found(s, i + 1);
    }
}

/// A line made of a name, a colon and a value, neither holding a colon, names
/// that name and holds that value.
proof fn lemma_field_line(name: Seq<char>, v: Seq<char>)
    requires
        no_colon(name),
        no_colon(v),
    ensures
        field_name(name + seq![':'] + v) == name,
        field_value(name + seq![':'] + v) == Some(v),
        field_rest(name + seq![':'] + v) == v,
{
    let line = name + seq![':'] + v;
    assert(line[name.len() as int] == ':');
    assert forall|j: int| 0 <= j < name.len() implies line[j] != ':' by {
        assert(line[j] == name[j]);
    }
    lemma_colon_after_name(line, name.len() as int, 0);
    assert(line.take(name.len() as int) =~= name);
    assert(line.skip(name.len() as int + 1) =~= v);
    lemma_no_colon_found(v, 0);
}

/// The lines of an event set its fields: once the lines up to one made of a
/// name, a colon and a value (neither holding a colon) are read, a `DTSTART…`
/// line sets the start to the date that the value writes, a `DTEND…` line sets
/// the end to it, and a `SUMMARY` line sets the summary to the value; the other
/// fields stay as they were. A date line whose value writes no date cannot be
/// read.
pub proof fn law_event_lines_set_fields(lines: Seq<Seq<char>>, n: int, name: Seq<char>, v: Seq<char>)
    requires
        0 <= n < lines.len(),
        lines[n] == name + seq![':'] + v,
        no_colon(name),
        no_colon(v),
        parse_lines(lines, n) is Some,
    ensures
        starts_with(name, "DTSTART"@) ==> match date_value(v) {
            Some(d) => parse_lines(lines, n + 1) == Some(IcalEventView {
                summary: parse_lines(lines, n)->0.summary,
                description: parse_lines(lines, n)->0.description,
                start: Some(d),
                end: parse_lines(lines, n)->0.end,
            }),
            None => parse_lines(lines, n + 1) is None,
        },
        starts_with(name, "DTEND"@) ==> match date_value(v) {
            Some(d) => parse_lines(lines, n + 1) == Some(IcalEventView {
                summary: parse_lines(lines, n)->0.summary,
                description: parse_lines(lines, n)->0.description,
                start: parse_lines(lines, n)->0.start,
                end: Some(d),
            }),
            None => parse_lines(lines, n + 1) is None,
        },
        name == "SUMMARY"@ ==> parse_lines(lines, n + 1) == Some(IcalEventView {
            summary: Some(v),
            description: parse_lines(lines, n)->0.description,
            start: parse_lines(lines, n)->0.start,
            end: parse_lines(lines, n)->0.end,
        }),
{
    reveal_strlit("DTSTART");
    reveal_strlit("DTEND");
    reveal_strlit("SUMMARY");
    lemma_field_line(name, v);
    if starts_with(name, "DTSTART"@) {
        assert(!starts_with(name, "DTEND"@)) by {
            assert(name.take(5)[2] != "DTEND"@[2]);
        }
        assert(name != "SUMMARY"@) by {
            assert(name.take(7)[0] == name[0]);
            assert(name[0] != "SUMMARY"@[0]);
        }
    }
    if starts_with(name, "DTEND"@) {
        assert(!starts_with(name, "DTSTART"@)) by {
            if name.len() >= 7 {
                assert(name.take(7)[2] != "DTSTART"@[2]);
            }
        }
        assert(name != "SUMMARY"@) by {
            assert(name.take(5)[0] == name[0]);
            assert(name[0] != "SUMMARY"@[0]);
        }
    }
    if name == "SUMMARY"@ {
        reveal_strlit("DURATION");
        assert(name != "DURATION"@) by {
            assert(name.len() != "DURATION"@.len());
        }
        assert(!starts_with(name, "DTSTART"@)) by {
            assert(name.take(7)[0] != "DTSTART"@[0]);
        }
        assert(!starts_with(name, "DTEND"@)) by {
            assert(name.take(5)[0] != "DTEND"@[0]);
        }
    }
}

} // verus!
