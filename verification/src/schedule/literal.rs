//! Schedule types written out in JSON, as calendar entries carry them.
//!
//! A schedule type is read from JSON in the shape that its serde form has: an
//! object with the members `friendly_name`, `periods`, `regex`, `color` and
//! `hide`, or an array of those values in that order; unknown members are
//! passed over, `color` may be left out and `hide` defaults to false. The text
//! is read by serde_json into its `Value`, whose objects keep one member per
//! key, the last one given; so a member given twice is read once, where
//! serde's derive on the type itself would refuse the text.
use vstd::prelude::*;

use crate::datetime::{parse_time_text, time_from_text, Time};
use crate::json::{json_parse, parse_json, JsonValue};
use crate::pattern::{regex_compiles, regex_valid};
use crate::schedule::period::{Period, PeriodType};
use crate::schedule::schedule_type::{clone_opt_string, ScheduleType};
use crate::text::{all_digits, chars_of, digits_value, parse_digits, str_eq};

verus! {

/// The value of the first member of an object with the given key.
pub open spec fn member(entries: Seq<(String, JsonValue)>, key: Seq<char>) -> Option<JsonValue>
    decreases entries.len(),
{
    if entries.len() == 0 {
        None
    } else if entries[0].0@ == key {
        Some(entries[0].1)
    } else {
        member(entries.drop_first(), key)
    }
}

/// A JSON string, read as a text.
pub open spec fn json_string(v: JsonValue) -> Option<String> {
    match v {
        JsonValue::Str(s) => Some(s),
        _ => None,
    }
}

/// A JSON boolean.
pub open spec fn json_bool(v: JsonValue) -> Option<bool> {
    match v {
        JsonValue::Bool(b) => Some(b),
        _ => None,
    }
}

/// A JSON string read as a time of day.
pub open spec fn json_time(v: JsonValue) -> Option<Time> {
    match v {
        JsonValue::Str(s) => time_from_text(s@),
        _ => None,
    }
}

/// A JSON number read as a byte: a whole number from 0 to 255.
pub open spec fn json_u8(v: JsonValue) -> Option<u8> {
    match v {
        JsonValue::Number(s) => if s@.len() > 0 && all_digits(s@) && digits_value(s@) <= 255 {
            Some(digits_value(s@) as u8)
        } else {
            None
        },
        _ => None,
    }
}

/// The period kind without content that a name stands for.
pub open spec fn unit_kind(name: Seq<char>) -> Option<PeriodType> {
    if name == "Lunch"@ {
        Some(PeriodType::Lunch)
    } else if name == "Break"@ {
        Some(PeriodType::Break)
    } else if name == "AMSupport"@ {
        Some(PeriodType::AMSupport)
    } else if name == "Passing"@ {
        Some(PeriodType::Passing)
    } else if name == "BeforeSchool"@ {
        Some(PeriodType::BeforeSchool)
    } else if name == "AfterSchool"@ {
        Some(PeriodType::AfterSchool)
    } else if name == "Announcements"@ {
        Some(PeriodType::Announcements)
    } else {
        None
    }
}

/// The period kind that a tag and its content stand for.
pub open spec fn tagged_kind(tag: Seq<char>, content: JsonValue) -> Option<PeriodType> {
    if tag == "Class"@ {
        match content {
            JsonValue::Str(x) => Some(PeriodType::Class(x)),
            _ => None,
        }
    } else if tag == "ClassOrLunch"@ {
        match content {
            JsonValue::Str(x) => Some(PeriodType::ClassOrLunch(x)),
            _ => None,
        }
    } else {
        match unit_kind(tag) {
            Some(k) => if content is Null { Some(k) } else { None },
            None => None,
        }
    }
}

/// A period kind: a name, or an object of one member from the tag to its content.
pub open spec fn json_kind(v: JsonValue) -> Option<PeriodType> {
    match v {
        JsonValue::Str(s) => unit_kind(s@),
        JsonValue::Object(m) => if m@.len() == 1 {
            tagged_kind(m@[0].0@, m@[0].1)
        } else {
            None
        },
        _ => None,
    }
}

/// A period made of its four parts, with no timestamps.
pub open spec fn make_period(name: Option<String>, start: Option<Time>, end: Option<Time>, kind: Option<PeriodType>) -> Option<Period> {
    match (name, start, end, kind) {
        (Some(n), Some(s), Some(e), Some(k)) => Some(
            Period { friendly_name: n, start: s, start_timestamp: 0, end: e, end_timestamp: 0, kind: k },
        ),
        _ => None,
    }
}

/// A value that is present, read by `f`.
pub open spec fn present<A>(v: Option<JsonValue>, f: spec_fn(JsonValue) -> Option<A>) -> Option<A> {
    match v {
        Some(x) => f(x),
        None => None,
    }
}

/// A period: an object with `friendly_name`, `start`, `end` and `kind`, or an
/// array of those four values.
pub open spec fn json_period(v: JsonValue) -> Option<Period> {
    match v {
        JsonValue::Object(m) => make_period(
            present(member(m@, "friendly_name"@), |x| json_string(x)),
            present(member(m@, "start"@), |x| json_time(x)),
            present(member(m@, "end"@), |x| json_time(x)),
            present(member(m@, "kind"@), |x| json_kind(x)),
        ),
        JsonValue::Array(a) => if a@.len() == 4 {
            make_period(json_string(a@[0]), json_time(a@[1]), json_time(a@[2]), json_kind(a@[3]))
        } else {
            None
        },
        _ => None,
    }
}

/// A list of periods, every one of which must be read.
pub open spec fn json_periods(vs: Seq<JsonValue>) -> Option<Seq<Period>>
    decreases vs.len(),
{
    if vs.len() == 0 {
        Some(Seq::empty())
    } else {
        match (json_periods(vs.drop_last()), json_period(vs.last())) {
            (Some(ps), Some(p)) => Some(ps.push(p)),
            _ => None,
        }
    }
}

/// An array of periods.
pub open spec fn json_period_array(v: JsonValue) -> Option<Seq<Period>> {
    match v {
        JsonValue::Array(a) => json_periods(a@),
        _ => None,
    }
}

/// An optional regular expression: `null`, or a string that is a valid pattern.
pub open spec fn json_regex(v: JsonValue) -> Option<Option<String>> {
    match v {
        JsonValue::Null => Some(None),
        JsonValue::Str(p) => if regex_valid(p@) { Some(Some(p)) } else { None },
        _ => None,
    }
}

/// An optional color: `null`, or an array of three bytes.
pub open spec fn json_color(v: JsonValue) -> Option<Option<[u8; 3]>> {
    match v {
        JsonValue::Null => Some(None),
        JsonValue::Array(a) => if a@.len() == 3 {
            match (json_u8(a@[0]), json_u8(a@[1]), json_u8(a@[2])) {
                (Some(r), Some(g), Some(b)) => Some(Some([r, g, b])),
                _ => None,
            }
        } else {
            None
        },
        _ => None,
    }
}

/// The parts of a schedule type: name, periods, pattern, color and whether it is hidden.
pub type LiteralParts = (String, Seq<Period>, Option<String>, Option<[u8; 3]>, bool);

/// A schedule type made of its five parts.
pub open spec fn make_parts(
    name: Option<String>,
    periods: Option<Seq<Period>>,
    regex: Option<Option<String>>,
    color: Option<Option<[u8; 3]>>,
    hide: Option<bool>,
) -> Option<LiteralParts> {
    match (name, periods, regex, color, hide) {
        (Some(n), Some(p), Some(r), Some(c), Some(h)) => Some((n, p, r, c, h)),
        _ => None,
    }
}

/// A schedule type, in the object or the array form.
pub open spec fn json_schedule_type(v: JsonValue) -> Option<LiteralParts> {
    match v {
        JsonValue::Object(m) => make_parts(
            present(member(m@, "friendly_name"@), |x| json_string(x)),
            present(member(m@, "periods"@), |x| json_period_array(x)),
            present(member(m@, "regex"@), |x| json_regex(x)),
            match member(m@, "color"@) {
                Some(x) => json_color(x),
                None => Some(None),
            },
            match member(m@, "hide"@) {
                Some(x) => json_bool(x),
                None => Some(false),
            },
        ),
        JsonValue::Array(a) => if a@.len() == 4 || a@.len() == 5 {
            make_parts(
                json_string(a@[0]),
                json_period_array(a@[1]),
                json_regex(a@[2]),
                json_color(a@[3]),
                if a@.len() == 5 { json_bool(a@[4]) } else { Some(false) },
            )
        } else {
            None
        },
        _ => None,
    }
}

/// The schedule type written in the JSON text `text`.
pub open spec fn literal_schedule(text: Seq<char>) -> Option<LiteralParts> {
    match json_parse(text) {
        Some(v) => json_schedule_type(v),
        None => None,
    }
}

/// The schedule type holds exactly these parts.
pub open spec fn has_parts(st: ScheduleType, parts: LiteralParts) -> bool {
    &&& st.friendly_name == parts.0
    &&& st.periods@ == parts.1
    &&& st.regex == parts.2
    &&& st.color == parts.3
    &&& st.hide == parts.4
}

/// Finds the value of the first member with the given key.
pub fn find_member<'a>(entries: &'a Vec<(String, JsonValue)>, key: &str) -> (r: Option<&'a JsonValue>)
    ensures
        match member(entries@, key@) {
            Some(v) => r == Some(&v),
            None => r is None,
        },
{
    let mut i: usize = 0;
    assert(entries@.skip(0) =~= entries@);
    while i < entries.len()
        invariant
            i <= entries@.len(),
            member(entries@, key@) == member(entries@.skip(i as int), key@),
        decreases entries@.len() - i,
    {
        assert(entries@.skip(i as int)[0] == entries@[i as int]);
        if str_eq(entries[i].0.as_str(), key) {
            return Some(&entries[i].1);
        }
        assert(entries@.skip(i as int).drop_first() =~= entries@.skip(i + 1));
        i = i + 1;
    }
    None
}

/// Reads a JSON string.
pub fn decode_string(v: &JsonValue) -> (r: Option<String>)
    ensures
        r == json_string(*v),
{
    match v {
        JsonValue::Str(s) => Some(s.clone()),
        _ => None,
    }
}

/// Reads a JSON boolean.
pub fn decode_bool(v: &JsonValue) -> (r: Option<bool>)
    ensures
        r == json_bool(*v),
{
    match v {
        JsonValue::Bool(b) => Some(*b),
        _ => None,
    }
}

/// Reads a JSON string as a time of day.
pub fn decode_time(v: &JsonValue) -> (r: Option<Time>)
    ensures
        r == json_time(*v),
{
    match v {
        JsonValue::Str(s) => match parse_time_text(s.as_str()) {
            Ok(t) => Some(t),
            Err(_) => None,
        },
        _ => None,
    }
}

/// Reads a JSON number as a byte.
pub fn decode_u8(v: &JsonValue) -> (r: Option<u8>)
    ensures
        r == json_u8(*v),
{
    match v {
        JsonValue::Number(s) => {
            let cs = chars_of(s.as_str());
            assert(cs@.subrange(0, cs@.len() as int) =~= s@);
            match parse_digits(&cs, 0, cs.len(), 255) {
                Some(n) => Some(n as u8),
                None => None,
            }
        },
        _ => None,
    }
}

/// Reads the period kind without content that a name stands for.
pub fn decode_unit_kind(name: &str) -> (r: Option<PeriodType>)
    ensures
        r == unit_kind(name@),
{
    if str_eq(name, "Lunch") {
        Some(PeriodType::Lunch)
    } else if str_eq(name, "Break") {
        Some(PeriodType::Break)
    } else if str_eq(name, "AMSupport") {
        Some(PeriodType::AMSupport)
    } else if str_eq(name, "Passing") {
        Some(PeriodType::Passing)
    } else if str_eq(name, "BeforeSchool") {
        Some(PeriodType::BeforeSchool)
    } else if str_eq(name, "AfterSchool") {
        Some(PeriodType::AfterSchool)
    } else if str_eq(name, "Announcements") {
        Some(PeriodType::Announcements)
    } else {
        None
    }
}

/// Reads a period kind.
pub fn decode_kind(v: &JsonValue) -> (r: Option<PeriodType>)
    ensures
        r == json_kind(*v),
{
    match v {
        JsonValue::Str(s) => decode_unit_kind(s.as_str()),
        JsonValue::Object(m) => {
            if m.len() != 1 {
                return None;
            }
            let tag = m[0].0.as_str();
            let content = &m[0].1;
            if str_eq(tag, "Class") {
                match content {
                    JsonValue::Str(x) => Some(PeriodType::Class(x.clone())),
                    _ => None,
                }
            } else if str_eq(tag, "ClassOrLunch") {
                match content {
                    JsonValue::Str(x) => Some(PeriodType::ClassOrLunch(x.clone())),
                    _ => None,
                }
            } else {
                match decode_unit_kind(tag) {
                    Some(k) => match content {
                        JsonValue::Null => Some(k),
                        _ => None,
                    },
                    None => None,
                }
            }
        },
        _ => None,
    }
}

/// Makes a period of its four parts, with no timestamps.
fn build_period(name: Option<String>, start: Option<Time>, end: Option<Time>, kind: Option<PeriodType>) -> (r: Option<Period>)
    ensures
        r == make_period(name, start, end, kind),
{
    match (name, start, end, kind) {
        (Some(n), Some(s), Some(e), Some(k)) => Some(
            Period { friendly_name: n, start: s, start_timestamp: 0, end: e, end_timestamp: 0, kind: k },
        ),
        _ => None,
    }
}

/// Reads a period.
pub fn decode_period(v: &JsonValue) -> (r: Option<Period>)
    ensures
        r == json_period(*v),
{
    match v {
        JsonValue::Object(m) => {
            let name = match find_member(m, "friendly_name") {
                Some(x) => decode_string(x),
                None => None,
            };
            let start = match find_member(m, "start") {
                Some(x) => decode_time(x),
                None => None,
            };
            let end = match find_member(m, "end") {
                Some(x) => decode_time(x),
                None => None,
            };
            let kind = match find_member(m, "kind") {
                Some(x) => decode_kind(x),
                None => None,
            };
            build_period(name, start, end, kind)
        },
        JsonValue::Array(a) => {
            if a.len() != 4 {
                return None;
            }
            build_period(decode_string(&a[0]), decode_time(&a[1]), decode_time(&a[2]), decode_kind(&a[3]))
        },
        _ => None,
    }
}

/// Reads an array of periods.
pub fn decode_period_array(v: &JsonValue) -> (r: Option<Vec<Period>>)
    ensures
        match json_period_array(*v) {
            Some(ps) => r matches Some(w) && w@ == ps,
            None => r is None,
        },
{
    match v {
        JsonValue::Array(a) => {
            let mut out: Vec<Period> = Vec::new();
            let mut i: usize = 0;
            assert(json_period_array(*v) == json_periods(a@));
            while i < a.len()
                invariant
                    i <= a@.len(),
                    json_period_array(*v) == json_periods(a@),
                    json_periods(a@.take(i as int)) == Some(out@),
                decreases a@.len() - i,
            {
                assert(a@.take(i + 1).drop_last() =~= a@.take(i as int));
                match decode_period(&a[i]) {
                    Some(p) => out.push(p),
                    None => {
                        proof {
                            lemma_periods_fail(a@, i as int);
                        }
                        return None;
                    },
                }
                i = i + 1;
            }
            assert(a@.take(a@.len() as int) =~= a@);
            Some(out)
        },
        _ => None,
    }
}

proof fn lemma_periods_fail(vs: Seq<JsonValue>, i: int)
    requires
        0 <= i < vs.len(),
        json_period(vs[i]) is None,
    ensures
        json_periods(vs) is None,
    decreases vs.len(),
{
    if i < vs.len() - 1 {
        assert(vs.drop_last()[i] == vs[i]);
        lemma_periods_fail(vs.drop_last(), i);
    }
}

/// Reads an optional regular expression.
pub fn decode_regex(v: &JsonValue) -> (r: Option<Option<String>>)
    ensures
        r == json_regex(*v),
{
    match v {
        JsonValue::Null => Some(None),
        JsonValue::Str(p) => if regex_compiles(p.as_str()) {
            Some(Some(p.clone()))
        } else {
            None
        },
        _ => None,
    }
}

/// Reads an optional color.
pub fn decode_color(v: &JsonValue) -> (r: Option<Option<[u8; 3]>>)
    ensures
        r == json_color(*v),
{
    match v {
        JsonValue::Null => Some(None),
        JsonValue::Array(a) => {
            if a.len() != 3 {
                return None;
            }
            match (decode_u8(&a[0]), decode_u8(&a[1]), decode_u8(&a[2])) {
                (Some(r), Some(g), Some(b)) => Some(Some([r, g, b])),
                _ => None,
            }
        },
        _ => None,
    }
}

/// Makes a schedule type of its five parts.
fn build_schedule_type(
    name: Option<String>,
    periods: Option<Vec<Period>>,
    regex: Option<Option<String>>,
    color: Option<Option<[u8; 3]>>,
    hide: Option<bool>,
) -> (r: Option<ScheduleType>)
    ensures
        match make_parts(name, match periods { Some(w) => Some(w@), None => None }, regex, color, hide) {
            Some(parts) => r matches Some(st) && has_parts(st, parts),
            None => r is None,
        },
{
    match (name, periods, regex, color, hide) {
        (Some(n), Some(p), Some(r), Some(c), Some(h)) => Some(
            ScheduleType { friendly_name: n, periods: p, regex: r, color: c, hide: h },
        ),
        _ => None,
    }
}

/// Reads a schedule type.
pub fn decode_schedule_type(v: &JsonValue) -> (r: Option<ScheduleType>)
    ensures
        match json_schedule_type(*v) {
            Some(parts) => r matches Some(st) && has_parts(st, parts),
            None => r is None,
        },
{
    match v {
        JsonValue::Object(m) => {
            let name = match find_member(m, "friendly_name") {
                Some(x) => decode_string(x),
                None => None,
            };
            let periods = match find_member(m, "periods") {
                Some(x) => decode_period_array(x),
                None => None,
            };
            let regex = match find_member(m, "regex") {
                Some(x) => decode_regex(x),
                None => None,
            };
            let color = match find_member(m, "color") {
                Some(x) => decode_color(x),
                None => Some(None),
            };
            let hide = match find_member(m, "hide") {
                Some(x) => decode_bool(x),
                None => Some(false),
            };
            build_schedule_type(name, periods, regex, color, hide)
        },
        JsonValue::Array(a) => {
            if a.len() != 4 && a.len() != 5 {
                return None;
            }
            let hide = if a.len() == 5 { decode_bool(&a[4]) } else { Some(false) };
            build_schedule_type(
                decode_string(&a[0]),
                decode_period_array(&a[1]),
                decode_regex(&a[2]),
                decode_color(&a[3]),
                hide,
            )
        },
        _ => None,
    }
}

/// Reads the schedule type written in the JSON text `text`; `None` where the
/// text is no JSON or holds no schedule type.
pub fn parse_literal(text: &str) -> (r: Option<ScheduleType>)
    ensures
        match literal_schedule(text@) {
            Some(parts) => r matches Some(st) && has_parts(st, parts),
            None => r is None,
        },
{
    match parse_json(text) {
        Some(v) => decode_schedule_type(&v),
        None => None,
    }
}

/// A period object is read member by member: its name is the text of its
/// `friendly_name` member, its start and end are the times that chrono reads
/// from the texts of its `start` and `end` members, its kind is read from its
/// `kind` member, and it has no timestamps; it is read wherever each of the
/// four is read.
pub proof fn law_period_object_members(m: Vec<(String, JsonValue)>, name: String, start: String, end: String, kind: JsonValue)
    requires
        member(m@, "friendly_name"@) == Some(JsonValue::Str(name)),
        member(m@, "start"@) == Some(JsonValue::Str(start)),
        member(m@, "end"@) == Some(JsonValue::Str(end)),
        member(m@, "kind"@) == Some(kind),
    ensures
        json_period(JsonValue::Object(m)) is Some <==> (time_from_text(start@) is Some && time_from_text(end@) is Some
            && json_kind(kind) is Some),
        json_period(JsonValue::Object(m)) matches Some(p) ==> {
            &&& p.friendly_name == name
            &&& time_from_text(start@) == Some(p.start)
            &&& time_from_text(end@) == Some(p.end)
            &&& json_kind(kind) == Some(p.kind)
            &&& p.start_timestamp == 0 && p.end_timestamp == 0
        },
{
}

/// A period array is read place by place: name, start, end and kind, in that
/// order.
pub proof fn law_period_array_places(a: Vec<JsonValue>, name: String, start: String, end: String, kind: JsonValue)
    requires
        a@ == seq![JsonValue::Str(name), JsonValue::Str(start), JsonValue::Str(end), kind],
    ensures
        json_period(JsonValue::Array(a)) is Some <==> (time_from_text(start@) is Some && time_from_text(end@) is Some
            && json_kind(kind) is Some),
        json_period(JsonValue::Array(a)) matches Some(p) ==> {
            &&& p.friendly_name == name
            &&& time_from_text(start@) == Some(p.start)
            &&& time_from_text(end@) == Some(p.end)
            &&& json_kind(kind) == Some(p.kind)
        },
{
}

/// A schedule type object is read member by member: its name from
/// `friendly_name`, its periods from the array `periods` in their order, its
/// pattern from `regex`; without `color` it has none, and without `hide` it is
/// shown.
pub proof fn law_schedule_object_members(m: Vec<(String, JsonValue)>, name: String, periods: Vec<JsonValue>)
    requires
        member(m@, "friendly_name"@) == Some(JsonValue::Str(name)),
        member(m@, "periods"@) == Some(JsonValue::Array(periods)),
        member(m@, "regex"@) == Some(JsonValue::Null),
        member(m@, "color"@) is None,
        member(m@, "hide"@) is None,
    ensures
        json_schedule_type(JsonValue::Object(m)) is Some <==> json_periods(periods@) is Some,
        json_schedule_type(JsonValue::Object(m)) matches Some(parts) ==> {
            &&& parts.0 == name
            &&& parts.1.len() == periods@.len()
            &&& forall|i: int| 0 <= i < periods@.len() ==> json_period(periods@[i]) == Some(#[trigger] parts.1[i])
            &&& parts.2 is None
            &&& parts.3 is None
            &&& !parts.4
        },
{
    if let Some(ps) = json_periods(periods@) {
        lemma_json_periods_each(periods@);
    }
}

/// Each period of a list read from JSON is read from the value at its place.
proof fn lemma_json_periods_each(vs: Seq<JsonValue>)
    ensures
        json_periods(vs) matches Some(ps) ==> ps.len() == vs.len() && forall|i: int| 0 <= i < vs.len() ==> json_period(vs[i]) == Some(#[trigger] ps[i]),
    decreases vs.len(),
{
    if vs.len() > 0 {
        lemma_json_periods_each(vs.drop_last());
        if let Some(ps) = json_periods(vs) {
            let q = json_periods(vs.drop_last())->0;
            assert forall|i: int| 0 <= i < vs.len() implies json_period(vs[i]) == Some(#[trigger] ps[i]) by {
                if i < vs.len() - 1 {
                    assert(vs.drop_last()[i] == vs[i]);
                    assert(ps[i] == q[i]);
                }
            }
        }
    }
}

/// The optional members of a schedule type object are read as written: the
/// pattern is the text of `regex` where the regex crate accepts it, the color
/// is the three bytes of `color` in their order (red, green, blue), and the
/// type is hidden exactly where `hide` is `true`.
pub proof fn law_schedule_object_options(
    m: Vec<(String, JsonValue)>,
    name: String,
    periods: Vec<JsonValue>,
    pattern: String,
    color: Vec<JsonValue>,
    hide: bool,
)
    requires
        member(m@, "friendly_name"@) == Some(JsonValue::Str(name)),
        member(m@, "periods"@) == Some(JsonValue::Array(periods)),
        member(m@, "regex"@) == Some(JsonValue::Str(pattern)),
        member(m@, "color"@) == Some(JsonValue::Array(color)),
        member(m@, "hide"@) == Some(JsonValue::Bool(hide)),
        color@.len() == 3,
        json_u8(color@[0]) is Some,
        json_u8(color@[1]) is Some,
        json_u8(color@[2]) is Some,
        regex_valid(pattern@),
        json_periods(periods@) is Some,
    ensures
        json_schedule_type(JsonValue::Object(m)) matches Some(parts) && {
            &&& parts.0 == name
            &&& parts.2 == Some(pattern)
            &&& parts.3 == Some([json_u8(color@[0])->0, json_u8(color@[1])->0, json_u8(color@[2])->0])
            &&& parts.4 == hide
        },
{
}

/// A kind of period is read from the name that its `Debug` text gives it, and
/// a class, or a class or lunch, from an object of one member from that name
/// to the text of the class.
pub proof fn law_kind_names(k: PeriodType, name: String, m: Vec<(String, JsonValue)>, tag: String, x: String)
    requires
        m@ == seq![(tag, JsonValue::Str(x))],
    ensures
        !(k is Class) && !(k is ClassOrLunch) && name@ == crate::api::legacy::kind_debug(k) ==> json_kind(JsonValue::Str(name)) == Some(k),
        tag@ == "Class"@ ==> json_kind(JsonValue::Object(m)) == Some(PeriodType::Class(x)),
        tag@ == "ClassOrLunch"@ ==> json_kind(JsonValue::Object(m)) == Some(PeriodType::ClassOrLunch(x)),
{
    reveal_strlit("Lunch");
    reveal_strlit("Break");
    reveal_strlit("AMSupport");
    reveal_strlit("Passing");
    reveal_strlit("BeforeSchool");
    reveal_strlit("AfterSchool");
    reveal_strlit("Announcements");
    reveal_strlit("Class");
    reveal_strlit("ClassOrLunch");
    assert(m@[0] == (tag, JsonValue::Str(x)));
    assert("ClassOrLunch"@ != "Class"@) by {
        assert("ClassOrLunch"@.len() != "Class"@.len());
    }
    let names = seq!["Lunch"@, "Break"@, "AMSupport"@, "Passing"@, "BeforeSchool"@, "AfterSchool"@, "Announcements"@];
    assert(names[0].len() == 5 && names[1].len() == 5 && names[2].len() == 9 && names[3].len() == 7);
    assert(names[4].len() == 12 && names[5].len() == 11 && names[6].len() == 13);
    assert("Lunch"@ != "Break"@) by {
        assert("Lunch"@[0] != "Break"@[0]);
    }
    assert("BeforeSchool"@ != "Class"@ && "AfterSchool"@ != "Class"@) by {
        assert("BeforeSchool"@.len() != "Class"@.len());
    }
    assert("Lunch"@ != "Class"@ && "Break"@ != "Class"@) by {
        assert("Lunch"@[0] != "Class"@[0]);
        assert("Break"@[0] != "Class"@[0]);
    }
}

} // verus!
