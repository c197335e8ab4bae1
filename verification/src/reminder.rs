//! The reminder skill: reading a time of day ("9am", "下午3点", "15:30"),
//! reading a relative time ("in 30 minutes", "tomorrow 9am", "next Monday
//! 3pm") into a plan the clock can be applied to, and the answers of the
//! skill.

use vstd::prelude::*;
use vstd::string::StringSliceAdditionalSpecFns;
use vstd::utf8::{encode_utf8, decode_utf8, is_char_boundary};
use crate::builtin::{
    arg_str, error_reply, lowercased, spec_parse_i64, spec_parse_weekday, parse_i64, parse_weekday, read_str,
    error_value, to_lower, jstr,
};
use crate::json::{JsonValue, JsonModel, json_model, json_str, json_object, new_members, push_member, members_model, spec_get, spec_as_str};
use crate::text::{chars_of, trim_chars, string_from_chars, spec_trim, spec_starts_with, starts_with, str_eq};

verus! {

// ---------------------------------------------------------------------------
// Trusted items: `regex` and the error text of integer parsing

/// The first match of a pattern in a text: its capture groups (the whole
/// match first) and the byte offset where the match ends; nothing when the
/// pattern does not match; the compiler's message when it does not compile.
pub uninterp spec fn first_captures(pattern: Seq<char>, text: Seq<char>) -> Result<Option<(Seq<Option<Seq<char>>>, nat)>, Seq<char>>;

/// `regex::Regex::new(pattern)` (its error as text) then `captures(text)`,
/// giving each group as an optional text and the end of the whole match.
/// The contract names the result, which depends on the two texts alone,
/// and states what the crate documents of match offsets: the end lies on a
/// character boundary of the text.
#[verifier::external_body]
fn regex_first(pattern: &str, text: &str) -> (r: Result<Option<(Vec<Option<String>>, usize)>, String>)
    ensures
        match r {
            Ok(Some((g, end))) => first_captures(pattern@, text@) == Ok::<Option<(Seq<Option<Seq<char>>>, nat)>, Seq<char>>(
                Some((crate::builtin::groups_view(g@), end as nat)),
            ) && end <= text.spec_bytes().len() && is_char_boundary(text.spec_bytes(), end as int),
            Ok(None) => first_captures(pattern@, text@) == Ok::<Option<(Seq<Option<Seq<char>>>, nat)>, Seq<char>>(None),
            Err(e) => first_captures(pattern@, text@) == Err::<Option<(Seq<Option<Seq<char>>>, nat)>, Seq<char>>(e@),
        },
{
    match regex::Regex::new(pattern) {
        Err(e) => Err(e.to_string()),
        Ok(re) => Ok(re.captures(text).map(|c| {
            let end = c.get(0).map(|m| m.end()).unwrap_or(0);
            (c.iter().map(|g| g.map(|g| g.as_str().to_string())).collect(), end)
        })),
    }
}

/// The message of the error `str::parse::<i64>` gives for a text.
pub uninterp spec fn int_error_text(s: Seq<char>) -> Seq<char>;

/// `str::parse::<i64>` on a text it refuses, and the error's message.
#[verifier::external_body]
fn int_parse_error(s: &str) -> (r: String)
    ensures
        r@ == int_error_text(s@),
{
    match s.parse::<i64>() {
        Ok(_) => String::new(),
        Err(e) => e.to_string(),
    }
}

// ---------------------------------------------------------------------------
// Times of day

/// The pattern of "9am" and "9 pm".
pub open spec fn ampm_pattern() -> Seq<char> {
    "(\\d{1,2})\\s*(am|pm)"@
}

/// The pattern of "下午3点".
pub open spec fn dian_pattern() -> Seq<char> {
    "(上午|下午|晚上)?(\\d{1,2})\\s*点"@
}

/// The pattern of "15:30".
pub open spec fn colon_pattern() -> Seq<char> {
    "(\\d{1,2}):(\\d{2})"@
}

/// What `u32::from_str` reads: an optional plus sign, then ASCII digits,
/// within range.
pub open spec fn spec_parse_u32(s: Seq<char>) -> Option<u32> {
    if s.len() > 0 && s[0] == '-' {
        None
    } else {
        match spec_parse_i64(s) {
            Some(v) => if 0 <= v <= u32::MAX {
                Some(v as u32)
            } else {
                None
            },
            None => None,
        }
    }
}

/// Reads a `u32` as `u32::from_str` does.
pub fn parse_u32(s: &str) -> (r: Option<u32>)
    ensures
        r == spec_parse_u32(s@),
{
    let c = chars_of(s);
    if c.len() > 0 && c[0] == '-' {
        return None;
    }
    match parse_i64(s) {
        Some(v) => {
            if 0 <= v && v <= u32::MAX as i64 {
                Some(v as u32)
            } else {
                None
            }
        },
        None => None,
    }
}

/// Group `i` of a match, empty when it did not take part.
pub open spec fn group(g: Seq<Option<Seq<char>>>, i: int) -> Seq<char> {
    if 0 <= i < g.len() {
        match g[i] {
            Some(t) => t,
            None => Seq::empty(),
        }
    } else {
        Seq::empty()
    }
}

/// A number read from group `i`, or `dflt` when it does not read.
pub open spec fn group_u32(g: Seq<Option<Seq<char>>>, i: int, dflt: u32) -> u32 {
    match spec_parse_u32(group(g, i)) {
        Some(v) => v,
        None => dflt,
    }
}

/// The match of a pattern when the pattern compiles and matches.
pub open spec fn matched(pattern: Seq<char>, text: Seq<char>) -> Option<Seq<Option<Seq<char>>>> {
    match first_captures(pattern, text) {
        Ok(Some((g, _))) => Some(g),
        _ => None,
    }
}

/// The hour and minute a time of day names: "9am"/"9pm" (12am is 0,
/// afternoon hours add 12), "上午/下午/晚上 N点" (afternoon and evening add
/// 12 below noon, 上午12点 is 0), "H:MM"; nine o'clock when none matches.
/// Only the hour and minute are read, not checked.
pub open spec fn spec_hour_min(s: Seq<char>) -> (u32, u32) {
    let t = lowercased(spec_trim(s));
    match matched(ampm_pattern(), t) {
        Some(g) => {
            let h = group_u32(g, 1, 9);
            let pm = group(g, 2) == "pm"@;
            (if pm && h < 12 {
                (h + 12) as u32
            } else if !pm && h == 12 {
                0
            } else {
                h
            }, 0)
        },
        None => match matched(dian_pattern(), t) {
            Some(g) => {
                let h = group_u32(g, 2, 9);
                let part = if 1 < g.len() { g[1] } else { None };
                (if (part == Some("下午"@) || part == Some("晚上"@)) && h < 12 {
                    (h + 12) as u32
                } else if part == Some("上午"@) && h == 12 {
                    0
                } else {
                    h
                }, 0)
            },
            None => match matched(colon_pattern(), t) {
                Some(g) => (group_u32(g, 1, 9), group_u32(g, 2, 0)),
                None => (9, 0),
            },
        },
    }
}

fn group_text(g: &Vec<Option<String>>, i: usize) -> (r: String)
    ensures
        r@ == group(crate::builtin::groups_view(g@), i as int),
{
    if i < g.len() {
        match &g[i] {
            Some(t) => t.clone(),
            None => String::new(),
        }
    } else {
        String::new()
    }
}

fn group_num(g: &Vec<Option<String>>, i: usize, dflt: u32) -> (r: u32)
    ensures
        r == group_u32(crate::builtin::groups_view(g@), i as int, dflt),
{
    let t = group_text(g, i);
    match parse_u32(t.as_str()) {
        Some(v) => v,
        None => dflt,
    }
}

fn first_match(pattern: &str, text: &str) -> (r: Option<Vec<Option<String>>>)
    ensures
        match r {
            Some(g) => matched(pattern@, text@) == Some(crate::builtin::groups_view(g@)),
            None => matched(pattern@, text@) is None,
        },
{
    match regex_first(pattern, text) {
        Ok(Some((g, _))) => Some(g),
        _ => None,
    }
}

/// Reads a time of day.
pub fn parse_hour_min(s: &str) -> (r: (u32, u32))
    ensures
        r == spec_hour_min(s@),
{
    proof {
        reveal_strlit("(\\d{1,2})\\s*(am|pm)");
        reveal_strlit("(上午|下午|晚上)?(\\d{1,2})\\s*点");
        reveal_strlit("(\\d{1,2}):(\\d{2})");
        reveal_strlit("pm");
        reveal_strlit("下午");
        reveal_strlit("晚上");
        reveal_strlit("上午");
    }
    let trimmed = string_from_chars(&trim_chars(&chars_of(s)));
    let t = to_lower(trimmed.as_str());
    if let Some(g) = first_match("(\\d{1,2})\\s*(am|pm)", t.as_str()) {
        let h = group_num(&g, 1, 9);
        let pm = str_eq(group_text(&g, 2).as_str(), "pm");
        let hour = if pm && h < 12 {
            h + 12
        } else if !pm && h == 12 {
            0
        } else {
            h
        };
        return (hour, 0);
    }
    if let Some(g) = first_match("(上午|下午|晚上)?(\\d{1,2})\\s*点", t.as_str()) {
        let h = group_num(&g, 2, 9);
        let (afternoon, morning) = if 1 < g.len() {
            match &g[1] {
                Some(p) => (str_eq(p.as_str(), "下午") || str_eq(p.as_str(), "晚上"), str_eq(p.as_str(), "上午")),
                None => (false, false),
            }
        } else {
            (false, false)
        };
        let hour = if afternoon && h < 12 {
            h + 12
        } else if morning && h == 12 {
            0
        } else {
            h
        };
        return (hour, 0);
    }
    if let Some(g) = first_match("(\\d{1,2}):(\\d{2})", t.as_str()) {
        return (group_num(&g, 1, 9), group_num(&g, 2, 0));
    }
    (9, 0)
}

// ---------------------------------------------------------------------------
// Relative times

/// A unit of a relative time.
#[derive(Clone, Copy, Debug, PartialEq, Eq, Structural)]
pub enum TimeUnit {
    Minutes,
    Hours,
    Days,
}

/// When a relative time falls: an amount of a unit after now, or a time of
/// day some days from today (counted in local dates).
#[derive(Clone, Copy, Debug, PartialEq, Eq, Structural)]
pub enum RelativePlan {
    After { unit: TimeUnit, amount: i64 },
    At { days_ahead: i64, hour: u32, minute: u32 },
}

/// The pattern of "in 30 minutes".
pub open spec fn minutes_pattern() -> Seq<char> {
    "in\\s+(\\d+)\\s*(分钟|minute|min|分)"@
}

/// The pattern of "in 2 hours".
pub open spec fn hours_pattern() -> Seq<char> {
    "in\\s+(\\d+)\\s*(小时|hour|hr|时)"@
}

/// The pattern of "in 3 days".
pub open spec fn days_pattern() -> Seq<char> {
    "in\\s+(\\d+)\\s*(天|day)"@
}

/// The pattern of "next Monday".
pub open spec fn next_pattern() -> Seq<char> {
    "next\\s+(monday|tuesday|wednesday|thursday|friday|saturday|sunday|周一|周二|周三|周四|周五|周六|周日|星期一|星期二|星期三|星期四|星期五|星期六|星期天)"@
}

/// The answer for a relative time no pattern reads.
pub open spec fn unrecognized_time() -> Seq<char> {
    "无法识别的相对时间格式。支持：'in 30 minutes'、'in 2 hours'、'tomorrow 9am'、'next Monday 3pm'"@
}

/// What an "in N units" pattern says of a text: nothing when it does not
/// match; the compiler's message when it does not compile; the amount, or
/// the parser's message when the number does not fit.
pub open spec fn after_plan(t: Seq<char>, pattern: Seq<char>, unit: TimeUnit) -> Option<Result<RelativePlan, Seq<char>>> {
    match first_captures(pattern, t) {
        Err(e) => Some(Err(e)),
        Ok(None) => None,
        Ok(Some((g, _))) => Some(match spec_parse_i64(group(g, 1)) {
            Some(n) => Ok(RelativePlan::After { unit, amount: n }),
            None => Err(int_error_text(group(g, 1))),
        }),
    }
}

/// `s` with every occurrence of `p` (not empty) removed, left to right.
pub open spec fn remove_all(s: Seq<char>, p: Seq<char>) -> Seq<char>
    decreases s.len(),
{
    if s.len() == 0 || p.len() == 0 {
        s
    } else if spec_starts_with(s, p) {
        remove_all(s.subrange(p.len() as int, s.len() as int), p)
    } else {
        seq![s[0]] + remove_all(s.drop_first(), p)
    }
}

/// The text after byte `end` of a text.
pub open spec fn tail_after(t: Seq<char>, end: nat) -> Seq<char> {
    decode_utf8(encode_utf8(t).subrange(end as int, encode_utf8(t).len() as int))
}

/// A time of day on a day `days` from today; nine o'clock on `fallback_days`
/// when the hour or minute does not exist.
pub open spec fn at_time(days: i64, hm: (u32, u32), fallback_days: i64) -> RelativePlan {
    if hm.0 <= 23 && hm.1 <= 59 {
        RelativePlan::At { days_ahead: days, hour: hm.0, minute: hm.1 }
    } else {
        RelativePlan::At { days_ahead: fallback_days, hour: 9, minute: 0 }
    }
}

/// The days from a weekday (counted from Monday, 0) to the next given one,
/// one to seven.
pub open spec fn days_to_next(target: u32, today: u32) -> i64 {
    let d = target - today;
    if d <= 0 {
        (d + 7) as i64
    } else {
        d as i64
    }
}

/// What a relative time says, `now_weekday` being today's weekday counted
/// from Monday: "in N minutes/hours/days", "tomorrow" with a time of day
/// (a time that does not exist means nine o'clock today), "next <weekday>"
/// with a time of day (nine o'clock when it does not exist), tried in that
/// order on the trimmed, lower-case text.
pub open spec fn spec_relative_plan(rel: Seq<char>, now_weekday: u32) -> Result<RelativePlan, Seq<char>> {
    let t = lowercased(spec_trim(rel));
    match after_plan(t, minutes_pattern(), TimeUnit::Minutes) {
        Some(r) => r,
        None => match after_plan(t, hours_pattern(), TimeUnit::Hours) {
            Some(r) => r,
            None => match after_plan(t, days_pattern(), TimeUnit::Days) {
                Some(r) => r,
                None => if spec_starts_with(t, "tomorrow"@) {
                    Ok(at_time(1, spec_hour_min(spec_trim(remove_all(t, "tomorrow"@))), 0))
                } else {
                    match first_captures(next_pattern(), t) {
                        Err(e) => Err(e),
                        Ok(None) => Err(unrecognized_time()),
                        Ok(Some((g, end))) => {
                            let d = days_to_next(spec_parse_weekday(group(g, 1)), now_weekday);
                            Ok(at_time(d, spec_hour_min(spec_trim(tail_after(t, end))), d))
                        },
                    }
                },
            },
        },
    }
}

fn after_plan_exec(t: &str, pattern: &str, unit: TimeUnit) -> (r: Option<Result<RelativePlan, String>>)
    ensures
        match r {
            Some(Ok(p)) => after_plan(t@, pattern@, unit) == Some(Ok::<RelativePlan, Seq<char>>(p)),
            Some(Err(e)) => after_plan(t@, pattern@, unit) == Some(Err::<RelativePlan, Seq<char>>(e@)),
            None => after_plan(t@, pattern@, unit) is None,
        },
{
    match regex_first(pattern, t) {
        Err(e) => Some(Err(e)),
        Ok(None) => None,
        Ok(Some((g, _))) => {
            let n = group_text(&g, 1);
            match parse_i64(n.as_str()) {
                Some(v) => Some(Ok(RelativePlan::After { unit, amount: v })),
                None => Some(Err(int_parse_error(n.as_str()))),
            }
        },
    }
}

fn remove_all_exec(s: &str, p: &str) -> (r: String)
    ensures
        r@ == remove_all(s@, p@),
{
    let a = chars_of(s);
    let q = chars_of(p);
    let mut out: Vec<char> = Vec::new();
    let mut i: usize = 0;
    if q.len() == 0 {
        return String::from_str(s);
    }
    assert(a@.skip(0) =~= a@);
    assert(out@ + remove_all(a@.skip(0), q@) =~= remove_all(s@, p@));
    while i < a.len()
        invariant
            i <= a@.len(),
            a@ == s@,
            q@ == p@,
            q@.len() > 0,
            out@ + remove_all(a@.skip(i as int), q@) == remove_all(s@, p@),
        decreases a.len() - i,
    {
        let ghost rest = a@.skip(i as int);
        let mut k: usize = 0;
        let fits = a.len() - i >= q.len();
        let mut same = fits;
        if fits {
            while k < q.len()
                invariant
                    k <= q@.len(),
                    q@.len() == q.len(),
                    a@.len() == a.len(),
                    i + q@.len() <= a@.len(),
                    same == forall|j: int| 0 <= j < k ==> a@[i + j] == q@[j],
                decreases q.len() - k,
            {
                if a[i + k] != q[k] {
                    same = false;
                }
                k += 1;
            }
        }
        proof {
            if fits {
                if same {
                    assert(rest.subrange(0, q@.len() as int) =~= q@);
                } else {
                    let j = choose|j: int| 0 <= j < q@.len() && a@[i + j] != q@[j];
                    assert(rest.subrange(0, q@.len() as int)[j] != q@[j]);
                }
            }
        }
        if fits && same {
            proof {
                assert(rest.subrange(q@.len() as int, rest.len() as int) =~= a@.skip(i + q@.len()));
            }
            i += q.len();
        } else {
            proof {
                assert(rest.drop_first() =~= a@.skip(i + 1));
                assert(out@.push(a@[i as int]) + remove_all(a@.skip(i + 1), q@) =~= out@ + (seq![rest[0]] + remove_all(
                    rest.drop_first(),
                    q@,
                )));
            }
            out.push(a[i]);
            i += 1;
        }
    }
    proof {
        assert(a@.skip(i as int) =~= Seq::<char>::empty());
        assert(out@ + Seq::<char>::empty() =~= out@);
    }
    string_from_chars(&out)
}

fn tail_after_exec(t: &str, end: usize) -> (r: String)
    requires
        end <= t.spec_bytes().len(),
        is_char_boundary(t.spec_bytes(), end as int),
    ensures
        r@ == tail_after(t@, end as nat),
{
    let (_, tail) = t.split_at(end);
    proof {
        vstd::utf8::encode_utf8_decode_utf8(tail@);
    }
    tail.to_owned()
}

fn at_time_exec(days: i64, hm: (u32, u32), fallback_days: i64) -> (r: RelativePlan)
    ensures
        r == at_time(days, hm, fallback_days),
{
    if hm.0 <= 23 && hm.1 <= 59 {
        RelativePlan::At { days_ahead: days, hour: hm.0, minute: hm.1 }
    } else {
        RelativePlan::At { days_ahead: fallback_days, hour: 9, minute: 0 }
    }
}

/// Reads a relative time, `now_weekday` being today's weekday counted from
/// Monday.
pub fn relative_plan(rel: &str, now_weekday: u32) -> (r: Result<RelativePlan, String>)
    ensures
        match r {
            Ok(p) => spec_relative_plan(rel@, now_weekday) == Ok::<RelativePlan, Seq<char>>(p),
            Err(e) => spec_relative_plan(rel@, now_weekday) == Err::<RelativePlan, Seq<char>>(e@),
        },
{
    proof {
        reveal_strlit("in\\s+(\\d+)\\s*(分钟|minute|min|分)");
        reveal_strlit("in\\s+(\\d+)\\s*(小时|hour|hr|时)");
        reveal_strlit("in\\s+(\\d+)\\s*(天|day)");
        reveal_strlit("tomorrow");
    }
    let trimmed = string_from_chars(&trim_chars(&chars_of(rel)));
    let t = to_lower(trimmed.as_str());
    if let Some(r) = after_plan_exec(t.as_str(), "in\\s+(\\d+)\\s*(分钟|minute|min|分)", TimeUnit::Minutes) {
        return r;
    }
    if let Some(r) = after_plan_exec(t.as_str(), "in\\s+(\\d+)\\s*(小时|hour|hr|时)", TimeUnit::Hours) {
        return r;
    }
    if let Some(r) = after_plan_exec(t.as_str(), "in\\s+(\\d+)\\s*(天|day)", TimeUnit::Days) {
        return r;
    }
    if starts_with(t.as_str(), "tomorrow") {
        let rest = remove_all_exec(t.as_str(), "tomorrow");
        let trimmed_rest = string_from_chars(&trim_chars(&chars_of(rest.as_str())));
        let hm = parse_hour_min(trimmed_rest.as_str());
        return Ok(at_time_exec(1, hm, 0));
    }
    proof {
        reveal_strlit("next\\s+(monday|tuesday|wednesday|thursday|friday|saturday|sunday|周一|周二|周三|周四|周五|周六|周日|星期一|星期二|星期三|星期四|星期五|星期六|星期天)");
    }
    match regex_first(
        "next\\s+(monday|tuesday|wednesday|thursday|friday|saturday|sunday|周一|周二|周三|周四|周五|周六|周日|星期一|星期二|星期三|星期四|星期五|星期六|星期天)",
        t.as_str(),
    ) {
        Err(e) => Err(e),
        Ok(None) => Err(String::from_str("无法识别的相对时间格式。支持：'in 30 minutes'、'in 2 hours'、'tomorrow 9am'、'next Monday 3pm'")),
        Ok(Some((g, end))) => {
            let wd = parse_weekday(group_text(&g, 1).as_str());
            let d0: i64 = wd as i64 - now_weekday as i64;
            let d: i64 = if d0 <= 0 {
                d0 + 7
            } else {
                d0
            };
            let rest = tail_after_exec(t.as_str(), end);
            let trimmed_rest = string_from_chars(&trim_chars(&chars_of(rest.as_str())));
            let hm = parse_hour_min(trimmed_rest.as_str());
            Ok(at_time_exec(d, hm, d))
        },
    }
}

// ---------------------------------------------------------------------------
// The skill's answers

/// When a reminder fires: at a relative time, or at the time given as text.
pub enum ReminderTime {
    Relative(RelativePlan),
    FireAt(String),
}

/// A reminder request, once read: its text, its repetition and when it fires.
pub struct ReminderPlan {
    pub content: String,
    pub repeat: String,
    pub time: ReminderTime,
}

/// The model of a reminder's time.
pub enum TimeModel {
    Relative(RelativePlan),
    FireAt(Seq<char>),
}

/// The model of a reminder's time.
pub open spec fn time_model(t: ReminderTime) -> TimeModel {
    match t {
        ReminderTime::Relative(p) => TimeModel::Relative(p),
        ReminderTime::FireAt(s) => TimeModel::FireAt(s@),
    }
}

/// When a reminder request fires, `now_weekday` being today's weekday: its
/// relative time when it gives one as text (refused when it does not read),
/// else its `fire_at` text (refused when empty).
pub open spec fn spec_reminder_time(args: JsonValue, now_weekday: u32) -> Result<TimeModel, JsonModel> {
    let rel = match spec_get(args, "relative_time"@) {
        Some(x) => spec_as_str(x),
        None => None,
    };
    match rel {
        Some(r) => match spec_relative_plan(r, now_weekday) {
            Ok(p) => Ok(TimeModel::Relative(p)),
            Err(e) => Err(error_reply("无法解析相对时间 '"@ + r + "': "@ + e)),
        },
        None => {
            let f = arg_str(args, "fire_at"@, Seq::empty());
            if f.len() == 0 {
                Err(error_reply("请提供提醒时间（fire_at 或 relative_time）"@))
            } else {
                Ok(TimeModel::FireAt(f))
            }
        },
    }
}

/// Reads a reminder request, `now_weekday` being today's weekday counted
/// from Monday: its text (empty by default), its repetition ("none" by
/// default) and when it fires, or the answer that refuses it.
pub fn plan_reminder(args: &JsonValue, now_weekday: u32) -> (r: Result<ReminderPlan, JsonValue>)
    ensures
        match r {
            Ok(p) => spec_reminder_time(*args, now_weekday) == Ok::<TimeModel, JsonModel>(time_model(p.time))
                && p.content@ == arg_str(*args, "content"@, Seq::empty())
                && p.repeat@ == arg_str(*args, "repeat"@, "none"@),
            Err(e) => spec_reminder_time(*args, now_weekday) == Err::<TimeModel, JsonModel>(json_model(e)),
        },
{
    proof {
        reveal_strlit("");
        assert(""@ =~= Seq::<char>::empty());
    }
    let rel = match args.get("relative_time") {
        Some(x) => x.as_str(),
        None => None,
    };
    let time = match rel {
        Some(r) => match relative_plan(r, now_weekday) {
            Ok(p) => ReminderTime::Relative(p),
            Err(e) => {
                let mut msg = String::from_str("无法解析相对时间 '");
                msg.append(r);
                msg.append("': ");
                msg.append(e.as_str());
                return Err(error_value(msg.as_str()));
            },
        },
        None => {
            let f = read_str(args, "fire_at", "");
            if f.as_str().is_empty() {
                return Err(error_value("请提供提醒时间（fire_at 或 relative_time）"));
            }
            ReminderTime::FireAt(f)
        },
    };
    let content = read_str(args, "content", "");
    let repeat = read_str(args, "repeat", "none");
    Ok(ReminderPlan { content, repeat, time })
}

/// Whether an id is that of a reminder: `rem_` and a random identifier.
pub open spec fn is_reminder_id(id: Seq<char>) -> bool {
    id.len() == 40 && id.take(4) == "rem_"@
}

/// A fresh reminder id.
pub fn new_reminder_id() -> (r: String)
    ensures
        is_reminder_id(r@),
{
    let u = crate::stream::new_uuid_text();
    let mut s = String::from_str("rem_");
    proof {
        reveal_strlit("rem_");
    }
    s.append(u.as_str());
    assert(s@.take(4) =~= "rem_"@);
    s
}

/// The answer after a reminder was stored.
pub open spec fn reminder_created_reply(id: Seq<char>, fire_at: Seq<char>, content: Seq<char>, repeat: Seq<char>) -> JsonModel {
    JsonModel::Object(
        seq![
            ("status"@, jstr("created"@)),
            ("id"@, jstr(id)),
            ("fire_at"@, jstr(fire_at)),
            ("content"@, jstr(content)),
            ("repeat"@, jstr(repeat)),
        ],
    )
}

/// The answer after a reminder was stored.
pub fn reminder_created(id: &str, fire_at: &str, content: &str, repeat: &str) -> (r: JsonValue)
    ensures
        json_model(r) == reminder_created_reply(id@, fire_at@, content@, repeat@),
{
    let mut m = new_members();
    push_member(&mut m, "status", json_str("created"));
    push_member(&mut m, "id", json_str(id));
    push_member(&mut m, "fire_at", json_str(fire_at));
    push_member(&mut m, "content", json_str(content));
    push_member(&mut m, "repeat", json_str(repeat));
    assert(members_model(m@) =~= reminder_created_reply(id@, fire_at@, content@, repeat@)->Object_0);
    json_object(m)
}

} // verus!
