//! The chat pipeline's own decisions: the system prompt with its sense of
//! time (weekday, season, time of day, festivals ahead), the canned reply
//! used when no model is available, and how a user message moves the
//! relationship.

use vstd::prelude::*;
use vstd::string::StringExecFns;

use chrono::{Datelike, Timelike};
use crate::models::PersonaDefinition;
use crate::relationship::InteractionEvent;
use crate::text::{spec_decimal, decimal_string, spec_join, strs_view, join_strs, spec_contains, contains};
use crate::ilink::{spec_int_text, i64_text};
use crate::chat::{ChatMessage, MessageModel, messages_view, text_message};

verus! {

// ---------------------------------------------------------------------------
// Calendar
// ---------------------------------------------------------------------------

/// The Chinese numeral of a weekday counted from Monday (0) to Sunday.
pub open spec fn spec_weekday_cn(from_monday: u32) -> Seq<char> {
    if from_monday == 0 { "一"@ } else if from_monday == 1 { "二"@ } else if from_monday == 2 { "三"@ }
    else if from_monday == 3 { "四"@ } else if from_monday == 4 { "五"@ } else if from_monday == 5 { "六"@ }
    else { "日"@ }
}

/// The Chinese numeral of a weekday counted from Monday (0) to Sunday.
pub fn weekday_numeral(from_monday: u32) -> (r: &'static str)
    ensures
        r@ == spec_weekday_cn(from_monday),
{
    match from_monday {
        0 => "一",
        1 => "二",
        2 => "三",
        3 => "四",
        4 => "五",
        5 => "六",
        _ => "日",
    }
}

/// The season of a month.
pub open spec fn spec_season(month: u32) -> Seq<char> {
    if 3 <= month && month <= 5 { "春"@ } else if 6 <= month && month <= 8 { "夏"@ }
    else if 9 <= month && month <= 11 { "秋"@ } else { "冬"@ }
}

/// The season of a month.
pub fn season(month: u32) -> (r: &'static str)
    ensures
        r@ == spec_season(month),
{
    if 3 <= month && month <= 5 { "春" } else if 6 <= month && month <= 8 { "夏" }
    else if 9 <= month && month <= 11 { "秋" } else { "冬" }
}

/// The part of the day an hour falls in.
pub open spec fn spec_time_of_day(hour: u32) -> Seq<char> {
    if hour <= 5 { "凌晨"@ } else if hour <= 8 { "早晨"@ } else if hour <= 11 { "上午"@ }
    else if hour <= 13 { "中午"@ } else if hour <= 17 { "下午"@ } else if hour <= 19 { "傍晚"@ }
    else if hour <= 22 { "晚上"@ } else { "深夜"@ }
}

/// The part of the day an hour falls in.
pub fn time_of_day(hour: u32) -> (r: &'static str)
    ensures
        r@ == spec_time_of_day(hour),
{
    if hour <= 5 { "凌晨" } else if hour <= 8 { "早晨" } else if hour <= 11 { "上午" }
    else if hour <= 13 { "中午" } else if hour <= 17 { "下午" } else if hour <= 19 { "傍晚" }
    else if hour <= 22 { "晚上" } else { "深夜" }
}

/// The festivals the lunar hint knows, by Gregorian month and day.
pub open spec fn lunar_hints() -> Seq<(u32, u32, Seq<char>)> {
    seq![
        (1u32, 1u32, "春节/农历正月初一"@),
        (1, 15, "元宵节附近"@),
        (2, 14, "情人节"@),
        (3, 8, "妇女节"@),
        (4, 5, "清明节附近"@),
        (5, 1, "劳动节"@),
        (5, 4, "青年节"@),
        (6, 1, "儿童节"@),
        (7, 1, "建党节"@),
        (8, 1, "建军节"@),
        (9, 10, "教师节"@),
        (10, 1, "国庆节"@),
        (12, 25, "圣诞节"@),
        (12, 31, "元旦前夕"@),
    ]
}

/// Whether a festival on (`m`, `d`) is near (`month`, `day`): same month,
/// and the same day or one day off.
pub open spec fn near_day(m: u32, d: u32, month: u32, day: u32) -> bool {
    m == month && (d == day || (day > 0 && d == day + 1) || (day > 1 && d == day - 1))
}

/// The first festival of the table near the date, if any.
pub open spec fn first_near(t: Seq<(u32, u32, Seq<char>)>, month: u32, day: u32) -> Option<Seq<char>>
    decreases t.len(),
{
    if t.len() == 0 {
        None
    } else if near_day(t[0].0, t[0].1, month, day) {
        Some(t[0].2)
    } else {
        first_near(t.drop_first(), month, day)
    }
}

/// The traditional name of a lunar month numbered like the Gregorian one.
pub open spec fn lunar_month_name(month: u32) -> Seq<char> {
    if month == 1 { "正月"@ } else if month == 2 { "二月"@ } else if month == 3 { "三月"@ }
    else if month == 4 { "四月"@ } else if month == 5 { "五月"@ } else if month == 6 { "六月"@ }
    else if month == 7 { "七月"@ } else if month == 8 { "八月"@ } else if month == 9 { "九月"@ }
    else if month == 10 { "十月"@ } else if month == 11 { "冬月"@ } else if month == 12 { "腊月"@ }
    else { Seq::empty() }
}

/// An approximate lunar-calendar hint for a date: a festival near it, else
/// the name of the month.
pub open spec fn spec_simple_lunar_date(month: u32, day: u32) -> Seq<char> {
    match first_near(lunar_hints(), month, day) {
        Some(name) => "临近节日："@ + name,
        None => "农历"@ + lunar_month_name(month),
    }
}

fn lunar_month(month: u32) -> (r: &'static str)
    ensures
        r@ == lunar_month_name(month),
{
    match month {
        1 => "正月",
        2 => "二月",
        3 => "三月",
        4 => "四月",
        5 => "五月",
        6 => "六月",
        7 => "七月",
        8 => "八月",
        9 => "九月",
        10 => "十月",
        11 => "冬月",
        12 => "腊月",
        _ => {
            proof {
                reveal_strlit("");
            }
            ""
        },
    }
}

/// An approximate lunar-calendar hint for a date.
pub fn simple_lunar_date(month: u32, day: u32) -> (r: String)
    ensures
        r@ == spec_simple_lunar_date(month, day),
{
    let table: [(u32, u32, &str); 14] = [
        (1, 1, "春节/农历正月初一"),
        (1, 15, "元宵节附近"),
        (2, 14, "情人节"),
        (3, 8, "妇女节"),
        (4, 5, "清明节附近"),
        (5, 1, "劳动节"),
        (5, 4, "青年节"),
        (6, 1, "儿童节"),
        (7, 1, "建党节"),
        (8, 1, "建军节"),
        (9, 10, "教师节"),
        (10, 1, "国庆节"),
        (12, 25, "圣诞节"),
        (12, 31, "元旦前夕"),
    ];
    let ghost hints = lunar_hints();
    assert(table@.map_values(|e: (u32, u32, &str)| (e.0, e.1, e.2@)) =~= hints);
    let mut k: usize = 0;
    assert(hints.skip(0) =~= hints);
    while k < 14
        invariant
            k <= 14,
            hints == lunar_hints(),
            table@.map_values(|e: (u32, u32, &str)| (e.0, e.1, e.2@)) == hints,
            first_near(hints, month, day) == first_near(hints.skip(k as int), month, day),
        decreases 14 - k,
    {
        let (m, d, name) = table[k];
        let ghost rest = hints.skip(k as int);
        assert(rest[0] == hints[k as int]);
        assert(hints[k as int] == (m, d, name@));
        assert(rest.drop_first() =~= hints.skip(k + 1));
        let near = m == month && (d == day || (day > 0 && d as u64 == day as u64 + 1) || (day > 1 && d == day - 1));
        if near {
            let mut r = String::from_str("临近节日：");
            r.append(name);
            return r;
        }
        k += 1;
    }
    assert(hints.skip(14) =~= Seq::<(u32, u32, Seq<char>)>::empty());
    let mut r = String::from_str("农历");
    r.append(lunar_month(month));
    r
}

/// Whether `y` is a leap year of the proleptic Gregorian calendar.
pub open spec fn is_leap(y: int) -> bool {
    y % 4 == 0 && (y % 100 != 0 || y % 400 == 0)
}

/// The number of days in a month.
pub open spec fn days_in_month(y: int, m: int) -> int {
    if m == 2 {
        if is_leap(y) { 29 } else { 28 }
    } else if m == 4 || m == 6 || m == 9 || m == 11 {
        30
    } else {
        31
    }
}

/// Whether a date exists in the calendar the dates are computed in (years
/// -262143 to 262142).
pub open spec fn valid_date(y: int, m: int, d: int) -> bool {
    -262143 <= y <= 262142 && 1 <= m <= 12 && 1 <= d <= days_in_month(y, m)
}

/// A day count in which consecutive dates differ by one (shifted by a
/// constant so that every valid date counts positively).
pub open spec fn day_number(y: int, m: int, d: int) -> int {
    let y2 = (if m <= 2 { y - 1 } else { y }) + 400000;
    let era = y2 / 400;
    let yoe = y2 % 400;
    let mp = if m > 2 { m - 3 } else { m + 9 };
    let doy = (153 * mp + 2) / 5 + d - 1;
    era * 146097 + yoe * 365 + yoe / 4 - yoe / 100 + doy
}

/// Days from the current date to the next (month, day) of this year, or of
/// next year when this year's has passed; -1 when a date does not exist.
pub open spec fn spec_days_until(year: int, tm: u32, td: u32, cm: u32, cd: u32) -> int {
    if valid_date(year, tm as int, td as int) && valid_date(year, cm as int, cd as int) {
        let diff = day_number(year, tm as int, td as int) - day_number(year, cm as int, cd as int);
        if diff >= 0 {
            diff
        } else if valid_date(year + 1, tm as int, td as int) {
            day_number(year + 1, tm as int, td as int) - day_number(year, cm as int, cd as int)
        } else {
            -1
        }
    } else {
        -1
    }
}

fn is_valid_date(y: i64, m: u32, d: u32) -> (r: bool)
    ensures
        r == valid_date(y as int, m as int, d as int),
{
    if y < -262143 || y > 262142 || m < 1 || m > 12 || d < 1 {
        return false;
    }
    let leap = y % 4 == 0 && (y % 100 != 0 || y % 400 == 0);
    assert(leap == is_leap(y as int)) by {
        assert((y % 4 == 0) == ((y as int) % 4 == 0));
        assert((y % 100 == 0) == ((y as int) % 100 == 0));
        assert((y % 400 == 0) == ((y as int) % 400 == 0));
    }
    let dim: u32 = if m == 2 {
        if leap { 29 } else { 28 }
    } else if m == 4 || m == 6 || m == 9 || m == 11 {
        30
    } else {
        31
    };
    d <= dim
}

pub(crate) fn day_number_exec(y: i64, m: u32, d: u32) -> (r: i64)
    requires
        valid_date(y as int, m as int, d as int),
    ensures
        r == day_number(y as int, m as int, d as int),
{
    let y2: i64 = (if m <= 2 { y - 1 } else { y }) + 400000;
    let era: i64 = y2 / 400;
    let yoe: i64 = y2 % 400;
    let mp: i64 = if m > 2 { m as i64 - 3 } else { m as i64 + 9 };
    let doy: i64 = (153 * mp + 2) / 5 + d as i64 - 1;
    assert(0 <= era <= 2000 && 0 <= yoe < 400) by {
        assert(137856 <= y2 <= 662142);
    }
    assert(0 <= era * 146097 <= 2000 * 146097) by (nonlinear_arith)
        requires
            0 <= era <= 2000,
    ;
    assert(0 <= yoe * 365 <= 400 * 365) by (nonlinear_arith)
        requires
            0 <= yoe < 400,
    ;
    era * 146097 + yoe * 365 + yoe / 4 - yoe / 100 + doy
}

/// Days from the current date to the next (month, day).
pub fn days_until(year: i32, target_month: u32, target_day: u32, current_month: u32, current_day: u32) -> (r: i64)
    ensures
        r == spec_days_until(year as int, target_month, target_day, current_month, current_day),
{
    let y = year as i64;
    assert(y + 1 <= i64::MAX);
    if is_valid_date(y, target_month, target_day) && is_valid_date(y, current_month, current_day) {
        let t = day_number_exec(y, target_month, target_day);
        let c = day_number_exec(y, current_month, current_day);
        let diff = t - c;
        if diff >= 0 {
            diff
        } else if is_valid_date(y + 1, target_month, target_day) {
            day_number_exec(y + 1, target_month, target_day) - c
        } else {
            -1
        }
    } else {
        -1
    }
}

/// The festivals that `upcoming_holiday` looks ahead to.
pub open spec fn holidays() -> Seq<(u32, u32, Seq<char>)> {
    seq![
        (1u32, 1u32, "元旦"@),
        (2, 14, "情人节"@),
        (3, 8, "妇女节"@),
        (4, 1, "愚人节"@),
        (5, 1, "劳动节"@),
        (6, 1, "儿童节"@),
        (10, 1, "国庆节"@),
        (12, 25, "圣诞节"@),
        (12, 31, "元旦"@),
    ]
}

/// The nearest festival within 30 days among the first `n` of the table
/// (the earliest listed among equally near ones), with its distance.
pub open spec fn nearest_holiday(year: int, month: u32, day: u32, n: int) -> Option<(int, Seq<char>)>
    decreases n,
{
    if n <= 0 {
        None
    } else {
        let prev = nearest_holiday(year, month, day, n - 1);
        let h = holidays()[n - 1];
        let ahead = spec_days_until(year, h.0, h.1, month, day);
        if 0 <= ahead <= 30 && (prev is None || ahead < prev.unwrap().0) {
            Some((ahead, h.2))
        } else {
            prev
        }
    }
}

/// A hint about the nearest festival within 30 days: "today is …" or
/// "… days until …"; empty when none is that close.
pub open spec fn spec_upcoming_holiday(year: int, month: u32, day: u32) -> Seq<char> {
    match nearest_holiday(year, month, day, 9) {
        Some((d, name)) => if d == 0 {
            "今天是"@ + name + "！"@
        } else {
            "距离"@ + name + "还有"@ + spec_int_text(d) + "天"@
        },
        None => Seq::empty(),
    }
}

/// A hint about the nearest festival within 30 days.
pub fn upcoming_holiday(year: i32, month: u32, day: u32) -> (r: String)
    ensures
        r@ == spec_upcoming_holiday(year as int, month, day),
{
    let table: [(u32, u32, &str); 9] = [
        (1, 1, "元旦"),
        (2, 14, "情人节"),
        (3, 8, "妇女节"),
        (4, 1, "愚人节"),
        (5, 1, "劳动节"),
        (6, 1, "儿童节"),
        (10, 1, "国庆节"),
        (12, 25, "圣诞节"),
        (12, 31, "元旦"),
    ];
    assert(table@.map_values(|e: (u32, u32, &str)| (e.0, e.1, e.2@)) =~= holidays());
    let mut best: Option<(i64, &str)> = None;
    let mut k: usize = 0;
    while k < 9
        invariant
            k <= 9,
            table@.map_values(|e: (u32, u32, &str)| (e.0, e.1, e.2@)) == holidays(),
            match best {
                Some((d, name)) => nearest_holiday(year as int, month, day, k as int) == Some((d as int, name@)),
                None => nearest_holiday(year as int, month, day, k as int) is None,
            },
        decreases 9 - k,
    {
        let (hm, hd, name) = table[k];
        assert(holidays()[k as int] == (hm, hd, name@));
        let ahead = days_until(year, hm, hd, month, day);
        let better = match best {
            Some((d, _)) => ahead < d,
            None => true,
        };
        if 0 <= ahead && ahead <= 30 && better {
            best = Some((ahead, name));
        }
        k += 1;
    }
    match best {
        Some((d, name)) => {
            if d == 0 {
                let mut r = String::from_str("今天是");
                r.append(name);
                r.append("！");
                r
            } else {
                let mut r = String::from_str("距离");
                r.append(name);
                r.append("还有");
                r.append(i64_text(d).as_str());
                r.append("天");
                r
            }
        },
        None => String::new(),
    }
}

// ---------------------------------------------------------------------------
// The system prompt
// ---------------------------------------------------------------------------

/// A moment of local time, as the system prompt shows it.
pub struct LocalTime {
    pub year: i32,
    pub month: u32,
    pub day: u32,
    pub hour: u32,
    pub minute: u32,
    pub weekday_from_monday: u32,
    pub iso_week: u32,
}

/// Reads the local clock with `chrono::Local::now()`.  Trusted: the fields
/// lie in the ranges `chrono` documents for them (month 1 to 12, day 1 to
/// 31, hour 0 to 23, minute 0 to 59, weekday 0 to 6 counted from Monday,
/// ISO week 1 to 53); nothing else is stated, the value being the time of
/// the call.
#[verifier::external_body]
pub fn local_now() -> (t: LocalTime)
    ensures
        1 <= t.month <= 12,
        1 <= t.day <= 31,
        t.hour <= 23,
        t.minute <= 59,
        t.weekday_from_monday <= 6,
        1 <= t.iso_week <= 53,
{
    let now = chrono::Local::now();
    LocalTime {
        year: now.year(),
        month: now.month(),
        day: now.day(),
        hour: now.hour(),
        minute: now.minute(),
        weekday_from_monday: now.weekday().num_days_from_monday(),
        iso_week: now.iso_week().week(),
    }
}

/// A minute with two digits.
pub open spec fn two_digits(n: u32) -> Seq<char> {
    if n < 10 {
        seq!['0'] + spec_decimal(n as nat)
    } else {
        spec_decimal(n as nat)
    }
}

/// The line that tells the model the date and time.
pub open spec fn spec_time_info(t: LocalTime) -> Seq<char> {
    "当前时间："@ + spec_int_text(t.year as int) + "年"@ + spec_decimal(t.month as nat) + "月"@ + spec_decimal(
        t.day as nat,
    ) + "日 "@ + spec_decimal(t.hour as nat) + ":"@ + two_digits(t.minute) + "，星期"@ + spec_weekday_cn(
        t.weekday_from_monday,
    ) + "（"@ + spec_season(t.month) + "季，"@ + spec_time_of_day(t.hour) + "，第"@ + spec_decimal(
        t.iso_week as nat,
    ) + "周）"@ + spec_simple_lunar_date(t.month, t.day) + "。"@ + spec_upcoming_holiday(
        t.year as int,
        t.month,
        t.day,
    )
}

/// The system prompt of a persona at a given moment.
pub open spec fn spec_system_prompt(system_prompt: Seq<char>, personality: Seq<Seq<char>>, t: LocalTime) -> Seq<char> {
    spec_time_info(t) + "\n\n"@ + system_prompt + "\n\n性格特征："@ + spec_join(personality, "、"@)
        + "\n你可以使用以下工具来帮助用户。\n当用户情绪明显波动时，请体现在回复风格中。\n注意：当前是"@
        + spec_time_of_day(t.hour) + "，请根据时段调整语气和回复内容。"@
}

fn time_info(t: &LocalTime) -> (r: String)
    ensures
        r@ == spec_time_info(*t),
{
    let mut r = String::from_str("当前时间：");
    r.append(i64_text(t.year as i64).as_str());
    r.append("年");
    r.append(decimal_string(t.month as u64).as_str());
    r.append("月");
    r.append(decimal_string(t.day as u64).as_str());
    r.append("日 ");
    r.append(decimal_string(t.hour as u64).as_str());
    r.append(":");
    if t.minute < 10 {
        r.append("0");
        proof {
            reveal_strlit("0");
        }
    }
    r.append(decimal_string(t.minute as u64).as_str());
    r.append("，星期");
    r.append(weekday_numeral(t.weekday_from_monday));
    r.append("（");
    r.append(season(t.month));
    r.append("季，");
    r.append(time_of_day(t.hour));
    r.append("，第");
    r.append(decimal_string(t.iso_week as u64).as_str());
    r.append("周）");
    r.append(simple_lunar_date(t.month, t.day).as_str());
    r.append("。");
    r.append(upcoming_holiday(t.year, t.month, t.day).as_str());
    assert(r@ =~= spec_time_info(*t));
    r
}

/// Builds the system prompt of a persona for the moment `t`.
pub fn build_system_prompt_at(persona: &PersonaDefinition, t: &LocalTime) -> (r: String)
    ensures
        r@ == spec_system_prompt(persona.system_prompt@, strs_view(persona.personality@), *t),
{
    let mut r = time_info(t);
    r.append("\n\n");
    r.append(persona.system_prompt.as_str());
    r.append("\n\n性格特征：");
    r.append(join_strs(&persona.personality, "、").as_str());
    r.append("\n你可以使用以下工具来帮助用户。\n当用户情绪明显波动时，请体现在回复风格中。\n注意：当前是");
    r.append(time_of_day(t.hour));
    r.append("，请根据时段调整语气和回复内容。");
    assert(r@ =~= spec_system_prompt(persona.system_prompt@, strs_view(persona.personality@), *t));
    r
}

/// Builds the system prompt of a persona for the current local time.
pub fn build_system_prompt(persona: &PersonaDefinition) -> (r: String)
    ensures
        exists|t: LocalTime| r@ == spec_system_prompt(persona.system_prompt@, strs_view(persona.personality@), t),
{
    let t = local_now();
    build_system_prompt_at(persona, &t)
}

// ---------------------------------------------------------------------------
// Canned replies and interaction events
// ---------------------------------------------------------------------------

/// The reply given when no model is available.  The words looked for
/// ("天气", "你好", "嗨") have no letter case, so looking for them in the
/// message as written or in its lower-case form gives the same answer.
pub struct FallbackLlm;

/// The canned reply to a message: a weather answer when it mentions the
/// weather, a greeting when it greets, else one of three acknowledgements
/// chosen by the message's length in bytes.
pub open spec fn spec_fallback_reply(persona_name: Seq<char>, msg: Seq<char>, byte_len: nat) -> Seq<char> {
    if spec_contains(msg, "天气"@) {
        persona_name + "：让我帮你查一下～今天天气晴朗，气温 28°C，适合出门散步哦！"@
    } else if spec_contains(msg, "你好"@) || spec_contains(msg, "嗨"@) {
        persona_name + "：你好呀～很高兴见到你！"@
    } else if byte_len % 3 == 0 {
        persona_name + "：嗯，我理解你的意思～让我想想怎么回答你最好。"@
    } else if byte_len % 3 == 1 {
        persona_name + "：谢谢你跟我分享这些，我很开心能陪你聊天。"@
    } else {
        persona_name + "：这个问题很有趣呢！我觉得可以从几个角度来看……"@
    }
}

impl FallbackLlm {
    /// The canned reply to a message.
    pub fn generate(persona_name: &str, persona_prompt: &str, user_message: &str) -> (r: String)
        ensures
            r@ == spec_fallback_reply(persona_name@, user_message@, user_message.len() as nat),
    {
        let mut r = String::from_str(persona_name);
        if contains(user_message, "天气") {
            r.append("：让我帮你查一下～今天天气晴朗，气温 28°C，适合出门散步哦！");
            return r;
        }
        if contains(user_message, "你好") || contains(user_message, "嗨") {
            r.append("：你好呀～很高兴见到你！");
            return r;
        }
        let idx = user_message.len() % 3;
        if idx == 0 {
            r.append("：嗯，我理解你的意思～让我想想怎么回答你最好。");
        } else if idx == 1 {
            r.append("：谢谢你跟我分享这些，我很开心能陪你聊天。");
        } else {
            r.append("：这个问题很有趣呢！我觉得可以从几个角度来看……");
        }
        r
    }
}

/// Whether an hour (UTC) counts as late at night.
pub open spec fn spec_is_late_night(hour: u32) -> bool {
    hour >= 23 || hour < 5
}

/// Whether the text contains one of the words.
pub open spec fn contains_any(text: Seq<char>, words: Seq<Seq<char>>) -> bool {
    exists|i: int| 0 <= i < words.len() && spec_contains(text, #[trigger] words[i])
}

/// The words that show affection.
pub open spec fn affectionate_words() -> Seq<Seq<char>> {
    seq!["喜欢"@, "爱"@, "想你"@, "宝贝"@, "亲爱的"@]
}

/// The words that show sadness.
pub open spec fn sad_words() -> Seq<Seq<char>> {
    seq!["难过"@, "伤心"@, "不开心"@, "哭"@, "痛苦"@]
}

/// The words of a curt answer.
pub open spec fn cold_words() -> Seq<Seq<char>> {
    seq!["嗯"@, "哦"@, "..."@]
}

/// The words of confiding.
pub open spec fn sharing_words() -> Seq<Seq<char>> {
    seq!["心事"@, "秘密"@, "告诉你"@, "我觉得"@]
}

/// The kind of interaction a user message is: the first greeting, a long
/// conversation (20 turns or more), a late-night chat, affection, sadness,
/// a curt answer (also any message of at most two bytes), confiding, or an
/// ordinary message; the first that applies.
pub open spec fn spec_classify(history_len: usize, conversation_count: u64, hour: u32, content: Seq<char>, byte_len: nat) -> InteractionEvent {
    let turns = (history_len as u32) / 2;
    if history_len == 0 && conversation_count <= 1 {
        InteractionEvent::FirstGreeting
    } else if turns >= 20 {
        InteractionEvent::LongConversation(turns)
    } else if spec_is_late_night(hour) {
        InteractionEvent::LateNightChat
    } else if contains_any(content, affectionate_words()) {
        InteractionEvent::UserAffectionate
    } else if contains_any(content, sad_words()) {
        InteractionEvent::UserEmotionNegative
    } else if contains_any(content, cold_words()) || byte_len <= 2 {
        InteractionEvent::UserCold
    } else if contains_any(content, sharing_words()) {
        InteractionEvent::UserSharedFeelings
    } else {
        InteractionEvent::Normal
    }
}

fn contains_any_exec(text: &str, words: &[&str]) -> (r: bool)
    ensures
        r == exists|i: int| 0 <= i < words@.len() && spec_contains(text@, #[trigger] words@[i]@),
{
    let mut k: usize = 0;
    while k < words.len()
        invariant
            k <= words.len(),
            forall|i: int| 0 <= i < k ==> !spec_contains(text@, #[trigger] words@[i]@),
        decreases words.len() - k,
    {
        if contains(text, words[k]) {
            return true;
        }
        k += 1;
    }
    false
}

/// Classifies a user message for the relationship; `history_len` is the
/// number of messages already in the session and `hour` the current UTC
/// hour.
pub fn classify_interaction(history_len: usize, conversation_count: u64, hour: u32, content: &str) -> (r: InteractionEvent)
    ensures
        r == spec_classify(history_len, conversation_count, hour, content@, content.len() as nat),
{
    let turns = (history_len as u32) / 2;
    let late = hour >= 23 || hour < 5;
    let aff: [&str; 5] = ["喜欢", "爱", "想你", "宝贝", "亲爱的"];
    let sad: [&str; 5] = ["难过", "伤心", "不开心", "哭", "痛苦"];
    let cold: [&str; 3] = ["嗯", "哦", "..."];
    let share: [&str; 4] = ["心事", "秘密", "告诉你", "我觉得"];
    proof {
        assert(aff@.map_values(|w: &str| w@) =~= affectionate_words());
        assert(sad@.map_values(|w: &str| w@) =~= sad_words());
        assert(cold@.map_values(|w: &str| w@) =~= cold_words());
        assert(share@.map_values(|w: &str| w@) =~= sharing_words());
    }
    let is_aff = contains_any_exec(content, &aff);
    let is_sad = contains_any_exec(content, &sad);
    let is_cold = contains_any_exec(content, &cold);
    let is_share = contains_any_exec(content, &share);
    proof {
        assert(is_aff == contains_any(content@, affectionate_words())) by {
            if is_aff {
                let i = choose|i: int| 0 <= i < aff@.len() && spec_contains(content@, #[trigger] aff@[i]@);
                assert(affectionate_words()[i] == aff@[i]@);
            }
            if contains_any(content@, affectionate_words()) {
                let i = choose|i: int| 0 <= i < affectionate_words().len() && spec_contains(content@, #[trigger] affectionate_words()[i]);
                assert(affectionate_words()[i] == aff@[i]@);
            }
        }
        assert(is_sad == contains_any(content@, sad_words())) by {
            if is_sad {
                let i = choose|i: int| 0 <= i < sad@.len() && spec_contains(content@, #[trigger] sad@[i]@);
                assert(sad_words()[i] == sad@[i]@);
            }
            if contains_any(content@, sad_words()) {
                let i = choose|i: int| 0 <= i < sad_words().len() && spec_contains(content@, #[trigger] sad_words()[i]);
                assert(sad_words()[i] == sad@[i]@);
            }
        }
        assert(is_cold == contains_any(content@, cold_words())) by {
            if is_cold {
                let i = choose|i: int| 0 <= i < cold@.len() && spec_contains(content@, #[trigger] cold@[i]@);
                assert(cold_words()[i] == cold@[i]@);
            }
            if contains_any(content@, cold_words()) {
                let i = choose|i: int| 0 <= i < cold_words().len() && spec_contains(content@, #[trigger] cold_words()[i]);
                assert(cold_words()[i] == cold@[i]@);
            }
        }
        assert(is_share == contains_any(content@, sharing_words())) by {
            if is_share {
                let i = choose|i: int| 0 <= i < share@.len() && spec_contains(content@, #[trigger] share@[i]@);
                assert(sharing_words()[i] == share@[i]@);
            }
            if contains_any(content@, sharing_words()) {
                let i = choose|i: int| 0 <= i < sharing_words().len() && spec_contains(content@, #[trigger] sharing_words()[i]);
                assert(sharing_words()[i] == share@[i]@);
            }
        }
    }
    if history_len == 0 && conversation_count <= 1 {
        InteractionEvent::FirstGreeting
    } else if turns >= 20 {
        InteractionEvent::LongConversation(turns)
    } else if late {
        InteractionEvent::LateNightChat
    } else if is_aff {
        InteractionEvent::UserAffectionate
    } else if is_sad {
        InteractionEvent::UserEmotionNegative
    } else if is_cold || content.len() <= 2 {
        InteractionEvent::UserCold
    } else if is_share {
        InteractionEvent::UserSharedFeelings
    } else {
        InteractionEvent::Normal
    }
}

/// The conversation handed to the model for a WeChat reply: the last 100
/// exchanged messages whose role is "user" or "assistant", then the new
/// message.
pub open spec fn spec_reply_history(peer_context: Seq<(Seq<char>, Seq<char>)>, new_message: Seq<char>) -> Seq<MessageModel> {
    let recent = if peer_context.len() <= 100 {
        peer_context
    } else {
        peer_context.subrange(peer_context.len() - 100, peer_context.len() as int)
    };
    recent.filter(|p: (Seq<char>, Seq<char>)| p.0 == "user"@ || p.0 == "assistant"@).map_values(
        |p: (Seq<char>, Seq<char>)| text_message(p.0, p.1),
    ).push(text_message("user"@, new_message))
}

/// The model of the peer context pairs.
pub open spec fn pairs_view(v: Seq<(String, String)>) -> Seq<(Seq<char>, Seq<char>)> {
    v.map_values(|p: (String, String)| (p.0@, p.1@))
}

/// Builds the conversation handed to the model for a WeChat reply.
pub fn reply_history(peer_context: &[(String, String)], new_message: &str) -> (r: Vec<ChatMessage>)
    ensures
        messages_view(r@) == spec_reply_history(pairs_view(peer_context@), new_message@),
{
    let len = peer_context.len();
    let start: usize = if len <= 100 { 0 } else { len - 100 };
    let ghost pc = pairs_view(peer_context@);
    let ghost recent = if pc.len() <= 100 { pc } else { pc.subrange(pc.len() - 100, pc.len() as int) };
    let ghost pred = |p: (Seq<char>, Seq<char>)| p.0 == "user"@ || p.0 == "assistant"@;
    let ghost f = |p: (Seq<char>, Seq<char>)| text_message(p.0, p.1);
    assert(recent =~= pc.subrange(start as int, len as int));
    let mut out: Vec<ChatMessage> = Vec::new();
    let mut k = start;
    proof {
        reveal(Seq::filter);
        assert(pc.subrange(start as int, start as int) =~= Seq::<(Seq<char>, Seq<char>)>::empty());
        assert(messages_view(out@) =~= Seq::<MessageModel>::empty());
    }
    while k < len
        invariant
            start <= k <= len,
            len == peer_context@.len(),
            pc == pairs_view(peer_context@),
            pred == (|p: (Seq<char>, Seq<char>)| p.0 == "user"@ || p.0 == "assistant"@),
            f == (|p: (Seq<char>, Seq<char>)| text_message(p.0, p.1)),
            messages_view(out@) == pc.subrange(start as int, k as int).filter(pred).map_values(f),
        decreases len - k,
    {
        let (role, content) = (&peer_context[k].0, &peer_context[k].1);
        let ghost sub = pc.subrange(start as int, k as int);
        proof {
            assert(pc.subrange(start as int, k + 1) =~= sub.push(pc[k as int]));
            sub.lemma_filter_push(pc[k as int], pred);
            assert(pc[k as int] == (role@, content@));
        }
        let ghost before = messages_view(out@);
        if crate::text::str_eq(role.as_str(), "user") {
            out.push(ChatMessage::user(content.as_str()));
            assert(messages_view(out@) =~= before.push(text_message("user"@, content@)));
        } else if crate::text::str_eq(role.as_str(), "assistant") {
            out.push(ChatMessage::assistant(content.as_str()));
            assert(messages_view(out@) =~= before.push(text_message("assistant"@, content@)));
        }
        proof {
            let fs = sub.filter(pred);
            if pred(pc[k as int]) {
                assert(fs.push(pc[k as int]).map_values(f) =~= fs.map_values(f).push(f(pc[k as int])));
            }
        }
        k += 1;
    }
    let ghost before = messages_view(out@);
    out.push(ChatMessage::user(new_message));
    assert(messages_view(out@) =~= before.push(text_message("user"@, new_message@)));
    out
}

} // verus!
