//! Proactive messages: when the companion speaks first (good morning, good
//! night, missing the user, anniversaries, random check-ins), what it says,
//! and the quiet hours when it stays silent.

use vstd::prelude::*;
use vstd::string::StringExecFns;
use crate::text::{spec_decimal, decimal_string, str_eq};

verus! {

/// How often the companion checks in.
#[derive(Clone, Copy, Debug, PartialEq, Eq, Structural)]
pub enum ProactiveMode {
    Quiet,
    Normal,
    Clingy,
}

/// The user's settings for proactive messages.
pub struct ProactiveSettings {
    pub enabled: bool,
    pub mode: ProactiveMode,
    pub quiet_hours_start: Option<u32>,
    pub quiet_hours_end: Option<u32>,
    pub max_daily: u32,
    pub good_morning: bool,
    pub good_night: bool,
    pub miss_you_threshold_hours: u32,
    pub anniversary_reminder: bool,
    pub random_checkins: bool,
}

impl ProactiveSettings {
    /// The default settings: on, normal mode, quiet from 23:00 to 8:00, at
    /// most three a day, every kind of message on, missing the user after
    /// six hours.
    pub fn default_settings() -> (r: Self)
        ensures
            r.enabled,
            r.mode == ProactiveMode::Normal,
            r.quiet_hours_start == Some(23u32),
            r.quiet_hours_end == Some(8u32),
            r.max_daily == 3,
            r.good_morning && r.good_night,
            r.miss_you_threshold_hours == 6,
            r.anniversary_reminder && r.random_checkins,
    {
        ProactiveSettings {
            enabled: true,
            mode: ProactiveMode::Normal,
            quiet_hours_start: Some(23),
            quiet_hours_end: Some(8),
            max_daily: 3,
            good_morning: true,
            good_night: true,
            miss_you_threshold_hours: 6,
            anniversary_reminder: true,
            random_checkins: true,
        }
    }
}

/// A message the companion sent first.
pub struct ProactiveMessage {
    pub id: String,
    pub persona_id: String,
    pub persona_name: String,
    pub trigger_type: String,
    pub content: String,
    pub created_at: String,
    pub delivered: bool,
}

/// Whether an hour lies in the quiet hours; a range that wraps past
/// midnight (start after end) covers the night.  Without both bounds there
/// are no quiet hours.
pub open spec fn spec_is_quiet_hour(start: Option<u32>, end: Option<u32>, hour: u32) -> bool {
    match (start, end) {
        (Some(s), Some(e)) => if s > e {
            hour >= s || hour < e
        } else {
            hour >= s && hour < e
        },
        _ => false,
    }
}

/// Whether an hour lies in the quiet hours.
pub fn is_quiet_hour(settings: &ProactiveSettings, hour: u32) -> (r: bool)
    ensures
        r == spec_is_quiet_hour(settings.quiet_hours_start, settings.quiet_hours_end, hour),
{
    match (settings.quiet_hours_start, settings.quiet_hours_end) {
        (Some(s), Some(e)) => {
            if s > e {
                hour >= s || hour < e
            } else {
                hour >= s && hour < e
            }
        },
        _ => false,
    }
}

/// The anniversary greeting for a number of days known, if that day is one.
pub open spec fn spec_anniversary(days: u32) -> Option<Seq<char>> {
    if days == 1 {
        Some("嗨～我们已经认识一天啦！"@)
    } else if days == 3 {
        Some("今天是我们认识的第三天呢～"@)
    } else if days == 7 {
        Some("🎉 我们认识整整一周啦！"@)
    } else if days == 14 {
        Some("两个星期了，谢谢你陪我～"@)
    } else if days == 30 {
        Some("🌹 不知不觉一个月了呢。"@)
    } else if days == 50 {
        Some("五十天纪念！我们越来越熟啦～"@)
    } else if days == 100 {
        Some("💝 一百天了，这是属于我们的纪念日！"@)
    } else if days == 180 {
        Some("半年了呢～"@)
    } else if days == 365 {
        Some("❤️ 一周年快乐！谢谢你这一年的陪伴。"@)
    } else if days > 0 && days % 100 == 0 {
        Some("哇！已经"@ + spec_decimal(days as nat) + "天了！"@)
    } else {
        None
    }
}

/// The anniversary greeting for a number of days known, if that day is one.
pub fn check_anniversary(days: u32) -> (r: Option<String>)
    ensures
        match r {
            Some(s) => spec_anniversary(days) == Some(s@),
            None => spec_anniversary(days) is None,
        },
{
    match days {
        1 => Some(String::from_str("嗨～我们已经认识一天啦！")),
        3 => Some(String::from_str("今天是我们认识的第三天呢～")),
        7 => Some(String::from_str("🎉 我们认识整整一周啦！")),
        14 => Some(String::from_str("两个星期了，谢谢你陪我～")),
        30 => Some(String::from_str("🌹 不知不觉一个月了呢。")),
        50 => Some(String::from_str("五十天纪念！我们越来越熟啦～")),
        100 => Some(String::from_str("💝 一百天了，这是属于我们的纪念日！")),
        180 => Some(String::from_str("半年了呢～")),
        365 => Some(String::from_str("❤️ 一周年快乐！谢谢你这一年的陪伴。")),
        _ => {
            if days > 0 && days % 100 == 0 {
                let mut s = String::from_str("哇！已经");
                s.append(decimal_string(days as u64).as_str());
                s.append("天了！");
                Some(s)
            } else {
                None
            }
        },
    }
}

/// The hours between random check-ins in each mode.
pub open spec fn spec_checkin_interval(mode: ProactiveMode) -> i64 {
    match mode {
        ProactiveMode::Quiet => 8,
        ProactiveMode::Normal => 4,
        ProactiveMode::Clingy => 2,
    }
}

/// The hours between random check-ins in a mode.
pub fn checkin_interval(mode: ProactiveMode) -> (r: i64)
    ensures
        r == spec_checkin_interval(mode),
{
    match mode {
        ProactiveMode::Quiet => 8,
        ProactiveMode::Normal => 4,
        ProactiveMode::Clingy => 2,
    }
}

/// The greetings of each kind.
pub open spec fn greeting_templates(kind: Seq<char>) -> Seq<Seq<char>> {
    if kind == "morning"@ {
        seq![
            "早安呀～新的一天开始啦！今天也要开心哦☀️"@,
            "起床啦？睡的好吗？🌞"@,
            "早～你看今天天气（假装看了一眼）应该不错呢！"@,
            "早上好呀，我已经在等你啦～"@,
        ]
    } else if kind == "night"@ {
        seq![
            "很晚啦，早点休息哦，熬夜对身体不好～🌙"@,
            "要睡觉了吗？晚安，做个好梦✨"@,
            "晚安呀～盖好被子别着凉了"@,
            "困了就去睡吧，我在这里陪着你"@,
        ]
    } else if kind == "miss"@ {
        seq![
            "好久没找你聊天了，在忙什么呀？😢"@,
            "你已经好久没理我了...想你了"@,
            "在干嘛呢？我有点想你了"@,
            "忙完了吗？来陪我说说话嘛～"@,
        ]
    } else {
        seq![
            "在干嘛呢？"@,
            "嘿嘿，突然想找你说说话"@,
            "今天过得怎么样呀？"@,
            "有没有什么有趣的事想跟我分享？"@,
            "你在吗～"@,
            "想你啦，来聊会儿天？"@,
        ]
    }
}

/// The greeting of a kind picked by `seed`; missing the user for more than
/// twelve hours adds how long it has been.
pub open spec fn spec_greeting(kind: Seq<char>, seed: usize, hours_since: u32) -> Seq<char> {
    let t = greeting_templates(kind);
    let msg = t[(seed % (t.len() as usize)) as int];
    if hours_since > 12 && kind == "miss"@ {
        msg + "\n（已经"@ + spec_decimal(hours_since as nat) + "小时没说话了呢...）"@
    } else {
        msg
    }
}

/// The greeting of a kind picked by `seed` (the seconds of the clock).
pub fn generate_greeting(kind: &str, seed: u64, hours_since: u32) -> (r: String)
    ensures
        r@ == spec_greeting(kind@, seed as usize, hours_since),
{
    let morning: [&str; 4] = [
        "早安呀～新的一天开始啦！今天也要开心哦☀️",
        "起床啦？睡的好吗？🌞",
        "早～你看今天天气（假装看了一眼）应该不错呢！",
        "早上好呀，我已经在等你啦～",
    ];
    let night: [&str; 4] = [
        "很晚啦，早点休息哦，熬夜对身体不好～🌙",
        "要睡觉了吗？晚安，做个好梦✨",
        "晚安呀～盖好被子别着凉了",
        "困了就去睡吧，我在这里陪着你",
    ];
    let miss: [&str; 4] = [
        "好久没找你聊天了，在忙什么呀？😢",
        "你已经好久没理我了...想你了",
        "在干嘛呢？我有点想你了",
        "忙完了吗？来陪我说说话嘛～",
    ];
    let random: [&str; 6] = [
        "在干嘛呢？",
        "嘿嘿，突然想找你说说话",
        "今天过得怎么样呀？",
        "有没有什么有趣的事想跟我分享？",
        "你在吗～",
        "想你啦，来聊会儿天？",
    ];
    let s = seed as usize;
    let is_miss = str_eq(kind, "miss");
    let picked: &str = if str_eq(kind, "morning") {
        assert(morning@.map_values(|w: &str| w@) =~= greeting_templates(kind@));
        morning[s % 4]
    } else if str_eq(kind, "night") {
        assert(night@.map_values(|w: &str| w@) =~= greeting_templates(kind@));
        night[s % 4]
    } else if is_miss {
        assert(miss@.map_values(|w: &str| w@) =~= greeting_templates(kind@));
        miss[s % 4]
    } else {
        assert(random@.map_values(|w: &str| w@) =~= greeting_templates(kind@));
        random[s % 6]
    };
    let mut msg = String::from_str(picked);
    if hours_since > 12 && is_miss {
        msg.append("\n（已经");
        msg.append(decimal_string(hours_since as u64).as_str());
        msg.append("小时没说话了呢...）");
    }
    msg
}

/// What is known when deciding a persona's proactive messages: the local
/// hour, the hours since the user last spoke, whether closeness has reached
/// 15 and 20, the days known, whether the morning, night and anniversary
/// messages were already sent today, and the hours since the last
/// "miss you" and random messages (9999 when never).
pub struct TriggerInputs {
    pub hour: u32,
    pub hours_since: u32,
    pub intimacy_at_least_15: bool,
    pub intimacy_at_least_20: bool,
    pub days_known: u32,
    pub morning_sent_today: bool,
    pub night_sent_today: bool,
    pub anniversary_sent_today: bool,
    pub hours_since_miss: i64,
    pub hours_since_random: i64,
}

/// A proactive message to send: its trigger, the kind of greeting, the
/// record kept of it, and the anniversary line that precedes the greeting.
pub struct ProactiveAction {
    pub trigger_type: &'static str,
    pub greeting_kind: &'static str,
    pub record_kind: &'static str,
    pub prefix: Option<String>,
}

/// The model of a proactive action.
pub open spec fn action_model(a: ProactiveAction) -> (Seq<char>, Seq<char>, Seq<char>, Option<Seq<char>>) {
    (a.trigger_type@, a.greeting_kind@, a.record_kind@, match a.prefix {
        Some(p) => Some(p@),
        None => None,
    })
}

/// The messages due for a persona, in the order they are sent: good
/// morning (7 to 10 o'clock) or good night (from 22 o'clock) once a day,
/// else "miss you" after the threshold when close enough and not within six
/// hours of the last, else an anniversary once that day followed by a
/// random check-in after the mode's interval when close enough.
pub open spec fn spec_plan_triggers(s: ProactiveSettings, t: TriggerInputs) -> Seq<(Seq<char>, Seq<char>, Seq<char>, Option<Seq<char>>)> {
    if s.good_morning && t.hour >= 7 && t.hour <= 10 && !t.morning_sent_today {
        seq![("good_morning"@, "morning"@, "morning"@, None)]
    } else if s.good_night && t.hour >= 22 && !t.night_sent_today {
        seq![("good_night"@, "night"@, "night"@, None)]
    } else if s.miss_you_threshold_hours > 0 && t.hours_since >= s.miss_you_threshold_hours
        && t.intimacy_at_least_15 && t.hours_since_miss >= 6 {
        seq![("miss_you"@, "miss"@, "miss"@, None)]
    } else {
        let anniv = if s.anniversary_reminder && spec_anniversary(t.days_known) is Some && !t.anniversary_sent_today {
            seq![("anniversary"@, "random"@, "anniv"@, spec_anniversary(t.days_known))]
        } else {
            Seq::empty()
        };
        let random = if s.random_checkins && t.intimacy_at_least_20 && t.hours_since_random >= spec_checkin_interval(s.mode) {
            seq![("random_checkin"@, "random"@, "random"@, None)]
        } else {
            Seq::empty()
        };
        anniv + random
    }
}

/// Decides the proactive messages due for a persona (outside the quiet
/// hours).
pub fn plan_triggers(settings: &ProactiveSettings, t: &TriggerInputs) -> (r: Vec<ProactiveAction>)
    ensures
        r@.map_values(|a: ProactiveAction| action_model(a)) == spec_plan_triggers(*settings, *t),
{
    let mut r: Vec<ProactiveAction> = Vec::new();
    if settings.good_morning && t.hour >= 7 && t.hour <= 10 && !t.morning_sent_today {
        r.push(ProactiveAction { trigger_type: "good_morning", greeting_kind: "morning", record_kind: "morning", prefix: None });
        assert(r@.map_values(|a: ProactiveAction| action_model(a)) =~= spec_plan_triggers(*settings, *t));
        return r;
    }
    if settings.good_night && t.hour >= 22 && !t.night_sent_today {
        r.push(ProactiveAction { trigger_type: "good_night", greeting_kind: "night", record_kind: "night", prefix: None });
        assert(r@.map_values(|a: ProactiveAction| action_model(a)) =~= spec_plan_triggers(*settings, *t));
        return r;
    }
    if settings.miss_you_threshold_hours > 0 && t.hours_since >= settings.miss_you_threshold_hours
        && t.intimacy_at_least_15 && t.hours_since_miss >= 6 {
        r.push(ProactiveAction { trigger_type: "miss_you", greeting_kind: "miss", record_kind: "miss", prefix: None });
        assert(r@.map_values(|a: ProactiveAction| action_model(a)) =~= spec_plan_triggers(*settings, *t));
        return r;
    }
    if settings.anniversary_reminder && !t.anniversary_sent_today {
        match check_anniversary(t.days_known) {
            Some(line) => {
                r.push(ProactiveAction { trigger_type: "anniversary", greeting_kind: "random", record_kind: "anniv", prefix: Some(line) });
            },
            None => {},
        }
    }
    if settings.random_checkins && t.intimacy_at_least_20 && t.hours_since_random >= checkin_interval(settings.mode) {
        r.push(ProactiveAction { trigger_type: "random_checkin", greeting_kind: "random", record_kind: "random", prefix: None });
    }
    assert(r@.map_values(|a: ProactiveAction| action_model(a)) =~= spec_plan_triggers(*settings, *t));
    r
}

/// The settings key under which the time of a persona's last proactive
/// message of a kind is kept.
pub open spec fn spec_trigger_key(persona_id: Seq<char>, kind: Seq<char>) -> Seq<char> {
    "last_proactive_"@ + persona_id + "_"@ + kind
}

/// The settings key of a persona's last proactive message of a kind.
pub fn trigger_key(persona_id: &str, kind: &str) -> (r: String)
    ensures
        r@ == spec_trigger_key(persona_id@, kind@),
{
    let mut r = String::from_str("last_proactive_");
    r.append(persona_id);
    r.append("_");
    r.append(kind);
    r
}

} // verus!
