use ai_companion::proactive::{
    check_anniversary, checkin_interval, generate_greeting, is_quiet_hour, plan_triggers, trigger_key,
    ProactiveMode, ProactiveSettings, TriggerInputs,
};

fn inputs(hour: u32) -> TriggerInputs {
    TriggerInputs {
        hour,
        hours_since: 1,
        intimacy_at_least_15: false,
        intimacy_at_least_20: false,
        days_known: 2,
        morning_sent_today: false,
        night_sent_today: false,
        anniversary_sent_today: false,
        hours_since_miss: 9999,
        hours_since_random: 9999,
    }
}

fn kinds(settings: &ProactiveSettings, t: &TriggerInputs) -> Vec<(&'static str, Option<String>)> {
    plan_triggers(settings, t).into_iter().map(|a| (a.trigger_type, a.prefix)).collect()
}

#[test]
fn quiet_hours() {
    let d = ProactiveSettings::default_settings();
    assert!(is_quiet_hour(&d, 23));
    assert!(is_quiet_hour(&d, 3));
    assert!(!is_quiet_hour(&d, 8));
    assert!(!is_quiet_hour(&d, 15));
    let mut day = ProactiveSettings::default_settings();
    day.quiet_hours_start = Some(12);
    day.quiet_hours_end = Some(14);
    assert!(is_quiet_hour(&day, 13));
    assert!(!is_quiet_hour(&day, 14));
    day.quiet_hours_end = None;
    assert!(!is_quiet_hour(&day, 13));
}

#[test]
fn anniversaries() {
    assert_eq!(check_anniversary(7), Some("🎉 我们认识整整一周啦！".to_string()));
    assert_eq!(check_anniversary(365), Some("❤️ 一周年快乐！谢谢你这一年的陪伴。".to_string()));
    assert_eq!(check_anniversary(200), Some("哇！已经200天了！".to_string()));
    assert_eq!(check_anniversary(0), None);
    assert_eq!(check_anniversary(8), None);
}

#[test]
fn greetings() {
    assert_eq!(checkin_interval(ProactiveMode::Quiet), 8);
    assert_eq!(checkin_interval(ProactiveMode::Clingy), 2);
    assert_eq!(generate_greeting("morning", 5, 0), "起床啦？睡的好吗？🌞");
    assert_eq!(generate_greeting("night", 2, 0), "晚安呀～盖好被子别着凉了");
    assert_eq!(generate_greeting("miss", 0, 12), "好久没找你聊天了，在忙什么呀？😢");
    assert_eq!(
        generate_greeting("miss", 0, 13),
        "好久没找你聊天了，在忙什么呀？😢\n（已经13小时没说话了呢...）"
    );
    assert_eq!(generate_greeting("random", 10, 50), "你在吗～");
    assert_eq!(trigger_key("p1", "miss"), "last_proactive_p1_miss");
}

#[test]
fn triggers_in_order() {
    let s = ProactiveSettings::default_settings();
    assert_eq!(kinds(&s, &inputs(8)), vec![("good_morning", None)]);
    let mut sent = inputs(8);
    sent.morning_sent_today = true;
    assert!(kinds(&s, &sent).is_empty());
    assert_eq!(kinds(&s, &inputs(22)), vec![("good_night", None)]);
    let mut missing = inputs(15);
    missing.hours_since = 6;
    missing.intimacy_at_least_15 = true;
    assert_eq!(kinds(&s, &missing), vec![("miss_you", None)]);
    missing.hours_since_miss = 5;
    assert!(kinds(&s, &missing).is_empty());
    let mut anniv = inputs(15);
    anniv.days_known = 100;
    anniv.intimacy_at_least_20 = true;
    assert_eq!(
        kinds(&s, &anniv),
        vec![("anniversary", Some("💝 一百天了，这是属于我们的纪念日！".to_string())), ("random_checkin", None)]
    );
    anniv.hours_since_random = 3;
    assert_eq!(kinds(&s, &anniv).len(), 1);
    let mut clingy = ProactiveSettings::default_settings();
    clingy.mode = ProactiveMode::Clingy;
    assert_eq!(kinds(&clingy, &anniv).len(), 2);
}
