use ai_companion::json::JsonValue;
use ai_companion::reminder::{
    new_reminder_id, parse_hour_min, parse_u32, plan_reminder, relative_plan, reminder_created, RelativePlan,
    ReminderTime, TimeUnit,
};

fn s(x: &str) -> String {
    x.to_string()
}

fn obj(pairs: Vec<(&str, &str)>) -> JsonValue {
    JsonValue::Object(pairs.into_iter().map(|(k, v)| (k.to_string(), JsonValue::String(v.to_string()))).collect())
}

fn text(v: &JsonValue, k: &str) -> String {
    v.get(k).unwrap().as_str().unwrap().to_string()
}

#[test]
fn times_of_day() {
    assert_eq!(parse_hour_min("9am"), (9, 0));
    assert_eq!(parse_hour_min("12am"), (0, 0));
    assert_eq!(parse_hour_min("12pm"), (12, 0));
    assert_eq!(parse_hour_min(" 3 PM "), (15, 0));
    assert_eq!(parse_hour_min("下午3点"), (15, 0));
    assert_eq!(parse_hour_min("晚上8点"), (20, 0));
    assert_eq!(parse_hour_min("上午12点"), (0, 0));
    assert_eq!(parse_hour_min("7点"), (7, 0));
    assert_eq!(parse_hour_min("15:30"), (15, 30));
    assert_eq!(parse_hour_min("whenever"), (9, 0));
    assert_eq!(parse_u32("+7"), Some(7));
    assert_eq!(parse_u32("-0"), None);
    assert_eq!(parse_u32("4294967296"), None);
}

#[test]
fn relative_times() {
    assert_eq!(relative_plan("in 30 minutes", 0), Ok(RelativePlan::After { unit: TimeUnit::Minutes, amount: 30 }));
    assert_eq!(relative_plan(" IN 2 Hours ", 0), Ok(RelativePlan::After { unit: TimeUnit::Hours, amount: 2 }));
    assert_eq!(relative_plan("in 3 天", 0), Ok(RelativePlan::After { unit: TimeUnit::Days, amount: 3 }));
    assert_eq!(
        relative_plan("in 99999999999999999999 minutes", 0),
        Err(s("number too large to fit in target type"))
    );
    assert_eq!(relative_plan("tomorrow 9am", 3), Ok(RelativePlan::At { days_ahead: 1, hour: 9, minute: 0 }));
    assert_eq!(relative_plan("Tomorrow 25:00", 3), Ok(RelativePlan::At { days_ahead: 0, hour: 9, minute: 0 }));
    assert_eq!(relative_plan("next monday 3pm", 0), Ok(RelativePlan::At { days_ahead: 7, hour: 15, minute: 0 }));
    assert_eq!(relative_plan("next monday", 2), Ok(RelativePlan::At { days_ahead: 5, hour: 9, minute: 0 }));
    assert_eq!(relative_plan("next 周五 下午2点", 0), Ok(RelativePlan::At { days_ahead: 4, hour: 14, minute: 0 }));
    assert_eq!(
        relative_plan("someday", 0),
        Err(s("无法识别的相对时间格式。支持：'in 30 minutes'、'in 2 hours'、'tomorrow 9am'、'next Monday 3pm'"))
    );
}

#[test]
fn reminder_requests() {
    match plan_reminder(&obj(vec![("content", "喝水"), ("relative_time", "in 5 min")]), 0) {
        Ok(p) => {
            assert_eq!(p.content, "喝水");
            assert_eq!(p.repeat, "none");
            assert!(matches!(p.time, ReminderTime::Relative(RelativePlan::After { unit: TimeUnit::Minutes, amount: 5 })));
        },
        Err(_) => panic!("expected a plan"),
    }
    match plan_reminder(&obj(vec![("fire_at", "2024-05-01T08:00:00"), ("repeat", "daily")]), 0) {
        Ok(p) => {
            assert!(matches!(p.time, ReminderTime::FireAt(ref f) if f == "2024-05-01T08:00:00"));
            assert_eq!(p.repeat, "daily");
            assert_eq!(p.content, "");
        },
        Err(_) => panic!("expected a plan"),
    }
    match plan_reminder(&obj(vec![("content", "x")]), 0) {
        Err(e) => {
            assert_eq!(text(&e, "status"), "error");
            assert_eq!(text(&e, "message"), "请提供提醒时间（fire_at 或 relative_time）");
        },
        Ok(_) => panic!("expected a refusal"),
    }
    match plan_reminder(&obj(vec![("relative_time", "Someday")]), 0) {
        Err(e) => assert_eq!(
            text(&e, "message"),
            "无法解析相对时间 'Someday': 无法识别的相对时间格式。支持：'in 30 minutes'、'in 2 hours'、'tomorrow 9am'、'next Monday 3pm'"
        ),
        Ok(_) => panic!("expected a refusal"),
    }
    let id = new_reminder_id();
    assert_eq!(id.len(), 40);
    assert!(id.starts_with("rem_"));
    let r = reminder_created("rem_1", "t", "c", "none");
    assert_eq!(text(&r, "status"), "created");
    assert_eq!(text(&r, "fire_at"), "t");
    assert_eq!(text(&r, "repeat"), "none");
}
