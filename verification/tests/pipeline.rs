use ai_companion::chat::ContentPart;
use ai_companion::json::JsonValue;
use ai_companion::models::PersonaDefinition;
use ai_companion::pipeline::{
    build_system_prompt, build_system_prompt_at, classify_interaction, days_until, reply_history, season,
    simple_lunar_date, time_of_day, upcoming_holiday, weekday_numeral, FallbackLlm, LocalTime,
};
use ai_companion::relationship::InteractionEvent;

fn s(x: &str) -> String {
    x.to_string()
}

fn persona() -> PersonaDefinition {
    PersonaDefinition {
        id: s("p1"),
        name: s("小爱"),
        version: s("1"),
        appearance: JsonValue::Null,
        voice: JsonValue::Null,
        llm: JsonValue::Null,
        system_prompt: s("你是小爱。"),
        personality: vec![s("温柔"), s("可爱")],
        greeting: s("你好"),
        memory_policy: JsonValue::Null,
        skills: vec![],
        knowledge_bases: vec![],
        workflows: None,
        emotion_profile: JsonValue::Null,
        multimodal: JsonValue::Null,
        wechat: None,
    }
}

#[test]
fn calendar_words() {
    assert_eq!(weekday_numeral(0), "一");
    assert_eq!(weekday_numeral(6), "日");
    assert_eq!(season(4), "春");
    assert_eq!(season(7), "夏");
    assert_eq!(season(10), "秋");
    assert_eq!(season(12), "冬");
    assert_eq!(time_of_day(3), "凌晨");
    assert_eq!(time_of_day(12), "中午");
    assert_eq!(time_of_day(19), "傍晚");
    assert_eq!(time_of_day(23), "深夜");
    assert_eq!(simple_lunar_date(3, 9), "临近节日：妇女节");
    assert_eq!(simple_lunar_date(12, 30), "临近节日：元旦前夕");
    assert_eq!(simple_lunar_date(7, 15), "农历七月");
}

#[test]
fn days_and_holidays() {
    assert_eq!(days_until(2024, 12, 25, 12, 20), 5);
    assert_eq!(days_until(2024, 1, 1, 12, 31), 1);
    assert_eq!(days_until(2023, 2, 29, 1, 1), -1);
    assert_eq!(upcoming_holiday(2024, 12, 20), "距离圣诞节还有5天");
    assert_eq!(upcoming_holiday(2024, 3, 8), "今天是妇女节！");
    assert_eq!(upcoming_holiday(2024, 7, 15), "");
}

#[test]
fn system_prompt_at_a_moment() {
    let t = LocalTime { year: 2024, month: 3, day: 8, hour: 14, minute: 5, weekday_from_monday: 4, iso_week: 10 };
    assert_eq!(
        build_system_prompt_at(&persona(), &t),
        "当前时间：2024年3月8日 14:05，星期五（春季，下午，第10周）临近节日：妇女节。今天是妇女节！\n\n你是小爱。\n\n性格特征：温柔、可爱\n你可以使用以下工具来帮助用户。\n当用户情绪明显波动时，请体现在回复风格中。\n注意：当前是下午，请根据时段调整语气和回复内容。"
    );
    let now = build_system_prompt(&persona());
    assert!(now.starts_with("当前时间："));
    assert!(now.contains("\n\n你是小爱。\n\n性格特征：温柔、可爱\n"));
}

#[test]
fn canned_replies() {
    assert_eq!(
        FallbackLlm::generate("小爱", "p", "今天天气怎么样"),
        "小爱：让我帮你查一下～今天天气晴朗，气温 28°C，适合出门散步哦！"
    );
    assert_eq!(FallbackLlm::generate("小爱", "p", "嗨"), "小爱：你好呀～很高兴见到你！");
    assert_eq!(FallbackLlm::generate("A", "p", "abc"), "A：嗯，我理解你的意思～让我想想怎么回答你最好。");
    assert_eq!(FallbackLlm::generate("A", "p", "abcd"), "A：谢谢你跟我分享这些，我很开心能陪你聊天。");
    assert_eq!(FallbackLlm::generate("A", "p", "ab"), "A：这个问题很有趣呢！我觉得可以从几个角度来看……");
}

#[test]
fn interaction_kinds() {
    assert!(matches!(classify_interaction(0, 0, 12, "hi"), InteractionEvent::FirstGreeting));
    assert!(matches!(classify_interaction(40, 5, 12, "x"), InteractionEvent::LongConversation(20)));
    assert!(matches!(classify_interaction(2, 5, 23, "hello"), InteractionEvent::LateNightChat));
    assert!(matches!(classify_interaction(2, 5, 12, "我好想你"), InteractionEvent::UserAffectionate));
    assert!(matches!(classify_interaction(2, 5, 12, "我好难过"), InteractionEvent::UserEmotionNegative));
    assert!(matches!(classify_interaction(2, 5, 12, "嗯嗯好"), InteractionEvent::UserCold));
    assert!(matches!(classify_interaction(2, 5, 12, "ok"), InteractionEvent::UserCold));
    assert!(matches!(classify_interaction(2, 5, 12, "告诉你一个事"), InteractionEvent::UserSharedFeelings));
    assert!(matches!(classify_interaction(2, 5, 12, "今天去了公园"), InteractionEvent::Normal));
}

#[test]
fn wechat_reply_history() {
    let ctx = vec![(s("user"), s("a")), (s("system"), s("x")), (s("assistant"), s("b"))];
    let h = reply_history(&ctx, "new");
    let flat: Vec<(String, String)> = h
        .iter()
        .map(|m| {
            let text = match &m.content[0] {
                ContentPart::Text(t) => t.clone(),
                _ => s("?"),
            };
            (m.role.clone(), text)
        })
        .collect();
    assert_eq!(flat, vec![(s("user"), s("a")), (s("assistant"), s("b")), (s("user"), s("new"))]);
    let many: Vec<(String, String)> = (0..150).map(|i| (s("user"), i.to_string())).collect();
    let h = reply_history(&many, "n");
    assert_eq!(h.len(), 101);
    assert!(matches!(&h[0].content[0], ContentPart::Text(t) if t == "50"));
}
