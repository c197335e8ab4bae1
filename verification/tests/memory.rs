use ai_companion::memory::{
    append_titled_events, build_core_memory_context, build_extraction_prompt, concat_str,
    conversation_text, merge_extraction, merge_items, short_term, CoreMemory, ExtractionResult,
    KeyEvent, PersonRef, PetInfo, PreferencesDelta, SharedDelta, SpecialDate, Summarizer,
    UserProfileDelta, EXTRACTION_PROMPT,
};
use ai_companion::models::Message;

fn s(x: &str) -> String {
    x.to_string()
}

fn strs(v: &[&str]) -> Vec<String> {
    v.iter().map(|x| x.to_string()).collect()
}

fn empty_result() -> ExtractionResult {
    ExtractionResult {
        user_profile: UserProfileDelta {
            name: None,
            nickname: None,
            birthday: None,
            age: None,
            gender: None,
            occupation: None,
            city: None,
            mbti: None,
        },
        preferences: PreferencesDelta {
            favorite_foods: vec![],
            favorite_music: vec![],
            favorite_movies: vec![],
            favorite_games: vec![],
            hobbies: vec![],
            dislikes: vec![],
            favorite_color: None,
            routines: vec![],
            sleep_time: None,
            wake_time: None,
        },
        new_relationships: vec![],
        new_pets: vec![],
        new_key_events: vec![],
        shared_memories: SharedDelta {
            our_songs: vec![],
            our_places: vec![],
            inside_jokes: vec![],
            promises: vec![],
            special_dates: vec![],
        },
        nickname_for_ai: None,
    }
}

fn msg(role: &str, content: &str) -> Message {
    Message {
        id: s("m"),
        session_id: s("s"),
        role: s(role),
        content: s(content),
        content_parts: None,
        segments: None,
        emotion_tag: None,
        tool_calls: None,
        created_at: s("t"),
    }
}

const INTRO: &str = "以下是你记住的关于用户的重要信息，请在对话中自然运用这些信息，不要刻意提到\"我记得\"之类的，而是自然地融入对话：\n\n";

#[test]
fn empty_memory_renders_nothing() {
    let m = CoreMemory::new("p1", "2024-01-01");
    assert_eq!(m.persona_id, "p1");
    assert_eq!(build_core_memory_context(&m), "");
}

#[test]
fn memory_renders_sections_in_order() {
    let mut m = CoreMemory::new("p1", "now");
    m.user_profile.name = Some(s("小明"));
    m.user_profile.age = Some(25);
    m.preferences.hobbies = strs(&["跑步", "读书"]);
    m.preferences.sleep_time = Some(s("23:00"));
    m.key_events.push(KeyEvent {
        date: s("2024-05-01"),
        title: s("升职"),
        description: s("d"),
        emotion: Some(s("开心")),
    });
    m.key_events.push(KeyEvent { date: s("2024-06-01"), title: s("搬家"), description: s(""), emotion: None });
    m.relationships.push(PersonRef { name: s("小红"), relation: s("朋友"), notes: Some(s("大学同学")) });
    m.pets.push(PetInfo { name: s("咪咪"), species: s("猫"), notes: None });
    m.shared_memories.promises = strs(&["一起去看海"]);
    let expected = format!(
        "{}{}",
        INTRO,
        "【用户基本信息】\n姓名：小明\n年龄：25\n\n【用户偏好】\n兴趣爱好：跑步、读书\n通常睡觉时间：23:00\n\n【重要事件】\n· 升职（2024-05-01）[情绪:开心]\n· 搬家（2024-06-01）\n\n【用户身边的人】\n· 小红（朋友）大学同学\n\n【宠物】\n· 咪咪（猫）\n\n【我们的共同记忆】\n说过的约定：一起去看海"
    );
    assert_eq!(build_core_memory_context(&m), expected);
}

#[test]
fn merge_replaces_scalars_and_adds_new_items() {
    let mut m = CoreMemory::new("p1", "now");
    m.user_profile.name = Some(s("旧名"));
    m.user_profile.city = Some(s("北京"));
    m.user_profile.age = Some(20);
    m.preferences.hobbies = strs(&["跑步"]);
    m.relationships.push(PersonRef { name: s("小红"), relation: s("朋友"), notes: None });
    let mut r = empty_result();
    r.user_profile.name = Some(s("新名"));
    r.user_profile.city = Some(s(""));
    r.user_profile.age = Some(0);
    r.preferences.hobbies = strs(&["跑步", "游泳", "", "游泳"]);
    r.new_relationships = vec![
        PersonRef { name: s("小红"), relation: s("同事"), notes: None },
        PersonRef { name: s("小刚"), relation: s("哥哥"), notes: None },
    ];
    r.new_pets = vec![PetInfo { name: s(""), species: s("狗"), notes: None }];
    r.new_key_events = vec![
        KeyEvent { date: s("d1"), title: s(""), description: s("x"), emotion: None },
        KeyEvent { date: s("d2"), title: s("毕业"), description: s("y"), emotion: None },
    ];
    r.shared_memories.special_dates = vec![SpecialDate { date: s("02-14"), label: s("纪念日"), note: None }];
    r.nickname_for_ai = Some(s("小可爱"));
    let nick = merge_extraction(&mut m, r);
    assert_eq!(nick, Some(s("小可爱")));
    assert_eq!(m.user_profile.name, Some(s("新名")));
    assert_eq!(m.user_profile.city, Some(s("北京")));
    assert_eq!(m.user_profile.age, Some(20));
    assert_eq!(m.preferences.hobbies, strs(&["跑步", "游泳"]));
    assert_eq!(m.relationships.len(), 2);
    assert_eq!(m.relationships[0].relation, "朋友");
    assert_eq!(m.relationships[1].name, "小刚");
    assert!(m.pets.is_empty());
    assert_eq!(m.key_events.len(), 1);
    assert_eq!(m.key_events[0].title, "毕业");
    assert_eq!(m.shared_memories.special_dates.len(), 1);
    assert_eq!(m.persona_id, "p1");
}

#[test]
fn merge_empty_nickname_is_none() {
    let mut m = CoreMemory::new("p1", "now");
    let mut r = empty_result();
    r.nickname_for_ai = Some(s(""));
    assert_eq!(merge_extraction(&mut m, r), None);
}

#[test]
fn merging_twice_changes_nothing_more() {
    let mut target = strs(&["a"]);
    merge_items(&mut target, strs(&["b", "a", "c"]));
    assert_eq!(target, strs(&["a", "b", "c"]));
    let once = target.clone();
    merge_items(&mut target, strs(&["b", "a", "c"]));
    assert_eq!(target, once);
}

#[test]
fn titled_events_are_appended() {
    let mut t = vec![KeyEvent { date: s("d0"), title: s("t0"), description: s(""), emotion: None }];
    append_titled_events(
        &mut t,
        vec![
            KeyEvent { date: s("d1"), title: s(""), description: s(""), emotion: None },
            KeyEvent { date: s("d2"), title: s("t2"), description: s(""), emotion: None },
        ],
    );
    assert_eq!(t.len(), 2);
    assert_eq!(t[1].title, "t2");
}

#[test]
fn prompts_and_conversation_text() {
    assert_eq!(conversation_text("你好", "嗨"), "用户：你好\nAI：嗨");
    let p = build_extraction_prompt("X");
    assert!(p.starts_with("你是一个记忆提取助手"));
    assert!(p.ends_with("对话内容：\nX"));
    assert_eq!(p, format!("{}X", EXTRACTION_PROMPT));
    assert_eq!(concat_str("ab", "cd"), "abcd");
}

#[test]
fn short_term_takes_latest_messages() {
    let msgs = vec![msg("user", "1"), msg("assistant", "2"), msg("user", "3")];
    assert_eq!(short_term(&msgs, 2), strs(&["assistant: 2", "user: 3"]));
    assert_eq!(short_term(&msgs, 10), strs(&["user: 1", "assistant: 2", "user: 3"]));
    assert!(short_term(&msgs, 0).is_empty());
}

#[test]
fn summary_read_after_store() {
    let mut sm = Summarizer::new();
    assert_eq!(sm.get("s1"), None);
    sm.store("s1", "first");
    sm.store("s2", "other");
    assert_eq!(sm.get("s1"), Some("first"));
    sm.store("s1", "second");
    assert_eq!(sm.get("s1"), Some("second"));
    assert_eq!(sm.get("s2"), Some("other"));
    assert_eq!(sm.get("s3"), None);
}
