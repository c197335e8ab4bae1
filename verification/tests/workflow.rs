use ai_companion::json::{JsonNumber, JsonValue};
use ai_companion::models::WorkflowTrigger;
use ai_companion::workflow::{
    inject_workflow_context, match_trigger, parse_trigger, plan_action, ActionPlan, VarMap, WorkflowAction,
    WorkflowContext, WorkflowEvent,
};

fn s(x: &str) -> String {
    x.to_string()
}

fn st(x: &str) -> JsonValue {
    JsonValue::String(s(x))
}

fn obj(pairs: Vec<(&str, JsonValue)>) -> JsonValue {
    JsonValue::Object(pairs.into_iter().map(|(k, v)| (k.to_string(), v)).collect())
}

fn ctx() -> WorkflowContext {
    WorkflowContext::new(s("ses"), s("per"), s("今天天气"))
}

fn action(t: &str, config: JsonValue) -> WorkflowAction {
    WorkflowAction { id: s("a1"), action_type: s(t), config, next_action_id: None }
}

fn vars(c: &WorkflowContext) -> Vec<(String, String)> {
    (0..c.variables.len()).map(|i| {
        let (k, v) = c.variables.entry(i);
        (k.to_string(), v.to_string())
    }).collect()
}

#[test]
fn variables_keep_one_value_per_name() {
    let mut m = VarMap::new();
    assert!(m.is_empty());
    m.insert("a", "1");
    m.insert("b", "2");
    m.insert("a", "3");
    assert_eq!(m.len(), 2);
    assert_eq!(m.entry(0), ("a", "3"));
    assert_eq!(m.entry(1), ("b", "2"));
}

#[test]
fn context_injection() {
    let mut c = ctx();
    assert_eq!(inject_workflow_context("P", &c), "P");
    c.variables.insert("city", "北京");
    assert_eq!(inject_workflow_context("P", &c), "P\n\n[工作流上下文]\n- city: 北京\n");
}

#[test]
fn triggers() {
    assert!(matches!(parse_trigger(&obj(vec![("type", st("message"))])), Some(WorkflowTrigger::Message { pattern: None })));
    assert!(matches!(
        parse_trigger(&obj(vec![("type", st("message")), ("pattern", st("天气"))])),
        Some(WorkflowTrigger::Message { pattern: Some(p) }) if p == "天气"
    ));
    assert!(parse_trigger(&obj(vec![("type", st("message")), ("pattern", JsonValue::Bool(true))])).is_none());
    assert!(matches!(parse_trigger(&obj(vec![("type", st("scheduled")), ("cron", st("0 8 * * *"))])), Some(WorkflowTrigger::Scheduled { .. })));
    assert!(parse_trigger(&obj(vec![("type", st("scheduled"))])).is_none());
    assert!(parse_trigger(&obj(vec![("type", st("other"))])).is_none());
    assert!(parse_trigger(&JsonValue::Null).is_none());

    let msg = |t: &str| WorkflowEvent::Message { content: s(t) };
    let pat = obj(vec![("type", st("message")), ("pattern", st("天气|weather"))]);
    assert!(match_trigger(&pat, &msg("今天天气如何")));
    assert!(!match_trigger(&pat, &msg("你好")));
    assert!(!match_trigger(&pat, &WorkflowEvent::Scheduled));
    let bad = obj(vec![("type", st("message")), ("pattern", st("(unclosed"))]);
    assert!(!match_trigger(&bad, &msg("(unclosed")));
    assert!(match_trigger(&obj(vec![("type", st("message"))]), &msg("anything")));
    let ev = obj(vec![("type", st("event")), ("event_name", st("login"))]);
    assert!(match_trigger(&ev, &WorkflowEvent::Event { name: s("login") }));
    assert!(!match_trigger(&ev, &WorkflowEvent::Event { name: s("logout") }));
    assert!(match_trigger(&obj(vec![("type", st("scheduled")), ("cron", st("x"))]), &WorkflowEvent::Scheduled));
}

#[test]
fn actions_on_the_context() {
    let mut c = ctx();
    let a = action("send_message", obj(vec![("text", st("hi"))]));
    assert!(matches!(plan_action(&mut c, &a), ActionPlan::Done(Ok(t)) if t == "hi"));
    let b = action("set_context", obj(vec![("key", st("mood")), ("value", st("happy"))]));
    assert!(matches!(plan_action(&mut c, &b), ActionPlan::Done(Ok(t)) if t == "happy"));
    let b2 = action("set_context", obj(vec![("key", st("mood"))]));
    assert!(matches!(plan_action(&mut c, &b2), ActionPlan::Done(Ok(t)) if t.is_empty()));
    assert_eq!(vars(&c), vec![(s("send_message"), s("hi")), (s("mood"), s(""))]);
    let missing = action("set_context", obj(vec![("value", st("v"))]));
    assert!(matches!(plan_action(&mut c, &missing), ActionPlan::Done(Err(e)) if e == "set_context missing key"));
    let unknown = action("dance", JsonValue::Null);
    assert!(matches!(plan_action(&mut c, &unknown), ActionPlan::Done(Err(e)) if e == "unknown action type: dance"));
    assert_eq!(c.session_id, "ses");
}

#[test]
fn actions_for_the_caller() {
    let mut c = ctx();
    assert!(matches!(plan_action(&mut c, &action("retrieve_memory", JsonValue::Null)), ActionPlan::RetrieveMemory));
    assert!(matches!(plan_action(&mut c, &action("query_knowledge", JsonValue::Null)), ActionPlan::QueryKnowledge));
    match plan_action(&mut c, &action("web_search", obj(vec![]))) {
        ActionPlan::WebSearch { query, top_n, time_range } => {
            assert_eq!(query, "今天天气");
            assert_eq!(top_n, 5);
            assert_eq!(time_range, "");
        },
        _ => panic!("expected a search"),
    }
    let cfg = obj(vec![
        ("query", st("rust")),
        ("top_n", JsonValue::Number(JsonNumber::PosInt(3))),
        ("time_range", st("week")),
    ]);
    match plan_action(&mut c, &action("web_search", cfg)) {
        ActionPlan::WebSearch { query, top_n, time_range } => {
            assert_eq!(query, "rust");
            assert_eq!(top_n, 3);
            assert_eq!(time_range, "week");
        },
        _ => panic!("expected a search"),
    }
    let call = action("call_skill", obj(vec![("skill_name", st("get_time")), ("arguments", obj(vec![]))]));
    match plan_action(&mut c, &call) {
        ActionPlan::CallSkill { skill_name, arguments } => {
            assert_eq!(skill_name, "get_time");
            assert!(arguments.is_some());
        },
        _ => panic!("expected a skill call"),
    }
    let no_name = action("call_skill", obj(vec![]));
    assert!(matches!(plan_action(&mut c, &no_name), ActionPlan::Done(Err(e)) if e == "call_skill missing skill_name"));
    assert!(c.variables.is_empty());
}
