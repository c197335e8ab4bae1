use ai_companion::builtin::{
    get_time, new_note_id, normalize_url, note_action, note_deleted, note_saved, note_search_pattern,
    notes_listed, parse_duckduckgo_results, parse_i64, parse_weekday, plan_search, plan_weather,
    random_gen, search_answer, calc_input, CalcInput, split_pick_items, strip_html_tags, time_reply_at, time_shift_secs,
    timezone_offset, weather_answer, weather_request, weekday_cn, Moment, NoteAction, NoteRow, SearchHit,
};
use ai_companion::json::{JsonNumber, JsonValue};

fn s(x: &str) -> String {
    x.to_string()
}

fn st(x: &str) -> JsonValue {
    JsonValue::String(s(x))
}

fn num(n: i64) -> JsonValue {
    if n >= 0 {
        JsonValue::Number(JsonNumber::PosInt(n as u64))
    } else {
        JsonValue::Number(JsonNumber::NegInt(n))
    }
}

fn obj(pairs: Vec<(&str, JsonValue)>) -> JsonValue {
    JsonValue::Object(pairs.into_iter().map(|(k, v)| (k.to_string(), v)).collect())
}

fn get<'a>(v: &'a JsonValue, k: &str) -> &'a JsonValue {
    v.get(k).unwrap_or_else(|| panic!("missing member {}", k))
}

fn text(v: &JsonValue, k: &str) -> String {
    get(v, k).as_str().unwrap().to_string()
}

fn int_of(v: &JsonValue, k: &str) -> i64 {
    get(v, k).as_i64().unwrap()
}

fn moment(year: i32, month: u32, day: u32, hour: u32, minute: u32, weekday: u32) -> Moment {
    Moment {
        year,
        month,
        day,
        hour,
        minute,
        second: 5,
        weekday,
        iso_week: 11,
        ordinal: 75,
        timestamp: 1_710_000_000,
    }
}

#[test]
fn weekdays() {
    assert_eq!(weekday_cn(0), "一");
    assert_eq!(weekday_cn(6), "日");
    assert_eq!(weekday_cn(9), "?");
    assert_eq!(parse_weekday("friday"), 4);
    assert_eq!(parse_weekday("星期天"), 6);
    assert_eq!(parse_weekday("周日"), 6);
    assert_eq!(parse_weekday("whenever"), 0);
}

#[test]
fn html_to_text() {
    assert_eq!(strip_html_tags("<b>Hello</b>   <i>world</i>\n!"), "Hello world !");
    assert_eq!(strip_html_tags("  plain  "), "plain");
    assert_eq!(strip_html_tags("<p></p>"), "");
    assert_eq!(strip_html_tags("a<b c"), "a");
}

#[test]
fn integers_parse_like_from_str() {
    assert_eq!(parse_i64("-9223372036854775808"), Some(i64::MIN));
    assert_eq!(parse_i64("9223372036854775807"), Some(i64::MAX));
    assert_eq!(parse_i64("9223372036854775808"), None);
    assert_eq!(parse_i64("+5"), Some(5));
    assert_eq!(parse_i64("5a"), None);
    assert_eq!(parse_i64(""), None);
}

#[test]
fn time_zones() {
    assert_eq!(timezone_offset("Asia/Tokyo"), Some(8));
    assert_eq!(timezone_offset("NY"), Some(-4));
    assert_eq!(timezone_offset("+3"), Some(3));
    assert_eq!(timezone_offset("-11"), Some(-11));
    assert_eq!(timezone_offset("Mars"), None);
    assert_eq!(time_shift_secs(&obj(vec![])), None);
    assert_eq!(time_shift_secs(&obj(vec![("operation", st("add")), ("days", num(2))])), Some(Some(172800)));
    assert_eq!(
        time_shift_secs(&obj(vec![("operation", st("timezone")), ("timezone", st("London"))])),
        Some(Some(-25200))
    );
    assert_eq!(time_shift_secs(&obj(vec![("operation", st("timezone")), ("timezone", st("Mars"))])), None);
    assert_eq!(
        time_shift_secs(&obj(vec![("operation", st("add")), ("days", num(i64::MAX / 1000))])),
        Some(None)
    );
}

#[test]
fn time_replies_at_a_fixed_moment() {
    let now = moment(2024, 3, 15, 9, 7, 4);
    let cur = time_reply_at(&obj(vec![]), &now, &now);
    assert_eq!(text(&cur, "operation"), "current");
    assert_eq!(text(&cur, "datetime"), "2024-03-15T09:07:05");
    assert_eq!(text(&cur, "weekday"), "五");
    assert_eq!(int_of(&cur, "year"), 2024);
    assert_eq!(text(&cur, "season"), "春");
    assert_eq!(text(&cur, "full"), format!("现在是2024年3月15日 9:07:05，星期五，春季，{}，第11周", text(&cur, "time_of_day")));

    let then = moment(2024, 3, 18, 9, 7, 0);
    let add = time_reply_at(&obj(vec![("operation", st("add")), ("days", num(3))]), &now, &then);
    assert_eq!(text(&add, "base_date"), "2024-03-15");
    assert_eq!(text(&add, "result_date"), "2024-03-18");
    assert_eq!(text(&add, "full"), "3天后是2024年3月18日，星期一");

    let diff = time_reply_at(
        &obj(vec![("operation", st("diff")), ("date1", st("2024-03-01")), ("date2", st("2024-02-01"))]),
        &now,
        &now,
    );
    assert_eq!(int_of(&diff, "days"), 29);
    assert_eq!(text(&diff, "direction"), "之前");
    assert_eq!(text(&diff, "full"), "2024-03-01 距离 2024-02-01 还有 29 天");

    let diff_today = time_reply_at(&obj(vec![("operation", st("diff")), ("date2", st("2024-12-25"))]), &now, &now);
    assert_eq!(text(&diff_today, "date1"), "2024-03-15");
    assert_eq!(int_of(&diff_today, "days"), 285);
    assert_eq!(text(&diff_today, "direction"), "之后");

    let cd = time_reply_at(&obj(vec![("operation", st("countdown")), ("target", st("2024-03-20"))]), &now, &now);
    assert_eq!(int_of(&cd, "remaining_days"), 5);
    assert_eq!(text(&cd, "full"), "距离 2024-03-20 还有 5 天");
    let today = time_reply_at(&obj(vec![("operation", st("countdown")), ("target", st("2024-03-15"))]), &now, &now);
    assert_eq!(text(&today, "full"), "今天就是 2024-03-15！");
    let past = time_reply_at(&obj(vec![("operation", st("countdown")), ("target", st("2024-03-10"))]), &now, &now);
    assert_eq!(text(&past, "full"), "2024-03-10 已经过去了 5 天");
    let bad = time_reply_at(&obj(vec![("operation", st("countdown")), ("target", st("soon"))]), &now, &now);
    assert_eq!(text(&bad, "status"), "error");
    assert_eq!(text(&bad, "message"), "无法解析日期 'soon'，请使用 YYYY-MM-DD 格式");

    let there = moment(2024, 3, 15, 2, 7, 4);
    let tz = time_reply_at(&obj(vec![("operation", st("timezone")), ("timezone", st("London"))]), &now, &there);
    assert_eq!(text(&tz, "local_time"), "2024-03-15 09:07:05");
    assert_eq!(text(&tz, "target_time"), "2024-03-15 02:07:05");
    assert_eq!(int_of(&tz, "offset_hours"), 1);
    assert_eq!(text(&tz, "full"), "London 当前时间：2024年3月15日 2:07，星期五，UTC+1");
    let unknown = time_reply_at(&obj(vec![("operation", st("timezone")), ("timezone", st("Mars"))]), &now, &now);
    assert_eq!(
        text(&unknown, "message"),
        "不支持的时区 'Mars'，请使用如 America/New_York、Asia/Tokyo 格式"
    );
}

#[test]
fn time_with_the_real_clock() {
    let cur = get_time(&obj(vec![])).unwrap();
    assert_eq!(text(&cur, "operation"), "current");
    let add = get_time(&obj(vec![("operation", st("add")), ("days", num(1))])).unwrap();
    assert_eq!(text(&add, "operation"), "add");
    assert!(get_time(&obj(vec![("operation", st("add")), ("days", num(i64::MAX / 1000))])).is_none());
}

#[test]
fn random_values() {
    for _ in 0..20 {
        let n = random_gen(&obj(vec![("type", st("number")), ("min", num(3)), ("max", num(5))]));
        let v = int_of(&n, "result");
        assert!((3..=5).contains(&v));
        assert_eq!(text(&n, "full"), format!("随机数（3-5）: {}", v));
    }
    let d = random_gen(&obj(vec![("type", st("dice")), ("faces", num(1)), ("count", num(300))]));
    assert_eq!(int_of(&d, "faces"), 2);
    assert_eq!(int_of(&d, "count"), 100);
    let rolls: Vec<i64> = get(&d, "results").as_array().unwrap().iter().map(|x| x.as_i64().unwrap()).collect();
    assert_eq!(rolls.len(), 100);
    assert!(rolls.iter().all(|r| (1..=2).contains(r)));
    assert_eq!(int_of(&d, "total"), rolls.iter().sum::<i64>());
    let p = random_gen(&obj(vec![("type", st("password")), ("length", num(2))]));
    let pw = text(&p, "password");
    assert_eq!(pw.chars().count(), 4);
    assert!(pw.chars().all(|c| "ABCDEFGHIJKLMNOPQRSTUVWXYZabcdefghijklmnopqrstuvwxyz0123456789!@#$%^&*".contains(c)));
    let pick = random_gen(&obj(vec![("type", st("pick")), ("items", st("a, b ,,c")), ("pick_count", num(5))]));
    assert_eq!(int_of(&pick, "total_items"), 3);
    assert_eq!(int_of(&pick, "pick_count"), 3);
    let mut picked: Vec<String> =
        get(&pick, "picked").as_array().unwrap().iter().map(|x| x.as_str().unwrap().to_string()).collect();
    picked.sort();
    assert_eq!(picked, vec![s("a"), s("b"), s("c")]);
    let one = random_gen(&obj(vec![("type", st("pick")), ("items", st("x"))]));
    assert_eq!(text(&one, "full"), "从 1 个选项中随机选择: x");
    let empty = random_gen(&obj(vec![("type", st("pick")), ("items", st(" , "))]));
    assert_eq!(text(&empty, "message"), "候选项列表为空");
    let other = random_gen(&obj(vec![("type", st("coin"))]));
    assert_eq!(text(&other, "message"), "不支持的随机类型 'coin'，支持: number, dice, password, pick");
    assert_eq!(split_pick_items(" a ,b,, c "), vec![s("a"), s("b"), s("c")]);
    assert!(split_pick_items("").is_empty());
}

#[test]
fn note_requests() {
    assert!(matches!(note_action(&obj(vec![])), NoteAction::List));
    match note_action(&obj(vec![("action", st("save")), ("content", st("买菜")), ("tags", st("todo"))])) {
        NoteAction::Save { content, tags } => {
            assert_eq!(content, "买菜");
            assert_eq!(tags, "todo");
        },
        _ => panic!("expected save"),
    }
    match note_action(&obj(vec![("action", st("save"))])) {
        NoteAction::Refused(v) => assert_eq!(text(&v, "message"), "笔记内容为空"),
        _ => panic!("expected a refusal"),
    }
    match note_action(&obj(vec![("action", st("search"))])) {
        NoteAction::Refused(v) => assert_eq!(text(&v, "message"), "搜索关键词为空"),
        _ => panic!("expected a refusal"),
    }
    assert!(matches!(note_action(&obj(vec![("action", st("delete")), ("note_id", st("n1"))])), NoteAction::Delete { .. }));
    assert_eq!(note_search_pattern("猫"), "%猫%");
    let id = new_note_id();
    assert_eq!(id.chars().count(), 41);
    assert!(id.starts_with("note_"));
    let saved = note_saved("n1", "c", "t");
    assert_eq!(text(&saved, "status"), "ok");
    assert_eq!(text(&saved, "message"), "笔记已保存");
    let rows = vec![NoteRow { id: s("n1"), content: s("c"), tags: s(""), created_at: s("t") }];
    let listed = notes_listed(None, &rows);
    assert_eq!(text(&listed, "action"), "list");
    assert_eq!(int_of(&listed, "count"), 1);
    assert!(listed.get("keyword").is_none());
    let found = notes_listed(Some("c"), &rows);
    assert_eq!(text(&found, "action"), "search");
    assert_eq!(text(&found, "keyword"), "c");
    let gone = note_deleted("n1", 1);
    assert_eq!(text(&gone, "status"), "ok");
    assert_eq!(text(&gone, "message"), "笔记已删除");
    let missing = note_deleted("n9", 0);
    assert_eq!(text(&missing, "status"), "not_found");
    assert_eq!(text(&missing, "message"), "未找到该笔记");
}

#[test]
fn weather_queries() {
    let today = (2024, 3, 15);
    match plan_weather(&obj(vec![("city", st("  "))]), today) {
        Err(e) => assert_eq!(text(&e, "error"), "city is empty"),
        Ok(_) => panic!("expected a refusal"),
    }
    let q = plan_weather(&obj(vec![("city", st(" 北京 "))]), today).ok().unwrap();
    assert_eq!(q.city, "北京");
    assert_eq!(q.date_param, "today");
    assert_eq!(q.day, 1);
    assert_eq!(q.url, "https://wttr.in/%E5%8C%97%E4%BA%AC?format=j1");
    let t = plan_weather(&obj(vec![("city", st("Paris")), ("date", st("tomorrow"))]), today).ok().unwrap();
    assert_eq!(t.day, 2);
    assert_eq!(t.url, "https://wttr.in/Paris?format=j2");
    assert_eq!(plan_weather(&obj(vec![("city", st("x")), ("date", st("2024-03-16"))]), today).ok().unwrap().day, 2);
    assert_eq!(plan_weather(&obj(vec![("city", st("x")), ("date", st("2024-04-30"))]), today).ok().unwrap().day, 3);
    assert_eq!(plan_weather(&obj(vec![("city", st("x")), ("date", st("2024-03-01"))]), today).ok().unwrap().day, 1);
    assert_eq!(plan_weather(&obj(vec![("city", st("x")), ("date", st("later"))]), today).ok().unwrap().day, 1);
    assert!(weather_request(&obj(vec![("city", st("Oslo"))])).is_ok());

    let desc = |v: &str| JsonValue::Array(vec![obj(vec![("value", st(v))])]);
    let data = obj(vec![
        (
            "current_condition",
            JsonValue::Array(vec![obj(vec![("temp_C", st("12")), ("weatherDesc", desc("Sunny")), ("humidity", st("40"))])]),
        ),
        (
            "weather",
            JsonValue::Array(vec![
                obj(vec![("date", st("d0"))]),
                obj(vec![
                    ("date", st("2024-03-16")),
                    ("maxtempC", st("15")),
                    ("mintempC", st("5")),
                    (
                        "hourly",
                        JsonValue::Array(vec![
                            obj(vec![]),
                            obj(vec![]),
                            obj(vec![]),
                            obj(vec![]),
                            obj(vec![("weatherDesc", desc("Rain"))]),
                        ]),
                    ),
                ]),
            ]),
        ),
    ]);
    let now = weather_answer("北京", "today", 1, &data);
    assert_eq!(text(&now, "date"), "今天");
    assert_eq!(text(&now, "temperature_c"), "12");
    assert_eq!(text(&now, "feels_like_c"), "--");
    assert_eq!(text(&now, "description"), "Sunny");
    let tomorrow = weather_answer("北京", "tomorrow", 2, &data);
    assert_eq!(text(&tomorrow, "date"), "d0");
    assert_eq!(text(&tomorrow, "description"), "未知");
    let later = weather_answer("北京", "2024-03-16", 3, &data);
    assert_eq!(text(&later, "max_temp_c"), "15");
    assert_eq!(text(&later, "query_date"), "2024-03-16");
    assert_eq!(text(&later, "description"), "Rain");
    let none = weather_answer("北京", "today", 1, &JsonValue::Null);
    assert_eq!(text(&none, "message"), "暂时无法获取天气信息");
}

#[test]
fn web_search() {
    match plan_search(&obj(vec![])) {
        Err(e) => assert_eq!(text(&e, "error"), "query is empty"),
        Ok(_) => panic!("expected a refusal"),
    }
    let q = plan_search(&obj(vec![("query", st(" rust lang ")), ("top_n", num(50)), ("time_range", st("week"))])).ok().unwrap();
    assert_eq!(q.query, "rust lang");
    assert_eq!(q.top_n, 10);
    assert_eq!(q.time_range, "week");
    assert_eq!(q.url, "https://html.duckduckgo.com/html/?q=rust%20lang&df=w");
    let q = plan_search(&obj(vec![("query", st("x")), ("top_n", num(0))])).ok().unwrap();
    assert_eq!(q.top_n, 1);
    assert_eq!(q.url, "https://html.duckduckgo.com/html/?q=x");

    assert_eq!(normalize_url("//duckduckgo.com/l/?uddg=https%3A%2F%2Fexample.com%2Fa&rut=1"), "https://example.com/a&rut=1");
    assert_eq!(normalize_url("https://plain.org"), "https://plain.org");
    assert_eq!(normalize_url("bad%FF"), "bad%FF");

    let html = r#"<div><a rel="x" class="result__a" href="//duckduckgo.com/l/?uddg=https%3A%2F%2Fa.com">A <b>one</b></a>
<a class="result__snippet" href="z">first <b>snip</b></a>
<a class="result__a" href="https://b.com">B</a>
<a class="result__a" href="https://c.com">C</a>
<a class="result__snippet" href="z">second</a></div>"#;
    let hits = parse_duckduckgo_results(html, 2);
    assert_eq!(hits.len(), 2);
    assert_eq!(hits[0].title, "A one");
    assert_eq!(hits[0].url, "https://a.com");
    assert_eq!(hits[0].snippet, "first snip");
    assert_eq!(hits[1].title, "B");
    assert_eq!(hits[1].snippet, "second");
    let all = parse_duckduckgo_results(html, 10);
    assert_eq!(all.len(), 3);
    assert_eq!(all[2].snippet, "");
    assert!(parse_duckduckgo_results("<p>nothing</p>", 5).is_empty());

    let answer = search_answer("q", "", &vec![SearchHit { title: s("T"), url: s("U"), snippet: s("S") }]);
    assert_eq!(text(&answer, "time_range"), "all");
    let results = get(&answer, "results").as_array().unwrap();
    assert_eq!(text(&results[0], "url"), "U");
    let nothing = search_answer("q", "day", &vec![]);
    assert_eq!(text(&nothing, "message"), "未找到相关结果");
}

#[test]
fn calculator_input() {
    assert!(matches!(calc_input(&obj(vec![("expression", st(" 1 + 2*3 "))])), CalcInput::Ready(e) if e == "1 + 2*3"));
    assert!(matches!(calc_input(&obj(vec![("expression", st("sqrt(2)^2 % 3"))])), CalcInput::Ready(_)));
    match calc_input(&obj(vec![])) {
        CalcInput::Refused(v) => assert_eq!(text(&v, "error"), "表达式为空"),
        _ => panic!("expected a refusal"),
    }
    match calc_input(&obj(vec![("expression", st("2 + x"))])) {
        CalcInput::Refused(v) => {
            assert_eq!(text(&v, "error"), "表达式包含不允许的字符，仅支持数学运算");
            assert_eq!(text(&v, "expression"), "2 + x");
        },
        _ => panic!("expected a refusal"),
    }
}

#[test]
fn stripped_html_is_clean_and_stable() {
    let r = strip_html_tags("<b>Hello</b>   <i>world</i>\n");
    assert_eq!(r, "Hello world");
    assert_eq!(strip_html_tags(&r), r);
    let r2 = strip_html_tags(" <p>a\t\tb</p> <br/> c < d > e ");
    assert!(!r2.contains('<') && !r2.contains('>'));
    assert_eq!(r2, r2.split_whitespace().collect::<Vec<_>>().join(" "));
    assert_eq!(strip_html_tags(&r2), r2);
}

#[test]
fn search_address_is_percent_encoded() {
    let mut m = Vec::new();
    m.push((s("query"), st("天气 a-b")));
    match plan_search(&JsonValue::Object(m)) {
        Ok(q) => assert_eq!(q.url, "https://html.duckduckgo.com/html/?q=%E5%A4%A9%E6%B0%94%20a-b"),
        Err(_) => panic!("expected a query"),
    }
}

#[test]
fn addresses_are_percent_decoded() {
    assert_eq!(normalize_url("//duckduckgo.com/l/?uddg=https%3A%2F%2Fa.b%2Fc"), "https://a.b/c");
    assert_eq!(normalize_url("x?uddg=a%2Bb+c%zz%4"), "a+b+c%zz%4");
    assert_eq!(normalize_url("%E4%BD%A0"), "你");
    assert_eq!(normalize_url("%FF"), "%FF");
}
