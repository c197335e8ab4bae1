use ai_companion::json::{JsonNumber, JsonValue};
use ai_companion::providers::{
    check_tts_create, cloud_base_url, cloud_capabilities, cloud_model_provider_id, cloud_model_row_id,
    models_from_reply, new_cloud_provider_id, new_cloud_tts_provider_id, ollama_capabilities,
    plan_cloud_tts_update, plan_cloud_update, tts_verified_message, verify_failed_message,
    verify_reply, CloudModel, CreateCloudTtsProviderRequest, SqlParam, UpdateCloudProviderRequest,
    UpdateCloudTtsProviderRequest,
};

fn s(x: &str) -> String {
    x.to_string()
}

fn params(p: &[SqlParam]) -> Vec<String> {
    p.iter()
        .map(|x| match x {
            SqlParam::Text(t) => format!("T:{}", t),
            SqlParam::Int(i) => format!("I:{}", i),
        })
        .collect()
}

fn tts_update() -> UpdateCloudTtsProviderRequest {
    UpdateCloudTtsProviderRequest {
        name: None,
        provider_type: None,
        api_base: None,
        api_key: None,
        icon_url: None,
        is_enabled: None,
    }
}

#[test]
fn urls_and_capabilities() {
    assert_eq!(cloud_base_url("https://api.x.com/v1//"), "https://api.x.com/v1");
    assert_eq!(cloud_base_url("https://api.x.com"), "https://api.x.com");
    assert_eq!(cloud_base_url("///"), "");
    let c = cloud_capabilities();
    assert!(c.tool_use && !c.vision && c.max_context == 128000);
    let o = ollama_capabilities();
    assert!(o.tool_use && o.vision && !o.audio_input && o.max_context == 131072);
}

#[test]
fn model_lists() {
    let body = JsonValue::Object(vec![(
        s("data"),
        JsonValue::Array(vec![
            JsonValue::Object(vec![(s("id"), JsonValue::String(s("gpt-4o")))]),
            JsonValue::Object(vec![(s("id"), JsonValue::Number(JsonNumber::PosInt(3)))]),
            JsonValue::Object(vec![(s("object"), JsonValue::String(s("model")))]),
            JsonValue::Object(vec![(s("id"), JsonValue::String(s("o1")))]),
        ]),
    )]);
    let ids: Vec<String> = models_from_reply(&body).into_iter().map(|m| m.id).collect();
    assert_eq!(ids, vec![s("gpt-4o"), s("o1")]);
    assert!(models_from_reply(&JsonValue::Null).is_empty());
    let ok = verify_reply(Ok(vec![CloudModel { id: s("a") }, CloudModel { id: s("b") }]));
    assert!(ok.success);
    assert_eq!(ok.models.len(), 2);
    assert_eq!(ok.message, "验证成功，发现 2 个模型");
    let bad = verify_reply(Err(s("401")));
    assert!(!bad.success && bad.models.is_empty());
    assert_eq!(bad.message, "验证失败: 401");
    assert_eq!(cloud_model_row_id("p1", "meta/llama/3"), "cloud_p1_meta_llama_3");
    assert_eq!(cloud_model_provider_id("p1", "meta/llama"), "cloud/p1/meta/llama");
}

#[test]
fn cloud_updates() {
    let req = UpdateCloudProviderRequest {
        name: Some(s("N")),
        provider_type: None,
        api_base: None,
        api_key: Some(s("K")),
        icon_url: None,
        is_enabled: Some(false),
    };
    let p = plan_cloud_update("id1", &req).ok().unwrap();
    assert_eq!(
        p.sql,
        "UPDATE cloud_provider SET name = ?, api_key = ?, is_enabled = ?, updated_at = datetime('now') WHERE id = ?"
    );
    assert_eq!(params(&p.params), vec![s("T:N"), s("T:K"), s("I:0"), s("T:id1")]);
    let none = UpdateCloudProviderRequest {
        name: None,
        provider_type: None,
        api_base: None,
        api_key: None,
        icon_url: None,
        is_enabled: None,
    };
    assert_eq!(plan_cloud_update("id1", &none).err().unwrap(), "Invalid parameter name: No fields to update");
}

#[test]
fn tts_updates() {
    let mut r = tts_update();
    r.is_enabled = Some(true);
    r.api_base = Some(s("https://x"));
    let p = plan_cloud_tts_update("t1", &r).ok().unwrap();
    assert_eq!(
        p.sql,
        "UPDATE cloud_tts_provider SET api_base = ?, is_enabled = ?, updated_at = datetime('now') WHERE id = ?"
    );
    assert_eq!(params(&p.params), vec![s("T:https://x"), s("I:1"), s("T:t1")]);
    let mut blank_name = tts_update();
    blank_name.name = Some(s("  "));
    blank_name.api_base = Some(s("ftp://x"));
    assert_eq!(plan_cloud_tts_update("t", &blank_name).err().unwrap(), "Invalid parameter name: 名称不能为空");
    let mut bad_base = tts_update();
    bad_base.api_base = Some(s("ftp://x"));
    assert_eq!(
        plan_cloud_tts_update("t", &bad_base).err().unwrap(),
        "Invalid parameter name: API 地址必须以 http:// 或 https:// 开头"
    );
    let mut blank_key = tts_update();
    blank_key.api_key = Some(s(""));
    assert_eq!(plan_cloud_tts_update("t", &blank_key).err().unwrap(), "Invalid parameter name: API Key 不能为空");
    assert_eq!(plan_cloud_tts_update("t", &tts_update()).err().unwrap(), "Invalid parameter name: 没有可更新的字段");
}

#[test]
fn tts_creation_checks() {
    let ok = CreateCloudTtsProviderRequest {
        name: s("N"),
        provider_type: s("wusound"),
        api_base: s("http://x"),
        api_key: s("k"),
        icon_url: None,
    };
    assert!(check_tts_create(&ok).is_ok());
    let mut r = CreateCloudTtsProviderRequest { name: s(" "), ..ok };
    assert_eq!(check_tts_create(&r).err().unwrap(), "名称不能为空");
    r.name = s("N");
    r.api_base = s("");
    assert_eq!(check_tts_create(&r).err().unwrap(), "API 地址不能为空");
    r.api_base = s("x.com");
    r.api_key = s(" ");
    assert_eq!(check_tts_create(&r).err().unwrap(), "API Key 不能为空");
    r.api_key = s("k");
    assert_eq!(check_tts_create(&r).err().unwrap(), "API 地址必须以 http:// 或 https:// 开头");
}

#[test]
fn messages_and_ids() {
    assert_eq!(tts_verified_message(3, None), "验证成功，发现 3 个语音角色");
    assert_eq!(tts_verified_message(3, Some((10, 0))), "验证成功，发现 3 个语音角色");
    assert_eq!(tts_verified_message(1, Some((500, 1000))), "验证成功，发现 1 个语音角色，剩余 500 / 1000 字符");
    assert_eq!(verify_failed_message("e"), "验证失败: e");
    let a = new_cloud_provider_id();
    assert_eq!(a.len(), 42);
    assert!(a.starts_with("cloud_"));
    let b = new_cloud_tts_provider_id();
    assert_eq!(b.len(), 46);
    assert!(b.starts_with("cloud_tts_"));
}
