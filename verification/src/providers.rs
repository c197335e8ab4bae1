//! Cloud model and speech services: their stored configurations, the
//! requests that create and change them, how a change becomes one SQL
//! update, and what a verification of a service answers.

use vstd::prelude::*;
use vstd::string::StringExecFns;
use crate::chat::{Capabilities, opt_str};
use crate::json::{JsonValue, spec_get, spec_as_str};
use crate::text::{
    chars_of, copy_range, string_from_chars, trim_chars, spec_trim, starts_with, spec_starts_with,
    spec_join, join_strs, strs_view, lemma_strs_view_push, decimal_string, spec_decimal,
};

verus! {

/// A model a cloud service offers.
pub struct CloudModel {
    pub id: String,
}

/// A stored cloud service.
pub struct CloudProviderConfig {
    pub id: String,
    pub name: String,
    pub provider_type: String,
    pub api_base: String,
    pub api_key: String,
    pub icon_url: Option<String>,
    pub models: Vec<CloudModel>,
    pub is_enabled: bool,
    pub created_at: String,
    pub updated_at: String,
}

/// A request to add a cloud service.
pub struct CreateCloudProviderRequest {
    pub name: String,
    pub provider_type: String,
    pub api_base: String,
    pub api_key: String,
    pub icon_url: Option<String>,
}

/// A request to change some settings of a cloud service.
pub struct UpdateCloudProviderRequest {
    pub name: Option<String>,
    pub provider_type: Option<String>,
    pub api_base: Option<String>,
    pub api_key: Option<String>,
    pub icon_url: Option<String>,
    pub is_enabled: Option<bool>,
}

/// The answer to a verification of a cloud service.
pub struct VerifyResponse {
    pub success: bool,
    pub models: Vec<CloudModel>,
    pub message: String,
}

/// A prompt a voice offers.
pub struct WusoundPrompt {
    pub id: String,
    pub name: String,
    pub description: Option<String>,
}

/// What is known of a voice.
pub struct WusoundVoiceMetadata {
    pub avatar: Option<String>,
    pub description: Option<String>,
    pub language: Option<Vec<String>>,
    pub gender: Option<String>,
    pub tags: Option<Vec<String>>,
    pub prompts: Option<Vec<WusoundPrompt>>,
}

/// A voice of a cloud speech service.
pub struct WusoundVoice {
    pub id: String,
    pub name: String,
    pub status: String,
    pub metadata: Option<WusoundVoiceMetadata>,
}

/// A stored cloud speech service; the key is shown masked.
pub struct CloudTtsProviderConfig {
    pub id: String,
    pub name: String,
    pub provider_type: String,
    pub api_base: String,
    pub api_key_masked: String,
    pub has_api_key: bool,
    pub icon_url: Option<String>,
    pub voices: Vec<WusoundVoice>,
    pub is_enabled: bool,
    pub last_verified_at: Option<String>,
    pub created_at: String,
    pub updated_at: String,
}

/// A request to add a cloud speech service.
pub struct CreateCloudTtsProviderRequest {
    pub name: String,
    pub provider_type: String,
    pub api_base: String,
    pub api_key: String,
    pub icon_url: Option<String>,
}

/// A request to change some settings of a cloud speech service.
pub struct UpdateCloudTtsProviderRequest {
    pub name: Option<String>,
    pub provider_type: Option<String>,
    pub api_base: Option<String>,
    pub api_key: Option<String>,
    pub icon_url: Option<String>,
    pub is_enabled: Option<bool>,
}

// ---------------------------------------------------------------------------
// Providers

/// The address of a cloud service without trailing slashes.
pub open spec fn spec_trim_slashes(s: Seq<char>) -> Seq<char>
    decreases s.len(),
{
    if s.len() > 0 && s.last() == '/' {
        spec_trim_slashes(s.drop_last())
    } else {
        s
    }
}

/// The address of a cloud service without trailing slashes.
pub fn cloud_base_url(base: &str) -> (r: String)
    ensures
        r@ == spec_trim_slashes(base@),
{
    let v = chars_of(base);
    let mut n = v.len();
    assert(v@.take(n as int) =~= v@);
    while n > 0 && v[n - 1] == '/'
        invariant
            n <= v@.len(),
            v@ == base@,
            spec_trim_slashes(base@) == spec_trim_slashes(v@.take(n as int)),
        decreases n,
    {
        assert(v@.take(n as int).drop_last() =~= v@.take(n - 1));
        n -= 1;
    }
    let t = copy_range(&v, 0, n);
    assert(t@ =~= v@.take(n as int));
    string_from_chars(&t)
}

/// What an OpenAI-compatible service offers: tool calls and a context of
/// 128 000 tokens, text only.
pub fn cloud_capabilities() -> (r: Capabilities)
    ensures
        !r.vision && !r.audio_input && !r.video && r.tool_use && r.max_context == 128000,
{
    Capabilities { vision: false, audio_input: false, video: false, tool_use: true, max_context: 128000 }
}

/// What a local Ollama model offers: images, tool calls and a context of
/// 131 072 tokens.
pub fn ollama_capabilities() -> (r: Capabilities)
    ensures
        r.vision && !r.audio_input && !r.video && r.tool_use && r.max_context == 131072,
{
    Capabilities { vision: true, audio_input: false, video: false, tool_use: true, max_context: 131072 }
}

/// The ids of the models a service lists under `data`: entries with a
/// string `id`, in order.
pub open spec fn listed_models(items: Seq<JsonValue>) -> Seq<Seq<char>>
    decreases items.len(),
{
    if items.len() == 0 {
        Seq::empty()
    } else {
        let p = listed_models(items.drop_last());
        match spec_get(items.last(), "id"@) {
            Some(x) => match spec_as_str(x) {
                Some(s) => p.push(s),
                None => p,
            },
            None => p,
        }
    }
}

/// The ids of the models in a reply of a service's model list.
pub open spec fn spec_models_of(body: JsonValue) -> Seq<Seq<char>> {
    match spec_get(body, "data"@) {
        Some(JsonValue::Array(a)) => listed_models(a@),
        _ => Seq::empty(),
    }
}

/// The model ids of cloud models.
pub open spec fn models_view(v: Seq<CloudModel>) -> Seq<Seq<char>> {
    v.map_values(|m: CloudModel| m.id@)
}

/// Reads the models of a reply of a service's model list.
pub fn models_from_reply(body: &JsonValue) -> (r: Vec<CloudModel>)
    ensures
        models_view(r@) == spec_models_of(*body),
{
    let mut out: Vec<CloudModel> = Vec::new();
    assert(models_view(out@) =~= Seq::<Seq<char>>::empty());
    let items = match body.get("data") {
        Some(d) => match d.as_array() {
            Some(a) => a,
            None => {
                return out;
            },
        },
        None => {
            return out;
        },
    };
    let mut k: usize = 0;
    while k < items.len()
        invariant
            k <= items@.len(),
            spec_get(*body, "data"@) == Some(JsonValue::Array(*items)),
            models_view(out@) == listed_models(items@.take(k as int)),
        decreases items.len() - k,
    {
        assert(items@.take(k + 1).drop_last() =~= items@.take(k as int));
        assert(items@.take(k + 1).last() == items@[k as int]);
        match items[k].get("id") {
            Some(x) => match x.as_str() {
                Some(s) => {
                    let m = CloudModel { id: String::from_str(s) };
                    let ghost before = out@;
                    out.push(m);
                    assert(models_view(out@) =~= models_view(before).push(m.id@));
                },
                None => {},
            },
            None => {},
        }
        k += 1;
    }
    assert(items@.take(k as int) =~= items@);
    out
}

/// The answer to a verification: the models found, or the error.
pub fn verify_reply(result: Result<Vec<CloudModel>, String>) -> (r: VerifyResponse)
    ensures
        match result {
            Ok(m) => r.success && models_view(r.models@) == models_view(m@)
                && r.message@ == "验证成功，发现 "@ + spec_decimal(m@.len()) + " 个模型"@,
            Err(e) => !r.success && r.models@.len() == 0 && r.message@ == "验证失败: "@ + e@,
        },
{
    match result {
        Ok(models) => {
            let mut message = String::from_str("验证成功，发现 ");
            message.append(decimal_string(models.len() as u64).as_str());
            message.append(" 个模型");
            VerifyResponse { success: true, models, message }
        },
        Err(e) => {
            let mut message = String::from_str("验证失败: ");
            message.append(e.as_str());
            VerifyResponse { success: false, models: Vec::new(), message }
        },
    }
}

/// The row id of a cloud model in the model table.
pub open spec fn spec_cloud_model_row_id(provider_id: Seq<char>, model_id: Seq<char>) -> Seq<char> {
    "cloud_"@ + provider_id + "_"@ + model_id.map_values(|c: char| if c == '/' { '_' } else { c })
}

/// The row id of a cloud model in the model table.
pub fn cloud_model_row_id(provider_id: &str, model_id: &str) -> (r: String)
    ensures
        r@ == spec_cloud_model_row_id(provider_id@, model_id@),
{
    let v = chars_of(model_id);
    let mut w: Vec<char> = Vec::new();
    let mut k: usize = 0;
    while k < v.len()
        invariant
            k <= v@.len(),
            v@ == model_id@,
            w@ == v@.take(k as int).map_values(|c: char| if c == '/' { '_' } else { c }),
        decreases v.len() - k,
    {
        w.push(if v[k] == '/' {
            '_'
        } else {
            v[k]
        });
        k += 1;
        assert(w@ =~= v@.take(k as int).map_values(|c: char| if c == '/' { '_' } else { c }));
    }
    assert(v@.take(k as int) =~= v@);
    let mut s = String::from_str("cloud_");
    s.append(provider_id);
    s.append("_");
    s.append(string_from_chars(&w).as_str());
    s
}

/// The provider id of a cloud model in the model table.
pub fn cloud_model_provider_id(provider_id: &str, model_id: &str) -> (r: String)
    ensures
        r@ == "cloud/"@ + provider_id@ + "/"@ + model_id@,
{
    let mut s = String::from_str("cloud/");
    s.append(provider_id);
    s.append("/");
    s.append(model_id);
    s
}

// ---------------------------------------------------------------------------
// Changing settings

/// A value bound to a placeholder of an SQL statement.
pub enum SqlParam {
    Text(String),
    Int(i64),
}

/// The model of a bound value.
pub enum ParamModel {
    Text(Seq<char>),
    Int(i64),
}

impl View for SqlParam {
    type V = ParamModel;

    open spec fn view(&self) -> ParamModel {
        match self {
            SqlParam::Text(t) => ParamModel::Text(t@),
            SqlParam::Int(i) => ParamModel::Int(*i),
        }
    }
}

/// The models of bound values.
pub open spec fn params_view(v: Seq<SqlParam>) -> Seq<ParamModel> {
    v.map_values(|p: SqlParam| p@)
}

/// An SQL update and the values bound to its placeholders, in order.
pub struct UpdatePlan {
    pub sql: String,
    pub params: Vec<SqlParam>,
}

/// The assignments and values of a change, in the order of the settings:
/// name, type, address, key, icon, enabled (as 1 or 0).
pub open spec fn change_sets(
    name: Option<Seq<char>>,
    provider_type: Option<Seq<char>>,
    api_base: Option<Seq<char>>,
    api_key: Option<Seq<char>>,
    icon_url: Option<Seq<char>>,
    is_enabled: Option<bool>,
) -> Seq<(Seq<char>, ParamModel)> {
    (match name {
        Some(v) => seq![("name = ?"@, ParamModel::Text(v))],
        None => Seq::empty(),
    }) + (match provider_type {
        Some(v) => seq![("provider_type = ?"@, ParamModel::Text(v))],
        None => Seq::empty(),
    }) + (match api_base {
        Some(v) => seq![("api_base = ?"@, ParamModel::Text(v))],
        None => Seq::empty(),
    }) + (match api_key {
        Some(v) => seq![("api_key = ?"@, ParamModel::Text(v))],
        None => Seq::empty(),
    }) + (match icon_url {
        Some(v) => seq![("icon_url = ?"@, ParamModel::Text(v))],
        None => Seq::empty(),
    }) + (match is_enabled {
        Some(b) => seq![("is_enabled = ?"@, ParamModel::Int(if b { 1 } else { 0 }))],
        None => Seq::empty(),
    })
}

/// The update of `table` that applies the assignments `sets` to row `id`,
/// stamping it as updated now.
pub open spec fn update_sql(table: Seq<char>, sets: Seq<(Seq<char>, ParamModel)>) -> Seq<char> {
    "UPDATE "@ + table + " SET "@ + spec_join(
        sets.map_values(|p: (Seq<char>, ParamModel)| p.0).push("updated_at = datetime('now')"@),
        ", "@,
    ) + " WHERE id = ?"@
}

/// The values of an update: those of the assignments, then the row id.
pub open spec fn update_params(sets: Seq<(Seq<char>, ParamModel)>, id: Seq<char>) -> Seq<ParamModel> {
    sets.map_values(|p: (Seq<char>, ParamModel)| p.1).push(ParamModel::Text(id))
}

/// The text of the database's refusal of a parameter.
pub open spec fn invalid_parameter(msg: Seq<char>) -> Seq<char> {
    "Invalid parameter name: "@ + msg
}

fn invalid_param_text(msg: &str) -> (r: String)
    ensures
        r@ == invalid_parameter(msg@),
{
    let mut s = String::from_str("Invalid parameter name: ");
    s.append(msg);
    s
}

fn push_set(
    cols: &mut Vec<String>,
    params: &mut Vec<SqlParam>,
    col: &str,
    p: SqlParam,
    Ghost(sets): Ghost<Seq<(Seq<char>, ParamModel)>>,
) -> (r: Ghost<Seq<(Seq<char>, ParamModel)>>)
    requires
        strs_view(old(cols)@) == sets.map_values(|q: (Seq<char>, ParamModel)| q.0),
        params_view(old(params)@) == sets.map_values(|q: (Seq<char>, ParamModel)| q.1),
    ensures
        r@ == sets.push((col@, p@)),
        strs_view(final(cols)@) == r@.map_values(|q: (Seq<char>, ParamModel)| q.0),
        params_view(final(params)@) == r@.map_values(|q: (Seq<char>, ParamModel)| q.1),
{
    let ghost pv = p@;
    let c = String::from_str(col);
    let ghost before = cols@;
    cols.push(c);
    proof {
        lemma_strs_view_push(before, c);
    }
    let ghost pb = params@;
    params.push(p);
    assert(params_view(params@) =~= params_view(pb).push(pv));
    let ghost next = sets.push((col@, pv));
    assert(strs_view(cols@) =~= next.map_values(|q: (Seq<char>, ParamModel)| q.0));
    assert(params_view(params@) =~= next.map_values(|q: (Seq<char>, ParamModel)| q.1));
    Ghost(next)
}

fn finish_update(table: &str, cols: Vec<String>, params: Vec<SqlParam>, id: &str, Ghost(sets): Ghost<Seq<(Seq<char>, ParamModel)>>) -> (r: UpdatePlan)
    requires
        strs_view(cols@) == sets.map_values(|q: (Seq<char>, ParamModel)| q.0),
        params_view(params@) == sets.map_values(|q: (Seq<char>, ParamModel)| q.1),
    ensures
        r.sql@ == update_sql(table@, sets),
        params_view(r.params@) == update_params(sets, id@),
{
    let mut cols = cols;
    let mut params = params;
    let stamp = String::from_str("updated_at = datetime('now')");
    let ghost before = cols@;
    cols.push(stamp);
    proof {
        lemma_strs_view_push(before, stamp);
    }
    let ghost pb = params@;
    params.push(SqlParam::Text(String::from_str(id)));
    assert(params_view(params@) =~= update_params(sets, id@));
    let joined = join_strs(&cols, ", ");
    let mut sql = String::from_str("UPDATE ");
    sql.append(table);
    sql.append(" SET ");
    sql.append(joined.as_str());
    sql.append(" WHERE id = ?");
    UpdatePlan { sql, params }
}

fn copy_text(s: &String) -> (r: String)
    ensures
        r@ == s@,
{
    s.clone()
}

fn change_plan(
    table: &str,
    id: &str,
    name: &Option<String>,
    provider_type: &Option<String>,
    api_base: &Option<String>,
    api_key: &Option<String>,
    icon_url: &Option<String>,
    is_enabled: Option<bool>,
    empty_msg: &str,
) -> (r: Result<UpdatePlan, String>)
    ensures
        ({
            let sets = change_sets(opt_str(*name), opt_str(*provider_type), opt_str(*api_base), opt_str(*api_key), opt_str(*icon_url), is_enabled);
            match r {
                Ok(p) => sets.len() > 0 && p.sql@ == update_sql(table@, sets) && params_view(p.params@) == update_params(sets, id@),
                Err(e) => sets.len() == 0 && e@ == invalid_parameter(empty_msg@),
            }
        }),
{
    let mut cols: Vec<String> = Vec::new();
    let mut params: Vec<SqlParam> = Vec::new();
    let ghost mut sets: Seq<(Seq<char>, ParamModel)> = Seq::empty();
    assert(strs_view(cols@) =~= sets.map_values(|q: (Seq<char>, ParamModel)| q.0));
    assert(params_view(params@) =~= sets.map_values(|q: (Seq<char>, ParamModel)| q.1));
    if let Some(v) = name {
        let Ghost(s2) = push_set(&mut cols, &mut params, "name = ?", SqlParam::Text(copy_text(v)), Ghost(sets));
        proof { sets = s2; }
    }
    if let Some(v) = provider_type {
        let Ghost(s2) = push_set(&mut cols, &mut params, "provider_type = ?", SqlParam::Text(copy_text(v)), Ghost(sets));
        proof { sets = s2; }
    }
    if let Some(v) = api_base {
        let Ghost(s2) = push_set(&mut cols, &mut params, "api_base = ?", SqlParam::Text(copy_text(v)), Ghost(sets));
        proof { sets = s2; }
    }
    if let Some(v) = api_key {
        let Ghost(s2) = push_set(&mut cols, &mut params, "api_key = ?", SqlParam::Text(copy_text(v)), Ghost(sets));
        proof { sets = s2; }
    }
    if let Some(v) = icon_url {
        let Ghost(s2) = push_set(&mut cols, &mut params, "icon_url = ?", SqlParam::Text(copy_text(v)), Ghost(sets));
        proof { sets = s2; }
    }
    if let Some(b) = is_enabled {
        let Ghost(s2) = push_set(&mut cols, &mut params, "is_enabled = ?", SqlParam::Int(if b { 1 } else { 0 }), Ghost(sets));
        proof { sets = s2; }
    }
    assert(sets =~= change_sets(opt_str(*name), opt_str(*provider_type), opt_str(*api_base), opt_str(*api_key), opt_str(*icon_url), is_enabled));
    assert(strs_view(cols@).len() == sets.len());
    if cols.len() == 0 {
        return Err(invalid_param_text(empty_msg));
    }
    Ok(finish_update(table, cols, params, id, Ghost(sets)))
}

/// The update of a cloud service's settings: refused when nothing changes.
pub fn plan_cloud_update(id: &str, req: &UpdateCloudProviderRequest) -> (r: Result<UpdatePlan, String>)
    ensures
        ({
            let sets = change_sets(opt_str(req.name), opt_str(req.provider_type), opt_str(req.api_base), opt_str(req.api_key), opt_str(req.icon_url), req.is_enabled);
            match r {
                Ok(p) => sets.len() > 0 && p.sql@ == update_sql("cloud_provider"@, sets) && params_view(p.params@) == update_params(sets, id@),
                Err(e) => sets.len() == 0 && e@ == invalid_parameter("No fields to update"@),
            }
        }),
{
    change_plan("cloud_provider", id, &req.name, &req.provider_type, &req.api_base, &req.api_key, &req.icon_url, req.is_enabled, "No fields to update")
}

/// Whether an address starts with `http://` or `https://`.
pub open spec fn has_http_scheme(s: Seq<char>) -> bool {
    spec_starts_with(s, "http://"@) || spec_starts_with(s, "https://"@)
}

/// Why a change of a speech service's settings is refused, if it is: an
/// empty name, an address without an HTTP scheme, an empty key (checked in
/// that order), or no setting changed at all.
pub open spec fn spec_tts_update_refusal(req: UpdateCloudTtsProviderRequest) -> Option<Seq<char>> {
    if req.name is Some && spec_trim(req.name.unwrap()@).len() == 0 {
        Some(invalid_parameter("名称不能为空"@))
    } else if req.api_base is Some && !has_http_scheme(req.api_base.unwrap()@) {
        Some(invalid_parameter("API 地址必须以 http:// 或 https:// 开头"@))
    } else if req.api_key is Some && spec_trim(req.api_key.unwrap()@).len() == 0 {
        Some(invalid_parameter("API Key 不能为空"@))
    } else if change_sets(opt_str(req.name), opt_str(req.provider_type), opt_str(req.api_base), opt_str(req.api_key), opt_str(req.icon_url), req.is_enabled).len() == 0 {
        Some(invalid_parameter("没有可更新的字段"@))
    } else {
        None
    }
}

fn blank(s: &str) -> (r: bool)
    ensures
        r == (spec_trim(s@).len() == 0),
{
    trim_chars(&chars_of(s)).len() == 0
}

fn http_scheme(s: &str) -> (r: bool)
    ensures
        r == has_http_scheme(s@),
{
    starts_with(s, "http://") || starts_with(s, "https://")
}

/// The update of a speech service's settings, or why it is refused.
pub fn plan_cloud_tts_update(id: &str, req: &UpdateCloudTtsProviderRequest) -> (r: Result<UpdatePlan, String>)
    ensures
        ({
            let sets = change_sets(opt_str(req.name), opt_str(req.provider_type), opt_str(req.api_base), opt_str(req.api_key), opt_str(req.icon_url), req.is_enabled);
            match r {
                Ok(p) => spec_tts_update_refusal(*req) is None && p.sql@ == update_sql("cloud_tts_provider"@, sets)
                    && params_view(p.params@) == update_params(sets, id@),
                Err(e) => spec_tts_update_refusal(*req) == Some(e@),
            }
        }),
{
    if let Some(v) = &req.name {
        if blank(v.as_str()) {
            return Err(invalid_param_text("名称不能为空"));
        }
    }
    if let Some(v) = &req.api_base {
        if !http_scheme(v.as_str()) {
            return Err(invalid_param_text("API 地址必须以 http:// 或 https:// 开头"));
        }
    }
    if let Some(v) = &req.api_key {
        if blank(v.as_str()) {
            return Err(invalid_param_text("API Key 不能为空"));
        }
    }
    change_plan(
        "cloud_tts_provider",
        id,
        &req.name,
        &req.provider_type,
        &req.api_base,
        &req.api_key,
        &req.icon_url,
        req.is_enabled,
        "没有可更新的字段",
    )
}

/// Why a new speech service is refused, if it is: an empty name, address
/// or key, or an address without an HTTP scheme, checked in that order.
pub open spec fn spec_tts_create_refusal(req: CreateCloudTtsProviderRequest) -> Option<Seq<char>> {
    if spec_trim(req.name@).len() == 0 {
        Some("名称不能为空"@)
    } else if spec_trim(req.api_base@).len() == 0 {
        Some("API 地址不能为空"@)
    } else if spec_trim(req.api_key@).len() == 0 {
        Some("API Key 不能为空"@)
    } else if !has_http_scheme(req.api_base@) {
        Some("API 地址必须以 http:// 或 https:// 开头"@)
    } else {
        None
    }
}

/// Checks a new speech service.
pub fn check_tts_create(req: &CreateCloudTtsProviderRequest) -> (r: Result<(), String>)
    ensures
        match r {
            Ok(()) => spec_tts_create_refusal(*req) is None,
            Err(e) => spec_tts_create_refusal(*req) == Some(e@),
        },
{
    if blank(req.name.as_str()) {
        Err(String::from_str("名称不能为空"))
    } else if blank(req.api_base.as_str()) {
        Err(String::from_str("API 地址不能为空"))
    } else if blank(req.api_key.as_str()) {
        Err(String::from_str("API Key 不能为空"))
    } else if !http_scheme(req.api_base.as_str()) {
        Err(String::from_str("API 地址必须以 http:// 或 https:// 开头"))
    } else {
        Ok(())
    }
}

/// The message of a successful verification of a speech service with
/// `voices` voices, and its quota (remaining and total characters) when
/// known; the quota is told when it is not zero.
pub fn tts_verified_message(voices: usize, quota: Option<(u64, u64)>) -> (r: String)
    ensures
        r@ == "验证成功，发现 "@ + spec_decimal(voices as nat) + " 个语音角色"@ + match quota {
            Some((remaining, total)) => if total > 0 {
                "，剩余 "@ + spec_decimal(remaining as nat) + " / "@ + spec_decimal(total as nat) + " 字符"@
            } else {
                Seq::empty()
            },
            None => Seq::empty(),
        },
{
    let mut s = String::from_str("验证成功，发现 ");
    s.append(decimal_string(voices as u64).as_str());
    s.append(" 个语音角色");
    let ghost base = s@;
    match quota {
        Some((remaining, total)) => {
            if total > 0 {
                s.append("，剩余 ");
                s.append(decimal_string(remaining).as_str());
                s.append(" / ");
                s.append(decimal_string(total).as_str());
                s.append(" 字符");
            } else {
                assert(s@ =~= base + Seq::<char>::empty());
            }
        },
        None => {
            assert(s@ =~= base + Seq::<char>::empty());
        },
    }
    s
}

/// The message of a failed verification.
pub fn verify_failed_message(err: &str) -> (r: String)
    ensures
        r@ == "验证失败: "@ + err@,
{
    let mut s = String::from_str("验证失败: ");
    s.append(err);
    s
}

/// Whether an id is that of a cloud service: `cloud_` and a random
/// identifier.
pub open spec fn is_cloud_id(id: Seq<char>) -> bool {
    id.len() == 42 && id.take(6) == "cloud_"@
}

/// A fresh id for a cloud service.
pub fn new_cloud_provider_id() -> (r: String)
    ensures
        is_cloud_id(r@),
{
    let u = crate::stream::new_uuid_text();
    let mut s = String::from_str("cloud_");
    proof {
        reveal_strlit("cloud_");
    }
    s.append(u.as_str());
    assert(s@.take(6) =~= "cloud_"@);
    s
}

/// A fresh id for a cloud speech service: `cloud_tts_` and a random
/// identifier.
pub fn new_cloud_tts_provider_id() -> (r: String)
    ensures
        r@.len() == 46,
        r@.take(10) == "cloud_tts_"@,
{
    let u = crate::stream::new_uuid_text();
    let mut s = String::from_str("cloud_tts_");
    proof {
        reveal_strlit("cloud_tts_");
    }
    s.append(u.as_str());
    assert(s@.take(10) =~= "cloud_tts_"@);
    s
}

} // verus!
