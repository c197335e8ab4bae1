use ai_companion::json::{JsonNumber, JsonValue};
use ai_companion::plugin::{
    merge_with_defaults, validate_manifest, validate_manifest_fields, InstalledPlugin, PluginConfigField, PluginManifest, PluginPermission, PluginSkill,
};
use ai_companion::skill::{build_json_schema, parse_yaml_skill, validate_args, SkillDefinition, SkillRegistry};

fn s(x: &str) -> String {
    x.to_string()
}

fn to_json(v: &JsonValue) -> String {
    match v {
        JsonValue::Null => "null".to_string(),
        JsonValue::Bool(b) => b.to_string(),
        JsonValue::Number(JsonNumber::PosInt(n)) => n.to_string(),
        JsonValue::Number(JsonNumber::NegInt(n)) => n.to_string(),
        JsonValue::Number(JsonNumber::Float(bits)) => f64::from_bits(*bits).to_string(),
        JsonValue::String(t) => format!("\"{}\"", t),
        JsonValue::Array(a) => format!("[{}]", a.iter().map(to_json).collect::<Vec<_>>().join(",")),
        JsonValue::Object(m) => format!(
            "{{{}}}",
            m.iter().map(|(k, v)| format!("\"{}\":{}", k, to_json(v))).collect::<Vec<_>>().join(",")
        ),
    }
}

fn obj(pairs: Vec<(&str, JsonValue)>) -> JsonValue {
    JsonValue::Object(pairs.into_iter().map(|(k, v)| (k.to_string(), v)).collect())
}

fn skill(name: &str, enabled: bool) -> SkillDefinition {
    SkillDefinition {
        name: s(name),
        description: format!("{} skill", name),
        parameters: obj(vec![]),
        permissions: vec![],
        approval_mode: s("once"),
        executor_type: s("python"),
        enabled,
        plugin_id: None,
    }
}

const YAML: &str = "# a weather skill\ndescription: \"查询天气\"\npermissions: [ 'network', \"fs_read\" , ]\nparameters:\n  - name: city\n    type: string\n    required: true\n  - name: days\n    type: int\n  - name: city\n    type: integer\napproval_mode: always\n";

#[test]
fn yaml_skill_definition() {
    let d = parse_yaml_skill("weather", YAML).ok().unwrap();
    assert_eq!(d.name, "weather");
    assert_eq!(d.description, "查询天气");
    assert_eq!(d.permissions, vec![s("network"), s("fs_read")]);
    assert_eq!(d.approval_mode, "always");
    assert_eq!(d.executor_type, "python");
    assert!(d.enabled);
    assert!(d.plugin_id.is_none());
    assert_eq!(
        to_json(&d.parameters),
        "{\"properties\":{\"city\":{\"type\":\"integer\"},\"days\":{\"type\":\"string\"}},\"required\":[\"city\"],\"type\":\"object\"}"
    );
}

#[test]
fn description_line_ends_the_parameters() {
    let d = parse_yaml_skill("q", "parameters:\n  - name: q\n    description: 查询词\n    type: string\n").ok().unwrap();
    assert_eq!(d.description, "查询词");
    assert_eq!(to_json(&d.parameters), "{\"properties\":{\"q\":{\"type\":\"string\"}},\"required\":[],\"type\":\"object\"}");
}

#[test]
fn yaml_defaults() {
    let d = parse_yaml_skill("x", "").ok().unwrap();
    assert_eq!(d.description, "");
    assert!(d.permissions.is_empty());
    assert_eq!(d.approval_mode, "once");
    assert_eq!(to_json(&d.parameters), "{\"properties\":{},\"required\":[],\"type\":\"object\"}");
}

#[test]
fn schema_from_items() {
    let item = |pairs: &[(&str, &str)]| -> Vec<(Vec<char>, Vec<char>)> {
        pairs.iter().map(|(k, v)| (k.chars().collect(), v.chars().collect())).collect()
    };
    let items = vec![
        item(&[("name", "amount"), ("type", "integer"), ("required", "true")]),
        item(&[("type", "number")]),
        item(&[("name", "flag"), ("type", "boolean"), ("required", "yes")]),
    ];
    assert_eq!(
        to_json(&build_json_schema(&items)),
        "{\"properties\":{\"amount\":{\"type\":\"integer\"},\"flag\":{\"type\":\"boolean\"}},\"required\":[\"amount\"],\"type\":\"object\"}"
    );
}

#[test]
fn argument_checks() {
    let schema = obj(vec![
        ("properties", obj(vec![
            ("city", obj(vec![("type", JsonValue::String(s("string")))])),
            ("n", obj(vec![("type", JsonValue::String(s("number")))])),
            ("any", obj(vec![("type", JsonValue::String(s("any")))])),
        ])),
        ("required", JsonValue::Array(vec![JsonValue::String(s("city"))])),
    ]);
    assert!(validate_args(&schema, &obj(vec![("city", JsonValue::String(s("x")))])).is_ok());
    assert_eq!(validate_args(&schema, &obj(vec![])).err().unwrap(), "Missing required field: city");
    assert_eq!(
        validate_args(&schema, &obj(vec![("city", JsonValue::Null)])).err().unwrap(),
        "Missing required field: city"
    );
    assert_eq!(
        validate_args(&schema, &obj(vec![("city", JsonValue::String(s("x"))), ("n", JsonValue::String(s("1")))]))
            .err()
            .unwrap(),
        "Field 'n' expected number, got string"
    );
    assert!(validate_args(
        &schema,
        &obj(vec![("city", JsonValue::String(s("x"))), ("any", JsonValue::Bool(true)), ("n", JsonValue::Number(JsonNumber::PosInt(3)))])
    )
    .is_ok());
    assert!(validate_args(&JsonValue::Null, &JsonValue::Null).is_ok());
}

#[test]
fn registry_by_name() {
    let mut r = SkillRegistry::new();
    assert!(r.list_names().is_empty());
    r.register(skill("a", true));
    r.register(skill("b", true));
    let mut a2 = skill("a", true);
    a2.description = s("second");
    r.register(a2);
    let mut names = r.list_names();
    names.sort();
    assert_eq!(names, vec![s("a"), s("b")]);
    assert_eq!(r.get("a").unwrap().description, "second");
    assert!(r.get("zzz").is_none());
    let tools = r.enabled_schemas(&[s("b"), s("missing"), s("a")]);
    let names: Vec<String> = tools.iter().map(|t| t.name.clone()).collect();
    assert_eq!(names, vec![s("b"), s("a")]);
    assert_eq!(tools[1].description, "second");
}

fn manifest(id: &str) -> PluginManifest {
    PluginManifest {
        id: s(id),
        name: s("Plugin"),
        version: s("1.0"),
        description: s("d"),
        author: None,
        icon: None,
        entry: None,
        permissions: vec![PluginPermission::Network, PluginPermission::Clipboard],
        config: None,
        skills: Some(vec![
            PluginSkill { id: s("p_skill"), name: s("S"), description: s("does"), icon: None, arguments: None },
        ]),
        commands: None,
    }
}

#[test]
fn plugins_register_their_skills() {
    let mut r = SkillRegistry::new();
    r.register(skill("p_skill", true));
    let plugins = vec![
        InstalledPlugin {
            id: s("plug"),
            manifest: manifest("plug"),
            enabled: true,
            config: JsonValue::Null,
            installed_at: s("t"),
            updated_at: s("t"),
            path: s("/p"),
        },
        InstalledPlugin {
            id: s("off"),
            manifest: PluginManifest { skills: Some(vec![PluginSkill { id: s("off_skill"), name: s("O"), description: s("o"), icon: None, arguments: None }]), ..manifest("off") },
            enabled: false,
            config: JsonValue::Null,
            installed_at: s("t"),
            updated_at: s("t"),
            path: s("/o"),
        },
    ];
    r.load_plugins(&plugins);
    assert_eq!(r.list_names(), vec![s("p_skill")]);
    let d = r.get("p_skill").unwrap();
    assert_eq!(d.executor_type, "plugin");
    assert_eq!(d.plugin_id, Some(s("plug")));
    assert_eq!(d.permissions, vec![s("network"), s("clipboard")]);
    assert_eq!(to_json(&d.parameters), "{\"properties\":{},\"required\":[],\"type\":\"object\"}");
}

#[test]
fn manifest_checks() {
    assert!(validate_manifest_fields(&manifest("my-plugin_1")).is_ok());
    assert_eq!(validate_manifest_fields(&manifest(" ")).err().unwrap(), "插件 id 不能为空");
    assert_eq!(
        validate_manifest_fields(&PluginManifest { name: s(""), ..manifest("x") }).err().unwrap(),
        "插件 name 不能为空"
    );
    assert_eq!(
        validate_manifest_fields(&PluginManifest { version: s(" "), ..manifest("x") }).err().unwrap(),
        "插件 version 不能为空"
    );
    assert_eq!(
        validate_manifest_fields(&PluginManifest { description: s(""), ..manifest("x") }).err().unwrap(),
        "插件 description 不能为空"
    );
    assert_eq!(validate_manifest_fields(&manifest("bad id")).err().unwrap(), "插件 id 'bad id' 包含非法字符");
    let field = |key: &str, t: &str| PluginConfigField {
        key: s(key),
        label: s("L"),
        field_type: s(t),
        default: None,
        options: None,
        required: None,
    };
    let with_config = PluginManifest { config: Some(vec![field("a", "select"), field("b", "date")]), ..manifest("x") };
    assert_eq!(
        validate_manifest_fields(&with_config).err().unwrap(),
        "配置字段 'b' 的类型 'date' 不合法，必须是 [\"string\", \"number\", \"boolean\", \"select\", \"password\"] 之一"
    );
    assert_eq!(PluginPermission::FsWrite.as_str(), "fs_write");
}

#[test]
fn integer_arguments_accept_whole_numbers() {
    let schema = obj(vec![
        ("type", JsonValue::String(s("object"))),
        ("properties", obj(vec![("top_n", obj(vec![("type", JsonValue::String(s("integer")))]))])),
        ("required", JsonValue::Array(vec![])),
    ]);
    let with = |v: JsonValue| obj(vec![("top_n", v)]);
    assert!(validate_args(&schema, &with(JsonValue::Number(JsonNumber::PosInt(5)))).is_ok());
    assert!(validate_args(&schema, &with(JsonValue::Number(JsonNumber::NegInt(-2)))).is_ok());
    assert!(validate_args(&schema, &with(JsonValue::Number(JsonNumber::Float(5.0f64.to_bits())))).is_ok());
    assert!(validate_args(&schema, &with(JsonValue::Number(JsonNumber::Float((-0.0f64).to_bits())))).is_ok());
    assert!(validate_args(&schema, &with(JsonValue::Number(JsonNumber::Float(1e20f64.to_bits())))).is_ok());
    assert_eq!(
        validate_args(&schema, &with(JsonValue::Number(JsonNumber::Float(5.5f64.to_bits())))).err().unwrap(),
        "Field 'top_n' expected integer, got number"
    );
    assert_eq!(
        validate_args(&schema, &with(JsonValue::Number(JsonNumber::Float(0.25f64.to_bits())))).err().unwrap(),
        "Field 'top_n' expected integer, got number"
    );
    assert_eq!(
        validate_args(&schema, &with(JsonValue::String(s("5")))).err().unwrap(),
        "Field 'top_n' expected integer, got string"
    );
}

#[test]
fn manifest_entry_file_checked() {
    let with_entry = PluginManifest { entry: Some(s("main.py")), ..manifest("p1") };
    assert!(validate_manifest(&with_entry, "/plugins/p1/main.py", true).is_ok());
    assert_eq!(
        validate_manifest(&with_entry, "/plugins/p1/main.py", false).err().unwrap(),
        "入口文件 '/plugins/p1/main.py' 不存在"
    );
    assert!(validate_manifest(&manifest("p1"), "", false).is_ok());
    assert_eq!(validate_manifest(&manifest(" "), "", true).err().unwrap(), "插件 id 不能为空");
}

#[test]
fn config_defaults_fill_missing_fields() {
    let field = |key: &str, d: Option<JsonValue>| PluginConfigField {
        key: s(key),
        label: s("L"),
        field_type: s("string"),
        default: d,
        options: None,
        required: None,
    };
    let m = PluginManifest {
        config: Some(vec![
            field("a", Some(JsonValue::String(s("x")))),
            field("b", Some(JsonValue::Bool(true))),
            field("c", None),
        ]),
        ..manifest("p")
    };
    let config = obj(vec![("a", JsonValue::String(s("kept")))]);
    let merged = merge_with_defaults(&config, &m);
    assert_eq!(merged.get("a").and_then(|v| v.as_str()), Some("kept"));
    assert_eq!(merged.get("b").and_then(|v| v.as_bool()), Some(true));
    assert!(merged.get("c").is_none());
    let from_null = merge_with_defaults(&JsonValue::Null, &m);
    assert_eq!(from_null.get("a").and_then(|v| v.as_str()), Some("x"));
}

#[test]
fn merging_defaults_twice_changes_nothing() {
    let field = |key: &str, d: Option<JsonValue>| PluginConfigField {
        key: s(key),
        label: s("L"),
        field_type: s("string"),
        default: d,
        options: None,
        required: None,
    };
    let m = PluginManifest {
        config: Some(vec![field("a", Some(JsonValue::String(s("x")))), field("b", Some(JsonValue::Bool(false)))]),
        ..manifest("p")
    };
    let once = merge_with_defaults(&obj(vec![("b", JsonValue::Bool(true)), ("z", JsonValue::Null)]), &m);
    let twice = merge_with_defaults(&once, &m);
    let keys = |v: &JsonValue| match v {
        JsonValue::Object(ms) => ms.iter().map(|(k, _)| k.clone()).collect::<Vec<_>>(),
        _ => vec![],
    };
    assert_eq!(keys(&once), vec![s("b"), s("z"), s("a")]);
    assert_eq!(keys(&twice), keys(&once));
    assert_eq!(twice.get("b").and_then(|v| v.as_bool()), Some(true));
    assert_eq!(twice.get("a").and_then(|v| v.as_str()), Some("x"));
}
