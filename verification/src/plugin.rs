//! Plugin manifests: the permissions a plugin asks for, what it declares,
//! and the checks a manifest must pass before the plugin is loaded.

use vstd::prelude::*;
use vstd::string::StringExecFns;
use crate::json::{JsonValue, JsonModel, json_model, members_model, copy_json};
use crate::text::{chars_of, spec_trim, trim_chars, str_eq};

verus! {

/// A permission a plugin may ask for.
#[derive(Clone, Copy, Debug, PartialEq, Eq, Structural)]
pub enum PluginPermission {
    FsRead,
    FsWrite,
    Network,
    Shell,
    Clipboard,
}

/// The snake_case name of a permission.
pub open spec fn spec_permission_str(p: PluginPermission) -> Seq<char> {
    match p {
        PluginPermission::FsRead => "fs_read"@,
        PluginPermission::FsWrite => "fs_write"@,
        PluginPermission::Network => "network"@,
        PluginPermission::Shell => "shell"@,
        PluginPermission::Clipboard => "clipboard"@,
    }
}

impl PluginPermission {
    /// The snake_case name of the permission.
    pub fn as_str(&self) -> (r: &'static str)
        ensures
            r@ == spec_permission_str(*self),
    {
        match self {
            PluginPermission::FsRead => "fs_read",
            PluginPermission::FsWrite => "fs_write",
            PluginPermission::Network => "network",
            PluginPermission::Shell => "shell",
            PluginPermission::Clipboard => "clipboard",
        }
    }
}

/// One choice of a select field.
pub struct PluginConfigOption {
    pub label: String,
    pub value: String,
}

/// A configuration field a plugin declares.
pub struct PluginConfigField {
    pub key: String,
    pub label: String,
    pub field_type: String,
    pub default: Option<JsonValue>,
    pub options: Option<Vec<PluginConfigOption>>,
    pub required: Option<bool>,
}

/// A skill a plugin provides.
pub struct PluginSkill {
    pub id: String,
    pub name: String,
    pub description: String,
    pub icon: Option<String>,
    pub arguments: Option<JsonValue>,
}

/// A command a plugin provides.
pub struct PluginCommand {
    pub id: String,
    pub title: String,
    pub shortcut: Option<String>,
}

/// What a plugin declares about itself.
pub struct PluginManifest {
    pub id: String,
    pub name: String,
    pub version: String,
    pub description: String,
    pub author: Option<String>,
    pub icon: Option<String>,
    pub entry: Option<String>,
    pub permissions: Vec<PluginPermission>,
    pub config: Option<Vec<PluginConfigField>>,
    pub skills: Option<Vec<PluginSkill>>,
    pub commands: Option<Vec<PluginCommand>>,
}

/// A character allowed in a plugin id: an ASCII letter or digit, `_` or `-`.
pub open spec fn is_id_char(c: char) -> bool {
    ('a' <= c && c <= 'z') || ('A' <= c && c <= 'Z') || ('0' <= c && c <= '9') || c == '_' || c == '-'
}

/// The configuration field types a manifest may use.
pub open spec fn is_allowed_field_type(t: Seq<char>) -> bool {
    t == "string"@ || t == "number"@ || t == "boolean"@ || t == "select"@ || t == "password"@
}

/// The index of the first configuration field with a type that is not
/// allowed, if any.
pub open spec fn first_bad_field(fields: Seq<PluginConfigField>) -> Option<int>
    decreases fields.len(),
{
    if fields.len() == 0 {
        None
    } else if !is_allowed_field_type(fields[0].field_type@) {
        Some(0int)
    } else {
        match first_bad_field(fields.drop_first()) {
            Some(i) => Some(i + 1),
            None => None,
        }
    }
}

/// The verdict on a manifest's own fields: the first failing check, in the
/// order id, name, version and description present (not blank), id made of
/// allowed characters, every configuration type allowed.
pub open spec fn spec_validate_manifest(m: PluginManifest) -> Result<(), Seq<char>> {
    if spec_trim(m.id@).len() == 0 {
        Err("插件 id 不能为空"@)
    } else if spec_trim(m.name@).len() == 0 {
        Err("插件 name 不能为空"@)
    } else if spec_trim(m.version@).len() == 0 {
        Err("插件 version 不能为空"@)
    } else if spec_trim(m.description@).len() == 0 {
        Err("插件 description 不能为空"@)
    } else if !(forall|i: int| 0 <= i < m.id@.len() ==> is_id_char(#[trigger] m.id@[i])) {
        Err("插件 id '"@ + m.id@ + "' 包含非法字符"@)
    } else {
        match m.config {
            Some(fields) => match first_bad_field(fields@) {
                Some(i) => Err("配置字段 '"@ + fields@[i].key@ + "' 的类型 '"@ + fields@[i].field_type@
                    + "' 不合法，必须是 [\"string\", \"number\", \"boolean\", \"select\", \"password\"] 之一"@),
                None => Ok(()),
            },
            None => Ok(()),
        }
    }
}

fn is_blank(s: &String) -> (r: bool)
    ensures
        r == (spec_trim(s@).len() == 0),
{
    let c = chars_of(s.as_str());
    let t = trim_chars(&c);
    t.len() == 0
}

fn id_chars_ok(id: &String) -> (r: bool)
    ensures
        r == (forall|i: int| 0 <= i < id@.len() ==> is_id_char(#[trigger] id@[i])),
{
    let c = chars_of(id.as_str());
    let mut k: usize = 0;
    while k < c.len()
        invariant
            k <= c.len(),
            c@ == id@,
            forall|i: int| 0 <= i < k ==> is_id_char(#[trigger] id@[i]),
        decreases c.len() - k,
    {
        let ch = c[k];
        if !(('a' <= ch && ch <= 'z') || ('A' <= ch && ch <= 'Z') || ('0' <= ch && ch <= '9') || ch == '_' || ch == '-') {
            return false;
        }
        k += 1;
    }
    true
}

/// Checks a manifest's own fields (the entry file is checked by whoever
/// reads the plugin directory).
pub fn validate_manifest_fields(manifest: &PluginManifest) -> (r: Result<(), String>)
    ensures
        match r {
            Ok(()) => spec_validate_manifest(*manifest) == Ok::<(), Seq<char>>(()),
            Err(e) => spec_validate_manifest(*manifest) == Err::<(), Seq<char>>(e@),
        },
{
    if is_blank(&manifest.id) {
        return Err(String::from_str("插件 id 不能为空"));
    }
    if is_blank(&manifest.name) {
        return Err(String::from_str("插件 name 不能为空"));
    }
    if is_blank(&manifest.version) {
        return Err(String::from_str("插件 version 不能为空"));
    }
    if is_blank(&manifest.description) {
        return Err(String::from_str("插件 description 不能为空"));
    }
    if !id_chars_ok(&manifest.id) {
        let mut e = String::from_str("插件 id '");
        e.append(manifest.id.as_str());
        e.append("' 包含非法字符");
        return Err(e);
    }
    match &manifest.config {
        Some(fields) => {
            let mut k: usize = 0;
            assert(fields@.skip(0) =~= fields@);
            while k < fields.len()
                invariant
                    k <= fields.len(),
                    manifest.config == Some(*fields),
                    spec_trim(manifest.id@).len() > 0,
                    spec_trim(manifest.name@).len() > 0,
                    spec_trim(manifest.version@).len() > 0,
                    spec_trim(manifest.description@).len() > 0,
                    forall|i: int| 0 <= i < manifest.id@.len() ==> is_id_char(#[trigger] manifest.id@[i]),
                    first_bad_field(fields@) == match first_bad_field(fields@.skip(k as int)) {
                        Some(i) => Some(i + k),
                        None => None,
                    },
                decreases fields.len() - k,
            {
                let t = fields[k].field_type.as_str();
                let ghost rest = fields@.skip(k as int);
                assert(rest[0] == fields@[k as int]);
                assert(rest.drop_first() =~= fields@.skip(k + 1));
                if !(str_eq(t, "string") || str_eq(t, "number") || str_eq(t, "boolean") || str_eq(t, "select")
                    || str_eq(t, "password")) {
                    let mut e = String::from_str("配置字段 '");
                    e.append(fields[k].key.as_str());
                    e.append("' 的类型 '");
                    e.append(t);
                    e.append("' 不合法，必须是 [\"string\", \"number\", \"boolean\", \"select\", \"password\"] 之一");
                    return Err(e);
                }
                k += 1;
            }
            assert(fields@.skip(k as int) =~= Seq::<PluginConfigField>::empty());
        },
        None => {},
    }
    Ok(())
}

/// The verdict on a manifest whose entry file, when it names one, is
/// `entry_path` in the plugin directory and exists there or not: the
/// verdict on its own fields, then a missing entry file.
pub open spec fn spec_validate_manifest_in(m: PluginManifest, entry_path: Seq<char>, entry_exists: bool) -> Result<(), Seq<char>> {
    match spec_validate_manifest(m) {
        Err(e) => Err(e),
        Ok(()) => if m.entry is Some && !entry_exists {
            Err("入口文件 '"@ + entry_path + "' 不存在"@)
        } else {
            Ok(())
        },
    }
}

/// Checks a manifest: its own fields, then its entry file, if it names one.
/// The caller looks in the plugin directory: `entry_path` is the path of
/// the entry file there and `entry_exists` whether a file is at that path.
pub fn validate_manifest(manifest: &PluginManifest, entry_path: &str, entry_exists: bool) -> (r: Result<(), String>)
    ensures
        match r {
            Ok(()) => spec_validate_manifest_in(*manifest, entry_path@, entry_exists) == Ok::<(), Seq<char>>(()),
            Err(e) => spec_validate_manifest_in(*manifest, entry_path@, entry_exists) == Err::<(), Seq<char>>(e@),
        },
{
    validate_manifest_fields(manifest)?;
    if manifest.entry.is_some() && !entry_exists {
        let mut e = String::from_str("入口文件 '");
        e.append(entry_path);
        e.append("' 不存在");
        return Err(e);
    }
    Ok(())
}

/// Whether an object's members include key `k`.
pub open spec fn has_member(m: Seq<(Seq<char>, JsonModel)>, k: Seq<char>) -> bool {
    exists|i: int| 0 <= i < m.len() && (#[trigger] m[i]).0 == k
}

/// The members with the defaults of `fields` added, in order, for each
/// field whose key is not present yet and that has a default.
pub open spec fn add_defaults(m: Seq<(Seq<char>, JsonModel)>, fields: Seq<PluginConfigField>) -> Seq<(Seq<char>, JsonModel)>
    decreases fields.len(),
{
    if fields.len() == 0 {
        m
    } else {
        let prev = add_defaults(m, fields.drop_last());
        let f = fields.last();
        match f.default {
            Some(d) => if has_member(prev, f.key@) {
                prev
            } else {
                prev.push((f.key@, json_model(d)))
            },
            None => prev,
        }
    }
}

/// A plugin's configuration with the manifest's defaults filled in: the
/// members of the configuration object (none when it is not an object),
/// then the default of every declared field that is missing.
pub open spec fn spec_merge_with_defaults(config: JsonValue, manifest: PluginManifest) -> JsonModel {
    let base = match config {
        JsonValue::Object(m) => members_model(m@),
        _ => Seq::empty(),
    };
    JsonModel::Object(match manifest.config {
        Some(f) => add_defaults(base, f@),
        None => base,
    })
}

/// Fills in the defaults the manifest declares for configuration fields
/// that the configuration does not set.
pub fn merge_with_defaults(config: &JsonValue, manifest: &PluginManifest) -> (r: JsonValue)
    ensures
        json_model(r) == spec_merge_with_defaults(*config, *manifest),
{
    let mut out: Vec<(String, JsonValue)> = Vec::new();
    let ghost base: Seq<(Seq<char>, JsonModel)> = Seq::empty();
    match config {
        JsonValue::Object(m) => {
            let mut k: usize = 0;
            while k < m.len()
                invariant
                    k <= m.len(),
                    members_model(out@) == members_model(m@.take(k as int)),
                decreases m.len() - k,
            {
                let v = copy_json(&m[k].1);
                let key = m[k].0.clone();
                let ghost before = out@;
                out.push((key, v));
                proof {
                    assert(m@.take(k + 1) =~= m@.take(k as int).push(m@[k as int]));
                    assert(members_model(out@) =~= members_model(before).push((m@[k as int].0@, json_model(m@[k as int].1))));
                    assert(members_model(m@.take(k + 1)) =~= members_model(m@.take(k as int)).push((m@[k as int].0@, json_model(m@[k as int].1))));
                }
                k += 1;
            }
            assert(m@.take(k as int) =~= m@);
            proof {
                base = members_model(m@);
            }
        },
        _ => {
            assert(members_model(out@) =~= Seq::<(Seq<char>, JsonModel)>::empty());
        },
    }
    assert(members_model(out@) == base);
    match &manifest.config {
        Some(fields) => {
            let mut k: usize = 0;
            assert(fields@.take(0) =~= Seq::<PluginConfigField>::empty());
            while k < fields.len()
                invariant
                    k <= fields.len(),
                    members_model(out@) == add_defaults(base, fields@.take(k as int)),
                decreases fields.len() - k,
            {
                let f = &fields[k];
                assert(fields@.take(k + 1).drop_last() =~= fields@.take(k as int));
                assert(fields@.take(k + 1).last() == *f);
                match &f.default {
                    Some(d) => {
                        let mut found = false;
                        let mut j: usize = 0;
                        while j < out.len()
                            invariant
                                j <= out.len(),
                                found <==> exists|q: int| 0 <= q < j && (#[trigger] out@[q]).0@ == f.key@,
                            decreases out.len() - j,
                        {
                            if str_eq(out[j].0.as_str(), f.key.as_str()) {
                                found = true;
                            }
                            j += 1;
                        }
                        proof {
                            let mm = members_model(out@);
                            if found {
                                let q = choose|q: int| 0 <= q < j && (#[trigger] out@[q]).0@ == f.key@;
                                assert(mm[q].0 == f.key@);
                            } else {
                                assert forall|q: int| 0 <= q < mm.len() implies (#[trigger] mm[q]).0 != f.key@ by {
                                    assert(mm[q].0 == out@[q].0@);
                                }
                            }
                            assert(found == has_member(mm, f.key@));
                        }
                        if !found {
                            let v = copy_json(d);
                            let ghost before = out@;
                            out.push((f.key.clone(), v));
                            assert(members_model(out@) =~= members_model(before).push((f.key@, json_model(*d))));
                        }
                    },
                    None => {},
                }
                k += 1;
            }
            assert(fields@.take(k as int) =~= fields@);
        },
        None => {},
    }
    proof {
        crate::json::lemma_object_model(out);
    }
    JsonValue::Object(out)
}

proof fn lemma_has_member_push(m: Seq<(Seq<char>, JsonModel)>, x: (Seq<char>, JsonModel), k: Seq<char>)
    ensures
        has_member(m.push(x), k) == (has_member(m, k) || x.0 == k),
{
    if has_member(m, k) {
        let i = choose|i: int| 0 <= i < m.len() && (#[trigger] m[i]).0 == k;
        assert(m.push(x)[i] == m[i]);
    }
    if x.0 == k {
        assert(m.push(x)[m.len() as int] == x);
    }
    if has_member(m.push(x), k) {
        let i = choose|i: int| 0 <= i < m.push(x).len() && (#[trigger] m.push(x)[i]).0 == k;
        if i < m.len() {
            assert(m[i] == m.push(x)[i]);
        }
    }
}

/// The shape of a merge with defaults: the given members first, then
/// members that are defaults of fields whose key was missing; every field
/// with a default then has its key.
proof fn lemma_add_defaults(m: Seq<(Seq<char>, JsonModel)>, f: Seq<PluginConfigField>)
    ensures
        add_defaults(m, f).len() >= m.len(),
        add_defaults(m, f).take(m.len() as int) == m,
        forall|i: int| #![trigger add_defaults(m, f)[i]] m.len() <= i < add_defaults(m, f).len() ==> exists|j: int| 0 <= j < f.len()
            && (#[trigger] f[j]).default is Some && !has_member(m, f[j].key@)
            && add_defaults(m, f)[i] == (f[j].key@, json_model(f[j].default.unwrap())),
        forall|j: int| 0 <= j < f.len() && (#[trigger] f[j]).default is Some ==> has_member(add_defaults(m, f), f[j].key@),
        forall|k: Seq<char>| has_member(m, k) ==> has_member(add_defaults(m, f), k),
    decreases f.len(),
{
    if f.len() > 0 {
        let d = f.drop_last();
        lemma_add_defaults(m, d);
        let prev = add_defaults(m, d);
        let x = f.last();
        let r = add_defaults(m, f);
        match x.default {
            Some(v) => {
                if !has_member(prev, x.key@) {
                    let e = (x.key@, json_model(v));
                    assert(r == prev.push(e));
                    assert(r.take(m.len() as int) =~= prev.take(m.len() as int));
                    assert forall|k: Seq<char>| has_member(prev, k) implies has_member(r, k) by {
                        lemma_has_member_push(prev, e, k);
                    }
                    lemma_has_member_push(prev, e, x.key@);
                    assert forall|i: int| #![trigger r[i]] m.len() <= i < r.len() implies exists|j: int| 0 <= j < f.len()
                        && (#[trigger] f[j]).default is Some && !has_member(m, f[j].key@)
                        && r[i] == (f[j].key@, json_model(f[j].default.unwrap())) by {
                        if i < prev.len() {
                            assert(r[i] == prev[i]);
                            let j = choose|j: int| 0 <= j < d.len() && (#[trigger] d[j]).default is Some
                                && !has_member(m, d[j].key@) && prev[i] == (d[j].key@, json_model(d[j].default.unwrap()));
                            assert(f[j] == d[j]);
                        } else {
                            assert(f[f.len() - 1] == x);
                            if has_member(m, x.key@) {
                                assert(has_member(prev, x.key@));
                            }
                        }
                    }
                }
            },
            None => {},
        }
        assert forall|j: int| 0 <= j < f.len() && (#[trigger] f[j]).default is Some implies has_member(r, f[j].key@) by {
            if j < d.len() {
                assert(f[j] == d[j]);
            }
        }
    }
}

/// Adding defaults whose keys are all present already changes nothing.
proof fn lemma_add_defaults_present(m: Seq<(Seq<char>, JsonModel)>, f: Seq<PluginConfigField>)
    requires
        forall|j: int| 0 <= j < f.len() && (#[trigger] f[j]).default is Some ==> has_member(m, f[j].key@),
    ensures
        add_defaults(m, f) == m,
    decreases f.len(),
{
    if f.len() > 0 {
        let d = f.drop_last();
        assert forall|j: int| 0 <= j < d.len() && (#[trigger] d[j]).default is Some implies has_member(m, d[j].key@) by {
            assert(d[j] == f[j]);
        }
        lemma_add_defaults_present(m, d);
        assert(f[f.len() - 1] == f.last());
    }
}

/// Filling in defaults keeps every member the configuration has, in place
/// and with its value; what it adds are the defaults of declared fields
/// whose key was missing; every field with a default then has its key.
pub proof fn law_merge_defaults_keeps(m: Seq<(Seq<char>, JsonModel)>, f: Seq<PluginConfigField>)
    ensures
        add_defaults(m, f).take(m.len() as int) == m,
        forall|i: int| #![trigger add_defaults(m, f)[i]] m.len() <= i < add_defaults(m, f).len() ==> exists|j: int| 0 <= j < f.len()
            && (#[trigger] f[j]).default is Some && !has_member(m, f[j].key@)
            && add_defaults(m, f)[i] == (f[j].key@, json_model(f[j].default.unwrap())),
        forall|j: int| 0 <= j < f.len() && (#[trigger] f[j]).default is Some ==> has_member(add_defaults(m, f), f[j].key@),
{
    lemma_add_defaults(m, f);
    let r = add_defaults(m, f);
    assert forall|i: int| #![trigger r[i]] m.len() <= i < r.len() implies exists|j: int| 0 <= j < f.len()
        && (#[trigger] f[j]).default is Some && !has_member(m, f[j].key@)
        && r[i] == (f[j].key@, json_model(f[j].default.unwrap())) by {
        let j = choose|j: int| 0 <= j < f.len() && (#[trigger] f[j]).default is Some && !has_member(m, f[j].key@)
            && r[i] == (f[j].key@, json_model(f[j].default.unwrap()));
        assert(f[j].default is Some);
    }
}

/// Filling in defaults a second time changes nothing: the merged
/// configuration `r` merges to itself.
pub proof fn law_merge_with_defaults_idempotent(config: JsonValue, manifest: PluginManifest, r: JsonValue)
    requires
        json_model(r) == spec_merge_with_defaults(config, manifest),
    ensures
        spec_merge_with_defaults(r, manifest) == json_model(r),
{
    let base = match config {
        JsonValue::Object(m) => members_model(m@),
        _ => Seq::empty(),
    };
    let merged = match manifest.config {
        Some(f) => add_defaults(base, f@),
        None => base,
    };
    match r {
        JsonValue::Object(rm) => {
            crate::json::lemma_object_model(rm);
            assert(members_model(rm@) == merged);
            match manifest.config {
                Some(f) => {
                    lemma_add_defaults(base, f@);
                    lemma_add_defaults_present(merged, f@);
                },
                None => {},
            }
        },
        _ => {
            assert(json_model(r) !is Object);
        },
    }
}

/// A plugin installed in the plugin directory, with its state.
pub struct InstalledPlugin {
    pub id: String,
    pub manifest: PluginManifest,
    pub enabled: bool,
    pub config: JsonValue,
    pub installed_at: String,
    pub updated_at: String,
    pub path: String,
}

} // verus!
