//! Skills the companion can call: their definitions, written in a small
//! YAML-like format, the JSON schema of their parameters offered to the
//! model, and the check of the arguments the model sends back.

use vstd::prelude::*;
use vstd::string::StringExecFns;
use crate::json::{JsonValue, JsonNumber, JsonModel, json_model, copy_json, spec_get, spec_as_str};
use crate::segments::{spec_lines, vv};
use crate::plugin::{InstalledPlugin, PluginPermission, spec_permission_str};
use crate::text::{
    spec_trim, trim_start, trim_end, spec_is_whitespace, is_whitespace, chars_of, trim_chars, copy_range,
    string_from_chars, spec_starts_with, str_eq,
};

verus! {

// ---------------------------------------------------------------------------
// Small text helpers over characters
// ---------------------------------------------------------------------------

/// `s` without leading and trailing copies of `c`.
pub open spec fn trim_char(s: Seq<char>, c: char) -> Seq<char>
    decreases s.len(),
{
    if s.len() > 0 && s[0] == c {
        trim_char(s.drop_first(), c)
    } else if s.len() > 0 && s.last() == c {
        trim_char(s.drop_last(), c)
    } else {
        s
    }
}

/// A value as the skill format reads it: trimmed, then stripped of double
/// and then single quotes at both ends.
pub open spec fn unquote(s: Seq<char>) -> Seq<char> {
    trim_char(trim_char(spec_trim(s), '"'), '\'')
}

/// A permission as the skill format reads it: trimmed, then stripped of
/// single and then double quotes at both ends.
pub open spec fn unquote_perm(s: Seq<char>) -> Seq<char> {
    trim_char(trim_char(spec_trim(s), '\''), '"')
}

fn trim_char_exec(v: &Vec<char>, c: char) -> (r: Vec<char>)
    ensures
        r@ == trim_char(v@, c),
{
    let mut a: usize = 0;
    let mut b: usize = v.len();
    assert(v@.subrange(0, v@.len() as int) =~= v@);
    while a < b && (v[a] == c || v[b - 1] == c)
        invariant
            a <= b <= v.len(),
            trim_char(v@, c) == trim_char(v@.subrange(a as int, b as int), c),
        decreases b - a,
    {
        let ghost s = v@.subrange(a as int, b as int);
        if v[a] == c {
            assert(s.drop_first() =~= v@.subrange(a + 1, b as int));
            a += 1;
        } else {
            assert(s.drop_last() =~= v@.subrange(a as int, b - 1));
            b -= 1;
        }
    }
    copy_range(v, a, b)
}

fn unquote_exec(v: &Vec<char>) -> (r: Vec<char>)
    ensures
        r@ == unquote(v@),
{
    let t = trim_chars(v);
    let t2 = trim_char_exec(&t, '"');
    trim_char_exec(&t2, '\'')
}

fn unquote_perm_exec(v: &Vec<char>) -> (r: Vec<char>)
    ensures
        r@ == unquote_perm(v@),
{
    let t = trim_chars(v);
    let t2 = trim_char_exec(&t, '\'');
    trim_char_exec(&t2, '"')
}

fn trim_end_exec(v: &Vec<char>) -> (r: Vec<char>)
    ensures
        r@ == trim_end(v@),
{
    let mut b: usize = v.len();
    assert(v@.subrange(0, b as int) =~= v@);
    while b > 0 && is_whitespace(v[b - 1])
        invariant
            b <= v.len(),
            trim_end(v@) == trim_end(v@.subrange(0, b as int)),
        decreases b,
    {
        assert(v@.subrange(0, b as int).drop_last() =~= v@.subrange(0, b - 1));
        b -= 1;
    }
    copy_range(v, 0, b)
}

/// Whether the characters begin with the text `p`.
fn has_prefix(v: &Vec<char>, p: &str) -> (r: bool)
    ensures
        r == spec_starts_with(v@, p@),
{
    let pc = chars_of(p);
    if pc.len() > v.len() {
        return false;
    }
    let mut k: usize = 0;
    while k < pc.len()
        invariant
            k <= pc.len() <= v.len(),
            pc@ == p@,
            forall|j: int| 0 <= j < k ==> v@[j] == pc@[j],
        decreases pc.len() - k,
    {
        if v[k] != pc[k] {
            assert(v@.subrange(0, p@.len() as int)[k as int] != p@[k as int]);
            return false;
        }
        k += 1;
    }
    assert(v@.subrange(0, p@.len() as int) =~= p@);
    true
}

/// The characters after the prefix `p` (which they are known to begin with).
fn after_prefix(v: &Vec<char>, p: &str) -> (r: Vec<char>)
    requires
        spec_starts_with(v@, p@),
    ensures
        r@ == v@.subrange(p@.len() as int, v@.len() as int),
{
    let pc = chars_of(p);
    copy_range(v, pc.len(), v.len())
}

/// The number of bytes a character takes in UTF-8.
pub open spec fn utf8_len(c: char) -> nat {
    if (c as u32) < 0x80 {
        1
    } else if (c as u32) < 0x800 {
        2
    } else if (c as u32) < 0x10000 {
        3
    } else {
        4
    }
}

/// The UTF-8 size of the leading white space of a line.
pub open spec fn indent_bytes(s: Seq<char>) -> nat
    decreases s.len(),
{
    if s.len() > 0 && spec_is_whitespace(s[0]) {
        utf8_len(s[0]) + indent_bytes(s.drop_first())
    } else {
        0
    }
}

/// The UTF-8 size of a line's indentation, capped at `usize::MAX`.
pub open spec fn indent_of(s: Seq<char>) -> nat {
    if indent_bytes(s) <= usize::MAX {
        indent_bytes(s)
    } else {
        usize::MAX as nat
    }
}

fn indent_exec(v: &Vec<char>) -> (r: usize)
    ensures
        r == indent_of(v@),
{
    let mut k: usize = 0;
    let mut n: usize = 0;
    assert(v@.skip(0) =~= v@);
    while k < v.len() && is_whitespace(v[k])
        invariant
            k <= v.len(),
            n as nat + indent_bytes(v@.skip(k as int)) == indent_bytes(v@),
        decreases v.len() - k,
    {
        let c = v[k];
        let u = c as u32;
        let w: usize = if u < 0x80 { 1 } else if u < 0x800 { 2 } else if u < 0x10000 { 3 } else { 4 };
        assert(v@.skip(k as int).drop_first() =~= v@.skip(k + 1));
        if n > usize::MAX - w {
            return usize::MAX;
        }
        n += w;
        k += 1;
    }
    n
}

// ---------------------------------------------------------------------------
// Parameter lists
// ---------------------------------------------------------------------------

/// A parameter description: its attributes by name, each name once.
pub type ParamMap = Seq<(Seq<char>, Seq<char>)>;

/// The index of attribute `k`, if present.
pub open spec fn attr_index(m: ParamMap, k: Seq<char>) -> Option<int>
    decreases m.len(),
{
    if m.len() == 0 {
        None
    } else if m.last().0 == k {
        Some(m.len() - 1)
    } else {
        attr_index(m.drop_last(), k)
    }
}

/// Sets attribute `k`: an existing one takes the new value in place, a new
/// one is added at the end.
pub open spec fn attr_insert(m: ParamMap, k: Seq<char>, v: Seq<char>) -> ParamMap {
    match attr_index(m, k) {
        Some(i) => m.update(i, (k, v)),
        None => m.push((k, v)),
    }
}

/// The value of attribute `k`.
pub open spec fn attr_get(m: ParamMap, k: Seq<char>) -> Option<Seq<char>> {
    match attr_index(m, k) {
        Some(i) => Some(m[i].1),
        None => None,
    }
}

/// What the parser holds between lines.
pub struct YamlState {
    pub description: Seq<char>,
    pub permissions: Seq<Seq<char>>,
    pub approval_mode: Seq<char>,
    pub executor_type: Seq<char>,
    pub in_params: bool,
    pub param_indent: nat,
    pub current: Option<ParamMap>,
    pub items: Seq<ParamMap>,
}

/// The items with the parameter in progress, if any, closed.
pub open spec fn close_param(items: Seq<ParamMap>, current: Option<ParamMap>) -> Seq<ParamMap> {
    match current {
        Some(p) => items.push(p),
        None => items,
    }
}

/// Whether a trimmed line starts a top-level field.
pub open spec fn is_top_level_field(t: Seq<char>) -> bool {
    spec_starts_with(t, "name:"@) || spec_starts_with(t, "description:"@) || spec_starts_with(t, "permissions:"@)
        || spec_starts_with(t, "approval_mode:"@) || spec_starts_with(t, "executor_type:"@)
}

/// The index of the first `c` in `s`, if any.
pub open spec fn index_of(s: Seq<char>, c: char) -> Option<int>
    decreases s.len(),
{
    if s.len() == 0 {
        None
    } else if s[0] == c {
        Some(0int)
    } else {
        match index_of(s.drop_first(), c) {
            Some(i) => Some(i + 1),
            None => None,
        }
    }
}

/// The pieces of `s` between commas.
pub open spec fn split_commas(s: Seq<char>) -> Seq<Seq<char>>
    decreases s.len(),
{
    match index_of(s, ',') {
        Some(i) => {
            proof {
                lemma_index_of_bounds(s, ',');
            }
            seq![s.subrange(0, i)] + split_commas(s.subrange(i + 1, s.len() as int))
        },
        None => seq![s],
    }
}

pub proof fn lemma_index_of_bounds(s: Seq<char>, c: char)
    ensures
        match index_of(s, c) {
            Some(i) => 0 <= i < s.len() && s[i] == c && forall|j: int| 0 <= j < i ==> s[j] != c,
            None => forall|j: int| 0 <= j < s.len() ==> s[j] != c,
        },
    decreases s.len(),
{
    if s.len() > 0 && s[0] != c {
        lemma_index_of_bounds(s.drop_first(), c);
        match index_of(s.drop_first(), c) {
            Some(i) => {
                assert forall|j: int| 0 <= j < i + 1 implies s[j] != c by {
                    if j > 0 {
                        assert(s[j] == s.drop_first()[j - 1]);
                    }
                }
            },
            None => {
                assert forall|j: int| 0 <= j < s.len() implies s[j] != c by {
                    if j > 0 {
                        assert(s[j] == s.drop_first()[j - 1]);
                    }
                }
            },
        }
    }
}

/// The permissions listed between the brackets of `permissions: [ ... ]`:
/// the comma-separated entries, unquoted, empty ones left out.
pub open spec fn parse_permission_list(inside: Seq<char>) -> Seq<Seq<char>> {
    split_commas(inside).map_values(|p: Seq<char>| unquote_perm(p)).filter(|p: Seq<char>| p.len() > 0)
}

/// One line of a skill definition.
pub open spec fn yaml_step(st: YamlState, raw: Seq<char>) -> YamlState {
    let line = trim_end(raw);
    let t = spec_trim(line);
    let lead = indent_of(line);
    if t.len() == 0 || t[0] == '#' {
        st
    } else if spec_starts_with(t, "parameters:"@) {
        YamlState { items: close_param(st.items, st.current), current: None, in_params: true, ..st }
    } else {
        let st1 = if st.in_params && is_top_level_field(t) {
            YamlState { items: close_param(st.items, st.current), current: None, in_params: false, ..st }
        } else {
            st
        };
        if st1.in_params {
            if spec_starts_with(t, "- name:"@) {
                YamlState {
                    items: close_param(st1.items, st1.current),
                    current: Some(seq![("name"@, unquote(t.subrange(7, t.len() as int)))]),
                    param_indent: lead,
                    ..st1
                }
            } else if st1.current is Some && lead > st1.param_indent {
                match index_of(t, ':') {
                    Some(i) => YamlState {
                        current: Some(attr_insert(
                            st1.current.unwrap(),
                            spec_trim(t.subrange(0, i)),
                            unquote(t.subrange(i + 1, t.len() as int)),
                        )),
                        ..st1
                    },
                    None => st1,
                }
            } else {
                st1
            }
        } else if spec_starts_with(t, "description:"@) {
            YamlState { description: unquote(t.subrange(12, t.len() as int)), ..st1 }
        } else if spec_starts_with(t, "permissions: ["@) {
            let rest = t.subrange(14, t.len() as int);
            match index_of(rest, ']') {
                Some(e) => YamlState { permissions: parse_permission_list(rest.subrange(0, e)), ..st1 },
                None => st1,
            }
        } else if spec_starts_with(t, "approval_mode:"@) {
            YamlState { approval_mode: unquote(t.subrange(14, t.len() as int)), ..st1 }
        } else if spec_starts_with(t, "executor_type:"@) {
            YamlState { executor_type: unquote(t.subrange(14, t.len() as int)), ..st1 }
        } else {
            st1
        }
    }
}

/// The parser state after the given lines.
pub open spec fn yaml_run(lines: Seq<Seq<char>>) -> YamlState
    decreases lines.len(),
{
    if lines.len() == 0 {
        YamlState {
            description: Seq::empty(),
            permissions: Seq::empty(),
            approval_mode: "once"@,
            executor_type: "python"@,
            in_params: false,
            param_indent: 0,
            current: None,
            items: Seq::empty(),
        }
    } else {
        yaml_step(yaml_run(lines.drop_last()), lines.last())
    }
}

/// The parameter descriptions of a definition, in order.
pub open spec fn yaml_params(text: Seq<char>) -> Seq<ParamMap> {
    let st = yaml_run(spec_lines(text));
    if st.in_params {
        close_param(st.items, st.current)
    } else {
        st.items
    }
}

proof fn lemma_index_of_first(s: Seq<char>, c: char, i: int)
    requires
        0 <= i <= s.len(),
        forall|j: int| 0 <= j < i ==> s[j] != c,
        i < s.len() ==> s[i] == c,
    ensures
        index_of(s, c) == if i < s.len() { Some(i) } else { None::<int> },
    decreases i,
{
    if i > 0 {
        let d = s.drop_first();
        assert forall|j: int| 0 <= j < i - 1 implies d[j] != c by {
            assert(d[j] == s[j + 1]);
        }
        if i < s.len() {
            assert(d[i - 1] == s[i]);
        }
        lemma_index_of_first(d, c, i - 1);
    } else if s.len() == 0 {
    }
}

fn chars_eq(a: &Vec<char>, b: &Vec<char>) -> (r: bool)
    ensures
        r == (a@ == b@),
{
    if a.len() != b.len() {
        return false;
    }
    let mut k: usize = 0;
    while k < a.len()
        invariant
            k <= a.len(),
            a.len() == b.len(),
            forall|j: int| 0 <= j < k ==> a@[j] == b@[j],
        decreases a.len() - k,
    {
        if a[k] != b[k] {
            return false;
        }
        k += 1;
    }
    assert(a@ =~= b@);
    true
}

fn split_commas_exec(s: &Vec<char>) -> (r: Vec<Vec<char>>)
    ensures
        vv(r@) == split_commas(s@),
{
    let mut out: Vec<Vec<char>> = Vec::new();
    let mut start: usize = 0;
    let mut i: usize = 0;
    assert(s@.subrange(0, s@.len() as int) =~= s@);
    assert(vv(out@) =~= Seq::<Seq<char>>::empty());
    while i < s.len()
        invariant
            start <= i <= s.len(),
            vv(out@) + split_commas(s@.subrange(start as int, s@.len() as int)) == split_commas(s@),
            forall|j: int| start <= j < i ==> s@[j] != ',',
        decreases s.len() - i,
    {
        if s[i] == ',' {
            let ghost sub = s@.subrange(start as int, s@.len() as int);
            proof {
                assert forall|j: int| 0 <= j < i - start implies sub[j] != ',' by {
                    assert(sub[j] == s@[start + j]);
                }
                assert(sub[i - start] == s@[i as int]);
                lemma_index_of_first(sub, ',', i - start);
                assert(sub.subrange(0, i - start) =~= s@.subrange(start as int, i as int));
                assert(sub.subrange(i - start + 1, sub.len() as int) =~= s@.subrange(i + 1, s@.len() as int));
            }
            let piece = copy_range(s, start, i);
            let ghost before = vv(out@);
            out.push(piece);
            assert(vv(out@) =~= before.push(piece@));
            assert(vv(out@) + split_commas(s@.subrange(i + 1, s@.len() as int)) =~= before + split_commas(sub));
            start = i + 1;
        }
        i += 1;
    }
    let ghost sub = s@.subrange(start as int, s@.len() as int);
    proof {
        assert forall|j: int| 0 <= j < sub.len() implies sub[j] != ',' by {
            assert(sub[j] == s@[start + j]);
        }
        lemma_index_of_first(sub, ',', sub.len() as int);
    }
    let piece = copy_range(s, start, s.len());
    let ghost before = vv(out@);
    out.push(piece);
    assert(vv(out@) =~= before + seq![sub]);
    out
}

fn parse_permissions_exec(inside: &Vec<char>) -> (r: Vec<Vec<char>>)
    ensures
        vv(r@) == parse_permission_list(inside@),
{
    let pieces = split_commas_exec(inside);
    let ghost ps = vv(pieces@).map_values(|p: Seq<char>| unquote_perm(p));
    let ghost pred = |p: Seq<char>| p.len() > 0;
    let mut out: Vec<Vec<char>> = Vec::new();
    let mut k: usize = 0;
    proof {
        reveal(Seq::filter);
        assert(ps.take(0) =~= Seq::<Seq<char>>::empty());
        assert(vv(out@) =~= Seq::<Seq<char>>::empty());
    }
    while k < pieces.len()
        invariant
            k <= pieces.len(),
            ps == vv(pieces@).map_values(|p: Seq<char>| unquote_perm(p)),
            pred == (|p: Seq<char>| p.len() > 0),
            vv(out@) == ps.take(k as int).filter(pred),
        decreases pieces.len() - k,
    {
        let u = unquote_perm_exec(&pieces[k]);
        proof {
            assert(ps.take(k + 1) =~= ps.take(k as int).push(ps[k as int]));
            ps.take(k as int).lemma_filter_push(ps[k as int], pred);
            assert(ps[k as int] == u@);
        }
        if u.len() > 0 {
            let ghost before = vv(out@);
            out.push(u);
            assert(vv(out@) =~= before.push(u@));
        }
        k += 1;
    }
    assert(ps.take(k as int) =~= ps);
    out
}

/// The model of a parameter description held as character vectors.
pub open spec fn pm_view(m: Seq<(Vec<char>, Vec<char>)>) -> ParamMap {
    m.map_values(|p: (Vec<char>, Vec<char>)| (p.0@, p.1@))
}

proof fn lemma_attr_index_found(m: ParamMap, k: Seq<char>, j: int)
    requires
        0 <= j < m.len(),
        m[j].0 == k,
        forall|x: int| j < x < m.len() ==> m[x].0 != k,
    ensures
        attr_index(m, k) == Some(j),
    decreases m.len(),
{
    if j < m.len() - 1 {
        assert(m.last() == m[m.len() - 1]);
        lemma_attr_index_found(m.drop_last(), k, j);
    }
}

proof fn lemma_attr_index_none(m: ParamMap, k: Seq<char>)
    requires
        forall|x: int| 0 <= x < m.len() ==> m[x].0 != k,
    ensures
        attr_index(m, k) is None,
    decreases m.len(),
{
    if m.len() > 0 {
        assert(m.last() == m[m.len() - 1]);
        lemma_attr_index_none(m.drop_last(), k);
    }
}

fn attr_insert_exec(m: &mut Vec<(Vec<char>, Vec<char>)>, k: Vec<char>, v: Vec<char>)
    ensures
        pm_view(final(m)@) == attr_insert(pm_view(old(m)@), k@, v@),
{
    let ghost m0 = pm_view(m@);
    let mut j = m.len();
    while j > 0
        invariant
            j <= m.len(),
            pm_view(m@) == m0,
            forall|x: int| j <= x < m0.len() ==> m0[x].0 != k@,
        ensures
            j <= m.len(),
            pm_view(m@) == m0,
            forall|x: int| j <= x < m0.len() ==> m0[x].0 != k@,
            j > 0 ==> m0[j - 1].0 == k@,
        decreases j,
    {
        if chars_eq(&m[j - 1].0, &k) {
            break;
        }
        j -= 1;
    }
    if j > 0 {
        proof {
            lemma_attr_index_found(m0, k@, j - 1);
        }
        let ghost kv = (k@, v@);
        m.set(j - 1, (k, v));
        assert(pm_view(m@) =~= m0.update(j - 1, kv));
    } else {
        proof {
            lemma_attr_index_none(m0, k@);
        }
        let ghost kv = (k@, v@);
        m.push((k, v));
        assert(pm_view(m@) =~= m0.push(kv));
    }
}

// ---------------------------------------------------------------------------
// Definitions
// ---------------------------------------------------------------------------

/// A skill: what it is called, what it does, the schema of its arguments,
/// the permissions it needs, how its calls are approved, what runs it, and
/// the plugin that provides it, if any.
pub struct SkillDefinition {
    pub name: String,
    pub description: String,
    pub parameters: JsonValue,
    pub permissions: Vec<String>,
    pub approval_mode: String,
    pub executor_type: String,
    pub enabled: bool,
    pub plugin_id: Option<String>,
}

/// The JSON type a parameter type word stands for ("string" for unknown
/// words).
pub open spec fn json_type_name(t: Seq<char>) -> Seq<char> {
    if t == "integer"@ { "integer"@ } else if t == "number"@ { "number"@ } else if t == "boolean"@ { "boolean"@ }
    else if t == "array"@ { "array"@ } else if t == "object"@ { "object"@ } else { "string"@ }
}

/// An object member set: replaced in place when the key is present, else
/// added at the end.
pub open spec fn member_set(m: Seq<(Seq<char>, JsonModel)>, k: Seq<char>, v: JsonModel) -> Seq<(Seq<char>, JsonModel)> {
    if exists|i: int| 0 <= i < m.len() && m[i].0 == k {
        let i = choose|i: int| 0 <= i < m.len() && m[i].0 == k;
        m.update(i, (k, v))
    } else {
        m.push((k, v))
    }
}

/// The schema of one parameter: its JSON type, and its description when it
/// has one.
pub open spec fn param_schema(item: ParamMap) -> JsonModel {
    let typ = match attr_get(item, "type"@) {
        Some(t) => t,
        None => "string"@,
    };
    let desc = match attr_get(item, "description"@) {
        Some(d) => d,
        None => Seq::empty(),
    };
    if desc.len() > 0 {
        JsonModel::Object(seq![("description"@, JsonModel::Str(desc)), ("type"@, JsonModel::Str(json_type_name(typ)))])
    } else {
        JsonModel::Object(seq![("type"@, JsonModel::Str(json_type_name(typ)))])
    }
}

/// The name of a parameter ("" when it has none).
pub open spec fn param_name(item: ParamMap) -> Seq<char> {
    match attr_get(item, "name"@) {
        Some(n) => n,
        None => Seq::empty(),
    }
}

/// The properties and required names of the parameters, in order; nameless
/// parameters are skipped, and a repeated name keeps its first place and
/// takes the last description.
pub open spec fn schema_parts(items: Seq<ParamMap>) -> (Seq<(Seq<char>, JsonModel)>, Seq<Seq<char>>)
    decreases items.len(),
{
    if items.len() == 0 {
        (Seq::empty(), Seq::empty())
    } else {
        let (props, req) = schema_parts(items.drop_last());
        let item = items.last();
        let name = param_name(item);
        if name.len() == 0 {
            (props, req)
        } else {
            (
                member_set(props, name, param_schema(item)),
                if attr_get(item, "required"@) == Some("true"@) { req.push(name) } else { req },
            )
        }
    }
}

/// The JSON schema of a parameter list: an object with its properties, the
/// names of the required ones, and type "object".
pub open spec fn spec_json_schema(items: Seq<ParamMap>) -> JsonModel {
    let (props, req) = schema_parts(items);
    JsonModel::Object(seq![
        ("properties"@, JsonModel::Object(props)),
        ("required"@, JsonModel::Array(req.map_values(|n: Seq<char>| JsonModel::Str(n)))),
        ("type"@, JsonModel::Str("object"@)),
    ])
}

fn attr_get_exec(m: &Vec<(Vec<char>, Vec<char>)>, key: &str) -> (r: Option<Vec<char>>)
    ensures
        match r {
            Some(v) => attr_get(pm_view(m@), key@) == Some(v@),
            None => attr_get(pm_view(m@), key@) is None,
        },
{
    let k = chars_of(key);
    let ghost m0 = pm_view(m@);
    let mut j = m.len();
    while j > 0
        invariant
            j <= m.len(),
            m0 == pm_view(m@),
            k@ == key@,
            forall|x: int| j <= x < m0.len() ==> m0[x].0 != key@,
        decreases j,
    {
        if chars_eq(&m[j - 1].0, &k) {
            proof {
                lemma_attr_index_found(m0, key@, j - 1);
            }
            return Some(copy_range(&m[j - 1].1, 0, m[j - 1].1.len()));
        }
        j -= 1;
    }
    proof {
        lemma_attr_index_none(m0, key@);
    }
    None
}

fn json_str(s: &Vec<char>) -> (r: JsonValue)
    ensures
        json_model(r) == JsonModel::Str(s@),
{
    JsonValue::String(string_from_chars(s))
}

fn json_text(s: &str) -> (r: JsonValue)
    ensures
        json_model(r) == JsonModel::Str(s@),
{
    JsonValue::String(String::from_str(s))
}

/// The content of an object built from members whose contents are known.
proof fn lemma_object_model(m: Vec<(String, JsonValue)>, want: Seq<(Seq<char>, JsonModel)>)
    requires
        m@.len() == want.len(),
        forall|i: int| 0 <= i < m@.len() ==> (#[trigger] m@[i]).0@ == want[i].0 && json_model(m@[i].1) == want[i].1,
    ensures
        json_model(JsonValue::Object(m)) == JsonModel::Object(want),
{
    let r = JsonValue::Object(m);
    assert(json_model(r)->Object_0.len() == want.len());
    assert forall|i: int| 0 <= i < want.len() implies json_model(r)->Object_0[i] == want[i] by {
        assert(m@[i].0@ == want[i].0);
    }
    assert(json_model(r)->Object_0 =~= want);
}

/// The content of an array built from items whose contents are known.
proof fn lemma_array_model(a: Vec<JsonValue>, want: Seq<JsonModel>)
    requires
        a@.len() == want.len(),
        forall|i: int| 0 <= i < a@.len() ==> json_model(#[trigger] a@[i]) == want[i],
    ensures
        json_model(JsonValue::Array(a)) == JsonModel::Array(want),
{
    let r = JsonValue::Array(a);
    assert(json_model(r)->Array_0.len() == want.len());
    assert forall|i: int| 0 <= i < want.len() implies json_model(r)->Array_0[i] == want[i] by {
        assert(json_model(a@[i]) == want[i]);
    }
    assert(json_model(r)->Array_0 =~= want);
}

fn json_type_word(t: &Vec<char>) -> (r: &'static str)
    ensures
        r@ == json_type_name(t@),
{
    let s = string_from_chars(t);
    let w = s.as_str();
    if str_eq(w, "integer") { "integer" } else if str_eq(w, "number") { "number" }
    else if str_eq(w, "boolean") { "boolean" } else if str_eq(w, "array") { "array" }
    else if str_eq(w, "object") { "object" } else { "string" }
}

/// Builds the JSON schema of a parameter list.
pub fn build_json_schema(items: &Vec<Vec<(Vec<char>, Vec<char>)>>) -> (r: JsonValue)
    ensures
        json_model(r) == spec_json_schema(items@.map_values(|c: Vec<(Vec<char>, Vec<char>)>| pm_view(c@))),
{
    let ghost iv = items@.map_values(|c: Vec<(Vec<char>, Vec<char>)>| pm_view(c@));
    let mut props: Vec<(String, JsonValue)> = Vec::new();
    let mut req: Vec<JsonValue> = Vec::new();
    let ghost mut ps: Seq<(Seq<char>, JsonModel)> = Seq::empty();
    let ghost mut rs: Seq<Seq<char>> = Seq::empty();
    let mut k: usize = 0;
    assert(iv.take(0) =~= Seq::<ParamMap>::empty());
    while k < items.len()
        invariant
            k <= items.len(),
            iv == items@.map_values(|c: Vec<(Vec<char>, Vec<char>)>| pm_view(c@)),
            schema_parts(iv.take(k as int)) == (ps, rs),
            props@.len() == ps.len(),
            forall|i: int| 0 <= i < props@.len() ==> (#[trigger] props@[i]).0@ == ps[i].0 && json_model(props@[i].1) == ps[i].1,
            forall|i: int, j: int| 0 <= i < j < ps.len() ==> (#[trigger] ps[i]).0 != (#[trigger] ps[j]).0,
            req@.len() == rs.len(),
            forall|i: int| 0 <= i < req@.len() ==> json_model(#[trigger] req@[i]) == JsonModel::Str(rs[i]),
        decreases items.len() - k,
    {
        let item = &items[k];
        proof {
            assert(iv.take(k + 1).drop_last() =~= iv.take(k as int));
            assert(iv.take(k + 1).last() == pm_view(item@));
        }
        let name = match attr_get_exec(item, "name") {
            Some(n) => n,
            None => {
                let e: Vec<char> = Vec::new();
                assert(e@ =~= Seq::<char>::empty());
                e
            },
        };
        if name.len() > 0 {
            let typ = match attr_get_exec(item, "type") {
                Some(t) => t,
                None => chars_of("string"),
            };
            let desc = match attr_get_exec(item, "description") {
                Some(d) => d,
                None => {
                    let e: Vec<char> = Vec::new();
                    assert(e@ =~= Seq::<char>::empty());
                    e
                },
            };
            let required = match attr_get_exec(item, "required") {
                Some(v) => chars_eq(&v, &chars_of("true")),
                None => false,
            };
            let jt = json_type_word(&typ);
            let mut members: Vec<(String, JsonValue)> = Vec::new();
            let ghost want: Seq<(Seq<char>, JsonModel)>;
            if desc.len() > 0 {
                members.push((String::from_str("description"), json_str(&desc)));
                members.push((String::from_str("type"), json_text(jt)));
                proof {
                    want = seq![("description"@, JsonModel::Str(desc@)), ("type"@, JsonModel::Str(json_type_name(typ@)))];
                }
            } else {
                members.push((String::from_str("type"), json_text(jt)));
                proof {
                    want = seq![("type"@, JsonModel::Str(json_type_name(typ@)))];
                }
            }
            proof {
                lemma_object_model(members, want);
            }
            let prop = JsonValue::Object(members);
            assert(json_model(prop) == param_schema(pm_view(item@)));
            // place the property
            let mut j: usize = 0;
            let mut found = false;
            while j < props.len()
                invariant
                    j <= props.len(),
                    props@.len() == ps.len(),
                    forall|i: int| 0 <= i < props@.len() ==> (#[trigger] props@[i]).0@ == ps[i].0,
                    !found ==> forall|i: int| 0 <= i < j ==> ps[i].0 != name@,
                    found ==> j < ps.len() && ps[j as int].0 == name@,
                ensures
                    props@.len() == ps.len(),
                    forall|i: int| 0 <= i < props@.len() ==> (#[trigger] props@[i]).0@ == ps[i].0,
                    !found ==> forall|i: int| 0 <= i < ps.len() ==> ps[i].0 != name@,
                    found ==> j < ps.len() && ps[j as int].0 == name@,
                decreases props.len() - j + if found { 0int } else { 1int },
            {
                if chars_eq(&chars_of(props[j].0.as_str()), &name) {
                    found = true;
                    break;
                }
                j += 1;
            }
            let ghost ps0 = ps;
            let ghost nm = name@;
            let key = string_from_chars(&name);
            if found {
                proof {
                    let c = choose|i: int| 0 <= i < ps0.len() && ps0[i].0 == nm;
                    assert(c == j) by {
                        if c != j {
                            if c < j {
                                assert(ps0[c].0 != ps0[j as int].0);
                            } else {
                                assert(ps0[j as int].0 != ps0[c].0);
                            }
                        }
                    }
                    ps = ps0.update(j as int, (nm, param_schema(pm_view(item@))));
                }
                props.set(j, (key, prop));
            } else {
                proof {
                    ps = ps0.push((nm, param_schema(pm_view(item@))));
                }
                props.push((key, prop));
            }
            if required {
                req.push(json_str(&name));
                proof {
                    rs = rs.push(nm);
                }
            }
            proof {
                assert(param_name(pm_view(item@)) == nm);
                assert(forall|i: int, jj: int| 0 <= i < jj < ps.len() ==> (#[trigger] ps[i]).0 != (#[trigger] ps[jj]).0) by {
                    assert forall|i: int, jj: int| 0 <= i < jj < ps.len() implies (#[trigger] ps[i]).0 != (#[trigger] ps[jj]).0 by {
                        if !found && jj == ps0.len() {
                            assert(ps[i] == ps0[i]);
                        } else if found {
                            if i == j as int {
                                assert(ps[jj] == ps0[jj]);
                                assert(ps0[j as int].0 == nm);
                            } else if jj == j as int {
                                assert(ps[i] == ps0[i]);
                                assert(ps0[j as int].0 == nm);
                            } else {
                                assert(ps[i] == ps0[i] && ps[jj] == ps0[jj]);
                            }
                        } else {
                            assert(ps[i] == ps0[i] && ps[jj] == ps0[jj]);
                        }
                    }
                }
                if !found {
                    assert(!(exists|i: int| 0 <= i < ps0.len() && ps0[i].0 == nm));
                }
            }
        } else {
            proof {
                assert(param_name(pm_view(item@)).len() == 0);
            }
        }
        k += 1;
    }
    assert(iv.take(k as int) =~= iv);
    proof {
        lemma_object_model(props, ps);
        lemma_array_model(req, rs.map_values(|n: Seq<char>| JsonModel::Str(n)));
    }
    let pv = JsonValue::Object(props);
    let rv = JsonValue::Array(req);
    let mut top: Vec<(String, JsonValue)> = Vec::new();
    top.push((String::from_str("properties"), pv));
    top.push((String::from_str("required"), rv));
    top.push((String::from_str("type"), json_text("object")));
    proof {
        lemma_object_model(top, seq![
            ("properties"@, JsonModel::Object(ps)),
            ("required"@, JsonModel::Array(rs.map_values(|n: Seq<char>| JsonModel::Str(n)))),
            ("type"@, JsonModel::Str("object"@)),
        ]);
    }
    JsonValue::Object(top)
}

/// The models of the parameter descriptions held as character vectors.
pub open spec fn items_view(s: Seq<Vec<(Vec<char>, Vec<char>)>>) -> Seq<ParamMap> {
    s.map_values(|c: Vec<(Vec<char>, Vec<char>)>| pm_view(c@))
}

/// The parser state as the loop holds it.
pub open spec fn yaml_state_view(
    description: Seq<char>,
    permissions: Seq<Vec<char>>,
    approval_mode: Seq<char>,
    executor_type: Seq<char>,
    in_params: bool,
    param_indent: usize,
    current: Option<Vec<(Vec<char>, Vec<char>)>>,
    items: Seq<Vec<(Vec<char>, Vec<char>)>>,
) -> YamlState {
    YamlState {
        description,
        permissions: vv(permissions),
        approval_mode,
        executor_type,
        in_params,
        param_indent: param_indent as nat,
        current: match current {
            Some(c) => Some(pm_view(c@)),
            None => None,
        },
        items: items_view(items),
    }
}

fn close_param_exec(items: &mut Vec<Vec<(Vec<char>, Vec<char>)>>, current: Option<Vec<(Vec<char>, Vec<char>)>>)
    ensures
        items_view(final(items)@) == close_param(items_view(old(items)@), match current {
            Some(c) => Some(pm_view(c@)),
            None => None,
        }),
{
    match current {
        Some(c) => {
            let ghost before = items_view(items@);
            let ghost cv = pm_view(c@);
            items.push(c);
            assert(items_view(items@) =~= before.push(cv));
        },
        None => {},
    }
}

/// Reads a skill definition written in the skill format: top-level fields
/// `description:`, `permissions: [a, b]`, `approval_mode:`,
/// `executor_type:`, and a `parameters:` list of `- name:` entries with
/// indented `key: value` attributes; blank lines and `#` comments are
/// skipped.  The parameters become a JSON schema.  Approval defaults to
/// "once" and the executor to "python".
pub fn parse_yaml_skill(name: &str, yaml_str: &str) -> (r: Result<SkillDefinition, String>)
    ensures
        r matches Ok(def) && {
            let st = yaml_run(spec_lines(yaml_str@));
            &&& def.name@ == name@
            &&& def.description@ == st.description
            &&& crate::text::strs_view(def.permissions@) == st.permissions
            &&& def.approval_mode@ == st.approval_mode
            &&& def.executor_type@ == st.executor_type
            &&& def.enabled
            &&& def.plugin_id is None
            &&& json_model(def.parameters) == spec_json_schema(yaml_params(yaml_str@))
        },
{
    let text = chars_of(yaml_str);
    let lines = crate::segments::split_lines_pub(&text);
    let ghost ls = vv(lines@);
    let mut description: Vec<char> = Vec::new();
    let mut permissions: Vec<Vec<char>> = Vec::new();
    let mut approval_mode: Vec<char> = chars_of("once");
    let mut executor_type: Vec<char> = chars_of("python");
    let mut in_params = false;
    let mut param_indent: usize = 0;
    let mut current: Option<Vec<(Vec<char>, Vec<char>)>> = None;
    let mut items: Vec<Vec<(Vec<char>, Vec<char>)>> = Vec::new();
    proof {
        assert(ls.take(0) =~= Seq::<Seq<char>>::empty());
        assert(description@ =~= Seq::<char>::empty());
        assert(vv(permissions@) =~= Seq::<Seq<char>>::empty());
        assert(items_view(items@) =~= Seq::<ParamMap>::empty());
    }
    let mut k: usize = 0;
    while k < lines.len()
        invariant
            k <= lines.len(),
            ls == vv(lines@),
            ls == spec_lines(yaml_str@),
            yaml_run(ls.take(k as int)) == yaml_state_view(description@, permissions@, approval_mode@,
                executor_type@, in_params, param_indent, current, items@),
        decreases lines.len() - k,
    {
        let ghost st = yaml_run(ls.take(k as int));
        proof {
            assert(ls.take(k + 1).drop_last() =~= ls.take(k as int));
            assert(ls.take(k + 1).last() == lines@[k as int]@);
        }
        proof {
            reveal_strlit("- name:");
            reveal_strlit("description:");
            reveal_strlit("permissions: [");
            reveal_strlit("approval_mode:");
            reveal_strlit("executor_type:");
        }
        let raw = &lines[k];
        let line = trim_end_exec(raw);
        let t = trim_chars(&line);
        let lead = indent_exec(&line);
        k += 1;
        if t.len() == 0 || t[0] == '#' {
            continue;
        }
        if has_prefix(&t, "parameters:") {
            let c = current;
            current = None;
            close_param_exec(&mut items, c);
            in_params = true;
            continue;
        }
        let top = has_prefix(&t, "name:") || has_prefix(&t, "description:") || has_prefix(&t, "permissions:")
            || has_prefix(&t, "approval_mode:") || has_prefix(&t, "executor_type:");
        if in_params && top {
            let c = current;
            current = None;
            close_param_exec(&mut items, c);
            in_params = false;
        }
        if in_params {
            if has_prefix(&t, "- name:") {
                let c = current;
                current = None;
                close_param_exec(&mut items, c);
                let rest = after_prefix(&t, "- name:");
                let v = unquote_exec(&rest);
                let mut p: Vec<(Vec<char>, Vec<char>)> = Vec::new();
                p.push((chars_of("name"), v));
                assert(pm_view(p@) =~= seq![("name"@, unquote(t@.subrange(7, t@.len() as int)))]);
                param_indent = lead;
                current = Some(p);
            } else if current.is_some() && lead > param_indent {
                let colon = find_colon(&t);
                match colon {
                    Some(i) => {
                        let kpart = copy_range(&t, 0, i);
                        let vpart = copy_range(&t, i + 1, t.len());
                        let key = trim_chars(&kpart);
                        let val = unquote_exec(&vpart);
                        let mut c = current.unwrap();
                        attr_insert_exec(&mut c, key, val);
                        current = Some(c);
                    },
                    None => {},
                }
            }
            continue;
        }
        if has_prefix(&t, "description:") {
            let rest = after_prefix(&t, "description:");
            description = unquote_exec(&rest);
        } else if has_prefix(&t, "permissions: [") {
            let rest = after_prefix(&t, "permissions: [");
            match find_char_in(&rest, ']') {
                Some(e) => {
                    let inside = copy_range(&rest, 0, e);
                    permissions = parse_permissions_exec(&inside);
                },
                None => {},
            }
        } else if has_prefix(&t, "approval_mode:") {
            let rest = after_prefix(&t, "approval_mode:");
            approval_mode = unquote_exec(&rest);
        } else if has_prefix(&t, "executor_type:") {
            let rest = after_prefix(&t, "executor_type:");
            executor_type = unquote_exec(&rest);
        }
    }
    assert(ls.take(k as int) =~= ls);
    if in_params {
        let c = current;
        current = None;
        close_param_exec(&mut items, c);
    }
    let parameters = build_json_schema(&items);
    let mut perms: Vec<String> = Vec::new();
    let mut q: usize = 0;
    while q < permissions.len()
        invariant
            q <= permissions.len(),
            crate::text::strs_view(perms@) =~= vv(permissions@).take(q as int),
        decreases permissions.len() - q,
    {
        let s = string_from_chars(&permissions[q]);
        proof {
            crate::text::lemma_strs_view_push(perms@, s);
            assert(vv(permissions@).take(q + 1) =~= vv(permissions@).take(q as int).push(permissions@[q as int]@));
        }
        perms.push(s);
        q += 1;
    }
    assert(vv(permissions@).take(q as int) =~= vv(permissions@));
    Ok(SkillDefinition {
        name: String::from_str(name),
        description: string_from_chars(&description),
        parameters,
        permissions: perms,
        approval_mode: string_from_chars(&approval_mode),
        executor_type: string_from_chars(&executor_type),
        enabled: true,
        plugin_id: None,
    })
}

fn find_char_in(v: &Vec<char>, c: char) -> (r: Option<usize>)
    ensures
        match r {
            Some(i) => index_of(v@, c) == Some(i as int) && i < v.len(),
            None => index_of(v@, c) is None,
        },
{
    let mut i: usize = 0;
    while i < v.len()
        invariant
            i <= v.len(),
            forall|j: int| 0 <= j < i ==> v@[j] != c,
        decreases v.len() - i,
    {
        if v[i] == c {
            proof {
                lemma_index_of_first(v@, c, i as int);
            }
            return Some(i);
        }
        i += 1;
    }
    proof {
        lemma_index_of_first(v@, c, v@.len() as int);
    }
    None
}

fn find_colon(v: &Vec<char>) -> (r: Option<usize>)
    ensures
        match r {
            Some(i) => index_of(v@, ':') == Some(i as int) && i < v.len(),
            None => index_of(v@, ':') is None,
        },
{
    find_char_in(v, ':')
}

// ---------------------------------------------------------------------------
// Argument checking
// ---------------------------------------------------------------------------

/// The names listed under `required` (its string items, in order).
pub open spec fn required_names(items: Seq<JsonValue>) -> Seq<Seq<char>>
    decreases items.len(),
{
    if items.len() == 0 {
        Seq::empty()
    } else {
        let rest = required_names(items.drop_last());
        match items.last() {
            JsonValue::String(s) => rest.push(s@),
            _ => rest,
        }
    }
}

/// Whether an argument is given: present and not null.
pub open spec fn arg_given(args: JsonValue, name: Seq<char>) -> bool {
    match spec_get(args, name) {
        Some(JsonValue::Null) => false,
        Some(_) => true,
        None => false,
    }
}

/// The first required name that is not given.
pub open spec fn first_missing(names: Seq<Seq<char>>, args: JsonValue) -> Option<Seq<char>>
    decreases names.len(),
{
    if names.len() == 0 {
        None
    } else if !arg_given(args, names[0]) {
        Some(names[0])
    } else {
        first_missing(names.drop_first(), args)
    }
}

/// The JSON type name of a value.
pub open spec fn value_type_name(v: JsonValue) -> Seq<char> {
    match v {
        JsonValue::String(_) => "string"@,
        JsonValue::Number(_) => "number"@,
        JsonValue::Bool(_) => "boolean"@,
        JsonValue::Array(_) => "array"@,
        JsonValue::Object(_) => "object"@,
        JsonValue::Null => "null"@,
    }
}

/// Whether the bits of an `f64` stand for a whole number: a finite value
/// whose fraction bits below the binary point are all zero.
pub open spec fn float_bits_integral(b: u64) -> bool {
    let exp = (b >> 52u64) & 0x7ffu64;
    let mant = b & 0xf_ffff_ffff_ffffu64;
    if exp == 0x7ffu64 {
        false
    } else if exp < 1023 {
        exp == 0 && mant == 0
    } else if exp >= 1075 {
        true
    } else {
        mant % (1u64 << ((1075 - exp) as u64)) == 0
    }
}

/// Whether a value is a JSON number with no fractional part, which JSON
/// Schema's type "integer" accepts.
pub open spec fn is_integral(v: JsonValue) -> bool {
    match v {
        JsonValue::Number(JsonNumber::PosInt(_)) => true,
        JsonValue::Number(JsonNumber::NegInt(_)) => true,
        JsonValue::Number(JsonNumber::Float(b)) => float_bits_integral(b),
        _ => false,
    }
}

/// Whether an argument has the type a schema names: the same JSON type,
/// any type for "any", and a whole number for "integer".
pub open spec fn type_accepts(expected: Seq<char>, arg: JsonValue) -> bool {
    value_type_name(arg) == expected || expected == "any"@ || (expected == "integer"@ && is_integral(arg))
}

fn float_integral(b: u64) -> (r: bool)
    ensures
        r == float_bits_integral(b),
{
    let exp = (b >> 52u64) & 0x7ffu64;
    let mant = b & 0xf_ffff_ffff_ffffu64;
    if exp == 0x7ffu64 {
        false
    } else if exp < 1023 {
        exp == 0 && mant == 0
    } else if exp >= 1075 {
        true
    } else {
        let n: u64 = 1075 - exp;
        assert(1 <= n <= 52);
        assert((1u64 << n) > 0) by (bit_vector)
            requires
                1 <= n <= 52,
        ;
        mant % (1u64 << n) == 0
    }
}

fn integral(v: &JsonValue) -> (r: bool)
    ensures
        r == is_integral(*v),
{
    match v {
        JsonValue::Number(JsonNumber::PosInt(_)) => true,
        JsonValue::Number(JsonNumber::NegInt(_)) => true,
        JsonValue::Number(JsonNumber::Float(b)) => float_integral(*b),
        _ => false,
    }
}

/// The type mismatch of a property, if its argument is present, its
/// schema names a type, and the argument is not of that type (type "any"
/// accepts all values, "integer" accepts whole numbers).
pub open spec fn mismatch(key: Seq<char>, prop: JsonValue, args: JsonValue) -> Option<Seq<char>> {
    match spec_get(args, key) {
        Some(arg) => match spec_get(prop, "type"@) {
            Some(t) => match spec_as_str(t) {
                Some(expected) => if !type_accepts(expected, arg) {
                    Some("Field '"@ + key + "' expected "@ + expected + ", got "@ + value_type_name(arg))
                } else {
                    None
                },
                None => None,
            },
            None => None,
        },
        None => None,
    }
}

/// The first type mismatch among the properties, in order.
pub open spec fn first_mismatch(props: Seq<(String, JsonValue)>, args: JsonValue) -> Option<Seq<char>>
    decreases props.len(),
{
    if props.len() == 0 {
        None
    } else {
        match mismatch(props[0].0@, props[0].1, args) {
            Some(e) => Some(e),
            None => first_mismatch(props.drop_first(), args),
        }
    }
}

/// The verdict on arguments against a schema: the first required argument
/// missing, else the first property whose argument has the wrong type.
pub open spec fn spec_validate_args(schema: JsonValue, args: JsonValue) -> Result<(), Seq<char>> {
    let names = match spec_get(schema, "required"@) {
        Some(JsonValue::Array(a)) => required_names(a@),
        _ => Seq::empty(),
    };
    match first_missing(names, args) {
        Some(n) => Err("Missing required field: "@ + n),
        None => match spec_get(schema, "properties"@) {
            Some(JsonValue::Object(m)) => match first_mismatch(m@, args) {
                Some(e) => Err(e),
                None => Ok(()),
            },
            _ => Ok(()),
        },
    }
}

fn type_name_of(v: &JsonValue) -> (r: &'static str)
    ensures
        r@ == value_type_name(*v),
{
    match v {
        JsonValue::String(_) => "string",
        JsonValue::Number(_) => "number",
        JsonValue::Bool(_) => "boolean",
        JsonValue::Array(_) => "array",
        JsonValue::Object(_) => "object",
        JsonValue::Null => "null",
    }
}

proof fn lemma_first_missing_none(names: Seq<Seq<char>>, args: JsonValue)
    requires
        first_missing(names, args) is None,
    ensures
        forall|i: int| 0 <= i < names.len() ==> arg_given(args, #[trigger] names[i]),
    decreases names.len(),
{
    if names.len() > 0 {
        lemma_first_missing_none(names.drop_first(), args);
        assert forall|i: int| 0 <= i < names.len() implies arg_given(args, #[trigger] names[i]) by {
            if i > 0 {
                assert(names[i] == names.drop_first()[i - 1]);
            }
        }
    }
}

proof fn lemma_required_names_has(items: Seq<JsonValue>)
    ensures
        forall|i: int| 0 <= i < items.len() ==> (#[trigger] items[i] matches JsonValue::String(n) ==> required_names(items).contains(n@)),
    decreases items.len(),
{
    if items.len() > 0 {
        let d = items.drop_last();
        lemma_required_names_has(d);
        let rest = required_names(d);
        assert forall|i: int| 0 <= i < items.len() implies (#[trigger] items[i] matches JsonValue::String(n) ==> required_names(items).contains(n@)) by {
            if let JsonValue::String(n) = items[i] {
                if i < d.len() {
                    assert(d[i] == items[i]);
                    let w = choose|w: int| 0 <= w < rest.len() && rest[w] == n@;
                    match items.last() {
                        JsonValue::String(t) => assert(rest.push(t@)[w] == n@),
                        _ => {},
                    }
                } else {
                    assert(items.last() == items[i]);
                    assert(rest.push(n@)[rest.len() as int] == n@);
                }
            }
        }
    }
}

/// Arguments that pass the check give every field the schema lists as
/// required: present and not null.
pub proof fn law_validate_args_required_present(schema: JsonValue, args: JsonValue)
    ensures
        spec_validate_args(schema, args) is Ok ==> match spec_get(schema, "required"@) {
            Some(JsonValue::Array(a)) => forall|i: int|
                0 <= i < a@.len() ==> (#[trigger] a@[i] matches JsonValue::String(n) ==> (spec_get(args, n@) matches Some(v) && !(v is Null))),
            _ => true,
        },
{
    if spec_validate_args(schema, args) is Ok {
        match spec_get(schema, "required"@) {
            Some(JsonValue::Array(a)) => {
                let names = required_names(a@);
                assert(first_missing(names, args) is None);
                lemma_first_missing_none(names, args);
                lemma_required_names_has(a@);
                assert forall|i: int| 0 <= i < a@.len() implies (#[trigger] a@[i] matches JsonValue::String(n) ==> (spec_get(args, n@) matches Some(v) && !(v is Null))) by {
                    if let JsonValue::String(n) = a@[i] {
                        let w = choose|w: int| 0 <= w < names.len() && names[w] == n@;
                        assert(arg_given(args, names[w]));
                    }
                }
            },
            _ => {},
        }
    }
}

proof fn lemma_first_mismatch_none(props: Seq<(String, JsonValue)>, args: JsonValue)
    requires
        first_mismatch(props, args) is None,
    ensures
        forall|i: int| 0 <= i < props.len() ==> mismatch((#[trigger] props[i]).0@, props[i].1, args) is None,
    decreases props.len(),
{
    if props.len() > 0 {
        lemma_first_mismatch_none(props.drop_first(), args);
        assert forall|i: int| 0 <= i < props.len() implies mismatch((#[trigger] props[i]).0@, props[i].1, args) is None by {
            if i > 0 {
                assert(props[i] == props.drop_first()[i - 1]);
            }
        }
    }
}

/// Arguments that pass the check have, for every property whose schema
/// names a type, a value of that type when they give one: the same JSON
/// type, any value for "any", a whole number for "integer".
pub proof fn law_validate_args_types_match(schema: JsonValue, args: JsonValue)
    ensures
        spec_validate_args(schema, args) is Ok ==> match spec_get(schema, "properties"@) {
            Some(JsonValue::Object(m)) => forall|i: int| 0 <= i < m@.len() ==> ({
                let (key, prop) = #[trigger] m@[i];
                match (spec_get(args, key@), spec_get(prop, "type"@)) {
                    (Some(a), Some(JsonValue::String(t))) => value_type_name(a) == t@ || t@ == "any"@ || (t@
                        == "integer"@ && is_integral(a)),
                    _ => true,
                }
            }),
            _ => true,
        },
{
    if spec_validate_args(schema, args) is Ok {
        match spec_get(schema, "properties"@) {
            Some(JsonValue::Object(m)) => {
                lemma_first_mismatch_none(m@, args);
            },
            _ => {},
        }
    }
}

/// Checks the arguments of a skill call against its schema.
pub fn validate_args(schema: &JsonValue, args: &JsonValue) -> (r: Result<(), String>)
    ensures
        match r {
            Ok(()) => spec_validate_args(*schema, *args) == Ok::<(), Seq<char>>(()),
            Err(e) => spec_validate_args(*schema, *args) == Err::<(), Seq<char>>(e@),
        },
{
    let mut names: Vec<String> = Vec::new();
    match schema.get("required") {
        Some(JsonValue::Array(a)) => {
            let mut k: usize = 0;
            while k < a.len()
                invariant
                    k <= a.len(),
                    crate::text::strs_view(names@) == required_names(a@.take(k as int)),
                decreases a.len() - k,
            {
                proof {
                    assert(a@.take(k + 1).drop_last() =~= a@.take(k as int));
                    assert(a@.take(k + 1).last() == a@[k as int]);
                }
                match &a[k] {
                    JsonValue::String(s) => {
                        let c = s.clone();
                        proof {
                            crate::text::lemma_strs_view_push(names@, c);
                        }
                        names.push(c);
                    },
                    _ => {},
                }
                k += 1;
            }
            assert(a@.take(k as int) =~= a@);
        },
        _ => {
            assert(crate::text::strs_view(names@) =~= Seq::<Seq<char>>::empty());
        },
    }
    let ghost nv = crate::text::strs_view(names@);
    let ghost want_names = match spec_get(*schema, "required"@) {
        Some(JsonValue::Array(a)) => required_names(a@),
        _ => Seq::empty(),
    };
    assert(nv == want_names);
    let mut k: usize = 0;
    assert(nv.skip(0) =~= nv);
    while k < names.len()
        invariant
            k <= names.len(),
            nv == crate::text::strs_view(names@),
            nv == want_names,
            want_names == match spec_get(*schema, "required"@) {
                Some(JsonValue::Array(a)) => required_names(a@),
                _ => Seq::empty(),
            },
            first_missing(nv, *args) == first_missing(nv.skip(k as int), *args),
        decreases names.len() - k,
    {
        let ghost rest = nv.skip(k as int);
        assert(rest[0] == names@[k as int]@);
        assert(rest.drop_first() =~= nv.skip(k + 1));
        let given = match args.get(names[k].as_str()) {
            Some(JsonValue::Null) => false,
            Some(_) => true,
            None => false,
        };
        if !given {
            let mut e = String::from_str("Missing required field: ");
            e.append(names[k].as_str());
            return Err(e);
        }
        k += 1;
    }
    assert(nv.skip(k as int) =~= Seq::<Seq<char>>::empty());
    match schema.get("properties") {
        Some(JsonValue::Object(m)) => {
            let mut j: usize = 0;
            assert(m@.skip(0) =~= m@);
            while j < m.len()
                invariant
                    j <= m.len(),
                    first_mismatch(m@, *args) == first_mismatch(m@.skip(j as int), *args),
                    spec_get(*schema, "properties"@) == Some(JsonValue::Object(*m)),
                    first_missing(want_names, *args) is None,
                    want_names == match spec_get(*schema, "required"@) {
                        Some(JsonValue::Array(a)) => required_names(a@),
                        _ => Seq::empty(),
                    },
                decreases m.len() - j,
            {
                let ghost rest = m@.skip(j as int);
                assert(rest[0] == m@[j as int]);
                assert(rest.drop_first() =~= m@.skip(j + 1));
                let key = m[j].0.as_str();
                match args.get(key) {
                    Some(arg) => {
                        let expected = match m[j].1.get("type") {
                            Some(t) => t.as_str(),
                            None => None,
                        };
                        match expected {
                            Some(exp) => {
                                let actual = type_name_of(arg);
                                if !str_eq(actual, exp) && !str_eq(exp, "any") && !(str_eq(exp, "integer") && integral(arg)) {
                                    let mut e = String::from_str("Field '");
                                    e.append(key);
                                    e.append("' expected ");
                                    e.append(exp);
                                    e.append(", got ");
                                    e.append(actual);
                                    return Err(e);
                                }
                            },
                            None => {},
                        }
                    },
                    None => {},
                }
                j += 1;
            }
            assert(m@.skip(j as int) =~= Seq::<(String, JsonValue)>::empty());
            Ok(())
        },
        _ => Ok(()),
    }
}

// ---------------------------------------------------------------------------
// The registry
// ---------------------------------------------------------------------------

/// A tool offered to the model: a skill's name, description and argument
/// schema.
pub struct ToolSchema {
    pub name: String,
    pub description: String,
    pub parameters: JsonValue,
}

/// The skills known by name, each name once.
pub struct SkillRegistry {
    skills: Vec<SkillDefinition>,
}

/// The position of the skill named `n`, if any.
pub open spec fn skill_index(s: Seq<SkillDefinition>, n: Seq<char>) -> Option<int> {
    if exists|i: int| 0 <= i < s.len() && s[i].name@ == n {
        Some(choose|i: int| 0 <= i < s.len() && s[i].name@ == n)
    } else {
        None
    }
}

impl SkillRegistry {
    /// The skills, in the order they were first registered.
    pub closed spec fn skills(self) -> Seq<SkillDefinition> {
        self.skills@
    }

    /// Each name occurs once.
    pub open spec fn wf(self) -> bool {
        forall|i: int, j: int| 0 <= i < j < self.skills().len() ==> (#[trigger] self.skills()[i]).name@ != (#[trigger] self.skills()[j]).name@
    }

    /// An empty registry.
    pub fn new() -> (r: Self)
        ensures
            r.wf(),
            r.skills().len() == 0,
    {
        SkillRegistry { skills: Vec::new() }
    }

    /// Registers a skill; one of the same name is replaced in place.
    pub fn register(&mut self, def: SkillDefinition)
        requires
            old(self).wf(),
        ensures
            final(self).wf(),
            match skill_index(old(self).skills(), def.name@) {
                Some(i) => final(self).skills() == old(self).skills().update(i, def),
                None => final(self).skills() == old(self).skills().push(def),
            },
    {
        let ghost s0 = self.skills@;
        let ghost dn = def.name@;
        let mut j: usize = 0;
        let mut found = false;
        while j < self.skills.len()
            invariant
                j <= self.skills.len(),
                self.skills@ == s0,
                dn == def.name@,
                !found ==> forall|i: int| 0 <= i < j ==> s0[i].name@ != dn,
                found ==> j < s0.len() && s0[j as int].name@ == dn,
            ensures
                self.skills@ == s0,
                !found ==> forall|i: int| 0 <= i < s0.len() ==> s0[i].name@ != dn,
                found ==> j < s0.len() && s0[j as int].name@ == dn,
            decreases self.skills.len() - j + if found { 0int } else { 1int },
        {
            if str_eq(self.skills[j].name.as_str(), def.name.as_str()) {
                found = true;
                break;
            }
            j += 1;
        }
        if found {
            proof {
                let c = choose|i: int| 0 <= i < s0.len() && s0[i].name@ == dn;
                if c != j {
                    if c < j {
                        assert(s0[c].name@ != s0[j as int].name@);
                    } else {
                        assert(s0[j as int].name@ != s0[c].name@);
                    }
                }
            }
            self.skills.set(j, def);
            proof {
                assert forall|a: int, b: int| 0 <= a < b < self.skills@.len() implies (#[trigger] self.skills@[a]).name@ != (#[trigger] self.skills@[b]).name@ by {
                    if a == j as int {
                        assert(self.skills@[b] == s0[b]);
                    } else if b == j as int {
                        assert(self.skills@[a] == s0[a]);
                    } else {
                        assert(self.skills@[a] == s0[a] && self.skills@[b] == s0[b]);
                    }
                }
            }
        } else {
            self.skills.push(def);
            proof {
                assert forall|a: int, b: int| 0 <= a < b < self.skills@.len() implies (#[trigger] self.skills@[a]).name@ != (#[trigger] self.skills@[b]).name@ by {
                    assert(self.skills@[a] == s0[a]);
                    if b < s0.len() {
                        assert(self.skills@[b] == s0[b]);
                    }
                }
            }
        }
    }

    /// The skill of a name.
    pub fn get(&self, name: &str) -> (r: Option<&SkillDefinition>)
        requires
            self.wf(),
        ensures
            match r {
                Some(d) => skill_index(self.skills(), name@) is Some && *d == self.skills()[skill_index(self.skills(), name@).unwrap()],
                None => skill_index(self.skills(), name@) is None,
            },
    {
        let mut j: usize = 0;
        while j < self.skills.len()
            invariant
                j <= self.skills.len(),
                self.wf(),
                forall|i: int| 0 <= i < j ==> self.skills@[i].name@ != name@,
            decreases self.skills.len() - j,
        {
            if str_eq(self.skills[j].name.as_str(), name) {
                proof {
                    let c = choose|i: int| 0 <= i < self.skills@.len() && self.skills@[i].name@ == name@;
                    if c != j {
                        if c < j {
                            assert(self.skills@[c].name@ != self.skills@[j as int].name@);
                        } else {
                            assert(self.skills@[j as int].name@ != self.skills@[c].name@);
                        }
                    }
                }
                return Some(&self.skills[j]);
            }
            j += 1;
        }
        None
    }

    /// The names of all skills, in registration order.
    pub fn list_names(&self) -> (r: Vec<String>)
        ensures
            crate::text::strs_view(r@) == self.skills().map_values(|d: SkillDefinition| d.name@),
    {
        let mut r: Vec<String> = Vec::new();
        let mut k: usize = 0;
        while k < self.skills.len()
            invariant
                k <= self.skills.len(),
                crate::text::strs_view(r@) =~= self.skills@.take(k as int).map_values(|d: SkillDefinition| d.name@),
            decreases self.skills.len() - k,
        {
            let n = self.skills[k].name.clone();
            proof {
                crate::text::lemma_strs_view_push(r@, n);
                assert(self.skills@.take(k + 1).map_values(|d: SkillDefinition| d.name@)
                    =~= self.skills@.take(k as int).map_values(|d: SkillDefinition| d.name@).push(self.skills@[k as int].name@));
            }
            r.push(n);
            k += 1;
        }
        assert(self.skills@.take(k as int) =~= self.skills@);
        r
    }

    /// The tools offered for the given skill names: the known ones, in the
    /// order asked for.
    pub fn enabled_schemas(&self, skill_names: &[String]) -> (r: Vec<ToolSchema>)
        requires
            self.wf(),
        ensures
            r@.map_values(|t: ToolSchema| (t.name@, t.description@, json_model(t.parameters)))
                == known_tools(self.skills(), crate::text::strs_view(skill_names@)),
    {
        let mut out: Vec<ToolSchema> = Vec::new();
        let ghost names = crate::text::strs_view(skill_names@);
        let mut k: usize = 0;
        proof {
            reveal_with_fuel(known_tools, 1);
            assert(names.take(0) =~= Seq::<Seq<char>>::empty());
            assert(out@.map_values(|t: ToolSchema| (t.name@, t.description@, json_model(t.parameters))) =~= Seq::<(Seq<char>, Seq<char>, JsonModel)>::empty());
        }
        while k < skill_names.len()
            invariant
                k <= skill_names.len(),
                self.wf(),
                names == crate::text::strs_view(skill_names@),
                out@.map_values(|t: ToolSchema| (t.name@, t.description@, json_model(t.parameters)))
                    == known_tools(self.skills(), names.take(k as int)),
            decreases skill_names.len() - k,
        {
            proof {
                assert(names.take(k + 1).drop_last() =~= names.take(k as int));
                assert(names.take(k + 1).last() == skill_names@[k as int]@);
            }
            let ghost before = out@.map_values(|t: ToolSchema| (t.name@, t.description@, json_model(t.parameters)));
            match self.get(skill_names[k].as_str()) {
                Some(def) => {
                    let t = ToolSchema {
                        name: def.name.clone(),
                        description: def.description.clone(),
                        parameters: copy_json(&def.parameters),
                    };
                    out.push(t);
                    assert(out@.map_values(|t: ToolSchema| (t.name@, t.description@, json_model(t.parameters)))
                        =~= before.push((def.name@, def.description@, json_model(def.parameters))));
                },
                None => {},
            }
            k += 1;
        }
        assert(names.take(k as int) =~= names);
        out
    }
}

/// The tools of the named skills that are known, in the order named.
pub open spec fn known_tools(skills: Seq<SkillDefinition>, names: Seq<Seq<char>>) -> Seq<(Seq<char>, Seq<char>, JsonModel)>
    decreases names.len(),
{
    if names.len() == 0 {
        Seq::empty()
    } else {
        let rest = known_tools(skills, names.drop_last());
        match skill_index(skills, names.last()) {
            Some(i) => rest.push((skills[i].name@, skills[i].description@, json_model(skills[i].parameters))),
            None => rest,
        }
    }
}

/// The content of a skill definition.
pub struct SkillModel {
    pub name: Seq<char>,
    pub description: Seq<char>,
    pub parameters: JsonModel,
    pub permissions: Seq<Seq<char>>,
    pub approval_mode: Seq<char>,
    pub executor_type: Seq<char>,
    pub enabled: bool,
    pub plugin_id: Option<Seq<char>>,
}

/// The content of a skill definition.
pub open spec fn skill_model(d: SkillDefinition) -> SkillModel {
    SkillModel {
        name: d.name@,
        description: d.description@,
        parameters: json_model(d.parameters),
        permissions: crate::text::strs_view(d.permissions@),
        approval_mode: d.approval_mode@,
        executor_type: d.executor_type@,
        enabled: d.enabled,
        plugin_id: crate::chat::opt_str(d.plugin_id),
    }
}

/// Registers a skill content by name: replaced in place, or added.
pub open spec fn register_model(s: Seq<SkillModel>, d: SkillModel) -> Seq<SkillModel> {
    if exists|i: int| 0 <= i < s.len() && s[i].name == d.name {
        s.update(choose|i: int| 0 <= i < s.len() && s[i].name == d.name, d)
    } else {
        s.push(d)
    }
}

/// The schema of a plugin skill that declares no arguments.
pub open spec fn empty_object_schema() -> JsonModel {
    JsonModel::Object(seq![
        ("properties"@, JsonModel::Object(Seq::empty())),
        ("required"@, JsonModel::Array(Seq::empty())),
        ("type"@, JsonModel::Str("object"@)),
    ])
}

/// The skill a plugin provides: its id as name, the plugin's permissions,
/// approval "once", run by the plugin.
pub open spec fn plugin_skill_model(p: InstalledPlugin, k: crate::plugin::PluginSkill) -> SkillModel {
    SkillModel {
        name: k.id@,
        description: k.description@,
        parameters: match k.arguments {
            Some(a) => json_model(a),
            None => empty_object_schema(),
        },
        permissions: p.manifest.permissions@.map_values(|q: PluginPermission| spec_permission_str(q)),
        approval_mode: "once"@,
        executor_type: "plugin"@,
        enabled: true,
        plugin_id: Some(p.id@),
    }
}

/// Registers the skills of one plugin, in order.
pub open spec fn register_plugin_skills(s: Seq<SkillModel>, p: InstalledPlugin, ks: Seq<crate::plugin::PluginSkill>) -> Seq<SkillModel>
    decreases ks.len(),
{
    if ks.len() == 0 {
        s
    } else {
        register_model(register_plugin_skills(s, p, ks.drop_last()), plugin_skill_model(p, ks.last()))
    }
}

/// Registers the skills of the enabled plugins, in order.
pub open spec fn register_plugins(s: Seq<SkillModel>, ps: Seq<InstalledPlugin>) -> Seq<SkillModel>
    decreases ps.len(),
{
    if ps.len() == 0 {
        s
    } else {
        let before = register_plugins(s, ps.drop_last());
        let p = ps.last();
        if p.enabled {
            match p.manifest.skills {
                Some(ks) => register_plugin_skills(before, p, ks@),
                None => before,
            }
        } else {
            before
        }
    }
}

fn empty_schema() -> (r: JsonValue)
    ensures
        json_model(r) == empty_object_schema(),
{
    let props: Vec<(String, JsonValue)> = Vec::new();
    let req: Vec<JsonValue> = Vec::new();
    proof {
        lemma_object_model(props, Seq::empty());
        lemma_array_model(req, Seq::empty());
    }
    let mut top: Vec<(String, JsonValue)> = Vec::new();
    top.push((String::from_str("properties"), JsonValue::Object(props)));
    top.push((String::from_str("required"), JsonValue::Array(req)));
    top.push((String::from_str("type"), json_text("object")));
    proof {
        lemma_object_model(top, seq![
            ("properties"@, JsonModel::Object(Seq::empty())),
            ("required"@, JsonModel::Array(Seq::empty())),
            ("type"@, JsonModel::Str("object"@)),
        ]);
    }
    JsonValue::Object(top)
}

proof fn lemma_register_model(s: Seq<SkillDefinition>, d: SkillDefinition, t: Seq<SkillDefinition>)
    requires
        forall|i: int, j: int| 0 <= i < j < s.len() ==> (#[trigger] s[i]).name@ != (#[trigger] s[j]).name@,
        match skill_index(s, d.name@) {
            Some(i) => t == s.update(i, d),
            None => t == s.push(d),
        },
    ensures
        t.map_values(|x: SkillDefinition| skill_model(x)) == register_model(s.map_values(|x: SkillDefinition| skill_model(x)), skill_model(d)),
{
    let sm = s.map_values(|x: SkillDefinition| skill_model(x));
    match skill_index(s, d.name@) {
        Some(i) => {
            assert(sm[i].name == d.name@);
            let c = choose|c: int| 0 <= c < sm.len() && sm[c].name == skill_model(d).name;
            if c != i {
                if c < i {
                    assert(s[c].name@ != s[i].name@);
                } else {
                    assert(s[i].name@ != s[c].name@);
                }
            }
            assert(t.map_values(|x: SkillDefinition| skill_model(x)) =~= sm.update(i, skill_model(d)));
        },
        None => {
            assert(!(exists|i: int| 0 <= i < sm.len() && sm[i].name == skill_model(d).name)) by {
                if exists|i: int| 0 <= i < sm.len() && sm[i].name == skill_model(d).name {
                    let i = choose|i: int| 0 <= i < sm.len() && sm[i].name == skill_model(d).name;
                    assert(s[i].name@ == d.name@);
                }
            }
            assert(t.map_values(|x: SkillDefinition| skill_model(x)) =~= sm.push(skill_model(d)));
        },
    }
}

impl SkillRegistry {
    /// Registers the skills of the enabled plugins: each takes its id as
    /// name, its plugin's permissions, approval "once" and the plugin as
    /// executor; a skill without declared arguments takes an empty object
    /// schema.
    pub fn load_plugins(&mut self, plugins: &[InstalledPlugin])
        requires
            old(self).wf(),
        ensures
            final(self).wf(),
            final(self).skills().map_values(|x: SkillDefinition| skill_model(x))
                == register_plugins(old(self).skills().map_values(|x: SkillDefinition| skill_model(x)), plugins@),
    {
        let ghost m0 = self.skills().map_values(|x: SkillDefinition| skill_model(x));
        let mut k: usize = 0;
        assert(plugins@.take(0) =~= Seq::<InstalledPlugin>::empty());
        while k < plugins.len()
            invariant
                k <= plugins.len(),
                self.wf(),
                self.skills().map_values(|x: SkillDefinition| skill_model(x)) == register_plugins(m0, plugins@.take(k as int)),
            decreases plugins.len() - k,
        {
            let plugin = &plugins[k];
            proof {
                assert(plugins@.take(k + 1).drop_last() =~= plugins@.take(k as int));
                assert(plugins@.take(k + 1).last() == *plugin);
            }
            if plugin.enabled {
                match &plugin.manifest.skills {
                    Some(skills) => {
                        let ghost before = self.skills().map_values(|x: SkillDefinition| skill_model(x));
                        let mut j: usize = 0;
                        assert(skills@.take(0) =~= Seq::<crate::plugin::PluginSkill>::empty());
                        while j < skills.len()
                            invariant
                                j <= skills.len(),
                                self.wf(),
                                self.skills().map_values(|x: SkillDefinition| skill_model(x))
                                    == register_plugin_skills(before, *plugin, skills@.take(j as int)),
                            decreases skills.len() - j,
                        {
                            let sk = &skills[j];
                            proof {
                                assert(skills@.take(j + 1).drop_last() =~= skills@.take(j as int));
                                assert(skills@.take(j + 1).last() == *sk);
                            }
                            let parameters = match &sk.arguments {
                                Some(a) => copy_json(a),
                                None => empty_schema(),
                            };
                            let mut permissions: Vec<String> = Vec::new();
                            let mut q: usize = 0;
                            while q < plugin.manifest.permissions.len()
                                invariant
                                    q <= plugin.manifest.permissions.len(),
                                    crate::text::strs_view(permissions@) =~= plugin.manifest.permissions@.take(q as int).map_values(
                                        |x: PluginPermission| spec_permission_str(x),
                                    ),
                                decreases plugin.manifest.permissions.len() - q,
                            {
                                let ps = String::from_str(plugin.manifest.permissions[q].as_str());
                                proof {
                                    crate::text::lemma_strs_view_push(permissions@, ps);
                                    assert(plugin.manifest.permissions@.take(q + 1).map_values(|x: PluginPermission| spec_permission_str(x))
                                        =~= plugin.manifest.permissions@.take(q as int).map_values(|x: PluginPermission| spec_permission_str(x)).push(
                                        spec_permission_str(plugin.manifest.permissions@[q as int])));
                                }
                                permissions.push(ps);
                                q += 1;
                            }
                            assert(plugin.manifest.permissions@.take(q as int) =~= plugin.manifest.permissions@);
                            let def = SkillDefinition {
                                name: sk.id.clone(),
                                description: sk.description.clone(),
                                parameters,
                                permissions,
                                approval_mode: String::from_str("once"),
                                executor_type: String::from_str("plugin"),
                                enabled: true,
                                plugin_id: Some(plugin.id.clone()),
                            };
                            assert(skill_model(def) == plugin_skill_model(*plugin, *sk));
                            let ghost s_before = self.skills();
                            self.register(def);
                            proof {
                                lemma_register_model(s_before, def, self.skills());
                            }
                            j += 1;
                        }
                        assert(skills@.take(j as int) =~= skills@);
                    },
                    None => {},
                }
            }
            k += 1;
        }
        assert(plugins@.take(k as int) =~= plugins@);
    }
}

} // verus!
