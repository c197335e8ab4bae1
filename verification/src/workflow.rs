//! Workflows: what starts them, the context their actions share, and the
//! actions that only touch that context.  Actions that need the memory
//! store, the knowledge base or a skill are planned here and carried out by
//! the caller, which hands the outcome back.

use vstd::prelude::*;
use vstd::string::StringExecFns;
use crate::json::{JsonValue, spec_get, spec_as_str, spec_as_u64};
use crate::text::str_eq;
use crate::models::WorkflowTrigger;

verus! {

// ---------------------------------------------------------------------------
// Variables
// ---------------------------------------------------------------------------

/// Named text variables, each name once, kept in the order they were first
/// set.
pub struct VarMap {
    entries: Vec<(String, String)>,
}

/// The names of a list of entries.
pub open spec fn entry_keys(e: Seq<(String, String)>) -> Seq<Seq<char>> {
    e.map_values(|p: (String, String)| p.0@)
}

impl VarMap {
    /// Each name occurs once.
    pub closed spec fn wf(self) -> bool {
        forall|i: int, j: int| 0 <= i < j < self.entries@.len() ==> (#[trigger] self.entries@[i]).0@ != (#[trigger] self.entries@[j]).0@
    }

    /// The variables as (name, value) pairs, in order.
    pub closed spec fn pairs(self) -> Seq<(Seq<char>, Seq<char>)> {
        self.entries@.map_values(|p: (String, String)| (p.0@, p.1@))
    }

    /// No name occurs twice.
    pub proof fn lemma_distinct(&self)
        requires
            self.wf(),
        ensures
            forall|i: int, j: int| 0 <= i < j < self.pairs().len() ==> (#[trigger] self.pairs()[i]).0 != (#[trigger] self.pairs()[j]).0,
    {
        assert forall|i: int, j: int| 0 <= i < j < self.pairs().len() implies (#[trigger] self.pairs()[i]).0 != (#[trigger] self.pairs()[j]).0 by {
            assert(self.pairs()[i].0 == self.entries@[i].0@);
            assert(self.pairs()[j].0 == self.entries@[j].0@);
        }
    }

    /// No variables.
    pub fn new() -> (r: Self)
        ensures
            r.wf(),
            r.pairs() == Seq::<(Seq<char>, Seq<char>)>::empty(),
    {
        let r = VarMap { entries: Vec::new() };
        assert(r.pairs() =~= Seq::<(Seq<char>, Seq<char>)>::empty());
        r
    }

    /// The number of variables.
    pub fn len(&self) -> (n: usize)
        ensures
            n == self.pairs().len(),
    {
        self.entries.len()
    }

    /// Whether there are no variables.
    pub fn is_empty(&self) -> (b: bool)
        ensures
            b == (self.pairs().len() == 0),
    {
        self.entries.len() == 0
    }

    /// The name and value of the variable at position `i`.
    pub fn entry(&self, i: usize) -> (r: (&str, &str))
        requires
            i < self.pairs().len(),
        ensures
            (r.0@, r.1@) == self.pairs()[i as int],
    {
        (self.entries[i].0.as_str(), self.entries[i].1.as_str())
    }

    /// Sets a variable: a known name keeps its place and takes the new
    /// value, a new name is added at the end.
    pub fn insert(&mut self, key: &str, value: &str)
        requires
            old(self).wf(),
        ensures
            final(self).wf(),
            (exists|j: int| 0 <= j < old(self).pairs().len() && old(self).pairs()[j].0 == key@)
                ==> (exists|j: int| 0 <= j < old(self).pairs().len() && old(self).pairs()[j].0 == key@
                    && final(self).pairs() == old(self).pairs().update(j, (key@, value@))),
            !(exists|j: int| 0 <= j < old(self).pairs().len() && old(self).pairs()[j].0 == key@)
                ==> final(self).pairs() == old(self).pairs().push((key@, value@)),
    {
        let ghost p0 = self.pairs();
        let mut j: usize = 0;
        while j < self.entries.len()
            invariant
                j <= self.entries.len(),
                self.pairs() == p0,
                self.wf(),
                forall|q: int| 0 <= q < j ==> (#[trigger] self.entries@[q]).0@ != key@,
            ensures
                j <= self.entries.len(),
                self.pairs() == p0,
                self.wf(),
                forall|q: int| 0 <= q < j ==> (#[trigger] self.entries@[q]).0@ != key@,
                j < self.entries.len() ==> self.entries@[j as int].0@ == key@,
            decreases self.entries.len() - j,
        {
            if str_eq(self.entries[j].0.as_str(), key) {
                break;
            }
            j += 1;
        }
        if j < self.entries.len() {
            let ghost e0 = self.entries@;
            proof {
                assert(p0[j as int] == (self.entries@[j as int].0@, self.entries@[j as int].1@));
            }
            let entry = (String::from_str(key), String::from_str(value));
            self.entries.set(j, entry);
            proof {
                assert forall|x: int| 0 <= x < e0.len() implies (#[trigger] self.entries@[x]).0@ == e0[x].0@ by {}
                assert(self.pairs() =~= p0.update(j as int, (key@, value@)));
                assert(p0[j as int].0 == key@);
            }
        } else {
            proof {
                assert forall|q: int| 0 <= q < p0.len() implies p0[q].0 != key@ by {
                    assert(p0[q].0 == self.entries@[q].0@);
                }
            }
            let ghost e0 = self.entries@;
            let entry = (String::from_str(key), String::from_str(value));
            self.entries.push(entry);
            proof {
                assert(self.pairs() =~= p0.push((key@, value@)));
            }
        }
    }
}

// ---------------------------------------------------------------------------
// Context and events
// ---------------------------------------------------------------------------

/// The outcome of one workflow action.
pub struct ActionResult {
    pub action_id: String,
    pub action_type: String,
    pub success: bool,
    pub result: String,
}

/// What a workflow run shares between its actions.
pub struct WorkflowContext {
    pub session_id: String,
    pub persona_id: String,
    pub user_message: String,
    pub variables: VarMap,
    pub action_results: Vec<ActionResult>,
}

impl WorkflowContext {
    /// A fresh context for a message in a session.
    pub fn new(session_id: String, persona_id: String, user_message: String) -> (r: Self)
        ensures
            r.session_id == session_id,
            r.persona_id == persona_id,
            r.user_message == user_message,
            r.variables.wf(),
            r.variables.pairs().len() == 0,
            r.action_results@.len() == 0,
    {
        WorkflowContext {
            session_id,
            persona_id,
            user_message,
            variables: VarMap::new(),
            action_results: Vec::new(),
        }
    }
}

/// An event that may start a workflow.
pub enum WorkflowEvent {
    Message { content: String },
    Scheduled,
    Event { name: String },
}

/// One line per variable: a dash, its name, a colon and its value.
pub open spec fn variable_lines(p: Seq<(Seq<char>, Seq<char>)>) -> Seq<char>
    decreases p.len(),
{
    if p.len() == 0 {
        Seq::empty()
    } else {
        variable_lines(p.drop_last()) + "- "@ + p.last().0 + ": "@ + p.last().1 + "\n"@
    }
}

/// The prompt with the workflow variables appended under a heading, or the
/// prompt as it is when there are none.
pub open spec fn spec_inject_workflow_context(prompt: Seq<char>, vars: Seq<(Seq<char>, Seq<char>)>) -> Seq<char> {
    if vars.len() == 0 {
        prompt
    } else {
        prompt + "\n\n[工作流上下文]\n"@ + variable_lines(vars)
    }
}

/// Appends the workflow variables to a prompt, in the order they were set.
pub fn inject_workflow_context(prompt: &str, ctx: &WorkflowContext) -> (r: String)
    ensures
        r@ == spec_inject_workflow_context(prompt@, ctx.variables.pairs()),
{
    if ctx.variables.is_empty() {
        return String::from_str(prompt);
    }
    let mut r = String::from_str(prompt);
    r.append("\n\n[工作流上下文]\n");
    let ghost base = r@;
    let n = ctx.variables.len();
    let mut k: usize = 0;
    while k < n
        invariant
            k <= n,
            n == ctx.variables.pairs().len(),
            r@ == base + variable_lines(ctx.variables.pairs().take(k as int)),
        decreases n - k,
    {
        let (key, value) = ctx.variables.entry(k);
        r.append("- ");
        r.append(key);
        r.append(": ");
        r.append(value);
        r.append("\n");
        proof {
            let t = ctx.variables.pairs().take(k + 1);
            assert(t.drop_last() =~= ctx.variables.pairs().take(k as int));
        }
        k += 1;
    }
    assert(ctx.variables.pairs().take(k as int) =~= ctx.variables.pairs());
    r
}

// ---------------------------------------------------------------------------
// Triggers
// ---------------------------------------------------------------------------

/// Whether `text` contains a match of the regular expression `pattern`;
/// nothing when the pattern does not compile.
pub uninterp spec fn regex_finds(pattern: Seq<char>, text: Seq<char>) -> Option<bool>;

/// Compiles `pattern` with `regex::Regex::new` and, when it compiles,
/// tests `text` with `is_match`.  Trusted: the result is
/// `regex_finds(pattern, text)`, a function of the two texts alone.
#[verifier::external_body]
pub(crate) fn regex_is_match(pattern: &str, text: &str) -> (r: Option<bool>)
    ensures
        r == regex_finds(pattern@, text@),
{
    match regex::Regex::new(pattern) {
        Ok(re) => Some(re.is_match(text)),
        Err(_) => None,
    }
}

/// The model of a trigger.
pub enum TriggerModel {
    Message { pattern: Option<Seq<char>> },
    Scheduled { cron: Seq<char> },
    Event { event_name: Seq<char> },
}

/// The trigger a stored JSON document describes: an object whose `type` is
/// "message" (with an optional string `pattern`), "scheduled" (with a
/// string `cron`) or "event" (with a string `event_name`); nothing for any
/// other document.
pub open spec fn spec_parse_trigger(v: JsonValue) -> Option<TriggerModel> {
    match v {
        JsonValue::Object(_) => {
            let ty = match spec_get(v, "type"@) {
                Some(t) => spec_as_str(t),
                None => None,
            };
            if ty == Some("message"@) {
                match spec_get(v, "pattern"@) {
                    None => Some(TriggerModel::Message { pattern: None }),
                    Some(JsonValue::Null) => Some(TriggerModel::Message { pattern: None }),
                    Some(JsonValue::String(p)) => Some(TriggerModel::Message { pattern: Some(p@) }),
                    Some(_) => None,
                }
            } else if ty == Some("scheduled"@) {
                match spec_get(v, "cron"@) {
                    Some(JsonValue::String(c)) => Some(TriggerModel::Scheduled { cron: c@ }),
                    _ => None,
                }
            } else if ty == Some("event"@) {
                match spec_get(v, "event_name"@) {
                    Some(JsonValue::String(e)) => Some(TriggerModel::Event { event_name: e@ }),
                    _ => None,
                }
            } else {
                None
            }
        },
        _ => None,
    }
}

/// The model of a trigger value.
pub open spec fn trigger_view(t: WorkflowTrigger) -> TriggerModel {
    match t {
        WorkflowTrigger::Message { pattern } => TriggerModel::Message { pattern: match pattern {
            Some(p) => Some(p@),
            None => None,
        } },
        WorkflowTrigger::Scheduled { cron } => TriggerModel::Scheduled { cron: cron@ },
        WorkflowTrigger::Event { event_name } => TriggerModel::Event { event_name: event_name@ },
    }
}

/// Reads a stored trigger.
pub fn parse_trigger(v: &JsonValue) -> (r: Option<WorkflowTrigger>)
    ensures
        match r {
            Some(t) => spec_parse_trigger(*v) == Some(trigger_view(t)),
            None => spec_parse_trigger(*v) is None,
        },
{
    match v {
        JsonValue::Object(_) => {},
        _ => return None,
    }
    let ty = match v.get("type") {
        Some(t) => t.as_str(),
        None => None,
    };
    let ty = match ty {
        Some(t) => t,
        None => return None,
    };
    if str_eq(ty, "message") {
        match v.get("pattern") {
            None => Some(WorkflowTrigger::Message { pattern: None }),
            Some(JsonValue::Null) => Some(WorkflowTrigger::Message { pattern: None }),
            Some(JsonValue::String(p)) => Some(WorkflowTrigger::Message { pattern: Some(p.clone()) }),
            Some(_) => None,
        }
    } else if str_eq(ty, "scheduled") {
        match v.get("cron") {
            Some(JsonValue::String(c)) => Some(WorkflowTrigger::Scheduled { cron: c.clone() }),
            _ => None,
        }
    } else if str_eq(ty, "event") {
        match v.get("event_name") {
            Some(JsonValue::String(e)) => Some(WorkflowTrigger::Event { event_name: e.clone() }),
            _ => None,
        }
    } else {
        None
    }
}

/// Whether a trigger fires on an event: a message trigger on a message its
/// pattern matches (any message without a pattern; none when the pattern is
/// invalid), a schedule trigger on the schedule, an event trigger on the
/// event of its name.
pub open spec fn spec_trigger_fires(t: TriggerModel, e: WorkflowEvent) -> bool {
    match (e, t) {
        (WorkflowEvent::Message { content }, TriggerModel::Message { pattern }) => match pattern {
            Some(p) => regex_finds(p, content@) == Some(true),
            None => true,
        },
        (WorkflowEvent::Scheduled, TriggerModel::Scheduled { .. }) => true,
        (WorkflowEvent::Event { name }, TriggerModel::Event { event_name }) => name@ == event_name,
        _ => false,
    }
}

/// Whether the trigger stored as `trigger` fires on `event`; an unreadable
/// trigger never fires.
pub fn match_trigger(trigger: &JsonValue, event: &WorkflowEvent) -> (r: bool)
    ensures
        r == match spec_parse_trigger(*trigger) {
            Some(t) => spec_trigger_fires(t, *event),
            None => false,
        },
{
    let t = match parse_trigger(trigger) {
        Some(t) => t,
        None => return false,
    };
    match (event, t) {
        (WorkflowEvent::Message { content }, WorkflowTrigger::Message { pattern }) => match pattern {
            Some(p) => match regex_is_match(p.as_str(), content.as_str()) {
                Some(b) => b,
                None => false,
            },
            None => true,
        },
        (WorkflowEvent::Scheduled, WorkflowTrigger::Scheduled { .. }) => true,
        (WorkflowEvent::Event { name }, WorkflowTrigger::Event { event_name }) => str_eq(name.as_str(), event_name.as_str()),
        _ => false,
    }
}

// ---------------------------------------------------------------------------
// Actions
// ---------------------------------------------------------------------------

/// One action of a workflow.
pub struct WorkflowAction {
    pub id: String,
    pub action_type: String,
    pub config: JsonValue,
    pub next_action_id: Option<String>,
}

/// What an action needs from outside the context.
pub enum ActionPlan<'a> {
    /// Recall memories about the user message; the result is stored as
    /// "memory".
    RetrieveMemory,
    /// Search the knowledge base for the user message; the result is
    /// stored as "knowledge".
    QueryKnowledge,
    /// Run the web search skill; the result is stored as "search".
    WebSearch { query: String, top_n: u64, time_range: String },
    /// Run a skill with the given arguments; the result is stored under the
    /// skill's name.
    CallSkill { skill_name: String, arguments: Option<&'a JsonValue> },
    /// The action is finished, with this outcome.
    Done(Result<String, String>),
}

/// The text of `config[key]`, or `default` when it is absent or not text.
pub open spec fn config_str_or(config: JsonValue, key: Seq<char>, default: Seq<char>) -> Seq<char> {
    match spec_get(config, key) {
        Some(x) => match spec_as_str(x) {
            Some(s) => s,
            None => default,
        },
        None => default,
    }
}

fn config_str<'a>(config: &'a JsonValue, key: &str) -> (r: Option<&'a str>)
    ensures
        match r {
            Some(s) => spec_get(*config, key@) is Some && spec_as_str(spec_get(*config, key@).unwrap()) == Some(s@),
            None => spec_get(*config, key@) is None || spec_as_str(spec_get(*config, key@).unwrap()) is None,
        },
{
    match config.get(key) {
        Some(x) => x.as_str(),
        None => None,
    }
}

/// Starts an action: an action that only touches the context ("send_message",
/// "set_context") is carried out and finished; an unknown one fails; the
/// others are planned for the caller.
pub fn plan_action<'a>(ctx: &mut WorkflowContext, action: &'a WorkflowAction) -> (r: ActionPlan<'a>)
    requires
        old(ctx).variables.wf(),
    ensures
        final(ctx).variables.wf(),
        final(ctx).session_id == old(ctx).session_id,
        final(ctx).persona_id == old(ctx).persona_id,
        final(ctx).user_message == old(ctx).user_message,
        final(ctx).action_results == old(ctx).action_results,
        action.action_type@ == "send_message"@ ==> {
            let text = config_str_or(action.config, "text"@, Seq::empty());
            &&& r matches ActionPlan::Done(Ok(t)) && t@ == text
            &&& (exists|j: int| 0 <= j < old(ctx).variables.pairs().len() && old(ctx).variables.pairs()[j].0 == "send_message"@)
                || final(ctx).variables.pairs() == old(ctx).variables.pairs().push(("send_message"@, text))
        },
        action.action_type@ == "set_context"@ ==> match spec_get(action.config, "key"@) {
            Some(k) => match spec_as_str(k) {
                Some(key) => {
                    let value = config_str_or(action.config, "value"@, Seq::empty());
                    &&& r matches ActionPlan::Done(Ok(t)) && t@ == value
                    &&& (exists|j: int| 0 <= j < old(ctx).variables.pairs().len() && old(ctx).variables.pairs()[j].0 == key
                        && final(ctx).variables.pairs() == old(ctx).variables.pairs().update(j, (key, value)))
                        || final(ctx).variables.pairs() == old(ctx).variables.pairs().push((key, value))
                },
                None => r matches ActionPlan::Done(Err(e)) && e@ == "set_context missing key"@,
            },
            None => r matches ActionPlan::Done(Err(e)) && e@ == "set_context missing key"@,
        },
        action.action_type@ == "retrieve_memory"@ ==> r is RetrieveMemory,
        action.action_type@ == "query_knowledge"@ ==> r is QueryKnowledge,
        action.action_type@ == "web_search"@ ==> (r matches ActionPlan::WebSearch { query, top_n, time_range }
            && query@ == config_str_or(action.config, "query"@, old(ctx).user_message@)
            && top_n == match spec_get(action.config, "top_n"@) {
                Some(x) => match spec_as_u64(x) {
                    Some(n) => n,
                    None => 5,
                },
                None => 5,
            }
            && time_range@ == config_str_or(action.config, "time_range"@, Seq::empty())),
        action.action_type@ == "call_skill"@ ==> match spec_get(action.config, "skill_name"@) {
            Some(k) => match spec_as_str(k) {
                Some(name) => r matches ActionPlan::CallSkill { skill_name, arguments }
                    && skill_name@ == name && match arguments {
                        Some(a) => spec_get(action.config, "arguments"@) == Some(*a),
                        None => spec_get(action.config, "arguments"@) is None,
                    },
                None => r matches ActionPlan::Done(Err(e)) && e@ == "call_skill missing skill_name"@,
            },
            None => r matches ActionPlan::Done(Err(e)) && e@ == "call_skill missing skill_name"@,
        },
        !(action.action_type@ == "send_message"@ || action.action_type@ == "set_context"@
            || action.action_type@ == "retrieve_memory"@ || action.action_type@ == "query_knowledge"@
            || action.action_type@ == "web_search"@ || action.action_type@ == "call_skill"@)
            ==> (r matches ActionPlan::Done(Err(e)) && e@ == "unknown action type: "@ + action.action_type@),
        !(action.action_type@ == "send_message"@ || action.action_type@ == "set_context"@)
            ==> final(ctx).variables.pairs() == old(ctx).variables.pairs(),
{
    proof {
        reveal_strlit("retrieve_memory");
        reveal_strlit("query_knowledge");
        reveal_strlit("web_search");
        reveal_strlit("call_skill");
        reveal_strlit("send_message");
        reveal_strlit("set_context");
        let names = seq!["retrieve_memory"@, "query_knowledge"@, "web_search"@, "call_skill"@, "send_message"@, "set_context"@];
        assert(names[0][0] == 'r' && names[1][0] == 'q' && names[2][0] == 'w' && names[3][0] == 'c');
        assert(names[4].len() == 12 && names[5].len() == 11 && names[0].len() == 15 && names[2].len() == 10);
        assert(names[1].len() == 15 && names[3].len() == 10);
        assert(forall|a: int, b: int| 0 <= a < b < 6 ==> #[trigger] names[a] != #[trigger] names[b]);
    }
    let t = action.action_type.as_str();
    if str_eq(t, "retrieve_memory") {
        ActionPlan::RetrieveMemory
    } else if str_eq(t, "query_knowledge") {
        ActionPlan::QueryKnowledge
    } else if str_eq(t, "web_search") {
        let query = match config_str(&action.config, "query") {
            Some(q) => String::from_str(q),
            None => ctx.user_message.clone(),
        };
        let top_n = match action.config.get("top_n") {
            Some(x) => match x.as_u64() {
                Some(n) => n,
                None => 5,
            },
            None => 5,
        };
        let time_range = match config_str(&action.config, "time_range") {
            Some(q) => String::from_str(q),
            None => String::new(),
        };
        ActionPlan::WebSearch { query, top_n, time_range }
    } else if str_eq(t, "call_skill") {
        match config_str(&action.config, "skill_name") {
            Some(name) => {
                let arguments = action.config.get("arguments");
                ActionPlan::CallSkill { skill_name: String::from_str(name), arguments }
            },
            None => ActionPlan::Done(Err(String::from_str("call_skill missing skill_name"))),
        }
    } else if str_eq(t, "send_message") {
        let text = match config_str(&action.config, "text") {
            Some(s) => s,
            None => {
                proof {
                    reveal_strlit("");
                }
                ""
            },
        };
        ctx.variables.insert("send_message", text);
        ActionPlan::Done(Ok(String::from_str(text)))
    } else if str_eq(t, "set_context") {
        match config_str(&action.config, "key") {
            Some(key) => {
                let value = match config_str(&action.config, "value") {
                    Some(s) => s,
                    None => {
                        proof {
                            reveal_strlit("");
                        }
                        ""
                    },
                };
                ctx.variables.insert(key, value);
                ActionPlan::Done(Ok(String::from_str(value)))
            },
            None => ActionPlan::Done(Err(String::from_str("set_context missing key"))),
        }
    } else {
        let mut e = String::from_str("unknown action type: ");
        e.append(t);
        ActionPlan::Done(Err(e))
    }
}

} // verus!
