//! The `harness` backend wire layer: the seam one HTTP round trip goes
//! through, what a delivered response amounts to, and the shape of a model's
//! reply.

use vstd::prelude::*;
use crate::json::{as_array, as_str, json_array, json_get, json_str, JsonValue};
use crate::text::{concat, debug_quote, debug_text, decimal, decimal_chars, push_str, str_eq};

verus! {

/// One HTTP round trip, so the turn loop can run without a network.
pub trait Transport {
    /// POSTs `body` as `application/json` and returns the response body; a
    /// non-2xx status is an `Err` carrying the status and the body.
    fn post_json(&self, url: &str, bearer: &str, body: &str) -> Result<String, String>;
}

/// Largest response body the transport accumulates.
pub const HARNESS_HTTP_MAX_RESPONSE_BYTES: usize = 4194304;

/// Most model round trips one task may take.
pub const HARNESS_MAX_TURNS: usize = 16;

/// Most tool calls one task may dispatch, across all turns.
pub const HARNESS_MAX_TOOL_CALLS: usize = 64;

/// DeepSeek's chat-completions endpoint.
pub const DEEPSEEK_CHAT_URL: &'static str = "https://api.deepseek.com/chat/completions";

/// DeepSeek's default model.
pub const DEEPSEEK_MODEL: &'static str = "deepseek-chat";

/// One tool call the model asked for, with its arguments still unparsed.
#[derive(Clone, Debug, PartialEq, Eq)]
pub struct WireToolCall {
    pub id: String,
    pub name: String,
    pub arguments: String,
}

/// What one model reply amounted to.
#[derive(Clone, Debug, PartialEq, Eq)]
pub enum ModelReply {
    /// A final answer: the loop stops here.
    Text(String),
    /// Work to do before the model can answer.
    ToolCalls(Vec<WireToolCall>),
}

/// One delivered HTTP response, as the transport read it.
pub struct HttpResponse {
    pub status: u16,
    pub body: Vec<u8>,
    /// Whether the body was cut off at `HARNESS_HTTP_MAX_RESPONSE_BYTES`.
    pub truncated: bool,
}

/// What `String::from_utf8_lossy` makes of `bytes`: their text, with each
/// invalid sequence replaced by U+FFFD.
pub uninterp spec fn utf8_lossy(bytes: Seq<u8>) -> Seq<char>;

/// `String::from_utf8_lossy(bytes).into_owned()`. Valid UTF-8 comes back as
/// the text it encodes; how invalid sequences are replaced is std's and is
/// only named.
#[verifier::external_body]
pub(crate) fn lossy_text(bytes: &[u8]) -> (text: String)
    ensures
        text@ == utf8_lossy(bytes@),
        vstd::utf8::valid_utf8(bytes@) ==> text@ == vstd::utf8::decode_utf8(bytes@),
{
    String::from_utf8_lossy(bytes).into_owned()
}

pub open spec fn is_success(status: u16) -> bool {
    200 <= status <= 299
}

/// What a delivered response amounts to: its body for a complete 2xx answer;
/// otherwise an error carrying the status, and for a non-2xx answer the body
/// too, since that is where an API says why it refused.
pub open spec fn http_outcome(status: u16, truncated: bool, text: Seq<char>) -> Result<Seq<char>, Seq<char>> {
    if !is_success(status) {
        Err(
            "harness: the endpoint answered HTTP "@ + decimal_chars(status as nat) + (if truncated {
                " (body truncated at 4194304 bytes)"@
            } else {
                ""@
            }) + ": "@ + text,
        )
    } else if truncated {
        Err(
            "harness: the endpoint answered HTTP "@ + decimal_chars(status as nat)
                + " with a body cut off at 4194304 bytes (HARNESS_HTTP_MAX_RESPONSE_BYTES); a truncated body is not parsed as if it were complete"@,
        )
    } else {
        Ok(text)
    }
}

/// Turns one delivered response into the body, or into an error that carries
/// the diagnosis. A truncated body is never handed back as if complete.
pub fn interpret_http_response(response: &HttpResponse) -> (result: Result<String, String>)
    ensures
        match http_outcome(response.status, response.truncated, utf8_lossy(response.body@)) {
            Ok(t) => result matches Ok(r) && r@ == t,
            Err(m) => result matches Err(e) && e@ == m,
        },
{
    let text = lossy_text(response.body.as_slice());
    if !(200 <= response.status && response.status <= 299) {
        let mut m = concat("harness: the endpoint answered HTTP ", decimal(response.status as u64).as_str());
        if response.truncated {
            push_str(&mut m, " (body truncated at 4194304 bytes)");
        } else {
            push_str(&mut m, "");
        }
        push_str(&mut m, ": ");
        push_str(&mut m, text.as_str());
        return Err(m);
    }
    if response.truncated {
        let mut m = concat("harness: the endpoint answered HTTP ", decimal(response.status as u64).as_str());
        push_str(
            &mut m,
            " with a body cut off at 4194304 bytes (HARNESS_HTTP_MAX_RESPONSE_BYTES); a truncated body is not parsed as if it were complete",
        );
        return Err(m);
    }
    Ok(text)
}

// ---------------------------------------------------------------------------
// A chat-completions reply
// ---------------------------------------------------------------------------

pub struct WireToolCallView {
    pub id: Seq<char>,
    pub name: Seq<char>,
    pub arguments: Seq<char>,
}

impl View for WireToolCall {
    type V = WireToolCallView;

    open spec fn view(&self) -> WireToolCallView {
        WireToolCallView { id: self.id@, name: self.name@, arguments: self.arguments@ }
    }
}

pub enum ModelReplyView {
    Text(Seq<char>),
    ToolCalls(Seq<WireToolCallView>),
}

impl View for ModelReply {
    type V = ModelReplyView;

    open spec fn view(&self) -> ModelReplyView {
        match self {
            ModelReply::Text(t) => ModelReplyView::Text(t@),
            ModelReply::ToolCalls(calls) => ModelReplyView::ToolCalls(
                calls@.map_values(|c: WireToolCall| c@),
            ),
        }
    }
}

/// What an API's own error object says, when the reply carries one.
pub open spec fn refusal_of(reply: JsonValue) -> Option<Seq<char>> {
    match json_get(reply, "error"@) {
        Some(error) => json_str(json_get(error, "message"@)),
        None => None,
    }
}

/// `choices[0].message`, when the reply has it.
pub open spec fn first_message(reply: JsonValue) -> Option<JsonValue> {
    match json_array(json_get(reply, "choices"@)) {
        Some(choices) => if choices.len() > 0 {
            json_get(choices[0], "message"@)
        } else {
            None
        },
        None => None,
    }
}

/// One tool call: its function object and name are required, then its id;
/// missing arguments are an empty object.
pub open spec fn tool_call_of(call: JsonValue) -> Result<WireToolCallView, Seq<char>> {
    match json_get(call, "function"@) {
        None => Err("harness: a tool call has no function object"@),
        Some(function) => match json_str(json_get(function, "name"@)) {
            None => Err("harness: a tool call has no function name"@),
            Some(name) => match json_str(json_get(call, "id"@)) {
                None => Err("harness: tool call "@ + debug_text(name) + " has no id"@),
                Some(id) => Ok(
                    WireToolCallView {
                        id,
                        name,
                        arguments: match json_str(json_get(function, "arguments"@)) {
                            Some(a) => a,
                            None => "{}"@,
                        },
                    },
                ),
            },
        },
    }
}

/// The tool calls of `calls` in order, or the fault of the first that has one.
pub open spec fn tool_calls_from(calls: Seq<JsonValue>) -> Result<Seq<WireToolCallView>, Seq<char>>
    decreases calls.len(),
{
    if calls.len() == 0 {
        Ok(Seq::empty())
    } else {
        match tool_call_of(calls[0]) {
            Err(e) => Err(e),
            Ok(call) => match tool_calls_from(calls.drop_first()) {
                Err(e) => Err(e),
                Ok(rest) => Ok(seq![call] + rest),
            },
        }
    }
}

/// The text answer of `message`.
pub open spec fn text_reply_of(message: JsonValue) -> Result<ModelReplyView, Seq<char>> {
    match json_str(json_get(message, "content"@)) {
        Some(t) => Ok(ModelReplyView::Text(t)),
        None => Err("harness: the reply has neither tool calls nor text content"@),
    }
}

/// What one chat-completions reply amounts to. The API's own refusal is
/// surfaced as it is; a reply carrying both tool calls and text is tool
/// calls, since the text narrates the work asked for.
pub open spec fn model_reply_of(reply: JsonValue) -> Result<ModelReplyView, Seq<char>> {
    match refusal_of(reply) {
        Some(m) => Err("harness: the backend refused the request: "@ + m),
        None => match first_message(reply) {
            None => Err("harness: the reply has no choices[0].message"@),
            Some(message) => match json_array(json_get(message, "tool_calls"@)) {
                Some(calls) => match tool_calls_from(calls) {
                    Err(e) => Err(e),
                    Ok(parsed) => if parsed.len() > 0 {
                        Ok(ModelReplyView::ToolCalls(parsed))
                    } else {
                        text_reply_of(message)
                    },
                },
                None => text_reply_of(message),
            },
        },
    }
}

fn tool_call(call: &JsonValue) -> (result: Result<WireToolCall, String>)
    ensures
        match tool_call_of(*call) {
            Ok(v) => result matches Ok(c) && c@ == v,
            Err(m) => result matches Err(e) && e@ == m,
        },
{
    let function = match call.get("function") {
        Some(f) => f,
        None => return Err("harness: a tool call has no function object".to_owned()),
    };
    let name = match as_str(function.get("name")) {
        Some(n) => n,
        None => return Err("harness: a tool call has no function name".to_owned()),
    };
    let id = match as_str(call.get("id")) {
        Some(id) => id.to_owned(),
        None => {
            let mut m = concat("harness: tool call ", debug_quote(name).as_str());
            push_str(&mut m, " has no id");
            return Err(m);
        },
    };
    let arguments = match as_str(function.get("arguments")) {
        Some(a) => a.to_owned(),
        None => "{}".to_owned(),
    };
    Ok(WireToolCall { id, name: name.to_owned(), arguments })
}

fn text_reply(message: &JsonValue) -> (result: Result<ModelReply, String>)
    ensures
        match text_reply_of(*message) {
            Ok(v) => result matches Ok(r) && r@ == v,
            Err(m) => result matches Err(e) && e@ == m,
        },
{
    match as_str(message.get("content")) {
        Some(t) => Ok(ModelReply::Text(t.to_owned())),
        None => Err("harness: the reply has neither tool calls nor text content".to_owned()),
    }
}

/// Parses one chat-completions reply into a final text answer or the tool
/// calls the model asked for.
pub fn deepseek_parse_reply(reply: &JsonValue) -> (result: Result<ModelReply, String>)
    ensures
        match model_reply_of(*reply) {
            Ok(v) => result matches Ok(r) && r@ == v,
            Err(m) => result matches Err(e) && e@ == m,
        },
{
    let refusal = match reply.get("error") {
        Some(error) => as_str(error.get("message")),
        None => None,
    };
    if let Some(m) = refusal {
        return Err(concat("harness: the backend refused the request: ", m));
    }
    let message = match as_array(reply.get("choices")) {
        Some(choices) => if choices.len() > 0 {
            choices[0].get("message")
        } else {
            None
        },
        None => None,
    };
    let message = match message {
        Some(m) => m,
        None => return Err("harness: the reply has no choices[0].message".to_owned()),
    };
    let calls = match as_array(message.get("tool_calls")) {
        Some(calls) => calls,
        None => return text_reply(message),
    };
    let ghost all = calls@;
    let mut parsed: Vec<WireToolCall> = Vec::new();
    let mut i: usize = 0;
    assert(all.skip(0) =~= all);
    while i < calls.len()
        invariant
            all == calls@,
            i <= all.len(),
            parsed@.len() == i,
            model_reply_of(*reply) == match tool_calls_from(all) {
                Err(e) => Err(e),
                Ok(p) => if p.len() > 0 {
                    Ok(ModelReplyView::ToolCalls(p))
                } else {
                    text_reply_of(*message)
                },
            },
            tool_calls_from(all) == match tool_calls_from(all.skip(i as int)) {
                Err(e) => Err(e),
                Ok(rest) => Ok(parsed@.map_values(|c: WireToolCall| c@) + rest),
            },
        decreases all.len() - i,
    {
        let ghost before = parsed@.map_values(|c: WireToolCall| c@);
        assert(all.skip(i as int)[0] == all[i as int]);
        assert(all.skip(i as int).drop_first() =~= all.skip(i + 1));
        let call = match tool_call(&calls[i]) {
            Ok(c) => c,
            Err(e) => return Err(e),
        };
        let ghost v = call@;
        parsed.push(call);
        proof {
            assert(parsed@.map_values(|c: WireToolCall| c@) =~= before.push(v));
            assert forall|rest: Seq<WireToolCallView>| #![auto] before + (seq![v] + rest) =~= before.push(v) + rest by {}
        }
        i = i + 1;
    }
    proof {
        assert(all.skip(i as int) =~= Seq::<JsonValue>::empty());
        let views = parsed@.map_values(|c: WireToolCall| c@);
        assert(views + Seq::<WireToolCallView>::empty() =~= views);
    }
    if parsed.len() > 0 {
        Ok(ModelReply::ToolCalls(parsed))
    } else {
        text_reply(message)
    }
}

// ---------------------------------------------------------------------------
// The bounded turn loop
// ---------------------------------------------------------------------------

/// How far one task has gone against its two bounds: the model turns taken
/// and the tool calls dispatched, across all turns.
pub struct TaskBudget {
    turns: usize,
    tool_calls_spent: usize,
}

/// What the loop does with a model reply.
pub enum TurnStep {
    /// The model answered with text: the task's result.
    Finished(String),
    /// The run stops with this error and the task did not finish.
    Stopped(String),
    /// Dispatch each call, feed every result back to the model (a refusal
    /// too), then take the next turn.
    Dispatch(Vec<WireToolCall>),
}

pub open spec fn turn_bound_error() -> Seq<char> {
    "harness: stopped after the bound of 16 model turns (HARNESS_MAX_TURNS) without a final answer; the task did not finish"@
}

pub open spec fn tool_bound_error(spent: nat, more: nat) -> Seq<char> {
    "harness: stopped after "@ + decimal_chars(spent) + " tool calls: this turn's "@ + decimal_chars(more)
        + " more would pass the bound of 64 (HARNESS_MAX_TOOL_CALLS); the task did not finish"@
}

/// The budget after a reply, and what the loop does with it.
pub open spec fn step_of(spent: nat, reply: Result<ModelReplyView, Seq<char>>) -> (nat, StepView) {
    match reply {
        Err(e) => (spent, StepView::Stopped(e)),
        Ok(ModelReplyView::Text(text)) => (spent, StepView::Finished(text)),
        Ok(ModelReplyView::ToolCalls(calls)) => if spent + calls.len() > HARNESS_MAX_TOOL_CALLS {
            (spent, StepView::Stopped(tool_bound_error(spent, calls.len())))
        } else {
            (spent + calls.len(), StepView::Dispatch(calls))
        },
    }
}

/// A step as values.
pub enum StepView {
    Finished(Seq<char>),
    Stopped(Seq<char>),
    Dispatch(Seq<WireToolCallView>),
}

impl View for TurnStep {
    type V = StepView;

    open spec fn view(&self) -> StepView {
        match self {
            TurnStep::Finished(text) => StepView::Finished(text@),
            TurnStep::Stopped(e) => StepView::Stopped(e@),
            TurnStep::Dispatch(calls) => StepView::Dispatch(calls@.map_values(|c: WireToolCall| c@)),
        }
    }
}

pub open spec fn reply_view(reply: Result<ModelReply, String>) -> Result<ModelReplyView, Seq<char>> {
    match reply {
        Ok(r) => Ok(r@),
        Err(e) => Err(e@),
    }
}

impl TaskBudget {
    pub closed spec fn spec_turns(&self) -> nat {
        self.turns as nat
    }

    pub closed spec fn spec_tool_calls_spent(&self) -> nat {
        self.tool_calls_spent as nat
    }

    /// Neither bound is ever passed.
    pub open spec fn wf(&self) -> bool {
        self.spec_turns() <= HARNESS_MAX_TURNS && self.spec_tool_calls_spent() <= HARNESS_MAX_TOOL_CALLS
    }

    /// A task that has taken no turn and dispatched no call.
    pub fn new() -> (budget: TaskBudget)
        ensures
            budget.wf(),
            budget.spec_turns() == 0,
            budget.spec_tool_calls_spent() == 0,
    {
        TaskBudget { turns: 0, tool_calls_spent: 0 }
    }

    pub fn turns(&self) -> (turns: usize)
        ensures
            turns == self.spec_turns(),
    {
        self.turns
    }

    pub fn tool_calls_spent(&self) -> (spent: usize)
        ensures
            spent == self.spec_tool_calls_spent(),
    {
        self.tool_calls_spent
    }

    /// Takes one model turn before a request is posted, or refuses once all
    /// `HARNESS_MAX_TURNS` are taken.
    pub fn begin_turn(&mut self) -> (result: Result<(), String>)
        requires
            old(self).wf(),
        ensures
            final(self).wf(),
            final(self).spec_tool_calls_spent() == old(self).spec_tool_calls_spent(),
            old(self).spec_turns() < HARNESS_MAX_TURNS ==> result is Ok && final(self).spec_turns()
                == old(self).spec_turns() + 1,
            old(self).spec_turns() >= HARNESS_MAX_TURNS ==> (result matches Err(e) && e@
                == turn_bound_error()) && final(self).spec_turns() == old(self).spec_turns(),
    {
        if self.turns >= HARNESS_MAX_TURNS {
            return Err(
                "harness: stopped after the bound of 16 model turns (HARNESS_MAX_TURNS) without a final answer; the task did not finish".to_owned(),
            );
        }
        self.turns = self.turns + 1;
        Ok(())
    }

    /// What the loop does with the turn's outcome: the transport's or the
    /// codec's error stops it, text finishes it, and tool calls are
    /// dispatched unless they would pass `HARNESS_MAX_TOOL_CALLS`, which
    /// stops it with nothing dispatched.
    pub fn take_reply(&mut self, reply: Result<ModelReply, String>) -> (step: TurnStep)
        requires
            old(self).wf(),
        ensures
            final(self).wf(),
            final(self).spec_turns() == old(self).spec_turns(),
            (final(self).spec_tool_calls_spent(), step@) == step_of(
                old(self).spec_tool_calls_spent(),
                reply_view(reply),
            ),
    {
        match reply {
            Err(e) => TurnStep::Stopped(e),
            Ok(ModelReply::Text(text)) => TurnStep::Finished(text),
            Ok(ModelReply::ToolCalls(calls)) => {
                let more = calls.len();
                if more > HARNESS_MAX_TOOL_CALLS - self.tool_calls_spent {
                    let mut m = concat("harness: stopped after ", decimal(self.tool_calls_spent as u64).as_str());
                    push_str(&mut m, " tool calls: this turn's ");
                    push_str(&mut m, decimal(more as u64).as_str());
                    push_str(
                        &mut m,
                        " more would pass the bound of 64 (HARNESS_MAX_TOOL_CALLS); the task did not finish",
                    );
                    TurnStep::Stopped(m)
                } else {
                    self.tool_calls_spent = self.tool_calls_spent + more;
                    TurnStep::Dispatch(calls)
                }
            },
        }
    }
}

/// What the model is told of one tool call: its result, or its refusal as
/// an ordinary result, so a refusal neither ends the run nor buys a turn.
pub fn tool_result_content(result: Result<String, String>) -> (content: String)
    ensures
        content@ == match result {
            Ok(text) => text@,
            Err(refusal) => refusal@,
        },
{
    match result {
        Ok(text) => text,
        Err(refusal) => refusal,
    }
}

/// Along any run of turns, the budget never passes either bound: a loop
/// that begins each turn with `begin_turn` and hands its outcome to
/// `take_reply` posts at most `HARNESS_MAX_TURNS` requests and dispatches at
/// most `HARNESS_MAX_TOOL_CALLS` calls, and a turn either stops the run,
/// finishes it, or dispatches exactly the calls the model asked for.
pub proof fn law_turn_loop_stays_within_its_bounds(spent: nat, reply: Result<ModelReplyView, Seq<char>>)
    requires
        spent <= HARNESS_MAX_TOOL_CALLS,
    ensures
        step_of(spent, reply).0 <= HARNESS_MAX_TOOL_CALLS,
        step_of(spent, reply).0 >= spent,
        step_of(spent, reply).1 matches StepView::Dispatch(calls) ==> step_of(spent, reply).0 == spent
            + calls.len() && reply == Ok::<ModelReplyView, Seq<char>>(ModelReplyView::ToolCalls(calls)),
        step_of(spent, reply).1 is Finished <==> reply matches Ok(ModelReplyView::Text(_)),
{
}

// ---------------------------------------------------------------------------
// Tool calls
// ---------------------------------------------------------------------------

/// The work one tool call asks for, once its arguments passed the checks.
#[derive(Clone, Debug, PartialEq, Eq)]
pub enum ToolAction {
    /// `file` with `op` = `read`.
    Read { path: String },
    /// `file` with `op` = `write`.
    Write { path: String, contents: String },
    /// `exec`: the program and its arguments, run with no shell.
    Exec { program: String, args: Vec<String> },
}

pub enum ToolActionView {
    Read { path: Seq<char> },
    Write { path: Seq<char>, contents: Seq<char> },
    Exec { program: Seq<char>, args: Seq<Seq<char>> },
}

impl View for ToolAction {
    type V = ToolActionView;

    open spec fn view(&self) -> ToolActionView {
        match self {
            ToolAction::Read { path } => ToolActionView::Read { path: path@ },
            ToolAction::Write { path, contents } => ToolActionView::Write {
                path: path@,
                contents: contents@,
            },
            ToolAction::Exec { program, args } => ToolActionView::Exec {
                program: program@,
                args: args@.map_values(|a: String| a@),
            },
        }
    }
}

/// Every item is a JSON string.
pub open spec fn all_strings(items: Seq<JsonValue>) -> bool {
    forall|i: int| 0 <= i < items.len() ==> #[trigger] items[i] is Str
}

/// The texts of string items.
pub open spec fn string_items(items: Seq<JsonValue>) -> Seq<Seq<char>> {
    items.map_values(
        |v: JsonValue|
            match v {
                JsonValue::Str(s) => s@,
                _ => Seq::empty(),
            },
    )
}

/// How `{:?}` writes an optional operation name.
pub open spec fn op_text(op: Option<Seq<char>>) -> Seq<char> {
    match op {
        None => "None"@,
        Some(o) => "Some("@ + debug_text(o) + ")"@,
    }
}

pub open spec fn unknown_tool_error(name: Seq<char>) -> Seq<char> {
    name + ": refused: there is no such tool; this harness has exactly `file` and `exec`"@
}

/// What a call of tool `name` with `arguments` asks for, or the refusal the
/// model is told: `file` needs a `path` and an `op` of `read` or `write`
/// (with `contents`), `exec` a non-empty `argv` of strings, and any other
/// tool does not exist.
pub open spec fn tool_action_of(name: Seq<char>, arguments: JsonValue) -> Result<ToolActionView, Seq<char>> {
    if name == "file"@ {
        match json_str(json_get(arguments, "path"@)) {
            None => Err("file: refused: no `path` argument"@),
            Some(path) => {
                let op = json_str(json_get(arguments, "op"@));
                if op == Some("read"@) {
                    Ok(ToolActionView::Read { path })
                } else if op == Some("write"@) {
                    match json_str(json_get(arguments, "contents"@)) {
                        None => Err("file: refused: op=write needs a `contents` argument"@),
                        Some(contents) => Ok(ToolActionView::Write { path, contents }),
                    }
                } else {
                    Err("file: refused: op must be \"read\" or \"write\", got "@ + op_text(op))
                }
            },
        }
    } else if name == "exec"@ {
        match json_array(json_get(arguments, "argv"@)) {
            None => Err("exec: refused: no `argv` array argument"@),
            Some(items) => if !all_strings(items) {
                Err("exec: refused: every argv entry must be a string"@)
            } else if items.len() == 0 {
                Err("exec: refused: argv is empty"@)
            } else {
                let argv = string_items(items);
                Ok(ToolActionView::Exec { program: argv[0], args: argv.drop_first() })
            },
        }
    } else {
        Err(unknown_tool_error(name))
    }
}

/// The texts of `items`, or `None` when one of them is not a string.
fn argv_strings(items: &Vec<JsonValue>) -> (argv: Option<Vec<String>>)
    ensures
        all_strings(items@) ==> (argv matches Some(v) && v@.map_values(|a: String| a@) == string_items(
            items@,
        )),
        !all_strings(items@) ==> argv is None,
{
    let mut argv: Vec<String> = Vec::new();
    let mut i: usize = 0;
    while i < items.len()
        invariant
            i <= items@.len(),
            all_strings(items@.take(i as int)),
            argv@.map_values(|a: String| a@) == string_items(items@.take(i as int)),
        decreases items@.len() - i,
    {
        let ghost before = argv@.map_values(|a: String| a@);
        match &items[i] {
            JsonValue::Str(text) => {
                let copy = text.clone();
                let ghost t = text@;
                assert(copy@ == t);
                argv.push(copy);
                proof {
                    assert(items@.take(i + 1) =~= items@.take(i as int).push(items@[i as int]));
                    assert(string_items(items@.take(i + 1)) =~= string_items(items@.take(i as int)).push(t));
                    assert(argv@.map_values(|a: String| a@) =~= before.push(t));
                    assert(all_strings(items@.take(i + 1)));
                }
            },
            _ => {
                return None;
            },
        }
        i = i + 1;
    }
    assert(items@.take(i as int) =~= items@);
    Some(argv)
}

/// Checks one tool call's arguments and says what it asks for, or the
/// refusal the model is told: a refusal is a result, not a reason to stop.
pub fn plan_tool_call(name: &str, arguments: &JsonValue) -> (result: Result<ToolAction, String>)
    ensures
        match tool_action_of(name@, *arguments) {
            Ok(v) => result matches Ok(a) && a@ == v,
            Err(m) => result matches Err(e) && e@ == m,
        },
{
    if str_eq(name, "file") {
        let path = match as_str(arguments.get("path")) {
            Some(p) => p,
            None => return Err("file: refused: no `path` argument".to_owned()),
        };
        let op = as_str(arguments.get("op"));
        let is_read = match op {
            Some(o) => str_eq(o, "read"),
            None => false,
        };
        let is_write = match op {
            Some(o) => str_eq(o, "write"),
            None => false,
        };
        if is_read {
            Ok(ToolAction::Read { path: path.to_owned() })
        } else if is_write {
            match as_str(arguments.get("contents")) {
                Some(c) => Ok(ToolAction::Write { path: path.to_owned(), contents: c.to_owned() }),
                None => Err("file: refused: op=write needs a `contents` argument".to_owned()),
            }
        } else {
            let mut m = "file: refused: op must be \"read\" or \"write\", got ".to_owned();
            match op {
                None => push_str(&mut m, "None"),
                Some(o) => {
                    push_str(&mut m, "Some(");
                    push_str(&mut m, debug_quote(o).as_str());
                    push_str(&mut m, ")");
                },
            }
            Err(m)
        }
    } else if str_eq(name, "exec") {
        let items = match as_array(arguments.get("argv")) {
            Some(items) => items,
            None => return Err("exec: refused: no `argv` array argument".to_owned()),
        };
        let argv = match argv_strings(items) {
            Some(argv) => argv,
            None => return Err("exec: refused: every argv entry must be a string".to_owned()),
        };
        if argv.len() == 0 {
            return Err("exec: refused: argv is empty".to_owned());
        }
        let ghost views = argv@.map_values(|a: String| a@);
        let mut args = argv;
        let program = args.remove(0);
        proof {
            assert(args@.map_values(|a: String| a@) =~= views.drop_first());
        }
        Ok(ToolAction::Exec { program, args })
    } else {
        Err(concat(name, ": refused: there is no such tool; this harness has exactly `file` and `exec`"))
    }
}

/// What the model is told when a call's arguments are not JSON at all.
pub fn arguments_refusal(name: &str, error: &str) -> (message: String)
    ensures
        message@ == name@ + ": refused: the arguments are not a JSON object: "@ + error@,
{
    let mut m = concat(name, ": refused: the arguments are not a JSON object: ");
    push_str(&mut m, error);
    m
}

/// `v` is the JSON string `s`.
pub open spec fn is_text(v: JsonValue, s: Seq<char>) -> bool {
    v matches JsonValue::Str(x) && x@ == s
}

/// `v` is `{"arguments": .., "name": ..}` of `call`.
pub open spec fn is_function_object(v: JsonValue, call: WireToolCallView) -> bool {
    match v {
        JsonValue::Object(ms) => ms@.len() == 2 && ms@[0].0@ == "arguments"@ && is_text(
            ms@[0].1,
            call.arguments,
        ) && ms@[1].0@ == "name"@ && is_text(ms@[1].1, call.name),
        _ => false,
    }
}

/// `v` is `{"function": .., "id": .., "type": "function"}` of `call`.
pub open spec fn is_call_object(v: JsonValue, call: WireToolCallView) -> bool {
    match v {
        JsonValue::Object(ms) => ms@.len() == 3 && ms@[0].0@ == "function"@ && is_function_object(
            ms@[0].1,
            call,
        ) && ms@[1].0@ == "id"@ && is_text(ms@[1].1, call.id) && ms@[2].0@ == "type"@ && is_text(
            ms@[2].1,
            "function"@,
        ),
        _ => false,
    }
}

/// `v` echoes the assistant turn that asked for `calls`:
/// `{"content": null, "role": "assistant", "tool_calls": [..]}`.
pub open spec fn is_assistant_turn(v: JsonValue, calls: Seq<WireToolCallView>) -> bool {
    match v {
        JsonValue::Object(ms) => ms@.len() == 3 && ms@[0].0@ == "content"@ && ms@[0].1 is Null
            && ms@[1].0@ == "role"@ && is_text(ms@[1].1, "assistant"@) && ms@[2].0@ == "tool_calls"@
            && match ms@[2].1 {
            JsonValue::Array(items) => items@.len() == calls.len() && forall|i: int|
                0 <= i < calls.len() ==> is_call_object(#[trigger] items@[i], calls[i]),
            _ => false,
        },
        _ => false,
    }
}

/// `v` answers the call `id` with `content`:
/// `{"content": .., "role": "tool", "tool_call_id": ..}`.
pub open spec fn is_tool_result(v: JsonValue, id: Seq<char>, content: Seq<char>) -> bool {
    match v {
        JsonValue::Object(ms) => ms@.len() == 3 && ms@[0].0@ == "content"@ && is_text(ms@[0].1, content)
            && ms@[1].0@ == "role"@ && is_text(ms@[1].1, "tool"@) && ms@[2].0@ == "tool_call_id"@
            && is_text(ms@[2].1, id),
        _ => false,
    }
}

fn text_value(s: &String) -> (v: JsonValue)
    ensures
        is_text(v, s@),
{
    JsonValue::Str(s.clone())
}

fn call_object(call: &WireToolCall) -> (v: JsonValue)
    ensures
        is_call_object(v, call@),
{
    let function = JsonValue::Object(
        vec![
            ("arguments".to_owned(), text_value(&call.arguments)),
            ("name".to_owned(), text_value(&call.name)),
        ],
    );
    JsonValue::Object(
        vec![
            ("function".to_owned(), function),
            ("id".to_owned(), text_value(&call.id)),
            ("type".to_owned(), JsonValue::Str("function".to_owned())),
        ],
    )
}

/// The messages one tool turn adds to the history: the assistant turn
/// echoed with every call and its id, then one tool message per call with
/// its result, keyed by the call's id, in the order the calls came.
pub fn tool_turn_messages(calls: &Vec<WireToolCall>, results: &Vec<String>) -> (messages: Vec<JsonValue>)
    requires
        calls@.len() == results@.len(),
    ensures
        messages@.len() == calls@.len() + 1,
        is_assistant_turn(messages@[0], calls@.map_values(|c: WireToolCall| c@)),
        forall|i: int|
            0 <= i < calls@.len() ==> is_tool_result(
                #[trigger] messages@[i + 1],
                calls@[i].id@,
                results@[i]@,
            ),
{
    let ghost views = calls@.map_values(|c: WireToolCall| c@);
    let mut items: Vec<JsonValue> = Vec::new();
    let mut i: usize = 0;
    while i < calls.len()
        invariant
            i <= calls@.len(),
            views == calls@.map_values(|c: WireToolCall| c@),
            items@.len() == i,
            forall|j: int| 0 <= j < i ==> is_call_object(#[trigger] items@[j], views[j]),
        decreases calls@.len() - i,
    {
        let item = call_object(&calls[i]);
        items.push(item);
        i = i + 1;
    }
    let turn = JsonValue::Object(
        vec![
            ("content".to_owned(), JsonValue::Null),
            ("role".to_owned(), JsonValue::Str("assistant".to_owned())),
            ("tool_calls".to_owned(), JsonValue::Array(items)),
        ],
    );
    let mut messages: Vec<JsonValue> = Vec::new();
    messages.push(turn);
    let mut k: usize = 0;
    while k < calls.len()
        invariant
            k <= calls@.len(),
            calls@.len() == results@.len(),
            messages@.len() == k + 1,
            is_assistant_turn(messages@[0], views),
            forall|j: int| 0 <= j < k ==> is_tool_result(
                #[trigger] messages@[j + 1],
                calls@[j].id@,
                results@[j]@,
            ),
        decreases calls@.len() - k,
    {
        let message = JsonValue::Object(
            vec![
                ("content".to_owned(), text_value(&results[k])),
                ("role".to_owned(), JsonValue::Str("tool".to_owned())),
                ("tool_call_id".to_owned(), text_value(&calls[k].id)),
            ],
        );
        messages.push(message);
        k = k + 1;
    }
    messages
}

} // verus!
