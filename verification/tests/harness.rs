use minicon::harness_wire::{arguments_refusal, plan_tool_call, tool_turn_messages, ToolAction};
use minicon::harness_wire::{tool_result_content, TaskBudget, TurnStep};
use minicon::harness_wire::{ModelReply, WireToolCall};
use minicon::json::JsonValue;
use minicon::harness::{missing_key_error, parse_harness, Backend};
use minicon::harness_wire::{interpret_http_response, HttpResponse};

fn args(values: &[&str]) -> Vec<String> {
    values.iter().map(|value| (*value).to_owned()).collect()
}

#[test]
fn root_and_task_are_required_with_no_implicit_default() {
    let error = parse_harness(&args(&["harness", "--task", "x"])).unwrap_err();
    assert!(error.contains("--root"), "{error}");
    let error = parse_harness(&args(&["harness", "--root", "/tmp"])).unwrap_err();
    assert!(error.contains("--task"), "{error}");
}

#[test]
fn allow_cmd_repeats_and_backend_defaults_to_deepseek() {
    let request = parse_harness(&args(&[
        "harness",
        "--root",
        "/tmp/work",
        "--task",
        "do a thing",
        "--allow-cmd",
        "ls",
        "--allow-cmd",
        "cat",
    ]))
    .expect("valid invocation");
    assert_eq!(request.allow_cmd, vec!["ls".to_owned(), "cat".to_owned()]);
    assert_eq!(request.backend, Backend::DeepSeek);
    assert_eq!(request.backend.key_var(), "MINICON_DEEPSEEK_API_KEY");
}

#[test]
fn an_unknown_backend_is_a_bounded_error() {
    let error = parse_harness(&args(&[
        "harness", "--root", "/tmp", "--task", "x", "--backend", "gpt",
    ]))
    .unwrap_err();
    assert!(error.contains("not one of"), "{error}");
}

#[test]
fn the_opencode_backend_is_selected_by_name() {
    let request = parse_harness(&args(&[
        "harness", "--backend", "opencode-go", "--root", "/r", "--task", "t",
    ]))
    .unwrap();
    assert_eq!(request.backend, Backend::OpencodeGo);
    assert_eq!(request.backend.flag_name(), "opencode-go");
    assert_eq!(request.backend.key_var(), "MINICON_OPENCODE_API_KEY");
    assert!(request.allow_cmd.is_empty());
}

#[test]
fn a_flag_without_its_value_is_named() {
    assert_eq!(
        parse_harness(&args(&["harness", "--root"])),
        Err("--root requires a value".to_owned())
    );
    let error = parse_harness(&args(&["harness", "--nope"])).unwrap_err();
    assert!(error.starts_with("unexpected argument \"--nope\"\nusage: minicon harness"), "{error}");
    assert!(parse_harness(&args(&["run"])).unwrap_err().starts_with("usage:"));
}

#[test]
fn a_missing_key_names_its_variable() {
    assert_eq!(
        missing_key_error(Backend::DeepSeek),
        "harness: MINICON_DEEPSEEK_API_KEY is unset or empty; --backend deepseek reads its key from that environment variable only"
    );
}

fn delivered(status: u16, body: &str, truncated: bool) -> HttpResponse {
    HttpResponse { status, body: body.as_bytes().to_vec(), truncated }
}

#[test]
fn a_non_2xx_response_becomes_an_error_carrying_the_status_and_the_body() {
    let error = interpret_http_response(&delivered(
        401,
        "{\"error\":{\"message\":\"Authentication Fails\"}}",
        false,
    ))
    .expect_err("a non-2xx status is an error here");
    assert!(error.contains("HTTP 401"), "{error}");
    assert!(error.contains("Authentication Fails"), "{error}");

    let error = interpret_http_response(&delivered(429, "{\"error\":\"rate", true))
        .expect_err("a non-2xx status is an error here");
    assert!(error.contains("HTTP 429") && error.contains("truncated"), "{error}");
    assert!(error.contains("rate"), "{error}");
}

#[test]
fn a_truncated_2xx_body_is_refused_rather_than_parsed_as_complete() {
    let error = interpret_http_response(&delivered(200, "{\"choices\":[{\"mess", true))
        .expect_err("a truncated body must not be handed to the codec");
    assert!(
        error.contains("HARNESS_HTTP_MAX_RESPONSE_BYTES") && error.contains("truncated"),
        "{error}"
    );
    assert_eq!(
        interpret_http_response(&delivered(200, "{\"ok\":true}", false)).expect("a 2xx body"),
        "{\"ok\":true}"
    );
}

#[test]
fn invalid_utf8_in_a_body_is_replaced_not_refused() {
    let response = HttpResponse { status: 204, body: vec![b'o', 0xff, b'k'], truncated: false };
    assert_eq!(interpret_http_response(&response), Ok("o\u{fffd}k".to_owned()));
}

fn reply_of(text: &str) -> Result<minicon::harness_wire::ModelReply, String> {
    fn json_of(value: &serde_json::Value) -> JsonValue {
            match value {
            serde_json::Value::Null => JsonValue::Null,
            serde_json::Value::Bool(b) => JsonValue::Bool(*b),
            serde_json::Value::Number(n) => JsonValue::Number(n.as_u64()),
            serde_json::Value::String(s) => JsonValue::Str(s.clone()),
            serde_json::Value::Array(items) => JsonValue::Array(items.iter().map(json_of).collect()),
            serde_json::Value::Object(members) => JsonValue::Object(
                members.iter().map(|(key, item)| (key.clone(), json_of(item))).collect(),
            ),
        }
    }
    let value: serde_json::Value = serde_json::from_str(text).expect("JSON");
    minicon::harness_wire::deepseek_parse_reply(&json_of(&value))
}

#[test]
fn a_reply_with_text_is_the_final_answer() {
    assert_eq!(
        reply_of(r#"{"choices":[{"message":{"role":"assistant","content":"done"}}]}"#),
        Ok(ModelReply::Text("done".to_owned()))
    );
}

#[test]
fn tool_calls_win_over_narrating_text() {
    let reply = reply_of(
        r#"{"choices":[{"message":{"content":"let me look","tool_calls":[{"id":"call-1","type":"function","function":{"name":"file","arguments":"{\"op\":\"read\"}"}},{"id":"call-2","function":{"name":"exec"}}]}}]}"#,
    );
    assert_eq!(
        reply,
        Ok(ModelReply::ToolCalls(vec![
            WireToolCall {
                id: "call-1".to_owned(),
                name: "file".to_owned(),
                arguments: "{\"op\":\"read\"}".to_owned(),
            },
            WireToolCall { id: "call-2".to_owned(), name: "exec".to_owned(), arguments: "{}".to_owned() },
        ]))
    );
}

#[test]
fn an_api_refusal_is_surfaced_verbatim() {
    assert_eq!(
        reply_of(r#"{"error":{"message":"Authentication Fails"}}"#),
        Err("harness: the backend refused the request: Authentication Fails".to_owned())
    );
}

#[test]
fn malformed_replies_name_what_is_missing() {
    assert_eq!(
        reply_of(r#"{"choices":[]}"#),
        Err("harness: the reply has no choices[0].message".to_owned())
    );
    assert_eq!(
        reply_of(r#"{"choices":[{"message":{"tool_calls":[]}}]}"#),
        Err("harness: the reply has neither tool calls nor text content".to_owned())
    );
    assert_eq!(
        reply_of(r#"{"choices":[{"message":{"tool_calls":[{"id":"x"}]}}]}"#),
        Err("harness: a tool call has no function object".to_owned())
    );
    assert_eq!(
        reply_of(r#"{"choices":[{"message":{"tool_calls":[{"function":{"name":"file"}}]}}]}"#),
        Err("harness: tool call \"file\" has no id".to_owned())
    );
    assert_eq!(
        reply_of(r#"{"choices":[{"message":{"tool_calls":[{"id":"x","function":{}}]}}]}"#),
        Err("harness: a tool call has no function name".to_owned())
    );
}

fn calls(count: usize) -> Vec<WireToolCall> {
    (0..count)
        .map(|index| WireToolCall {
            id: format!("call_{index}"),
            name: "file".to_owned(),
            arguments: "{}".to_owned(),
        })
        .collect()
}

#[test]
fn the_turn_budget_allows_exactly_the_bound_of_model_turns() {
    let mut budget = TaskBudget::new();
    for _ in 0..16 {
        assert_eq!(budget.begin_turn(), Ok(()));
        assert!(matches!(
            budget.take_reply(Ok(ModelReply::ToolCalls(calls(1)))),
            TurnStep::Dispatch(_)
        ));
    }
    assert_eq!(budget.turns(), 16);
    let error = budget.begin_turn().unwrap_err();
    assert_eq!(
        error,
        "harness: stopped after the bound of 16 model turns (HARNESS_MAX_TURNS) without a final answer; the task did not finish"
    );
    assert_eq!(budget.turns(), 16);
}

#[test]
fn a_text_reply_finishes_and_an_error_stops_the_run() {
    let mut budget = TaskBudget::new();
    budget.begin_turn().unwrap();
    match budget.take_reply(Ok(ModelReply::Text("done".to_owned()))) {
        TurnStep::Finished(text) => assert_eq!(text, "done"),
        _ => panic!("text must finish the task"),
    }
    match budget.take_reply(Err("HTTP 401: bad key".to_owned())) {
        TurnStep::Stopped(error) => assert_eq!(error, "HTTP 401: bad key"),
        _ => panic!("a transport error must stop the task"),
    }
    assert_eq!(budget.tool_calls_spent(), 0);
}

#[test]
fn tool_calls_past_the_bound_stop_the_run_with_nothing_dispatched() {
    let mut budget = TaskBudget::new();
    match budget.take_reply(Ok(ModelReply::ToolCalls(calls(60)))) {
        TurnStep::Dispatch(dispatched) => assert_eq!(dispatched.len(), 60),
        _ => panic!("within the bound the calls are dispatched"),
    }
    match budget.take_reply(Ok(ModelReply::ToolCalls(calls(5)))) {
        TurnStep::Stopped(error) => assert_eq!(
            error,
            "harness: stopped after 60 tool calls: this turn's 5 more would pass the bound of 64 (HARNESS_MAX_TOOL_CALLS); the task did not finish"
        ),
        _ => panic!("past the bound the run stops"),
    }
    assert_eq!(budget.tool_calls_spent(), 60);
    assert!(matches!(
        budget.take_reply(Ok(ModelReply::ToolCalls(calls(4)))),
        TurnStep::Dispatch(_)
    ));
    assert_eq!(budget.tool_calls_spent(), 64);
}

#[test]
fn a_tool_refusal_is_fed_back_as_a_result() {
    assert_eq!(tool_result_content(Ok("file: wrote 3 bytes to a".to_owned())), "file: wrote 3 bytes to a");
    assert_eq!(
        tool_result_content(Err("file: refused: no `path` argument".to_owned())),
        "file: refused: no `path` argument"
    );
}

#[test]
fn the_backend_spelling_reads_back_as_the_backend() {
    for backend in [Backend::DeepSeek, Backend::OpencodeGo] {
        let request = parse_harness(&args(&[
            "harness", "--root", "/r", "--task", "t", "--backend", backend.flag_name(),
        ]))
        .unwrap();
        assert_eq!(request.backend, backend);
    }
}

fn object(members: Vec<(&str, JsonValue)>) -> JsonValue {
    JsonValue::Object(members.into_iter().map(|(k, v)| (k.to_owned(), v)).collect())
}

fn text(s: &str) -> JsonValue {
    JsonValue::Str(s.to_owned())
}

#[test]
fn file_calls_are_planned_or_refused_by_name() {
    assert_eq!(
        plan_tool_call("file", &object(vec![("path", text("a.txt")), ("op", text("read"))])),
        Ok(ToolAction::Read { path: "a.txt".to_owned() })
    );
    assert_eq!(
        plan_tool_call(
            "file",
            &object(vec![("path", text("a.txt")), ("op", text("write")), ("contents", text("hi"))])
        ),
        Ok(ToolAction::Write { path: "a.txt".to_owned(), contents: "hi".to_owned() })
    );
    assert_eq!(
        plan_tool_call("file", &object(vec![("op", text("read"))])),
        Err("file: refused: no `path` argument".to_owned())
    );
    assert_eq!(
        plan_tool_call("file", &object(vec![("path", text("a")), ("op", text("write"))])),
        Err("file: refused: op=write needs a `contents` argument".to_owned())
    );
    assert_eq!(
        plan_tool_call("file", &object(vec![("path", text("a")), ("op", text("append"))])),
        Err("file: refused: op must be \"read\" or \"write\", got Some(\"append\")".to_owned())
    );
    assert_eq!(
        plan_tool_call("file", &object(vec![("path", text("a"))])),
        Err("file: refused: op must be \"read\" or \"write\", got None".to_owned())
    );
}

#[test]
fn exec_calls_need_a_non_empty_argv_of_strings() {
    assert_eq!(
        plan_tool_call("exec", &object(vec![("argv", JsonValue::Array(vec![text("ls"), text("-l")]))])),
        Ok(ToolAction::Exec { program: "ls".to_owned(), args: vec!["-l".to_owned()] })
    );
    assert_eq!(
        plan_tool_call("exec", &object(vec![])),
        Err("exec: refused: no `argv` array argument".to_owned())
    );
    assert_eq!(
        plan_tool_call("exec", &object(vec![("argv", JsonValue::Array(vec![text("ls"), JsonValue::Bool(true)]))])),
        Err("exec: refused: every argv entry must be a string".to_owned())
    );
    assert_eq!(
        plan_tool_call("exec", &object(vec![("argv", JsonValue::Array(vec![]))])),
        Err("exec: refused: argv is empty".to_owned())
    );
    assert_eq!(
        plan_tool_call("shell", &object(vec![])),
        Err("shell: refused: there is no such tool; this harness has exactly `file` and `exec`".to_owned())
    );
    assert_eq!(
        arguments_refusal("exec", "EOF while parsing"),
        "exec: refused: the arguments are not a JSON object: EOF while parsing"
    );
}

#[test]
fn a_tool_turn_echoes_the_calls_then_answers_each_by_id() {
    let calls = vec![WireToolCall {
        id: "call_1".to_owned(),
        name: "file".to_owned(),
        arguments: "{}".to_owned(),
    }];
    let messages = tool_turn_messages(&calls, &vec!["done".to_owned()]);
    assert_eq!(messages.len(), 2);
    let function = object(vec![("arguments", text("{}")), ("name", text("file"))]);
    let call = object(vec![("function", function), ("id", text("call_1")), ("type", text("function"))]);
    assert_eq!(
        messages[0],
        object(vec![
            ("content", JsonValue::Null),
            ("role", text("assistant")),
            ("tool_calls", JsonValue::Array(vec![call])),
        ])
    );
    assert_eq!(
        messages[1],
        object(vec![("content", text("done")), ("role", text("tool")), ("tool_call_id", text("call_1"))])
    );
}
