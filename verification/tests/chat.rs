//! The Chat Completions format: the request that goes upstream, what comes back
//! whole or chunk by chunk, and requests that come in.

use ai_api_bridge::canonical::CanonicalEvent::{
    Completed, Created, Error, TextDelta, ToolCallArgsDelta, ToolCallDone, ToolCallStart, Usage,
};
use ai_api_bridge::canonical::{
    CanonicalRequest, Message, ReasoningEffort, ToolCall, ToolChoice, ToolDef,
};
use ai_api_bridge::config::{ProbeSource, Provider, WireName};
use ai_api_bridge::dict::Dict;
use ai_api_bridge::error::BridgeError;
use ai_api_bridge::json::JsonValue;
use ai_api_bridge::wire::chat::{
    build_request, completion_to_events, parse_chat_tools, parse_request, ChatStreamParser,
};

fn json(text: &str) -> JsonValue {
    JsonValue::parse(text).unwrap()
}

/// The value at a path such as `content.0.text`.
fn at<'a>(v: &'a JsonValue, path: &str) -> Option<&'a JsonValue> {
    let mut here = v;
    for step in path.split('.') {
        here = match step.parse::<usize>() {
            Ok(i) => here.as_array()?.get(i)?,
            Err(_) => here.get(step)?,
        };
    }
    Some(here)
}

fn str_at<'a>(v: &'a JsonValue, path: &str) -> Option<&'a str> {
    at(v, path).and_then(|x| x.as_str())
}

fn u64_at(v: &JsonValue, path: &str) -> Option<u64> {
    at(v, path).and_then(|x| x.as_u64())
}

fn provider() -> Provider {
    Provider {
        wire: WireName::OpenaiChat,
        base_url: "https://opencode.ai/zen/v1".into(),
        api_key: Some("k".into()),
        model_prefix: Some("opencode/".into()),
        max_tokens_field: "max_tokens".into(),
        extra_headers: Dict::new(),
        probe_script: None,
        probe_script_text: None,
        probe_source: ProbeSource::Path,
        probe_enabled: None,
        probe_interval_secs: None,
        quota_min: None,
        cost_windows: Vec::new(),
        model_prices: Dict::new(),
        usage: Vec::new(),
        models: Vec::new(),
    }
}

fn call(call_id: &str, name: &str, arguments: &str) -> ToolCall {
    ToolCall { call_id: call_id.into(), name: name.into(), arguments: arguments.into() }
}

fn tool_result(call_id: &str, output: &str) -> Message {
    Message::Tool { call_id: call_id.into(), output: output.into() }
}

fn tool(name: &str, parameters: &str) -> ToolDef {
    ToolDef { name: name.into(), description: None, parameters: json(parameters) }
}

fn request(messages: Vec<Message>, tools: Vec<ToolDef>) -> CanonicalRequest {
    CanonicalRequest {
        model: "m".into(),
        system: None,
        messages,
        tools,
        tool_choice: ToolChoice::Auto,
        temperature: None,
        top_p: None,
        max_output_tokens: None,
        reasoning_effort: None,
        parallel_tool_calls: None,
        stream: false,
    }
}

#[test]
fn builds_messages_tools_and_stream_options() {
    let req = CanonicalRequest {
        model: "gpt-5.5".into(),
        system: Some("sys".into()),
        messages: vec![
            Message::User("hi".into()),
            Message::Assistant {
                text: None,
                reasoning_content: None,
                tool_calls: vec![call("c1", "f", "{}")],
            },
            tool_result("c1", "ok"),
        ],
        tools: vec![ToolDef {
            name: "f".into(),
            description: Some("d".into()),
            parameters: json(r#"{"type":"object"}"#),
        }],
        tool_choice: ToolChoice::Required,
        temperature: Some(json("0.5")),
        top_p: None,
        max_output_tokens: Some(100),
        reasoning_effort: Some(ReasoningEffort::High),
        parallel_tool_calls: Some(true),
        stream: true,
    };
    let body = build_request(&req, "opencode/gpt-5.5", &provider());
    assert_eq!(str_at(&body, "model"), Some("opencode/gpt-5.5"));
    assert_eq!(str_at(&body, "messages.0.role"), Some("system"));
    assert_eq!(str_at(&body, "messages.1.role"), Some("user"));
    assert_eq!(str_at(&body, "messages.2.tool_calls.0.function.name"), Some("f"));
    assert_eq!(str_at(&body, "messages.3.role"), Some("tool"));
    assert_eq!(str_at(&body, "messages.3.tool_call_id"), Some("c1"));
    assert_eq!(str_at(&body, "tools.0.function.name"), Some("f"));
    assert_eq!(str_at(&body, "tool_choice"), Some("required"));
    assert_eq!(u64_at(&body, "max_tokens"), Some(100));
    assert_eq!(str_at(&body, "reasoning_effort"), Some("high"));
    assert_eq!(at(&body, "stream"), Some(&JsonValue::Bool(true)));
    assert_eq!(at(&body, "stream_options.include_usage"), Some(&JsonValue::Bool(true)));
    assert_eq!(at(&body, "temperature"), Some(&json("0.5")));
    assert_eq!(at(&body, "parallel_tool_calls"), Some(&JsonValue::Bool(true)));
    assert_eq!(at(&body, "top_p"), None);
}

#[test]
fn sanitizes_invalid_tool_parameter_schemas() {
    let req = request(
        vec![Message::User("x".into())],
        vec![
            // A null type beside properties becomes "object".
            tool("with_props", r#"{"type": null, "properties": {"path": {"type": "string"}}}"#),
            // No schema at all becomes the smallest object schema.
            tool("no_args", "null"),
            // A null type further down, without a hint of a shape, goes away.
            tool(
                "nested",
                r#"{"type": "object", "properties": {"x": {"type": null, "description": "d"}}}"#,
            ),
            // An empty schema gets a type.
            tool("empty", "{}"),
        ],
    );
    let body = build_request(&req, "m", &provider());
    let tools = at(&body, "tools").unwrap();

    assert_eq!(str_at(tools, "0.function.parameters.type"), Some("object"));
    assert_eq!(str_at(tools, "0.function.parameters.properties.path.type"), Some("string"));

    assert_eq!(str_at(tools, "1.function.parameters.type"), Some("object"));
    assert!(at(tools, "1.function.parameters.properties").unwrap().as_object().is_some());

    let x = at(tools, "2.function.parameters.properties.x").unwrap();
    assert!(x.get("type").is_none());
    assert_eq!(str_at(x, "description"), Some("d"));

    assert_eq!(str_at(tools, "3.function.parameters.type"), Some("object"));
}

#[test]
fn normalizes_orphaned_tool_messages() {
    let req = request(
        vec![
            Message::User("do it".into()),
            // Nothing before it calls for it.
            tool_result("c1", "result"),
            Message::User("next".into()),
        ],
        vec![],
    );
    let body = build_request(&req, "m", &provider());
    let msgs = body.get_array("messages").unwrap();
    assert_eq!(msgs.len(), 4, "expected 4 messages, got {msgs:?}");
    assert_eq!(str_at(&msgs[0], "role"), Some("user"));
    assert_eq!(str_at(&msgs[1], "role"), Some("assistant"));
    assert!(msgs[1].get("content").unwrap().is_null());
    assert_eq!(str_at(&msgs[1], "reasoning_content"), Some(""));
    let tc = at(&msgs[1], "tool_calls.0").unwrap();
    assert_eq!(str_at(tc, "id"), Some("c1"));
    assert_eq!(str_at(tc, "function.name"), Some("_"));
    assert_eq!(str_at(tc, "function.arguments"), Some("{}"));
    assert_eq!(str_at(&msgs[2], "role"), Some("tool"));
    assert_eq!(str_at(&msgs[2], "tool_call_id"), Some("c1"));
    assert_eq!(str_at(&msgs[3], "role"), Some("user"));
    assert_eq!(str_at(&msgs[3], "content"), Some("next"));
}

#[test]
fn leaves_paired_tool_messages_unchanged() {
    let req = request(
        vec![
            Message::User("do it".into()),
            Message::Assistant {
                text: None,
                reasoning_content: None,
                tool_calls: vec![call("c1", "exec", "{}")],
            },
            tool_result("c1", "result"),
        ],
        vec![],
    );
    let body = build_request(&req, "m", &provider());
    let msgs = body.get_array("messages").unwrap();
    assert_eq!(msgs.len(), 3, "expected 3 messages, got {msgs:?}");
    assert_eq!(str_at(&msgs[1], "role"), Some("assistant"));
    assert_eq!(str_at(&msgs[1], "tool_calls.0.function.name"), Some("exec"));
    assert_eq!(str_at(&msgs[2], "role"), Some("tool"));
}

#[test]
fn finds_parent_across_parallel_tool_results() {
    // The message before the second result is the first result, not the parent.
    let req = request(
        vec![
            Message::User("do two things".into()),
            Message::Assistant {
                text: None,
                reasoning_content: Some("need parallel calls".into()),
                tool_calls: vec![
                    call("c1", "read", r#"{"path":"a"}"#),
                    call("c2", "read", r#"{"path":"b"}"#),
                ],
            },
            tool_result("c1", "content a"),
            tool_result("c2", "content b"),
            Message::User("summarize".into()),
        ],
        vec![],
    );
    let body = build_request(&req, "m", &provider());
    let msgs = body.get_array("messages").unwrap();
    assert_eq!(msgs.len(), 5, "expected 5 messages, got {msgs:?}");
    assert_eq!(str_at(&msgs[0], "role"), Some("user"));
    assert_eq!(str_at(&msgs[1], "role"), Some("assistant"));
    let tcs = msgs[1].get_array("tool_calls").unwrap();
    assert_eq!(tcs.len(), 2);
    assert_eq!(str_at(&tcs[0], "id"), Some("c1"));
    assert_eq!(str_at(&tcs[1], "id"), Some("c2"));
    assert_eq!(str_at(&msgs[1], "reasoning_content"), Some("need parallel calls"));
    assert_eq!(str_at(&msgs[2], "role"), Some("tool"));
    assert_eq!(str_at(&msgs[2], "tool_call_id"), Some("c1"));
    assert_eq!(str_at(&msgs[3], "role"), Some("tool"));
    assert_eq!(str_at(&msgs[3], "tool_call_id"), Some("c2"));
    assert_eq!(str_at(&msgs[4], "role"), Some("user"));
}

#[test]
fn honors_max_tokens_field_name() {
    let mut p = provider();
    p.max_tokens_field = "max_completion_tokens".into();
    let mut req = request(vec![Message::User("x".into())], vec![]);
    req.max_output_tokens = Some(42);
    let body = build_request(&req, "m", &p);
    assert_eq!(u64_at(&body, "max_completion_tokens"), Some(42));
    assert!(body.get("stream").is_none());
}

#[test]
fn every_tool_choice_has_its_own_form() {
    let mut req = request(vec![Message::User("x".into())], vec![tool("f", "{}")]);
    req.tool_choice = ToolChoice::Never;
    let body = build_request(&req, "m", &provider());
    assert_eq!(str_at(&body, "tool_choice"), Some("none"));
    req.tool_choice = ToolChoice::Function("f".into());
    let body = build_request(&req, "m", &provider());
    assert_eq!(str_at(&body, "tool_choice.function.name"), Some("f"));
}

#[test]
fn stream_parser_emits_text_then_usage() {
    let mut p = ChatStreamParser::new("resp_x".into());
    let mut evs = p.on_chunk(&json(
        r#"{"model":"opencode/gpt-5.5", "choices":[{"delta":{"content":"Hel"}}]}"#,
    ));
    evs.extend(p.on_chunk(&json(r#"{"choices":[{"delta":{"content":"lo"}}]}"#)));
    evs.extend(p.on_chunk(&json(r#"{"choices":[{"delta":{},"finish_reason":"stop"}]}"#)));
    evs.extend(p.on_chunk(&json(
        r#"{"choices":[],
            "usage":{"prompt_tokens":3,"completion_tokens":2,"total_tokens":5,
                     "prompt_tokens_details":{"cached_tokens":1},
                     "completion_tokens_details":{"reasoning_tokens":1}}}"#,
    )));
    assert_eq!(
        evs[0],
        Created { response_id: "resp_x".into(), model: "opencode/gpt-5.5".into() }
    );
    assert_eq!(evs[1], TextDelta { text: "Hel".into() });
    assert_eq!(evs[2], TextDelta { text: "lo".into() });
    assert_eq!(
        evs.last().unwrap(),
        &Usage {
            input_tokens: 3,
            output_tokens: 2,
            total_tokens: 5,
            cached_input_tokens: 1,
            reasoning_tokens: 1
        }
    );
}

#[test]
fn stream_parser_handles_tool_call_fragments() {
    let mut p = ChatStreamParser::new("r".into());
    let mut evs = p.on_chunk(&json(
        r#"{"model":"m","choices":[{"delta":{"tool_calls":[
            {"index":0,"id":"call_1","function":{"name":"get","arguments":"{\"a\""}}]}}]}"#,
    ));
    evs.extend(p.on_chunk(&json(
        r#"{"choices":[{"delta":{"tool_calls":[
            {"index":0,"function":{"arguments":":1}"}}]}}]}"#,
    )));
    evs.extend(p.on_chunk(&json(r#"{"choices":[{"delta":{},"finish_reason":"tool_calls"}]}"#)));
    assert!(evs.contains(&ToolCallStart {
        index: 0,
        call_id: "call_1".into(),
        name: "get".into()
    }));
    assert!(evs.contains(&ToolCallArgsDelta { index: 0, delta: "{\"a\"".into() }));
    assert!(evs.contains(&ToolCallArgsDelta { index: 0, delta: ":1}".into() }));
    assert!(evs.contains(&ToolCallDone { index: 0 }));
}

#[test]
fn stream_parser_surfaces_inband_error() {
    let mut p = ChatStreamParser::new("r".into());
    let evs = p.on_chunk(&json(r#"{"error":{"message":"rate limited","code":429}}"#));
    assert_eq!(evs, vec![Error { message: "rate limited".into(), status: 429 }]);
}

#[test]
fn a_call_that_was_started_is_not_started_again() {
    let chunk = json(
        r#"{"model":"m","choices":[{"delta":{"tool_calls":[
            {"index":1,"id":"c","function":{"name":"f","arguments":"x"}}]}}]}"#,
    );
    let mut p = ChatStreamParser::new("r".into());
    let mut evs = p.on_chunk(&chunk);
    evs.extend(p.on_chunk(&chunk));
    let starts = evs.iter().filter(|e| matches!(e, ToolCallStart { .. })).count();
    let deltas = evs.iter().filter(|e| matches!(e, ToolCallArgsDelta { .. })).count();
    let created = evs.iter().filter(|e| matches!(e, Created { .. })).count();
    assert_eq!((created, starts, deltas), (1, 1, 2));
}

#[test]
fn parses_chat_inbound_request() {
    let body = json(
        r#"{"model": "gpt-5.5", "messages": [
            {"role": "system", "content": "s"},
            {"role": "user", "content": "hi"}
        ], "stream": true, "max_tokens": 50}"#,
    );
    let req = parse_request(&body).unwrap();
    assert_eq!(req.model, "gpt-5.5");
    assert_eq!(req.system.as_deref(), Some("s"));
    assert_eq!(req.messages, vec![Message::User("hi".into())]);
    assert!(req.stream);
    assert_eq!(req.max_output_tokens, Some(50));
}

#[test]
fn parses_chat_inbound_tools_and_tool_calls() {
    let body = json(
        r#"{"model": "m", "messages": [
            {"role": "user", "content": "hi"},
            {"role": "assistant", "content": null, "tool_calls": [
                {"id": "c1", "type": "function",
                 "function": {"name": "f", "arguments": "{\"a\":1}"}}
            ]},
            {"role": "tool", "tool_call_id": "c1", "content": "ok"}
        ],
        "tools": [
            {"type": "function",
             "function": {"name": "f", "description": "d", "parameters": {"type": "object"}}}
        ],
        "tool_choice": {"type": "function", "function": {"name": "f"}},
        "parallel_tool_calls": true}"#,
    );
    let req = parse_request(&body).unwrap();

    assert_eq!(req.tools.len(), 1);
    assert_eq!(req.tools[0].name, "f");
    assert_eq!(req.tools[0].description.as_deref(), Some("d"));
    assert_eq!(str_at(&req.tools[0].parameters, "type"), Some("object"));

    assert_eq!(req.tool_choice, ToolChoice::Function("f".into()));
    assert_eq!(req.parallel_tool_calls, Some(true));

    match &req.messages[1] {
        Message::Assistant { text, tool_calls, .. } => {
            assert!(text.is_none());
            assert_eq!(tool_calls.len(), 1);
            assert_eq!(tool_calls[0].call_id, "c1");
            assert_eq!(tool_calls[0].name, "f");
            assert_eq!(tool_calls[0].arguments, "{\"a\":1}");
        }
        other => panic!("expected assistant tool call, got {other:?}"),
    }
    assert_eq!(
        req.messages[2],
        Message::Tool { call_id: "c1".into(), output: "ok".into() }
    );
}

#[test]
fn a_chat_request_without_a_model_is_refused() {
    match parse_request(&json(r#"{"messages": []}"#)) {
        Err(e) => assert!(matches!(e, BridgeError::BadRequest(_))),
        Ok(_) => panic!("expected an error"),
    }
}

#[test]
fn completion_to_events_full_message() {
    let resp = json(
        r#"{"model":"m","choices":[{"message":{"content":"hi",
            "tool_calls":[{"id":"c","function":{"name":"f","arguments":"{}"}}]}}],
            "usage":{"prompt_tokens":1,"completion_tokens":1,"total_tokens":2}}"#,
    );
    let evs = completion_to_events(&resp, "r1");
    assert_eq!(
        evs.first().unwrap(),
        &Created { response_id: "r1".into(), model: "m".into() }
    );
    assert!(evs.contains(&TextDelta { text: "hi".into() }));
    assert!(evs.contains(&ToolCallStart { index: 0, call_id: "c".into(), name: "f".into() }));
    assert_eq!(evs.last().unwrap(), &Completed);
}

#[test]
fn only_functions_are_kept_as_tools() {
    let tools = json(
        r#"[
            {"type": "custom", "function": {"name": "f"}},
            {"function": {"name": "g"}},
            {"type": "function"},
            {"type": "function", "function": {"name": "h"}}
        ]"#,
    );
    let kept = parse_chat_tools(Some(&tools));
    assert_eq!(kept.len(), 1);
    assert_eq!(kept[0].name, "h");
    let custom = json(r#"[{"type": "custom", "function": {"name": "f"}}]"#);
    assert!(parse_chat_tools(Some(&custom)).is_empty());
}
