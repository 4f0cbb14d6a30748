//! From a client's request to its answer, with an upstream that replays a fixed reply.

use ai_api_bridge::config::{
    default_database, default_listen, default_max_tokens_field, Config, CostWindow, ProbeSource,
    Provider, Route, RouteTarget, UsageKind, UsageSpec, UsageWindow, WireName,
};
use ai_api_bridge::dict::Dict;
use ai_api_bridge::double::Double;
use ai_api_bridge::error::BridgeError;
use ai_api_bridge::failover::{first_attempt, mark_degraded, next_attempt, Attempt};
use ai_api_bridge::json::JsonValue;
use ai_api_bridge::server::{
    accept, check_auth, cost_recorder, demoted, list_models, messages_answer, responses_answer,
    usage_kinds, Dialect,
};
use ai_api_bridge::stream::StreamTranslator;
use ai_api_bridge::upstream::{check_status, parse_answer, request};
use ai_api_bridge::usage::{
    amounts_for, answer_usage, Amount, CostText, KindEstimate, ProviderUsage, SpecStats, UsageMeter,
    WindowStat,
};
use ai_api_bridge::wire::anthropic::AnthropicEmitter;
use ai_api_bridge::wire::chat::build_request;
use ai_api_bridge::wire::responses::ResponsesEmitter;
use ai_api_bridge::wire::{Emission, SseFrame};

const CHAT: &str = "data: {\"model\":\"opencode/gpt-5.5\",\"choices\":[{\"delta\":{\"content\":\"Hello\"}}]}\n\n\
    data: {\"choices\":[{\"delta\":{\"content\":\" world\"}}]}\n\n\
    data: {\"choices\":[{\"delta\":{},\"finish_reason\":\"stop\"}]}\n\n\
    data: {\"choices\":[],\"usage\":{\"prompt_tokens\":5,\"completion_tokens\":2,\"total_tokens\":7}}\n\n\
    data: [DONE]\n\n";

const CHAT_ERROR: &str = "data: {\"error\":{\"message\":\"rate limited\",\"code\":429}}\n\n\
    data: [DONE]\n\n";

const CHAT_JSON: &str = r#"{"model":"m","choices":[{"message":{"content":"Hello world"}}],"usage":{"prompt_tokens":5,"completion_tokens":2,"total_tokens":7}}"#;

const CHAT_JSON_COST: &str = r#"{"model":"m","choices":[{"message":{"content":"hi"}}],"usage":{"prompt_tokens":5,"completion_tokens":2},"cost":"0.5"}"#;

const CHAT_TOOL: &str = "data: {\"model\":\"m\",\"choices\":[{\"delta\":{\"tool_calls\":[{\"index\":0,\"id\":\"call_1\",\"function\":{\"name\":\"get_weather\",\"arguments\":\"{}\"}}]}}]}\n\n\
    data: {\"choices\":[{\"delta\":{},\"finish_reason\":\"tool_calls\"}]}\n\n\
    data: {\"choices\":[],\"usage\":{\"prompt_tokens\":5,\"completion_tokens\":3,\"total_tokens\":8}}\n\n\
    data: [DONE]\n\n";

fn provider(base_url: &str) -> Provider {
    Provider {
        wire: WireName::OpenaiChat,
        base_url: base_url.into(),
        api_key: None,
        model_prefix: None,
        max_tokens_field: default_max_tokens_field(),
        extra_headers: Dict::new(),
        probe_script: None,
        probe_script_text: None,
        probe_source: ProbeSource::Path,
        probe_enabled: None,
        probe_interval_secs: None,
        quota_min: None,
        cost_windows: Vec::new(),
        model_prices: Dict::new(),
        usage: Vec::new(),
        models: Vec::new(),
    }
}

fn empty_config() -> Config {
    Config {
        listen: default_listen(),
        database: default_database(),
        default_provider: None,
        auth_token: None,
        cost_tracking: false,
        providers: Dict::new(),
        routes: Vec::new(),
        fallback_route: None,
    }
}

fn target(provider: &str, model: &str) -> RouteTarget {
    RouteTarget { provider: provider.into(), model: model.into() }
}

fn route(alias: &str, provider: &str, model: &str, fallback: Vec<RouteTarget>) -> Route {
    Route { alias: alias.into(), provider: provider.into(), model: model.into(), fallback }
}

fn double(x: f64) -> Double {
    let json = JsonValue::parse(&format!("{x:?}")).unwrap_or(JsonValue::Null);
    Double { bits: x.to_bits(), json }
}

fn value_of(d: &Double) -> f64 {
    f64::from_bits(d.bits)
}

fn json(text: &str) -> JsonValue {
    JsonValue::parse(text).unwrap()
}

/// The value at a path such as `content.0.text`.
fn at<'a>(v: &'a JsonValue, path: &str) -> Option<&'a JsonValue> {
    let mut here = v;
    for step in path.split('.') {
        here = match step.parse::<usize>() {
            Ok(i) => here.as_array()?.get(i)?,
            Err(_) => here.get(step)?,
        };
    }
    Some(here)
}

fn str_at<'a>(v: &'a JsonValue, path: &str) -> Option<&'a str> {
    at(v, path).and_then(|x| x.as_str())
}


/// The upstreams, by base URL: the status each answers with, and its reply.
type Upstreams = Vec<(&'static str, u16, &'static str)>;

/// The first upstream of a chain that takes the request: its provider and its reply.
fn ask(
    cfg: &Config,
    dialect: Dialect,
    body: &JsonValue,
    upstreams: &Upstreams,
) -> Result<(String, String), BridgeError> {
    let mut status = Dict::new();
    let accepted = accept(cfg, dialect, None, None, body, &status, &vec![])?;
    let n = accepted.candidates.len();
    let mut attempt = first_attempt(n);
    loop {
        let i = match attempt {
            Attempt::Ask(i) => i,
            Attempt::GiveUp(e) => return Err(e),
        };
        let c = &accepted.candidates[i];
        let plan = request(c.provider, "/chat/completions");
        let sent = build_request(&accepted.request, &c.upstream_model, c.provider);
        assert_eq!(str_at(&sent, "model"), Some(c.upstream_model.as_str()));
        let (_, code, reply) =
            upstreams.iter().find(|u| plan.url == format!("{}/chat/completions", u.0)).unwrap();
        match check_status(*code, reply) {
            None => return Ok((c.provider_name.to_string(), reply.to_string())),
            Some(e) => {
                mark_degraded(&mut status, &c.provider_name, &e);
                attempt = next_attempt(n, i, e);
            }
        }
    }
}

fn text_of(frames: &[SseFrame]) -> String {
    frames.iter().map(|f| format!("event: {}\ndata: {}\n\n", f.event, f.data.to_text())).collect()
}

fn whole(e: Emission) -> Vec<SseFrame> {
    e.frames
}

/// The reply as the client of a Responses stream sees it, cut into chunks of `size`.
fn responses_text(reply: &str, size: usize) -> String {
    let mut t = StreamTranslator::new("resp_1".to_string(), false, ResponsesEmitter::new());
    let mut frames = Vec::new();
    for chunk in reply.as_bytes().chunks(size) {
        frames.extend(whole(t.on_bytes(chunk)));
    }
    frames.extend(whole(t.finish()));
    text_of(&frames)
}

/// The reply as the client of a Messages stream sees it.
fn messages_text(reply: &str) -> String {
    let mut t = StreamTranslator::new("msg_1".to_string(), false, AnthropicEmitter::new());
    let mut frames = whole(t.on_bytes(reply.as_bytes()));
    frames.extend(whole(t.finish()));
    text_of(&frames)
}

fn one_upstream(prefix: Option<&str>) -> Config {
    let mut c = empty_config();
    c.default_provider = Some("zen".into());
    let mut zen = provider("http://up");
    zen.model_prefix = prefix.map(|p| p.to_string());
    c.providers.insert("zen", zen);
    c
}

fn responses_body() -> JsonValue {
    json(r#"{"model": "gpt-5.5", "input": "hi", "stream": true}"#)
}

#[test]
fn responses_streaming_end_to_end() {
    let cfg = one_upstream(Some("opencode/"));
    let (_, reply) =
        ask(&cfg, Dialect::Responses, &responses_body(), &vec![("http://up", 200, CHAT)]).unwrap();
    for size in [1, 7, 4096] {
        let text = responses_text(&reply, size);
        assert!(text.contains("event: response.created"));
        assert!(text.contains("event: response.output_text.delta"));
        assert!(text.contains("Hello"));
        assert!(text.contains("world"));
        assert!(text.contains("event: response.completed"));
        assert!(text.contains("\"total_tokens\":7"));
    }
}

#[test]
fn inband_upstream_error_becomes_response_failed() {
    let text = responses_text(CHAT_ERROR, 4096);
    assert!(text.contains("event: response.failed"), "expected response.failed, got: {text}");
    assert!(text.contains("rate limited"));
    assert!(!text.contains("event: response.completed"));
}

#[test]
fn unknown_model_returns_400() {
    let mut cfg = empty_config();
    cfg.providers.insert("zen", provider("http://127.0.0.1:1"));
    let body = json(r#"{"model": "nope", "input": "x"}"#);
    let e = ask(&cfg, Dialect::Responses, &body, &vec![]).unwrap_err();
    assert_eq!(e.http_status(), 400);
}

#[test]
fn lists_models() {
    let mut cfg = one_upstream(None);
    cfg.routes.push(route("fast", "zen", "opencode/x", vec![]));
    let body = list_models(&cfg);
    assert_eq!(str_at(&body, "object"), Some("list"));
    assert!(body.get_array("data").unwrap().iter().any(|m| m.get_str("id") == Some("fast")));
}

#[test]
fn messages_streaming_end_to_end() {
    let cfg = one_upstream(None);
    let body = json(
        r#"{"model": "model-x", "max_tokens": 256,
            "messages": [{"role": "user", "content": "hi"}], "stream": true}"#,
    );
    assert!(accept(&cfg, Dialect::Messages, None, Some("anything"), &body, &Dict::new(), &vec![])
        .is_ok());
    let (_, reply) =
        ask(&cfg, Dialect::Messages, &body, &vec![("http://up", 200, CHAT)]).unwrap();
    let text = messages_text(&reply);
    assert!(text.contains("event: message_start"), "got: {text}");
    assert!(text.contains("event: content_block_start"));
    assert!(text.contains("text_delta"));
    assert!(text.contains("Hello"));
    assert!(text.contains("world"));
    assert!(text.contains("event: message_delta"));
    assert!(text.contains("\"stop_reason\":\"end_turn\""));
    assert!(text.contains("event: message_stop"));
}

#[test]
fn messages_non_streaming_end_to_end() {
    let cfg = one_upstream(None);
    let body = json(
        r#"{"model": "model-x", "max_tokens": 256,
            "messages": [{"role": "user", "content": "hi"}], "stream": false}"#,
    );
    let (_, reply) =
        ask(&cfg, Dialect::Messages, &body, &vec![("http://up", 200, CHAT_JSON)]).unwrap();
    let body = messages_answer(&parse_answer(&reply).unwrap(), "msg_1").unwrap();
    assert_eq!(str_at(&body, "type"), Some("message"));
    assert_eq!(str_at(&body, "role"), Some("assistant"));
    assert_eq!(str_at(&body, "content.0.type"), Some("text"));
    assert_eq!(str_at(&body, "content.0.text"), Some("Hello world"));
    assert_eq!(str_at(&body, "stop_reason"), Some("end_turn"));
}

#[test]
fn messages_tool_use_streaming() {
    let cfg = one_upstream(None);
    let body = json(
        r#"{"model": "model-x", "max_tokens": 256,
            "messages": [{"role": "user", "content": "weather in SF?"}],
            "tools": [{"name": "get_weather", "input_schema": {"type": "object"}}],
            "stream": true}"#,
    );
    let (_, reply) =
        ask(&cfg, Dialect::Messages, &body, &vec![("http://up", 200, CHAT_TOOL)]).unwrap();
    let text = messages_text(&reply);
    assert!(text.contains("\"type\":\"tool_use\""), "got: {text}");
    assert!(text.contains("get_weather"));
    assert!(text.contains("input_json_delta"));
    assert!(text.contains("\"stop_reason\":\"tool_use\""));
}

#[test]
fn messages_missing_model_returns_400() {
    let mut cfg = empty_config();
    cfg.providers.insert("zen", provider("u"));
    let e = ask(&cfg, Dialect::Messages, &json("{}"), &vec![]).unwrap_err();
    assert_eq!(e.http_status(), 400);
}

fn failover_cfg() -> Config {
    let mut c = empty_config();
    c.providers.insert("bad", provider("http://bad"));
    c.providers.insert("good", provider("http://good"));
    c.routes.push(route("gpt-5.5", "bad", "x", vec![target("good", "deepseek-v4-pro")]));
    c
}

#[test]
fn reactive_failover_streaming_on_503() {
    let upstreams = vec![("http://good", 200, CHAT), ("http://bad", 503, "down")];
    let (who, reply) =
        ask(&failover_cfg(), Dialect::Responses, &responses_body(), &upstreams).unwrap();
    assert_eq!(who, "good");
    let text = responses_text(&reply, 4096);
    assert!(text.contains("event: response.completed"), "got: {text}");
    assert!(text.contains("Hello"));
    assert!(text.contains("world"));
}

#[test]
fn reactive_failover_non_streaming_on_503() {
    let upstreams = vec![("http://good", 200, CHAT_JSON), ("http://bad", 503, "down")];
    let body = json(r#"{"model": "gpt-5.5", "input": "hi", "stream": false}"#);
    let (_, reply) = ask(&failover_cfg(), Dialect::Responses, &body, &upstreams).unwrap();
    let body = responses_answer(&parse_answer(&reply).unwrap(), "resp_1").unwrap();
    assert_eq!(str_at(&body, "status"), Some("completed"));
    assert_eq!(str_at(&body, "output.0.content.0.text"), Some("Hello world"));
}

#[test]
fn global_fallback_route_backs_routes_and_catches_unrouted_aliases() {
    let mut cfg = failover_cfg();
    cfg.routes = vec![route("gpt-5.5", "bad", "x", vec![])];
    cfg.fallback_route = Some(target("good", "deepseek-v4-pro"));
    let upstreams = vec![("http://good", 200, CHAT_JSON), ("http://bad", 503, "down")];
    for model in ["gpt-5.5", "no-such-alias"] {
        let body = json(&format!(r#"{{"model": "{model}", "input": "hi", "stream": false}}"#));
        let (_, reply) = ask(&cfg, Dialect::Responses, &body, &upstreams).unwrap();
        let body = responses_answer(&parse_answer(&reply).unwrap(), "resp_1").unwrap();
        assert_eq!(str_at(&body, "status"), Some("completed"));
    }
}

#[test]
fn non_retryable_400_does_not_failover() {
    let upstreams = vec![("http://good", 200, CHAT_JSON), ("http://bad", 400, "bad request")];
    let body = json(r#"{"model": "gpt-5.5", "input": "hi", "stream": false}"#);
    let e = ask(&failover_cfg(), Dialect::Responses, &body, &upstreams).unwrap_err();
    assert_eq!(e.http_status(), 400);
}

/// Charge an answer to its provider, where tracking is on.
fn charge(cfg: &Config, meter: &mut UsageMeter, reply: &str, on: bool, now: i64) {
    let Some(kinds) = cost_recorder(cfg, on, "zen", "m") else {
        return;
    };
    let used = answer_usage(&parse_answer(reply).unwrap());
    let actual: Option<f64> = match &used.cost {
        Some(CostText::Number(n)) => n.to_text().parse().ok(),
        Some(CostText::Text(t)) => t.parse().ok(),
        None => None,
    };
    let kinds: Vec<KindEstimate> =
        kinds.into_iter().map(|k| KindEstimate { kind: k.kind, estimate: None }).collect();
    let all = amounts_for(
        &kinds,
        &actual.map(double),
        used.prompt_tokens,
        used.completion_tokens,
    );
    for c in all {
        match c.amount {
            Amount::Dollars(d) => meter.record("zen", c.kind, d, now),
            Amount::Units(n) => meter.record("zen", c.kind, double(n as f64), now),
        };
    }
}

fn spent(meter: &UsageMeter, kind: UsageKind, secs: u64, limit: f64, now: i64) -> f64 {
    let windows =
        vec![UsageWindow { label: "w".into(), window_secs: secs, limit: double(limit) }];
    assert!(meter.windows_fit("zen", kind, &windows, now));
    meter.windows("zen", kind, &windows, now)[0].amounts.iter().map(value_of).sum()
}

#[test]
fn usage_toggle_gates_recording() {
    let mut cfg = one_upstream(None);
    let mut zen = provider("http://up");
    zen.cost_windows.push(CostWindow {
        label: "5h".into(),
        window_secs: 18000,
        limit: double(100.0),
    });
    cfg.providers.insert("zen", zen);
    cfg.normalize();
    let now = 1_700_000_000;

    let mut meter = UsageMeter::new();
    charge(&cfg, &mut meter, CHAT_JSON_COST, true, now);
    assert_eq!(spent(&meter, UsageKind::Billing, 18000, 100.0, now), 0.5);

    let mut meter = UsageMeter::new();
    charge(&cfg, &mut meter, CHAT_JSON_COST, false, now);
    assert_eq!(spent(&meter, UsageKind::Billing, 18000, 100.0, now), 0.0);
}

#[test]
fn count_usage_increments_per_request() {
    let mut cfg = one_upstream(None);
    let mut zen = provider("http://up");
    zen.usage.push(UsageSpec::Count {
        windows: vec![UsageWindow {
            label: "1d".into(),
            window_secs: 86400,
            limit: double(500.0),
        }],
    });
    cfg.providers.insert("zen", zen);
    assert_eq!(cfg.providers.get("zen").unwrap().usage.len(), 1);
    let now = 1_700_000_000;
    let mut meter = UsageMeter::new();
    for _ in 0..2 {
        charge(&cfg, &mut meter, CHAT_JSON, true, now);
    }
    assert_eq!(spent(&meter, UsageKind::Count, 86400, 500.0, now), 2.0);
}

#[test]
fn the_token_is_taken_as_bearer_or_key() {
    let mut cfg = one_upstream(None);
    assert!(check_auth(&cfg, None, None).is_ok());
    cfg.auth_token = Some("t".into());
    assert!(check_auth(&cfg, Some("Bearer t"), None).is_ok());
    assert!(check_auth(&cfg, None, Some("t")).is_ok());
    assert!(check_auth(&cfg, Some("Bearer x"), Some("t")).is_ok());
    for (a, k) in [(None, None), (Some("t"), None), (Some("Bearer x"), Some("y"))] {
        assert_eq!(check_auth(&cfg, a, k).unwrap_err().http_status(), 401);
    }
}

#[test]
fn a_refused_client_learns_nothing_of_its_request() {
    let mut cfg = one_upstream(None);
    cfg.auth_token = Some("t".into());
    let e = accept(&cfg, Dialect::Chat, None, None, &json("{}"), &Dict::new(), &vec![])
        .unwrap_err();
    assert_eq!(e.http_status(), 401);
}

#[test]
fn a_stream_that_breaks_off_is_reported_and_ends() {
    let mut t = StreamTranslator::new("resp_1".to_string(), false, ResponsesEmitter::new());
    whole(t.on_bytes(b"data: {\"model\":\"m\",\"choices\":[{\"delta\":{\"content\":\"x\"}}]}\n\n"));
    let text = text_of(&whole(t.on_failure("reset by peer")));
    assert!(text.contains("event: response.failed"));
    assert!(text.contains("reset by peer"));
    assert!(whole(t.on_bytes(CHAT.as_bytes())).is_empty());
    assert!(whole(t.finish()).is_empty());
}

#[test]
fn a_stream_without_an_end_mark_is_completed() {
    let open = "data: {\"model\":\"m\",\"choices\":[{\"delta\":{\"content\":\"x\"}}]}\n\n";
    let text = responses_text(open, 4096);
    assert!(text.contains("event: response.completed"));
}

#[test]
fn what_comes_after_the_end_mark_is_only_counted() {
    let late = "data: {\"choices\":[],\"usage\":{\"prompt_tokens\":1,\"completion_tokens\":2},\"cost\":\"0.25\"}\n\n";
    let mut t = StreamTranslator::new("resp_1".to_string(), true, ResponsesEmitter::new());
    let before = whole(t.on_bytes(CHAT.as_bytes()));
    assert!(text_of(&before).contains("event: response.completed"));
    assert!(whole(t.on_bytes(late.as_bytes())).is_empty());
    assert_eq!(t.reader.costs(), &vec![CostText::Text("0.25".into())]);
    assert_eq!(t.reader.tokens(), (Some(1), Some(2)));
}

#[test]
fn only_metered_providers_are_charged() {
    let mut cfg = one_upstream(None);
    assert_eq!(cost_recorder(&cfg, true, "zen", "m"), None);
    assert!(usage_kinds(&cfg, "nobody", "m").is_empty());
    let mut zen = provider("http://up");
    zen.usage.push(UsageSpec::Token { windows: vec![] });
    cfg.providers.insert("zen", zen);
    assert_eq!(cost_recorder(&cfg, false, "zen", "m"), None);
    let kinds = cost_recorder(&cfg, true, "zen", "m").unwrap();
    assert_eq!(kinds.len(), 1);
    assert_eq!(kinds[0].kind, UsageKind::Token);
}

#[test]
fn nobody_is_passed_over_while_tracking_is_off() {
    let stat = WindowStat {
        label: "x".into(),
        limit: double(1.0),
        spent: double(1.0),
        remaining: double(0.0),
        reset_in_secs: 1,
    };
    let mut usage = Dict::new();
    usage.insert("zen", ProviderUsage { specs: vec![SpecStats { stats: vec![stat] }] });
    assert_eq!(demoted(Some(&usage)), vec!["zen".to_string()]);
    assert!(demoted(None).is_empty());
}

const THOUGHTFUL: &str = r#"{"model":"m","choices":[{"message":{
    "reasoning_content":"I will look","content":"Looking.",
    "tool_calls":[{"id":"c1","function":{"name":"ls","arguments":"{\"dir\": \"/\"}"}},
                  {"id":"c2","function":{"name":"pwd","arguments":""}}]}}]}"#;

/// The message that stands for the assistant's turn in what is sent upstream.
fn sent_turn(dialect: Dialect, body: &JsonValue) -> JsonValue {
    let cfg = one_upstream(None);
    let accepted = accept(&cfg, dialect, None, None, body, &Dict::new(), &vec![]).unwrap();
    let sent = build_request(&accepted.request, "m", accepted.candidates[0].provider);
    at(&sent, "messages.1").unwrap().copy()
}

#[test]
fn reasoning_comes_back_to_the_upstream_from_messages() {
    let answer = messages_answer(&parse_answer(THOUGHTFUL).unwrap(), "msg_1").unwrap();
    let content = at(&answer, "content").unwrap().to_text();
    let body = json(&format!(
        r#"{{"model":"m","messages":[{{"role":"user","content":"hi"}},
            {{"role":"assistant","content":{content}}}]}}"#
    ));
    let turn = sent_turn(Dialect::Messages, &body);
    assert_eq!(str_at(&turn, "role"), Some("assistant"));
    assert_eq!(str_at(&turn, "reasoning_content"), Some("I will look"));
    assert_eq!(str_at(&turn, "content"), Some("Looking."));
    assert_eq!(str_at(&turn, "tool_calls.0.id"), Some("c1"));
    assert_eq!(str_at(&turn, "tool_calls.0.function.arguments"), Some(r#"{"dir":"/"}"#));
    assert_eq!(str_at(&turn, "tool_calls.1.function.name"), Some("pwd"));
    assert_eq!(str_at(&turn, "tool_calls.1.function.arguments"), Some("{}"));
}

#[test]
fn reasoning_comes_back_to_the_upstream_from_responses() {
    let answer = responses_answer(&parse_answer(THOUGHTFUL).unwrap(), "resp_1").unwrap();
    let output = at(&answer, "output").unwrap().to_text();
    let items = output.trim_start_matches('[');
    let body = json(&format!(
        r#"{{"model":"m","input":[{{"type":"message","role":"user","content":"hi"}},{items}}}"#
    ));
    let turn = sent_turn(Dialect::Responses, &body);
    assert_eq!(str_at(&turn, "reasoning_content"), Some("I will look"));
    assert_eq!(str_at(&turn, "content"), Some("Looking."));
    assert_eq!(str_at(&turn, "tool_calls.0.function.arguments"), Some(r#"{"dir": "/"}"#));
    assert_eq!(str_at(&turn, "tool_calls.1.id"), Some("c2"));
    assert_eq!(str_at(&turn, "tool_calls.1.function.arguments"), Some(""));
}

#[test]
fn a_chat_conversation_goes_upstream_as_it_came() {
    let body = json(
        r#"{"model":"m","messages":[{"role":"system","content":"s"},
            {"role":"user","content":"hi"},
            {"role":"assistant","content":"x","reasoning_content":"r","tool_calls":[
                {"id":"c1","type":"function","function":{"name":"f","arguments":"{}"}}]},
            {"role":"tool","tool_call_id":"c1","content":"ok"}]}"#,
    );
    let cfg = one_upstream(None);
    let accepted = accept(&cfg, Dialect::Chat, None, None, &body, &Dict::new(), &vec![]).unwrap();
    let sent = build_request(&accepted.request, "m", accepted.candidates[0].provider);
    assert_eq!(at(&sent, "messages").unwrap().to_text(), at(&body, "messages").unwrap().to_text());
}
