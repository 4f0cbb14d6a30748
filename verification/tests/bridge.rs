//! What goes upstream and what comes back, probes, and the management interface.

use ai_api_bridge::admin::{
    create_provider, create_route, delete_provider, delete_route, get_usage, list_providers,
    list_routes, new_provider_name, set_usage, update_provider, update_route, ProviderInput,
    RouteInput, UsageToggle,
};
use ai_api_bridge::config::{
    default_database, default_listen, default_max_tokens_field, Config, ProbeSource, Provider,
    Route, RouteTarget, UsageSpec, UsageWindow, WireName,
};
use ai_api_bridge::dict::Dict;
use ai_api_bridge::double::Double;
use ai_api_bridge::error::BridgeError;
use ai_api_bridge::failover::is_retryable;
use ai_api_bridge::json::JsonValue;
use ai_api_bridge::probe::{
    probe_context, probe_plan, probe_status, Outcome, ProbePlan, ProbeReturn,
};
use ai_api_bridge::server::{now_secs, providers_status};
use ai_api_bridge::store::ProviderStatus;
use ai_api_bridge::upstream::{
    check_delivery, check_status, parse_answer, request, truncate, Delivery,
};
use ai_api_bridge::usage::{ProviderUsage, SpecStats, WindowStat};
use ai_api_bridge::watcher::{update_status, watches, Notice};

fn provider(base_url: &str) -> Provider {
    Provider {
        wire: WireName::OpenaiChat,
        base_url: base_url.into(),
        api_key: None,
        model_prefix: None,
        max_tokens_field: default_max_tokens_field(),
        extra_headers: Dict::new(),
        probe_script: None,
        probe_script_text: None,
        probe_source: ProbeSource::Path,
        probe_enabled: None,
        probe_interval_secs: None,
        quota_min: None,
        cost_windows: Vec::new(),
        model_prices: Dict::new(),
        usage: Vec::new(),
        models: Vec::new(),
    }
}

fn empty_config() -> Config {
    Config {
        listen: default_listen(),
        database: default_database(),
        default_provider: None,
        auth_token: None,
        cost_tracking: false,
        providers: Dict::new(),
        routes: Vec::new(),
        fallback_route: None,
    }
}

fn target(provider: &str, model: &str) -> RouteTarget {
    RouteTarget { provider: provider.into(), model: model.into() }
}

fn route(alias: &str, provider: &str, model: &str, fallback: Vec<RouteTarget>) -> Route {
    Route { alias: alias.into(), provider: provider.into(), model: model.into(), fallback }
}

fn double(x: f64) -> Double {
    let json = JsonValue::parse(&format!("{x:?}")).unwrap_or(JsonValue::Null);
    Double { bits: x.to_bits(), json }
}

fn value_of(d: &Double) -> f64 {
    f64::from_bits(d.bits)
}


/// The value at a path such as `content.0.text`.
fn at<'a>(v: &'a JsonValue, path: &str) -> Option<&'a JsonValue> {
    let mut here = v;
    for step in path.split('.') {
        here = match step.parse::<usize>() {
            Ok(i) => here.as_array()?.get(i)?,
            Err(_) => here.get(step)?,
        };
    }
    Some(here)
}

fn str_at<'a>(v: &'a JsonValue, path: &str) -> Option<&'a str> {
    at(v, path).and_then(|x| x.as_str())
}

fn u64_at(v: &JsonValue, path: &str) -> Option<u64> {
    at(v, path).and_then(|x| x.as_u64())
}

fn input(base_url: &str) -> ProviderInput {
    ProviderInput {
        name: Some("p".into()),
        wire: "openai-chat".into(),
        base_url: base_url.into(),
        api_key: None,
        model_prefix: None,
        max_tokens_field: None,
        extra_headers: Dict::new(),
        probe_script: None,
        probe_script_text: None,
        probe_source: None,
        probe_enabled: None,
        probe_interval_secs: None,
        quota_min: None,
        cost_windows: Vec::new(),
        model_prices: Dict::new(),
        usage: Vec::new(),
    }
}

#[test]
fn requests_carry_the_key_and_the_extra_headers() {
    let mut p = provider("https://x/v1//");
    p.api_key = Some("k".into());
    p.extra_headers.insert("b", "2".into());
    p.extra_headers.insert("a", "1".into());
    let plan = request(&p, "/chat/completions");
    assert_eq!(plan.url, "https://x/v1/chat/completions");
    assert_eq!(plan.bearer.as_deref(), Some("k"));
    let expected: Vec<(String, String)> =
        vec![("a".into(), "1".into()), ("b".into(), "2".into())];
    assert_eq!(plan.headers, expected);
    assert_eq!(request(&provider("u"), "/x").bearer, None);
}

#[test]
fn long_texts_are_cut_between_characters() {
    assert_eq!(truncate("abc", 3), "abc");
    assert_eq!(truncate("abcd", 3), "abc\u{2026}");
    assert_eq!(truncate("a\u{e9}b", 2), "a\u{2026}");
    assert_eq!(truncate("a\u{e9}b", 3), "a\u{e9}\u{2026}");
    assert_eq!(truncate("\u{1f600}", 0), "\u{2026}");
    assert_eq!(truncate("", 0), "");
}

#[test]
fn refusals_keep_their_status_and_the_beginning_of_their_text() {
    assert!(check_status(200, "x").is_none());
    assert!(check_status(299, "x").is_none());
    for status in [199, 300, 404, 500] {
        match check_status(status, &"y".repeat(600)) {
            Some(BridgeError::Upstream { status: s, message }) => {
                assert_eq!(s, status);
                assert_eq!(message.chars().count(), 501);
            }
            other => panic!("expected an upstream error, got {other:?}"),
        }
    }
    let e = BridgeError::Upstream { status: 404, message: "no".into() };
    assert_eq!(e.to_text(), "upstream error (404): no");
    assert_eq!(BridgeError::Upstream { status: 42, message: "no".into() }.http_status(), 502);
}

#[test]
fn every_error_has_its_status_and_its_words() {
    let m = || "m".to_string();
    let all = [
        (BridgeError::BadRequest(m()), 400, "bad request: m"),
        (BridgeError::Unauthorized(m()), 401, "unauthorized: m"),
        (BridgeError::UnknownModel(m()), 400, "unknown model: m"),
        (BridgeError::NotFound(m()), 404, "not found: m"),
        (BridgeError::Conflict(m()), 409, "conflict: m"),
        (BridgeError::UpstreamUnreachable(m()), 502, "upstream unreachable: m"),
        (BridgeError::NotImplemented(m()), 501, "not implemented: m"),
        (BridgeError::Internal(m()), 500, "internal error: m"),
    ];
    for (e, status, text) in all {
        assert_eq!(e.http_status(), status);
        assert_eq!(e.to_text(), text);
        let body = e.body();
        assert_eq!(str_at(&body, "error.message"), Some(text));
        assert_eq!(str_at(&body, "error.type"), Some("bridge_error"));
    }
}

#[test]
fn an_upstream_that_is_not_reached_is_worth_another_attempt() {
    assert!(check_delivery(&Delivery::Answered(500)).is_none());
    for d in [Delivery::Broken("refused".into()), Delivery::TimedOut] {
        assert!(is_retryable(&check_delivery(&d).unwrap()));
    }
    assert!(check_delivery(&Delivery::TimedOut).unwrap().to_text().contains("timeout"));
}

#[test]
fn an_answer_that_is_no_document_is_an_error() {
    assert_eq!(parse_answer("{\"a\":1}").unwrap().get_u64("a"), Some(1));
    let e = parse_answer("<html>").unwrap_err();
    assert_eq!(e.http_status(), 500);
    assert!(e.to_text().contains("bad upstream JSON"));
}

fn returned() -> ProbeReturn {
    ProbeReturn {
        ok: true,
        remaining: Some(double(42.5)),
        used: Some(double(7.0)),
        limit: None,
        note: Some("hi".into()),
    }
}

#[test]
fn script_quota_result_maps_to_status() {
    let s = probe_status(&provider("https://example.invalid"), 9, Outcome::Returned(returned()));
    assert!(s.available);
    assert!(s.last_ok);
    assert_eq!(s.quota_remaining.as_ref().map(value_of), Some(42.5));
    assert_eq!(s.quota_used.as_ref().map(value_of), Some(7.0));
    assert_eq!(s.note.as_deref(), Some("hi"));
    assert!(s.error.is_none());
    assert_eq!(s.last_checked, Some(9));
}

#[test]
fn script_receives_ctx() {
    let mut p = provider("https://example.invalid");
    p.api_key = Some("sk-test".into());
    p.extra_headers.insert("x", "y".into());
    let ctx = probe_context("zen", &p);
    assert_eq!(str_at(&ctx, "name"), Some("zen"));
    assert_eq!(str_at(&ctx, "base_url"), Some("https://example.invalid"));
    assert_eq!(str_at(&ctx, "api_key"), Some("sk-test"));
    assert_eq!(str_at(&ctx, "extra_headers.x"), Some("y"));
    assert_eq!(str_at(&ctx, "wire"), Some("openai-chat"));
}

#[test]
fn script_error_becomes_unavailable() {
    let s = probe_status(&provider("u"), 1, Outcome::ScriptFailed("boom".into()));
    assert!(!s.available);
    assert!(!s.last_ok);
    assert!(s.error.as_deref().unwrap().contains("boom"));
}

#[test]
fn missing_script_file_is_an_error() {
    let outcome =
        Outcome::Unreadable { path: "/no/such/probe.lua".into(), error: "not found".into() };
    let s = probe_status(&provider("u"), 1, outcome);
    assert!(!s.available);
    assert!(s.error.as_deref().unwrap().contains("/no/such/probe.lua"));
}

#[test]
fn a_ping_finds_out_whether_a_provider_answers() {
    let up = probe_status(&provider("https://u"), 1, Outcome::Pinged(404));
    assert!(up.available);
    assert_eq!(up.note.as_deref(), Some("ping https://u -> 404"));
    let down = probe_status(&provider("u"), 1, Outcome::PingFailed("refused".into()));
    assert_eq!(down.error.as_deref(), Some("ping failed: refused"));
    let task = probe_status(&provider("u"), 1, Outcome::TaskFailed("panicked".into()));
    assert_eq!(task.error.as_deref(), Some("probe task failed: panicked"));
    let none = probe_status(&provider("u"), 1, Outcome::NoClient("tls".into()));
    assert_eq!(none.error.as_deref(), Some("tls"));
}

#[test]
fn the_chosen_source_of_a_script_is_the_one_that_runs() {
    let mut p = provider("u");
    p.probe_script = Some("f.lua".into());
    p.probe_script_text = Some("return {}".into());
    assert_eq!(probe_plan(&p), ProbePlan::File("f.lua".into()));
    p.probe_source = ProbeSource::Text;
    assert_eq!(probe_plan(&p), ProbePlan::Inline("return {}".into()));
    p.probe_script_text = None;
    assert_eq!(probe_plan(&p), ProbePlan::Ping);
}

#[test]
fn watched_providers_and_what_is_told_of_them() {
    let mut providers = Dict::new();
    providers.insert("quiet", provider("u"));
    let mut p = provider("u");
    p.probe_enabled = Some(true);
    p.probe_interval_secs = Some(60);
    providers.insert("watched", p);
    let w = watches(&providers);
    assert_eq!(w.len(), 1);
    assert_eq!((w[0].provider.as_str(), w[0].every_secs), ("watched", 60));

    let mut status = Dict::new();
    let up = || ProviderStatus { available: true, ..Default::default() };
    assert_eq!(update_status(&mut status, "p", up()), Notice::Up);
    assert_eq!(update_status(&mut status, "p", up()), Notice::Unchanged);
    assert_eq!(update_status(&mut status, "p", ProviderStatus::default()), Notice::Down);
    assert!(!status.get("p").unwrap().available);
}

#[test]
fn providers_are_created_and_updated_from_forms() {
    assert_eq!(new_provider_name(Some(" p ".into())).unwrap(), "p");
    assert_eq!(new_provider_name(Some("  ".into())).unwrap_err().http_status(), 400);
    assert_eq!(new_provider_name(None).unwrap_err().http_status(), 400);

    let open = empty_config();
    let mut form = input(" https://x ");
    form.api_key = Some(" k ".into());
    form.model_prefix = Some("".into());
    let p = create_provider(&open, None, None, "p", false, form).unwrap();
    assert_eq!(p.base_url, "https://x");
    assert_eq!(p.api_key.as_deref(), Some("k"));
    assert_eq!(p.model_prefix, None);
    assert_eq!(p.max_tokens_field, "max_tokens");

    assert_eq!(create_provider(&open, None, None, "p", true, input("u")).unwrap_err().http_status(), 409);
    assert_eq!(create_provider(&open, None, None, "p", false, input(" ")).unwrap_err().http_status(), 400);
    let mut odd = input("u");
    odd.wire = "pigeon".into();
    assert!(create_provider(&open, None, None, "p", false, odd).unwrap_err().to_text().contains("pigeon"));

    let kept = update_provider(&open, None, None, "p", Some(p), input("https://y")).unwrap();
    assert_eq!(kept.api_key.as_deref(), Some("k"));
    assert_eq!(kept.base_url, "https://y");
    assert_eq!(update_provider(&open, None, None, "p", None, input("u")).unwrap_err().http_status(), 404);
}

fn form(alias: Option<&str>, provider: &str, fallback: Vec<RouteTarget>) -> RouteInput {
    RouteInput {
        alias: alias.map(|a| a.to_string()),
        provider: provider.into(),
        model: "m".into(),
        fallback,
    }
}

#[test]
fn routes_only_name_providers_that_exist() {
    let mut cfg = empty_config();
    cfg.providers.insert("zen", provider("u"));
    let r = create_route(&cfg, None, None, form(Some("a"), "zen", vec![target("zen", "n")])).unwrap();
    assert_eq!(r, route("a", "zen", "m", vec![target("zen", "n")]));
    assert_eq!(create_route(&cfg, None, None, form(None, "zen", vec![])).unwrap_err().http_status(), 400);
    assert_eq!(create_route(&cfg, None, None, form(Some("a"), "x", vec![])).unwrap_err().http_status(), 400);
    let net = vec![target("x", "n")];
    assert_eq!(create_route(&cfg, None, None, form(Some("a"), "zen", net)).unwrap_err().http_status(), 400);

    cfg.routes.push(r);
    assert_eq!(
        create_route(&cfg, None, None, form(Some("a"), "zen", vec![])).unwrap_err().http_status(),
        409
    );
    assert_eq!(update_route(&cfg, None, None, "a", form(None, "zen", vec![])).unwrap().alias, "a");
    assert_eq!(
        update_route(&cfg, None, None, "b", form(None, "zen", vec![])).unwrap_err().http_status(),
        404
    );
}

#[test]
fn deletions_say_what_went() {
    let mut cfg = empty_config();
    cfg.providers.insert("zen", provider("u"));
    cfg.routes.push(route("a", "zen", "m", vec![]));
    cfg.routes.push(route("b", "zen", "m", vec![]));
    cfg.routes.push(route("c", "go", "m", vec![]));
    let answer = delete_provider(&cfg, None, None, "zen", 1).unwrap();
    assert_eq!(u64_at(&answer, "cascaded_routes"), Some(2));
    assert_eq!(delete_provider(&cfg, None, None, "zen", 0).unwrap_err().http_status(), 404);
    assert_eq!(delete_route(&cfg, None, None, "a", 1).unwrap().get_bool("ok"), Some(true));
    assert_eq!(delete_route(&cfg, None, None, "a", 0).unwrap_err().http_status(), 404);
}

#[test]
fn keys_are_not_shown() {
    let mut cfg = empty_config();
    let mut p = provider("u");
    p.api_key = Some("sk-hidden".into());
    cfg.providers.insert("p", p);
    let shown = list_providers(&cfg, None, None, &Dict::new(), None).unwrap();
    assert!(!shown.to_text().contains("sk-hidden"));
    assert!(shown.to_text().contains("\"api_key_set\":true"));
    assert!(!providers_status(&cfg, &Dict::new(), None).to_text().contains("sk-hidden"));
}

#[test]
fn routes_are_shown_by_alias() {
    let mut cfg = empty_config();
    cfg.routes.push(route("b", "zen", "m", vec![]));
    cfg.routes.push(route("a", "zen", "m", vec![]));
    let text = list_routes(&cfg, None, None).unwrap().to_text();
    assert!(text.find("\"alias\":\"a\"").unwrap() < text.find("\"alias\":\"b\"").unwrap());
}

#[test]
fn windows_are_shown_with_what_is_left() {
    let mut cfg = empty_config();
    let mut p = provider("u");
    p.usage.push(UsageSpec::Count {
        windows: vec![UsageWindow {
            label: "1d".into(),
            window_secs: 86400,
            limit: double(500.0),
        }],
    });
    cfg.providers.insert("p", p);
    let stat = WindowStat {
        label: "1d".into(),
        limit: double(500.0),
        spent: double(2.0),
        remaining: double(498.0),
        reset_in_secs: 40,
    };
    let mut usage = Dict::new();
    usage.insert("p", ProviderUsage { specs: vec![SpecStats { stats: vec![stat] }] });
    let text = providers_status(&cfg, &Dict::new(), Some(&usage)).to_text();
    assert!(text.contains("\"remaining\":498.0"), "{text}");
    assert!(text.contains("\"reset_in_secs\":40"), "{text}");
    let off = providers_status(&cfg, &Dict::new(), None).to_text();
    assert!(!off.contains("498.0"), "{off}");
}

#[test]
fn tracking_is_switched() {
    let cfg = empty_config();
    assert_eq!(get_usage(&cfg, None, None, true).unwrap().get_bool("enabled"), Some(true));
    let off = set_usage(&cfg, None, None, UsageToggle { enabled: false }).unwrap();
    assert_eq!(off.get_bool("enabled"), Some(false));
}

#[test]
fn management_asks_for_the_token() {
    let mut cfg = empty_config();
    cfg.providers.insert("zen", provider("u"));
    cfg.auth_token = Some("t".into());
    let status = Dict::new();
    let bad = Some("Bearer x");
    let on = UsageToggle { enabled: true };
    let a = || form(Some("a"), "zen", vec![]);
    let refusals = vec![
        list_providers(&cfg, bad, None, &status, None).map(|_| ()).unwrap_err(),
        list_routes(&cfg, None, Some("x")).map(|_| ()).unwrap_err(),
        get_usage(&cfg, None, None, true).map(|_| ()).unwrap_err(),
        set_usage(&cfg, bad, None, on).map(|_| ()).unwrap_err(),
        create_provider(&cfg, bad, None, "p", true, input("u")).map(|_| ()).unwrap_err(),
        update_provider(&cfg, bad, None, "p", None, input("u")).map(|_| ()).unwrap_err(),
        delete_provider(&cfg, bad, None, "p", 0).map(|_| ()).unwrap_err(),
        create_route(&cfg, bad, None, a()).map(|_| ()).unwrap_err(),
        update_route(&cfg, bad, None, "a", a()).map(|_| ()).unwrap_err(),
        delete_route(&cfg, bad, None, "a", 0).map(|_| ()).unwrap_err(),
    ];
    for e in refusals {
        assert_eq!(e.http_status(), 401);
        assert!(e.to_text().contains("invalid bridge auth token"));
    }
    assert!(list_providers(&cfg, Some("Bearer t"), None, &status, None).is_ok());
    assert!(list_routes(&cfg, None, Some("t")).is_ok());
    assert!(create_route(&cfg, None, Some("t"), a()).is_ok());
}

#[test]
fn the_clock_does_not_run_before_its_start() {
    assert_eq!(now_secs(Some(5)), 5);
    assert_eq!(now_secs(None), 0);
}
