//! Recording what requests cost, and how much of a window is left.

use ai_api_bridge::config::{UsageKind, UsageSpec, UsageWindow};
use ai_api_bridge::dict::Dict;
use ai_api_bridge::double::Double;
use ai_api_bridge::json::JsonValue;
use ai_api_bridge::usage::{
    amount_for, answer_usage, cost_text, effective_cost, tokens_from_usage, window_stat, Amount,
    CostText, ProviderUsage, SpecStats, StoredEvent, UsageEvent, UsageMeter, WindowStat,
};

const KIND: UsageKind = UsageKind::Billing;

fn double(x: f64) -> Double {
    let json = JsonValue::parse(&format!("{x:?}")).unwrap_or(JsonValue::Null);
    Double { bits: x.to_bits(), json }
}

fn value_of(d: &Double) -> f64 {
    f64::from_bits(d.bits)
}

fn json(text: &str) -> JsonValue {
    JsonValue::parse(text).unwrap()
}

fn w(label: &str, secs: u64, limit: f64) -> UsageWindow {
    UsageWindow { label: label.into(), window_secs: secs, limit: double(limit) }
}

fn record(m: &mut UsageMeter, provider: &str, amount: f64, now: i64) -> bool {
    m.record(provider, KIND, double(amount), now)
}

/// The windows of a provider, with their sums.
fn stats(m: &UsageMeter, provider: &str, windows: Vec<UsageWindow>, now: i64) -> Vec<WindowStat> {
    assert!(m.windows_fit(provider, KIND, &windows, now));
    let usages = m.windows(provider, KIND, &windows, now);
    windows
        .iter()
        .zip(usages.iter())
        .map(|(window, usage)| {
            let spent: f64 = usage.amounts.iter().map(value_of).sum();
            let remaining = (value_of(&window.limit) - spent).max(0.0);
            window_stat(window, usage, double(spent), double(remaining))
        })
        .collect()
}

#[test]
fn windows_sum_within_horizon() {
    let mut m = UsageMeter::new();
    let now = 1_000_000i64;
    record(&mut m, "go", 3.0, now - 100);
    record(&mut m, "go", 4.0, now - 10_000);
    record(&mut m, "go", 5.0, now - 20_000);
    let s = stats(&m, "go", vec![w("5h", 18000, 12.0), w("7d", 604800, 30.0)], now);
    assert_eq!(s[0].label, "5h");
    assert_eq!(value_of(&s[0].spent), 7.0);
    assert_eq!(value_of(&s[0].remaining), 5.0);
    assert_eq!(value_of(&s[1].spent), 12.0);
    assert_eq!(value_of(&s[1].remaining), 18.0);
}

#[test]
fn exhausted_when_over_limit() {
    let mut m = UsageMeter::new();
    let now = 1_000i64;
    assert!(!UsageMeter::exhausted(&stats(&m, "go", vec![w("5h", 18000, 12.0)], now)));
    record(&mut m, "go", 12.5, now);
    assert!(UsageMeter::exhausted(&stats(&m, "go", vec![w("5h", 18000, 12.0)], now)));
    assert!(!UsageMeter::exhausted(&stats(&m, "zen", vec![w("5h", 18000, 12.0)], now)));
    assert!(!UsageMeter::exhausted(&stats(&m, "go", vec![], now)));
}

#[test]
fn zero_cost_is_ignored() {
    let mut m = UsageMeter::new();
    assert!(!record(&mut m, "go", 0.0, 100));
    assert!(!record(&mut m, "go", -1.0, 100));
    let s = stats(&m, "go", vec![w("5h", 18000, 12.0)], 100);
    assert_eq!(value_of(&s[0].spent), 0.0);
}

#[test]
fn what_is_no_amount_is_ignored() {
    let mut m = UsageMeter::new();
    assert!(!record(&mut m, "go", f64::NAN, 100));
    assert!(!record(&mut m, "go", f64::INFINITY, 100));
    assert!(!record(&mut m, "go", f64::NEG_INFINITY, 100));
    assert!(record(&mut m, "go", f64::MIN_POSITIVE, 100));
    assert_eq!(m.events("go", KIND).len(), 1);
}

#[test]
fn reset_in_secs_tracks_oldest_in_window() {
    let mut m = UsageMeter::new();
    let now = 100_000i64;
    record(&mut m, "go", 1.0, now - 1000);
    record(&mut m, "go", 1.0, now - 500);
    let s = stats(&m, "go", vec![w("5h", 18000, 12.0)], now);
    assert_eq!(s[0].reset_in_secs, 17000);
}

#[test]
fn an_empty_window_resets_after_its_whole_length() {
    let m = UsageMeter::new();
    let s = stats(&m, "go", vec![w("5h", 18000, 12.0)], 7);
    assert_eq!(s[0].reset_in_secs, 18000);
    assert_eq!(value_of(&s[0].remaining), 12.0);
}

#[test]
fn load_seeds_events() {
    let mut m = UsageMeter::new();
    let stored = |ts: i64, amount: f64| StoredEvent {
        provider: "go".into(),
        kind: KIND,
        event: UsageEvent { ts, amount: double(amount) },
    };
    m.load(&vec![stored(100, 2.0), stored(200, 3.0)]);
    let s = stats(&m, "go", vec![w("5h", 18000, 12.0)], 210);
    assert_eq!(value_of(&s[0].spent), 5.0);
}

#[test]
fn loading_puts_events_into_their_order() {
    let mut m = UsageMeter::new();
    let stored = |ts: i64| StoredEvent {
        provider: "go".into(),
        kind: UsageKind::Token,
        event: UsageEvent { ts, amount: double(1.0) },
    };
    m.load(&vec![stored(300), stored(100), stored(200)]);
    let times: Vec<i64> = m.events("go", UsageKind::Token).iter().map(|e| e.ts).collect();
    assert_eq!(times, vec![100, 200, 300]);
    assert_eq!(m.events("go", UsageKind::Count).len(), 0);
}

#[test]
fn old_events_are_forgotten() {
    let mut m = UsageMeter::new();
    let days = 24 * 60 * 60;
    record(&mut m, "go", 1.0, 0);
    record(&mut m, "go", 1.0, 400 * days);
    let times: Vec<i64> = m.events("go", KIND).iter().map(|e| e.ts).collect();
    assert_eq!(times, vec![400 * days]);
}

/// What an upstream's `cost` reads as.
fn parse_cost(v: &JsonValue) -> Option<f64> {
    match cost_text(v)? {
        CostText::Number(n) => n.to_text().parse().ok(),
        CostText::Text(t) => t.parse().ok(),
    }
}

#[test]
fn parse_cost_handles_string_and_number() {
    assert_eq!(parse_cost(&json("\"1.5\"")), Some(1.5));
    assert_eq!(parse_cost(&json("2.0")), Some(2.0));
    assert_eq!(parse_cost(&json("\"0\"")), Some(0.0));
    assert_eq!(parse_cost(&json("\"abc\"")), None);
    assert_eq!(parse_cost(&json("null")), None);
    assert_eq!(parse_cost(&json("\" 1.5\\n\"")), Some(1.5));
}

#[test]
fn effective_cost_prefers_real_then_estimate() {
    let cost = |actual: Option<f64>, price: Option<(f64, f64)>, tokens: (u64, u64)| {
        let estimate = price
            .map(|(i, o)| (tokens.0 as f64) / 1e6 * i + (tokens.1 as f64) / 1e6 * o);
        effective_cost(actual.map(double), estimate.map(double)).map(|c| value_of(&c))
    };
    let p = (0.4, 1.6);
    assert_eq!(cost(Some(0.5), Some(p), (999, 999)), Some(0.5));
    assert_eq!(cost(Some(0.0), Some(p), (1_000_000, 0)), Some(0.4));
    assert_eq!(cost(None, Some(p), (0, 1_000_000)), Some(1.6));
    assert_eq!(cost(Some(0.0), None, (10, 10)), None);
    assert_eq!(cost(None, None, (0, 0)), None);
}

#[test]
fn tokens_from_usage_extracts() {
    let u = json(r#"{ "prompt_tokens": 92, "completion_tokens": 200, "total_tokens": 292 }"#);
    assert_eq!(tokens_from_usage(Some(&u)), (Some(92), Some(200)));
    assert_eq!(tokens_from_usage(None), (None, None));
    assert_eq!(tokens_from_usage(Some(&json("{}"))), (None, None));
}

#[test]
fn each_kind_has_its_own_unit() {
    let charge = |kind: UsageKind| amount_for(kind, Some(double(0.5)), None, Some(3), Some(4));
    assert_eq!(charge(UsageKind::Billing), Some(Amount::Dollars(double(0.5))));
    assert_eq!(charge(UsageKind::Count), Some(Amount::Units(1)));
    assert_eq!(charge(UsageKind::Token), Some(Amount::Units(7)));
    assert_eq!(amount_for(UsageKind::Billing, None, None, Some(3), Some(4)), None);
    assert_eq!(
        amount_for(UsageKind::Token, None, None, Some(u64::MAX), Some(1)),
        Some(Amount::Units(u64::MAX as u128 + 1))
    );
}

#[test]
fn an_answer_states_its_cost_and_tokens() {
    let resp = json(
        r#"{"usage":{"prompt_tokens":5,"completion_tokens":2},"cost":"0.5"}"#,
    );
    let u = answer_usage(&resp);
    assert_eq!(u.cost, Some(CostText::Text("0.5".into())));
    assert_eq!((u.prompt_tokens, u.completion_tokens), (Some(5), Some(2)));
    let none = answer_usage(&json("{}"));
    assert_eq!(none.cost, None);
    assert_eq!((none.prompt_tokens, none.completion_tokens), (None, None));
}

#[test]
fn one_spent_window_exhausts_a_provider() {
    let stat = |remaining: f64| WindowStat {
        label: "x".into(),
        limit: double(1.0),
        spent: double(1.0 - remaining),
        remaining: double(remaining),
        reset_in_secs: 1,
    };
    let usage = |remaining: Vec<f64>| ProviderUsage {
        specs: vec![SpecStats { stats: remaining.into_iter().map(stat).collect() }],
    };
    let mut all = Dict::new();
    all.insert("spent", usage(vec![0.5, 0.0]));
    all.insert("left", usage(vec![0.5]));
    all.insert("unlimited", usage(vec![]));
    assert_eq!(UsageMeter::exhausted_set(&all), vec!["spent".to_string()]);
}

#[test]
fn windows_that_overflow_the_clock_are_told_apart() {
    let m = UsageMeter::new();
    assert!(m.windows_fit("go", KIND, &vec![w("x", 18000, 1.0)], 0));
    assert!(!m.windows_fit("go", KIND, &vec![w("x", 18000, 1.0)], i64::MIN));
}

#[test]
fn the_oldest_charge_counts_whatever_the_order_of_recording() {
    let mut m = UsageMeter::new();
    record(&mut m, "go", 1.0, 99_500);
    record(&mut m, "go", 1.0, 99_000);
    let s = stats(&m, "go", vec![w("5h", 18000, 12.0)], 100_000);
    assert_eq!(s[0].reset_in_secs, 17000);
    assert_eq!(value_of(&s[0].spent), 2.0);
    let times: Vec<i64> = m.events("go", KIND).iter().map(|e| e.ts).collect();
    assert_eq!(times, vec![99_000, 99_500]);
}

#[test]
fn what_is_no_amount_is_ignored_at_any_time() {
    let mut m = UsageMeter::new();
    record(&mut m, "go", 1.0, 1_000);
    for x in [f64::NAN, f64::INFINITY, f64::NEG_INFINITY, 0.0, -1.0] {
        assert!(!record(&mut m, "go", x, i64::MIN));
        assert!(!record(&mut m, "go", x, i64::MAX));
    }
    assert_eq!(m.events("go", KIND).len(), 1);
}

#[test]
fn every_window_of_every_spec_is_read_at_once() {
    let mut m = UsageMeter::new();
    m.record("go", UsageKind::Billing, double(2.5), 900);
    m.record("go", UsageKind::Count, double(1.0), 950);
    let specs = vec![
        UsageSpec::Count { windows: vec![w("1m", 60, 5.0), w("10s", 10, 5.0)] },
        UsageSpec::Billing {
            windows: vec![w("5h", 18000, 12.0)],
            model_prices: Dict::new(),
        },
        UsageSpec::Token { windows: vec![] },
    ];
    let usages = m.usages("go", &specs, 1_000).unwrap();
    assert_eq!(usages.len(), 3);
    assert_eq!(usages[0].windows.len(), 2);
    assert_eq!(usages[0].windows[0].amounts.len(), 1);
    assert_eq!(usages[0].windows[0].reset_in_secs, 10);
    assert!(usages[0].windows[1].amounts.is_empty());
    assert_eq!(usages[0].windows[1].reset_in_secs, 10);
    assert_eq!(value_of(&usages[1].windows[0].amounts[0]), 2.5);
    assert_eq!(usages[1].windows[0].reset_in_secs, 17900);
    assert!(usages[2].windows.is_empty());
    let broken = vec![UsageSpec::Count { windows: vec![w("ever", i64::MAX as u64, 1.0)] }];
    assert!(m.usages("go", &broken, -10).is_none());
}
