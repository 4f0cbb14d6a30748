//! Who may ask, what is answered about the bridge itself, and how its configuration is
//! written as documents.

use vstd::prelude::*;

use crate::config::{
    ConfigView, ModelPrice, PriceView, ProviderView, RouteTarget, SpecView, TargetView, UsageSpec,
    UsageWindow, WindowView,
};
use crate::config_json::ToJson;
use crate::double::DoubleView;
use crate::error::ErrorView;
use crate::json::Json;
use crate::server::{AcceptedView, Dialect};
use crate::store::StatusView;
use crate::usage::StatView;

verus! {

/// A request may pass where no token is configured, and otherwise exactly where it carries
/// the token: behind the word that a bearer token has before it, or as the API key.
pub proof fn only_the_token_opens(
    token: Seq<char>,
    authorization: Option<Seq<char>>,
    api_key: Option<Seq<char>>,
)
    ensures
        crate::server::authorized(None, authorization, api_key),
        crate::server::authorized(Some(token), authorization, api_key) <==> authorization == Some(
            "Bearer "@ + token,
        ) || api_key == Some(token),
{
    let a = "Bearer "@ + token;
    let n = "Bearer "@.len() as int;
    assert(a.take(n) =~= "Bearer "@);
    assert(a.skip(n) =~= token);
    if let Some(x) = authorization {
        if crate::text::without_prefix(x, "Bearer "@) == Some(token) {
            assert(x =~= x.take(n) + x.skip(n));
        }
    }
}

/// A request that is taken on was read in its dialect, and is to be asked of the candidates
/// for its model. One that is not is answered with why: that it carries no valid token; or
/// else that it cannot be read; or else that nobody takes its model.
pub proof fn requests_are_taken_on_or_refused(
    cfg: ConfigView,
    dialect: Dialect,
    authorization: Option<Seq<char>>,
    api_key: Option<Seq<char>>,
    body: Json,
    status: Map<Seq<char>, StatusView>,
    exhausted: Seq<Seq<char>>,
)
    ensures
        ({
            let read = match dialect {
                Dialect::Responses => crate::wire::responses::parsed_request(body),
                Dialect::Messages => crate::wire::anthropic::parsed_request(body),
                Dialect::Chat => crate::wire::chat::parsed_request(body),
            };
            let out = crate::server::accepted(
                cfg,
                dialect,
                authorization,
                api_key,
                body,
                status,
                exhausted,
            );
            let open = match cfg.auth_token {
                None => true,
                Some(t) => authorization == Some("Bearer "@ + t) || api_key == Some(t),
            };
            match (open, read) {
                (false, _) => out == Err::<AcceptedView, ErrorView>(
                    ErrorView::Unauthorized("invalid bridge auth token"@),
                ),
                (true, Err(e)) => out == Err::<AcceptedView, ErrorView>(e),
                (true, Ok(request)) => match crate::router::candidate_chain(
                    cfg,
                    status,
                    exhausted,
                    request.model,
                ) {
                    Err(e) => out == Err::<AcceptedView, ErrorView>(e),
                    Ok(chain) => out matches Ok(a) && a.request == request && a.candidates == chain,
                },
            }
        }),
{
    if let Some(t) = cfg.auth_token {
        only_the_token_opens(t, authorization, api_key);
    }
}

/// A provider is metered in the kinds of its usage, in their order; with the price of the
/// served model where the kind is billing and the model has one. One that is not configured
/// is not metered.
pub proof fn metering_follows_the_usage(
    cfg: ConfigView,
    provider: Seq<char>,
    model: Seq<char>,
    i: int,
)
    ensures
        ({
            let kinds = crate::server::metered_kinds(cfg, provider, model);
            let usage = cfg.providers[provider].usage;
            &&& !cfg.providers.dom().contains(provider) ==> kinds.len() == 0
            &&& cfg.providers.dom().contains(provider) ==> kinds.len() == usage.len()
            &&& cfg.providers.dom().contains(provider) && 0 <= i < usage.len() ==> match usage[i] {
                SpecView::Billing { model_prices, .. } => {
                    &&& kinds[i].kind is Billing
                    &&& model_prices.dom().contains(model) ==> kinds[i].price == Some(
                        model_prices[model],
                    )
                    &&& !model_prices.dom().contains(model) ==> kinds[i].price is None
                },
                SpecView::Count { .. } => kinds[i].kind is Count && kinds[i].price is None,
                SpecView::Token { .. } => kinds[i].kind is Token && kinds[i].price is None,
            }
        }),
{
}

proof fn lemma_window_keys()
    ensures
        "label"@.len() == 5,
        "limit"@.len() == 5,
        "spent"@.len() == 5,
        "label"@ != "limit"@,
        "label"@ != "spent"@,
        "limit"@ != "spent"@,
        "window_secs"@.len() == 11,
        "remaining"@.len() == 9,
        "reset_in_secs"@.len() == 13,
        "usage_type"@.len() == 10,
        "unit"@.len() == 4,
        "windows"@.len() == 7,
        "model_prices"@.len() == 12,
        "input"@.len() == 5,
        "output"@.len() == 6,
{
    reveal_strlit("label");
    reveal_strlit("limit");
    reveal_strlit("spent");
    reveal_strlit("window_secs");
    reveal_strlit("remaining");
    reveal_strlit("reset_in_secs");
    reveal_strlit("usage_type");
    reveal_strlit("unit");
    reveal_strlit("windows");
    reveal_strlit("model_prices");
    reveal_strlit("input");
    reveal_strlit("output");
    assert("label"@[0] == 'l' && "limit"@[0] == 'l' && "spent"@[0] == 's');
    assert("label"@[1] == 'a' && "limit"@[1] == 'i');
}

/// Whether a document shows a window: its label, how long it is, and its limit.
pub open spec fn shows_window(j: Json, w: WindowView) -> bool {
    &&& j.get("label"@) == Some(Json::Str(w.label))
    &&& j.get("window_secs"@) == Some(Json::num(w.window_secs))
    &&& j.get("limit"@) == Some(w.limit.json)
}

/// Whether a document shows what is spent of a window, what remains of it, and when it is
/// free again.
pub open spec fn shows_spending(j: Json, st: StatView) -> bool {
    &&& j.get("spent"@) == Some(st.spent.json)
    &&& j.get("remaining"@) == Some(st.remaining.json)
    &&& j.get("reset_in_secs"@) == Some(Json::signed(st.reset_in_secs))
}

/// Whether a document shows the prices of models: of each what its input and its output
/// cost, and of no other model anything.
pub open spec fn shows_prices(j: Json, prices: Map<Seq<char>, PriceView>) -> bool {
    &&& j is Obj
    &&& forall|m: Seq<char>|
        #![trigger prices.dom().contains(m)]
        #![trigger j.get(m)]
        if prices.dom().contains(m) {
            &&& j.get2(m, "input"@) == Some(prices[m].input.json)
            &&& j.get2(m, "output"@) == Some(prices[m].output.json)
        } else {
            j.get(m) is None
        }
}

/// Whether a document shows the kind of a usage spec and, for billing, its prices.
pub open spec fn shows_kind(j: Json, spec: SpecView) -> bool {
    match spec {
        SpecView::Billing { model_prices, .. } => {
            &&& j.get("usage_type"@) == Some(Json::Str("billing"@))
            &&& j.get("model_prices"@) matches Some(p) && shows_prices(p, model_prices)
        },
        SpecView::Count { .. } => j.get("usage_type"@) == Some(Json::Str("count"@)) && j.get(
            "model_prices"@,
        ) is None,
        SpecView::Token { .. } => j.get("usage_type"@) == Some(Json::Str("token"@)) && j.get(
            "model_prices"@,
        ) is None,
    }
}

/// The windows of a usage spec.
pub open spec fn windows_in(spec: SpecView) -> Seq<WindowView> {
    match spec {
        SpecView::Billing { windows, .. } => windows,
        SpecView::Count { windows } => windows,
        SpecView::Token { windows } => windows,
    }
}

proof fn lemma_prices(prices: Map<Seq<char>, PriceView>)
    ensures
        shows_prices(crate::config_json::prices_json(prices), prices),
{
    lemma_window_keys();
}

/// A usage spec is shown with its type, its unit and its windows, in their order; and, for
/// billing, the prices of its models. Where usage is tracked each window shows what is spent
/// of it, as far as there are statistics.
pub proof fn usage_specs_are_shown(spec: SpecView, stats: Option<Seq<StatView>>)
    ensures
        ({
            let j = crate::server::spec_view(spec, stats);
            let windows = windows_in(spec);
            &&& shows_kind(j, spec)
            &&& spec is Billing ==> j.get("unit"@) == Some(Json::Str("usd"@))
            &&& spec is Count ==> j.get("unit"@) == Some(Json::Str("requests"@))
            &&& spec is Token ==> j.get("unit"@) == Some(Json::Str("tokens"@))
            &&& j.get("windows"@) matches Some(Json::Arr(docs)) && match stats {
                None => docs.len() == windows.len() && forall|i: int|
                    0 <= i < docs.len() ==> shows_window(#[trigger] docs[i], windows[i]),
                Some(st) => docs.len() <= windows.len() && docs.len() <= st.len() && (docs.len()
                    == windows.len() || docs.len() == st.len()) && forall|i: int|
                    0 <= i < docs.len() ==> shows_window(#[trigger] docs[i], windows[i])
                        && shows_spending(docs[i], st[i]),
            }
        }),
{
    lemma_window_keys();
    if let SpecView::Billing { model_prices, .. } = spec {
        lemma_prices(model_prices);
    }
}

/// A usage spec is written with its type and its windows, in their order; and, for billing,
/// the prices of its models.
pub proof fn usage_specs_are_written(spec: SpecView)
    ensures
        ({
            let j = <UsageSpec as ToJson>::json(spec);
            let windows = windows_in(spec);
            &&& shows_kind(j, spec)
            &&& j.get("windows"@) matches Some(Json::Arr(docs)) && docs.len() == windows.len()
                && forall|i: int|
                0 <= i < docs.len() ==> shows_window(#[trigger] docs[i], windows[i])
        }),
{
    lemma_window_keys();
    if let SpecView::Billing { model_prices, .. } = spec {
        lemma_prices(model_prices);
    }
}

/// Windows, prices, strings and targets are written member by member.
pub proof fn parts_are_written(w: WindowView, p: PriceView, s: Seq<char>, t: TargetView)
    ensures
        shows_window(<UsageWindow as ToJson>::json(w), w),
        shows_window(<crate::config::CostWindow as ToJson>::json(w), w),
        <ModelPrice as ToJson>::json(p).get("input"@) == Some(p.input.json),
        <ModelPrice as ToJson>::json(p).get("output"@) == Some(p.output.json),
        <String as ToJson>::json(s) == Json::Str(s),
        <RouteTarget as ToJson>::json(t).get("provider"@) == Some(Json::Str(t.provider)),
        <RouteTarget as ToJson>::json(t).get("model"@) == Some(Json::Str(t.model)),
{
    lemma_window_keys();
    reveal_strlit("provider");
    reveal_strlit("model");
    assert("provider"@.len() == 8 && "model"@.len() == 5);
}

/// What is not there is written as `null`, and what is there as it is.
pub proof fn absence_is_null(
    n: Option<u64>,
    i: Option<i64>,
    b: Option<bool>,
    s: Option<Seq<char>>,
    d: Option<DoubleView>,
)
    ensures
        crate::config_json::opt_num_json(n) == match n {
            Some(n) => Json::num(n),
            None => Json::Null,
        },
        crate::config_json::opt_signed_json(i) == match i {
            Some(i) => Json::signed(i),
            None => Json::Null,
        },
        crate::config_json::opt_bool_json(b) == match b {
            Some(b) => Json::Bool(b),
            None => Json::Null,
        },
        Json::opt_str(s) == match s {
            Some(s) => Json::Str(s),
            None => Json::Null,
        },
        crate::double::opt_double_json(d) == match d {
            Some(d) => d.json,
            None => Json::Null,
        },
{
}

proof fn lemma_status_keys()
    ensures
        "name"@.len() == 4,
        "note"@.len() == 4,
        "name"@ != "note"@,
        "base_url"@.len() == 8,
        "probe_enabled"@.len() == 13,
        "available"@.len() == 9,
        "quota_remaining"@.len() == 15,
        "quota_used"@.len() == 10,
        "quota_limit"@.len() == 11,
        "quota_min"@.len() == 9,
        "available"@ != "quota_min"@,
        "last_checked"@.len() == 12,
        "last_ok"@.len() == 7,
        "error"@.len() == 5,
        "usage"@.len() == 5,
        "error"@ != "usage"@,
{
    reveal_strlit("name");
    reveal_strlit("note");
    reveal_strlit("base_url");
    reveal_strlit("probe_enabled");
    reveal_strlit("available");
    reveal_strlit("quota_remaining");
    reveal_strlit("quota_used");
    reveal_strlit("quota_limit");
    reveal_strlit("quota_min");
    reveal_strlit("last_checked");
    reveal_strlit("last_ok");
    reveal_strlit("error");
    reveal_strlit("usage");
    assert("name"@[1] == 'a' && "note"@[1] == 'o');
    assert("available"@[0] == 'a' && "quota_min"@[0] == 'q');
    assert("error"@[0] == 'e' && "usage"@[0] == 'u');
}

/// Whether a document shows a provider: its name and where it is, whether it is probed, what
/// is known of it, and its usage, spec by spec.
pub open spec fn shows_provider(
    j: Json,
    name: Seq<char>,
    p: ProviderView,
    s: StatusView,
    usage: Option<Seq<Seq<StatView>>>,
) -> bool {
    &&& j.get("name"@) == Some(Json::Str(name))
    &&& j.get("base_url"@) == Some(Json::Str(p.base_url))
    &&& j.get("probe_enabled"@) == Some(Json::Bool(p.probed()))
    &&& j.get("available"@) == Some(Json::Bool(s.available))
    &&& j.get("quota_remaining"@) == Some(crate::double::opt_double_json(s.quota_remaining))
    &&& j.get("quota_used"@) == Some(crate::double::opt_double_json(s.quota_used))
    &&& j.get("quota_limit"@) == Some(crate::double::opt_double_json(s.quota_limit))
    &&& j.get("quota_min"@) == Some(crate::double::opt_double_json(p.quota_min))
    &&& j.get("last_checked"@) == Some(crate::config_json::opt_signed_json(s.last_checked))
    &&& j.get("last_ok"@) == Some(Json::Bool(s.last_ok))
    &&& j.get("error"@) == Some(Json::opt_str(s.error))
    &&& j.get("note"@) == Some(Json::opt_str(s.note))
    &&& j.get("usage"@) matches Some(Json::Arr(docs)) && docs.len() == p.usage.len() && forall|
        i: int,
    |
        0 <= i < docs.len() ==> #[trigger] docs[i] == crate::server::spec_view(
            p.usage[i],
            match usage {
                None => None,
                Some(st) => Some(
                    if i < st.len() {
                        st[i]
                    } else {
                        Seq::empty()
                    },
                ),
            },
        )
}

/// The report on the providers shows each of them once, in the order of their names, with
/// what is known of it; nothing is known of one without a status. It says whether usage is
/// tracked, and shows what is spent where it is.
pub proof fn providers_are_reported(
    cfg: ConfigView,
    status: Map<Seq<char>, StatusView>,
    usage: Option<Map<Seq<char>, Seq<Seq<StatView>>>>,
    all: Seq<(Seq<char>, ProviderView)>,
)
    requires
        crate::dict::ascending(all),
        crate::dict::pairs_map(all) == cfg.providers,
    ensures
        ({
            let report = crate::server::providers_report(cfg, status, usage);
            &&& report.get("cost_tracking"@) == Some(Json::Bool(usage is Some))
            &&& report.get("providers"@) matches Some(Json::Arr(docs)) && docs.len() == all.len()
                && forall|i: int|
                0 <= i < docs.len() ==> {
                    let name = all[i].0;
                    let known = if status.dom().contains(name) {
                        status[name]
                    } else {
                        (StatusView {
                            available: false,
                            quota_remaining: None,
                            quota_used: None,
                            quota_limit: None,
                            last_checked: None,
                            last_ok: false,
                            error: None,
                            note: None,
                        })
                    };
                    let spent = match usage {
                        None => None,
                        Some(m) => Some(
                            if m.dom().contains(name) {
                                m[name]
                            } else {
                                Seq::empty()
                            },
                        ),
                    };
                    shows_provider(#[trigger] docs[i], name, all[i].1, known, spent)
                }
        }),
{
    lemma_status_keys();
    reveal_strlit("providers");
    reveal_strlit("cost_tracking");
    assert("providers"@.len() == 9 && "cost_tracking"@.len() == 13);
    crate::dict::key_order_is_unique(all);
}

/// The models that are listed are the aliases of the routes, in their order, each owned by
/// the provider of its route.
pub proof fn models_are_the_aliases(cfg: ConfigView)
    ensures
        ({
            let report = crate::server::models_report(cfg);
            &&& report.get("object"@) == Some(Json::Str("list"@))
            &&& report.get("data"@) matches Some(Json::Arr(docs)) && docs.len() == cfg.routes.len()
                && forall|i: int|
                0 <= i < docs.len() ==> {
                    &&& (#[trigger] docs[i]).get("id"@) == Some(Json::Str(cfg.routes[i].alias))
                    &&& docs[i].get("object"@) == Some(Json::Str("model"@))
                    &&& docs[i].get("owned_by"@) == Some(Json::Str(cfg.routes[i].provider))
                }
        }),
{
    reveal_strlit("object");
    reveal_strlit("data");
    reveal_strlit("id");
    reveal_strlit("owned_by");
    assert("object"@.len() == 6 && "data"@.len() == 4 && "id"@.len() == 2);
    assert("owned_by"@.len() == 8);
}

/// The time is the seconds since the epoch, and zero where the clock stands before it.
pub proof fn time_starts_at_the_epoch(n: u64)
    ensures
        n <= i64::MAX ==> crate::server::unix_secs(Some(n)) == n,
        crate::server::unix_secs(None) == 0,
{
}

/// A reload takes the stored providers and routes on, each provider under the key that the
/// environment has for it, where it has one. It fails where the stored providers cannot be
/// read, and says why.
pub proof fn reloads_take_on_what_is_stored(
    cfg: ConfigView,
    providers: Seq<crate::store::StoredProviderView>,
    routes: Seq<crate::store::RouteRowView>,
    vars: Map<Seq<char>, Seq<char>>,
    name: Seq<char>,
)
    ensures
        match crate::store::providers_in(providers) {
            Err(m) => crate::server::reloaded(cfg, providers, routes, vars) == Err::<
                ConfigView,
                ErrorView,
            >(ErrorView::Internal("reload from db: "@ + m)),
            Ok(stored) => crate::server::reloaded(cfg, providers, routes, vars) matches Ok(new) && {
                let variable = "BRIDGE_PROVIDERS_"@ + crate::config::uppercase(name) + "_API_KEY"@;
                &&& new.routes.len() == routes.len()
                &&& forall|i: int|
                    0 <= i < routes.len() ==> #[trigger] new.routes[i] == crate::store::route_in(
                        routes[i],
                    )
                &&& new.providers.dom().contains(name) <==> stored.dom().contains(name)
                &&& stored.dom().contains(name) ==> new.providers[name] == (ProviderView {
                    api_key: if vars.dom().contains(variable) {
                        Some(vars[variable])
                    } else {
                        stored[name].api_key
                    },
                    ..stored[name]
                })
            },
        },
{
}

} // verus!
