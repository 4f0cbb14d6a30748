//! What the bridge decides about a request, and what it tells of itself.

use vstd::prelude::*;

use crate::canonical::{CanonicalRequest, RequestView};
use crate::config::{
    Config, ConfigView, ModelPrice, PriceView, Provider, ProviderView, SpecView, UsageKind,
    UsageSpec, UsageWindow, WindowView,
};
use crate::config_json::{dict_json, list_jsons, opt_signed, opt_string, ToJson};
use crate::dict::Dict;
use crate::double::opt_double;
use crate::error::{BridgeError, ErrorView};
use crate::json::{Json, JsonValue};
use crate::router::{resolve_candidates, Resolved, ResolvedView};
use crate::store::{
    load_into_config, ProviderStatus, RouteRow, RouteRowView, StatusView, StoredProvider,
    StoredProviderView,
};
use crate::text::{concat2, str_eq, strip_prefix};
use crate::usage::{signed, ProviderUsage, SpecStats, StatView, UsageMeter, WindowStat};
use crate::wire::anthropic::{AnthropicEmitter, AnthropicView};
use crate::wire::chat::completion_to_events;
use crate::wire::responses::{ResponsesEmitter, ResponsesView};
use crate::wire::{anthropic, chat, emit_all, responses, CanonicalEmitter};

verus! {

/// Whether a request may pass: no token is configured, or the request carries it, as a
/// bearer token or as an API key.
pub open spec fn authorized(
    token: Option<Seq<char>>,
    authorization: Option<Seq<char>>,
    api_key: Option<Seq<char>>,
) -> bool {
    match token {
        None => true,
        Some(t) => {
            ||| authorization matches Some(a) && crate::text::without_prefix(a, "Bearer "@) == Some(t)
            ||| api_key == Some(t)
        },
    }
}

/// Check a request's `authorization` and `x-api-key` headers against the configured token.
pub fn check_auth(cfg: &Config, authorization: Option<&str>, api_key: Option<&str>) -> (r: Result<
    (),
    BridgeError,
>)
    ensures
        match r {
            Ok(_) => authorized(
                cfg@.auth_token,
                crate::text::opt_view(authorization),
                crate::text::opt_view(api_key),
            ),
            Err(e) => !authorized(
                cfg@.auth_token,
                crate::text::opt_view(authorization),
                crate::text::opt_view(api_key),
            ) && e@ == ErrorView::Unauthorized("invalid bridge auth token"@),
        },
{
    let expected = match &cfg.auth_token {
        Some(t) => t,
        None => {
            return Ok(());
        },
    };
    let bearer = match authorization {
        Some(a) => strip_prefix(a, "Bearer "),
        None => None,
    };
    let by_bearer = match bearer {
        Some(b) => str_eq(b, expected.as_str()),
        None => false,
    };
    let by_key = match api_key {
        Some(k) => str_eq(k, expected.as_str()),
        None => false,
    };
    if by_bearer || by_key {
        Ok(())
    } else {
        Err(BridgeError::Unauthorized("invalid bridge auth token".to_owned()))
    }
}

/// The dialect a client speaks.
#[derive(Debug, Clone, Copy, PartialEq, Eq, Structural)]
pub enum Dialect {
    Responses,
    Messages,
    Chat,
}

/// A request that is taken on: what is asked, and who is to be asked, in order.
#[derive(Debug)]
pub struct Accepted<'a> {
    pub request: CanonicalRequest,
    pub candidates: Vec<Resolved<'a>>,
}

/// The model of an `Accepted`.
pub struct AcceptedView {
    pub request: RequestView,
    pub candidates: Seq<ResolvedView>,
}

impl<'a> View for Accepted<'a> {
    type V = AcceptedView;

    open spec fn view(&self) -> AcceptedView {
        AcceptedView {
            request: self.request@,
            candidates: crate::text::seq_view(self.candidates@),
        }
    }
}

/// A request body, read in a dialect.
pub open spec fn read_body(dialect: Dialect, body: Json) -> Result<RequestView, ErrorView> {
    match dialect {
        Dialect::Responses => crate::wire::responses::parsed_request(body),
        Dialect::Messages => crate::wire::anthropic::parsed_request(body),
        Dialect::Chat => crate::wire::chat::parsed_request(body),
    }
}

/// What becomes of a request: it is refused where it carries no valid token, and only then
/// read; what can be read is refused where no provider takes its model.
pub open spec fn accepted(
    cfg: ConfigView,
    dialect: Dialect,
    authorization: Option<Seq<char>>,
    api_key: Option<Seq<char>>,
    body: Json,
    status: Map<Seq<char>, StatusView>,
    exhausted: Seq<Seq<char>>,
) -> Result<AcceptedView, ErrorView> {
    if !authorized(cfg.auth_token, authorization, api_key) {
        Err(ErrorView::Unauthorized("invalid bridge auth token"@))
    } else {
        match read_body(dialect, body) {
            Err(e) => Err(e),
            Ok(request) => match crate::router::candidate_chain(
                cfg,
                status,
                exhausted,
                request.model,
            ) {
                Err(e) => Err(e),
                Ok(candidates) => Ok(AcceptedView { request, candidates }),
            },
        }
    }
}

/// Take a request on, or refuse it.
pub fn accept<'a>(
    cfg: &'a Config,
    dialect: Dialect,
    authorization: Option<&str>,
    api_key: Option<&str>,
    body: &JsonValue,
    status: &Dict<ProviderStatus>,
    exhausted: &Vec<String>,
) -> (r: Result<Accepted<'a>, BridgeError>)
    ensures
        crate::text::res_view(r) == accepted(
            cfg@,
            dialect,
            crate::text::opt_view(authorization),
            crate::text::opt_view(api_key),
            body@,
            status@,
            crate::text::seq_view(exhausted@),
        ),
{
    match check_auth(cfg, authorization, api_key) {
        Err(e) => {
            return Err(e);
        },
        Ok(_) => {},
    }
    let parsed = match dialect {
        Dialect::Responses => responses::parse_request(body),
        Dialect::Messages => anthropic::parse_request(body),
        Dialect::Chat => chat::parse_request(body),
    };
    let request = match parsed {
        Err(e) => {
            return Err(e);
        },
        Ok(q) => q,
    };
    match resolve_candidates(cfg, status, exhausted, request.model.as_str()) {
        Err(e) => Err(e),
        Ok(candidates) => Ok(Accepted { request, candidates }),
    }
}

/// A request without a valid token is answered as unauthorized, whatever else is wrong
/// with it.
pub proof fn refused_requests_are_not_read(
    cfg: ConfigView,
    dialect: Dialect,
    authorization: Option<Seq<char>>,
    api_key: Option<Seq<char>>,
    body: Json,
    status: Map<Seq<char>, StatusView>,
    exhausted: Seq<Seq<char>>,
)
    requires
        !authorized(cfg.auth_token, authorization, api_key),
    ensures
        accepted(cfg, dialect, authorization, api_key, body, status, exhausted) matches Err(e)
            && e.http_status() == 401,
{
}

/// Without a configured token every token is accepted, and so is none.
pub proof fn no_token_means_open(authorization: Option<Seq<char>>, api_key: Option<Seq<char>>)
    ensures
        authorized(None, authorization, api_key),
{
}

/// Both ways of sending the token are accepted, whatever the other header says.
pub proof fn both_headers_carry_the_token(token: Seq<char>, other: Option<Seq<char>>)
    ensures
        authorized(Some(token), Some("Bearer "@ + token), other),
        authorized(Some(token), other, Some(token)),
{
    let a = "Bearer "@ + token;
    let n = "Bearer "@.len() as int;
    assert(a.take(n) =~= "Bearer "@);
    assert(a.skip(n) =~= token);
}

/// A request that is taken on has somebody to ask.
pub proof fn accepted_requests_have_candidates(
    cfg: ConfigView,
    dialect: Dialect,
    authorization: Option<Seq<char>>,
    api_key: Option<Seq<char>>,
    body: Json,
    status: Map<Seq<char>, StatusView>,
    exhausted: Seq<Seq<char>>,
)
    ensures
        accepted(cfg, dialect, authorization, api_key, body, status, exhausted) matches Ok(a)
            ==> a.candidates.len() > 0,
{
}

/// What a whole upstream answer may become as a Responses object: the outcome of running
/// its events, under fresh identifiers.
pub open spec fn is_responses_answer(resp: Json, response_id: Seq<char>, answer: Json) -> bool {
    let evs = crate::wire::chat::completion_events(resp, response_id);
    exists|ids: Seq<Seq<char>>| #[trigger]
        crate::wire::responses_laws::named(ResponsesView::initial(), evs, ids) && answer
            == crate::wire::responses_laws::run(
            ResponsesView::initial(),
            evs,
            ids,
        ).completed_response()
}

/// A whole upstream answer as a Responses object; `None` where it has more events than an
/// emitter counts.
pub fn responses_answer(resp: &JsonValue, response_id: &str) -> (r: Option<JsonValue>)
    ensures
        r matches Some(answer) ==> is_responses_answer(resp@, response_id@, answer@),
        r is None ==> crate::wire::chat::completion_events(resp@, response_id@).len() > u32::MAX,
{
    let events = completion_to_events(resp, response_id);
    let ghost evs = crate::text::seq_view(events@);
    let mut emitter = ResponsesEmitter::new();
    let ghost start = emitter;
    let out = emit_all(&mut emitter, &events);
    proof {
        let taken = evs.take(out.taken as int);
        let (states, parts) = choose|
            states: Seq<ResponsesEmitter>,
            parts: Seq<Seq<crate::wire::FrameView>>,
        | #[trigger]
            crate::wire::passes(taken, states, parts) && states[0] == start && states.last()
                == emitter && crate::text::seq_view(out.frames@) == crate::wire::in_a_row(parts);
        let ids = crate::wire::responses_laws::emitters_follow_the_model(taken, states, parts);
        if out.taken < events@.len() && evs.len() <= u32::MAX {
            crate::wire::responses_laws::room_lasts(taken, ids);
        }
        if out.taken == events@.len() {
            assert(taken =~= evs);
            assert(crate::wire::responses_laws::named(ResponsesView::initial(), evs, ids));
        }
    }
    if out.taken < events.len() {
        None
    } else {
        Some(emitter.final_response())
    }
}

/// A whole upstream answer as an Anthropic message.
pub open spec fn messages_answer_of(resp: Json, response_id: Seq<char>) -> Json {
    crate::wire::anthropic_laws::run(
        AnthropicView::initial(),
        crate::wire::chat::completion_events(resp, response_id),
    ).state.final_message()
}

/// A whole upstream answer as an Anthropic message; `None` where it has more events than
/// an emitter counts.
pub fn messages_answer(resp: &JsonValue, response_id: &str) -> (r: Option<JsonValue>)
    ensures
        r matches Some(answer) ==> answer@ == messages_answer_of(resp@, response_id@),
        r is None ==> crate::wire::chat::completion_events(resp@, response_id@).len() > u32::MAX,
{
    let events = completion_to_events(resp, response_id);
    let ghost evs = crate::text::seq_view(events@);
    let mut emitter = AnthropicEmitter::new();
    let ghost start = emitter;
    let out = emit_all(&mut emitter, &events);
    proof {
        let taken = evs.take(out.taken as int);
        let (states, parts) = choose|
            states: Seq<AnthropicEmitter>,
            parts: Seq<Seq<crate::wire::FrameView>>,
        | #[trigger]
            crate::wire::passes(taken, states, parts) && states[0] == start && states.last()
                == emitter && crate::text::seq_view(out.frames@) == crate::wire::in_a_row(parts);
        crate::wire::anthropic_laws::emitters_follow_the_model(taken, states, parts);
        if out.taken < events@.len() && evs.len() <= u32::MAX {
            crate::wire::anthropic_laws::room_lasts(taken);
        }
        if out.taken == events@.len() {
            assert(taken =~= evs);
        }
    }
    if out.taken < events.len() {
        None
    } else {
        Some(emitter.final_message())
    }
}

/// A usage kind with the price of the served model, where the kind knows one.
#[derive(Debug, PartialEq)]
pub struct KindPrice {
    pub kind: UsageKind,
    pub price: Option<ModelPrice>,
}

/// The model of a `KindPrice`.
pub struct KindPriceView {
    pub kind: UsageKind,
    pub price: Option<PriceView>,
}

impl View for KindPrice {
    type V = KindPriceView;

    open spec fn view(&self) -> KindPriceView {
        KindPriceView { kind: self.kind, price: crate::text::opt_view(self.price) }
    }
}

/// The kinds in which a provider is metered, with the price of the served model.
pub open spec fn metered_kinds(cfg: ConfigView, provider: Seq<char>, model: Seq<char>) -> Seq<
    KindPriceView,
> {
    match crate::dict::lookup(cfg.providers, provider) {
        Some(p) => p.usage.map_values(
            |s: SpecView| KindPriceView { kind: s.kind(), price: s.price_of(model) },
        ),
        None => Seq::empty(),
    }
}

/// The provider's usage kinds paired with the served model's billing price (if any).
pub fn usage_kinds(cfg: &Config, provider: &str, model: &str) -> (r: Vec<KindPrice>)
    ensures
        crate::text::seq_view(r@) == metered_kinds(cfg@, provider@, model@),
{
    broadcast use crate::text::group_views;

    let mut out: Vec<KindPrice> = Vec::new();
    match cfg.providers.get(provider) {
        Some(p) => {
            let mut i: usize = 0;
            while i < p.usage.len()
                invariant
                    i <= p.usage@.len(),
                    out@.len() == i,
                    forall|j: int|
                        0 <= j < i ==> (#[trigger] out@[j])@ == (KindPriceView {
                            kind: p.usage@[j]@.kind(),
                            price: p.usage@[j]@.price_of(model@),
                        }),
                decreases p.usage@.len() - i,
            {
                let kind = p.usage[i].kind();
                let price = p.usage[i].price_of(model);
                out.push(KindPrice { kind, price });
                i = i + 1;
            }
            assert(crate::text::seq_view(out@) =~= metered_kinds(cfg@, provider@, model@));
        },
        None => {},
    }
    out
}

/// In which kinds a served request is to be charged: none where tracking is off or the
/// provider is not metered.
pub fn cost_recorder(cfg: &Config, tracking: bool, provider: &str, model: &str) -> (r: Option<
    Vec<KindPrice>,
>)
    ensures
        r is Some <==> tracking && metered_kinds(cfg@, provider@, model@).len() > 0,
        r matches Some(kinds) ==> crate::text::seq_view(kinds@) == metered_kinds(
            cfg@,
            provider@,
            model@,
        ),
{
    if !tracking {
        return None;
    }
    let kinds = usage_kinds(cfg, provider, model);
    proof {
        assert(crate::text::seq_view(kinds@).len() == kinds@.len());
    }
    if kinds.len() == 0 {
        None
    } else {
        Some(kinds)
    }
}

/// The providers that are passed over for what is spent of their windows; nobody where
/// tracking is off.
pub fn demoted(usage: Option<&Dict<ProviderUsage>>) -> (r: Vec<String>)
    ensures
        match usage {
            None => r@.len() == 0,
            Some(u) => crate::text::seq_view(r@).no_duplicates() && forall|name: Seq<char>|
                #![trigger crate::text::seq_view(r@).contains(name)]
                #![trigger u@.dom().contains(name)]
                crate::text::seq_view(r@).contains(name) <==> u@.dom().contains(name)
                    && crate::usage::provider_exhausted(u@[name]),
        },
{
    match usage {
        None => Vec::new(),
        Some(u) => UsageMeter::exhausted_set(u),
    }
}

/// A window with what is spent of it.
pub open spec fn live_window_json(w: WindowView, st: StatView) -> Json {
    crate::config_json::window_json(w).with("spent"@, st.spent.json).with(
        "remaining"@,
        st.remaining.json,
    ).with("reset_in_secs"@, Json::signed(st.reset_in_secs))
}

/// The windows of a usage spec: as they are configured, or with what is spent of them.
pub open spec fn windows_view(windows: Seq<WindowView>, stats: Option<Seq<StatView>>) -> Seq<Json> {
    match stats {
        None => crate::config_json::jsons::<UsageWindow>(windows),
        Some(st) => Seq::new(
            if windows.len() <= st.len() {
                windows.len()
            } else {
                st.len()
            },
            |i: int| live_window_json(windows[i], st[i]),
        ),
    }
}

/// A usage spec: its type, its unit, its windows and, for billing, the prices of models.
pub open spec fn spec_view(spec: SpecView, stats: Option<Seq<StatView>>) -> Json {
    Json::obj().with("usage_type"@, Json::Str(crate::config::kind_name(spec.kind()))).with(
        "unit"@,
        Json::Str(crate::config::kind_unit(spec.kind())),
    ).with("windows"@, Json::Arr(windows_view(spec.windows(), stats))).with_opt(
        "model_prices"@,
        match spec.model_prices() {
            Some(m) => Some(crate::config_json::prices_json(m)),
            None => None,
        },
    )
}

/// The usage of a provider, spec by spec; without statistics where tracking is off.
pub open spec fn usage_jsons(specs: Seq<SpecView>, stats: Option<Seq<Seq<StatView>>>) -> Seq<Json> {
    Seq::new(
        specs.len(),
        |i: int|
            spec_view(
                specs[i],
                match stats {
                    Some(s) => Some(
                        if i < s.len() {
                            s[i]
                        } else {
                            Seq::empty()
                        },
                    ),
                    None => None,
                },
            ),
    )
}

fn live_windows(windows: &Vec<UsageWindow>, stats: &Vec<WindowStat>) -> (r: Vec<JsonValue>)
    ensures
        crate::json::values_view(r@) == windows_view(
            crate::text::seq_view(windows@),
            Some(crate::text::seq_view(stats@)),
        ),
{
    let ghost ws = crate::text::seq_view(windows@);
    let ghost st = crate::text::seq_view(stats@);
    let mut out: Vec<JsonValue> = Vec::new();
    let mut i: usize = 0;
    while i < windows.len() && i < stats.len()
        invariant
            i <= windows@.len(),
            i <= stats@.len(),
            out@.len() == i,
            ws == crate::text::seq_view(windows@),
            st == crate::text::seq_view(stats@),
            forall|j: int| 0 <= j < i ==> (#[trigger] out@[j])@ == live_window_json(ws[j], st[j]),
        decreases windows@.len() - i,
    {
        let w = windows[i].to_json();
        out.push(
            w.with("spent", stats[i].spent.to_json()).with(
                "remaining",
                stats[i].remaining.to_json(),
            ).with("reset_in_secs", JsonValue::signed(stats[i].reset_in_secs)),
        );
        i = i + 1;
    }
    assert(crate::json::values_view(out@) =~= windows_view(ws, Some(st)));
    out
}

/// Per-provider usage view: one entry per usage spec. With statistics, windows carry what
/// is spent and what remains; otherwise just the configuration.
pub fn usage_view(specs: &Vec<UsageSpec>, stats: Option<&ProviderUsage>) -> (r: Vec<JsonValue>)
    ensures
        crate::json::values_view(r@) == usage_jsons(
            crate::text::seq_view(specs@),
            crate::text::opt_view(stats),
        ),
{
    broadcast use crate::text::group_views;

    let ghost view = crate::text::seq_view(specs@);
    let ghost all = usage_jsons(view, crate::text::opt_view(stats));
    let empty: Vec<WindowStat> = Vec::new();
    let mut out: Vec<JsonValue> = Vec::new();
    let mut i: usize = 0;
    while i < specs.len()
        invariant
            i <= specs@.len(),
            out@.len() == i,
            view == crate::text::seq_view(specs@),
            all == usage_jsons(view, crate::text::opt_view(stats)),
            crate::text::seq_view(empty@) == Seq::<StatView>::empty(),
            forall|j: int| 0 <= j < i ==> (#[trigger] out@[j])@ == all[j],
        decreases specs@.len() - i,
    {
        let kind = specs[i].kind();
        let windows = match stats {
            Some(s) => if i < s.specs.len() {
                assert(s@[i as int] == s.specs@[i as int]@);
                live_windows(specs[i].windows(), &s.specs[i].stats)
            } else {
                live_windows(specs[i].windows(), &empty)
            },
            None => list_jsons(specs[i].windows()),
        };
        let prices = match specs[i].model_prices() {
            Some(m) => Some(dict_json(m)),
            None => None,
        };
        assert(view[i as int] == specs@[i as int]@);
        out.push(
            JsonValue::obj().with("usage_type", JsonValue::str(kind.as_str())).with(
                "unit",
                JsonValue::str(kind.unit()),
            ).with("windows", JsonValue::Array(windows)).with_opt("model_prices", prices),
        );
        i = i + 1;
    }
    assert(crate::json::values_view(out@) =~= all);
    out
}

/// The status of a provider, or what stands for it where there is none.
pub open spec fn known_status(status: Map<Seq<char>, StatusView>, name: Seq<char>) -> StatusView {
    match crate::dict::lookup(status, name) {
        Some(s) => s,
        None => StatusView::unknown(),
    }
}

/// The statistics of a provider, where usage is tracked.
pub open spec fn known_usage(
    usage: Option<Map<Seq<char>, Seq<Seq<StatView>>>>,
    name: Seq<char>,
) -> Option<Seq<Seq<StatView>>> {
    match usage {
        Some(m) => Some(
            match crate::dict::lookup(m, name) {
                Some(u) => u,
                None => Seq::empty(),
            },
        ),
        None => None,
    }
}

/// A provider as the status endpoint shows it.
pub open spec fn provider_status_json(
    name: Seq<char>,
    p: ProviderView,
    s: StatusView,
    usage: Option<Seq<Seq<StatView>>>,
) -> Json {
    Json::obj().with("name"@, Json::Str(name)).with("base_url"@, Json::Str(p.base_url)).with(
        "probe_enabled"@,
        Json::Bool(p.probed()),
    ).with("available"@, Json::Bool(s.available)).with(
        "quota_remaining"@,
        crate::double::opt_double_json(s.quota_remaining),
    ).with("quota_used"@, crate::double::opt_double_json(s.quota_used)).with(
        "quota_limit"@,
        crate::double::opt_double_json(s.quota_limit),
    ).with("quota_min"@, crate::double::opt_double_json(p.quota_min)).with(
        "last_checked"@,
        crate::config_json::opt_signed_json(s.last_checked),
    ).with("last_ok"@, Json::Bool(s.last_ok)).with("error"@, Json::opt_str(s.error)).with(
        "note"@,
        Json::opt_str(s.note),
    ).with("usage"@, Json::Arr(usage_jsons(p.usage, usage)))
}

fn status_entry(
    name: &str,
    p: &Provider,
    s: &ProviderStatus,
    usage: Option<&ProviderUsage>,
) -> (r: JsonValue)
    ensures
        r@ == provider_status_json(name@, p@, s@, crate::text::opt_view(usage)),
{
    JsonValue::obj().with("name", JsonValue::str(name)).with(
        "base_url",
        JsonValue::str(p.base_url.as_str()),
    ).with("probe_enabled", JsonValue::Bool(p.probe_enabled())).with(
        "available",
        JsonValue::Bool(s.available),
    ).with("quota_remaining", opt_double(&s.quota_remaining)).with(
        "quota_used",
        opt_double(&s.quota_used),
    ).with("quota_limit", opt_double(&s.quota_limit)).with(
        "quota_min",
        opt_double(&p.quota_min),
    ).with("last_checked", opt_signed(s.last_checked)).with(
        "last_ok",
        JsonValue::Bool(s.last_ok),
    ).with("error", opt_string(&s.error)).with("note", opt_string(&s.note)).with(
        "usage",
        JsonValue::Array(usage_view(&p.usage, usage)),
    )
}

/// The status of a provider, or the default one.
pub fn status_of(status: &Dict<ProviderStatus>, name: &str) -> (r: ProviderStatus)
    ensures
        r@ == known_status(status@, name@),
{
    match status.get(name) {
        Some(s) => s.clone(),
        None => ProviderStatus::default(),
    }
}

/// A provider without windows.
pub fn no_usage() -> (r: ProviderUsage)
    ensures
        r@ == Seq::<Seq<StatView>>::empty(),
{
    broadcast use crate::text::group_views;

    let specs: Vec<SpecStats> = Vec::new();
    ProviderUsage { specs }
}

/// The watcher's view of each provider, by name.
pub open spec fn providers_report(
    cfg: ConfigView,
    status: Map<Seq<char>, StatusView>,
    usage: Option<Map<Seq<char>, Seq<Seq<StatView>>>>,
) -> Json {
    Json::obj().with(
        "providers"@,
        Json::Arr(
            crate::dict::in_key_order(cfg.providers).map_values(
                |e: (Seq<char>, ProviderView)|
                    provider_status_json(
                        e.0,
                        e.1,
                        known_status(status, e.0),
                        known_usage(usage, e.0),
                    ),
            ),
        ),
    ).with("cost_tracking"@, Json::Bool(usage is Some))
}

/// Watcher view of each provider: availability, quota, last-check info, and usage. The
/// statistics are there where usage is tracked.
pub fn providers_status(
    cfg: &Config,
    status: &Dict<ProviderStatus>,
    usage: Option<&Dict<ProviderUsage>>,
) -> (r: JsonValue)
    ensures
        r@ == providers_report(cfg@, status@, crate::text::opt_view(usage)),
{
    let n = cfg.providers.len();
    let ghost pairs = cfg.providers.pairs();
    let ghost u = crate::text::opt_view(usage);
    let none = no_usage();
    let mut out: Vec<JsonValue> = Vec::new();
    let mut i: usize = 0;
    while i < n
        invariant
            i <= n,
            n == pairs.len(),
            pairs == cfg.providers.pairs(),
            out@.len() == i,
            u == crate::text::opt_view(usage),
            none@ == Seq::<Seq<StatView>>::empty(),
            forall|j: int|
                0 <= j < i ==> (#[trigger] out@[j])@ == provider_status_json(
                    pairs[j].0,
                    pairs[j].1,
                    known_status(status@, pairs[j].0),
                    known_usage(u, pairs[j].0),
                ),
        decreases n - i,
    {
        let name = cfg.providers.key(i).as_str();
        let s = status_of(status, name);
        let stats = match usage {
            Some(m) => match m.get(name) {
                Some(x) => Some(x),
                None => Some(&none),
            },
            None => None,
        };
        out.push(status_entry(name, cfg.providers.value(i), &s, stats));
        i = i + 1;
    }
    assert(crate::json::values_view(out@) =~= pairs.map_values(
        |e: (Seq<char>, ProviderView)|
            provider_status_json(e.0, e.1, known_status(status@, e.0), known_usage(u, e.0)),
    ));
    JsonValue::obj().with("providers", JsonValue::Array(out)).with(
        "cost_tracking",
        JsonValue::Bool(usage.is_some()),
    )
}

/// The configured aliases, as models.
pub open spec fn models_report(cfg: ConfigView) -> Json {
    Json::obj().with("object"@, Json::Str("list"@)).with(
        "data"@,
        Json::Arr(
            cfg.routes.map_values(
                |r: crate::config::RouteView|
                    Json::obj().with("id"@, Json::Str(r.alias)).with(
                        "object"@,
                        Json::Str("model"@),
                    ).with("owned_by"@, Json::Str(r.provider)),
            ),
        ),
    )
}

/// The configured aliases, as models.
pub fn list_models(cfg: &Config) -> (r: JsonValue)
    ensures
        r@ == models_report(cfg@),
{
    let ghost view = cfg@.routes;
    let mut out: Vec<JsonValue> = Vec::new();
    let mut i: usize = 0;
    while i < cfg.routes.len()
        invariant
            i <= cfg.routes@.len(),
            out@.len() == i,
            view == cfg@.routes,
            forall|j: int|
                0 <= j < i ==> (#[trigger] out@[j])@ == Json::obj().with(
                    "id"@,
                    Json::Str(view[j].alias),
                ).with("object"@, Json::Str("model"@)).with(
                    "owned_by"@,
                    Json::Str(view[j].provider),
                ),
        decreases cfg.routes@.len() - i,
    {
        out.push(
            JsonValue::obj().with("id", JsonValue::str(cfg.routes[i].alias.as_str())).with(
                "object",
                JsonValue::str("model"),
            ).with("owned_by", JsonValue::str(cfg.routes[i].provider.as_str())),
        );
        i = i + 1;
    }
    assert(crate::json::values_view(out@) =~= view.map_values(
        |r: crate::config::RouteView|
            Json::obj().with("id"@, Json::Str(r.alias)).with("object"@, Json::Str("model"@)).with(
                "owned_by"@,
                Json::Str(r.provider),
            ),
    ));
    JsonValue::obj().with("object", JsonValue::str("list")).with("data", JsonValue::Array(out))
}

/// The unix time in seconds, from what the clock says of it; zero where the clock stands
/// before the epoch.
pub open spec fn unix_secs(since_epoch: Option<u64>) -> int {
    match since_epoch {
        Some(n) => crate::usage::signed_secs(n),
        None => 0,
    }
}

/// Current unix time in seconds, from the seconds since the epoch that the clock gives.
pub fn now_secs(since_epoch: Option<u64>) -> (r: i64)
    ensures
        r == unix_secs(since_epoch),
{
    match since_epoch {
        Some(n) => signed(n),
        None => 0,
    }
}

/// Drop the statuses of providers that no longer exist.
pub fn prune_statuses(status: &mut Dict<ProviderStatus>, providers: &Dict<Provider>)
    ensures
        final(status)@ == old(status)@.restrict(providers@.dom()),
{
    let n = status.len();
    let ghost pairs = status.pairs();
    let ghost keep = providers@.dom();
    let mut out: Dict<ProviderStatus> = Dict::new();
    let mut i: usize = 0;
    assert(crate::dict::pairs_map(pairs.take(0)) =~= Map::empty());
    assert(out@ =~= crate::dict::pairs_map(pairs.take(0)).restrict(keep));
    while i < n
        invariant
            i <= n,
            n == pairs.len(),
            pairs == status.pairs(),
            status@ == old(status)@,
            keep == providers@.dom(),
            crate::dict::ascending(pairs),
            out@ == crate::dict::pairs_map(pairs.take(i as int)).restrict(keep),
        decreases n - i,
    {
        proof {
            crate::dict::lemma_pairs_take(pairs, i as int);
        }
        let name = status.key(i).as_str();
        if providers.contains_key(name) {
            out.insert(name, status.value(i).clone());
        }
        assert(out@ =~= crate::dict::pairs_map(pairs.take(i as int + 1)).restrict(keep));
        i = i + 1;
    }
    assert(pairs.take(i as int) =~= pairs);
    *status = out;
}

/// The configuration after a reload: the process-level settings of the present one, with
/// the providers and routes that are stored, under the keys that the environment gives;
/// or what is wrong with what is stored.
pub open spec fn reloaded(
    cfg: ConfigView,
    providers: Seq<StoredProviderView>,
    routes: Seq<RouteRowView>,
    vars: Map<Seq<char>, Seq<char>>,
) -> Result<ConfigView, ErrorView> {
    match crate::store::providers_in(providers) {
        Err(m) => Err(ErrorView::Internal("reload from db: "@ + m)),
        Ok(m) => Ok(
            ConfigView {
                providers: crate::config::under_env_keys(m, vars),
                routes: crate::store::routes_in(routes),
                ..cfg
            },
        ),
    }
}

/// Rebuild the live configuration from what is stored.
pub fn reload_config(
    cfg: &Config,
    providers: Vec<StoredProvider>,
    routes: Vec<RouteRow>,
    vars: &Dict<String>,
) -> (r: Result<Config, BridgeError>)
    ensures
        crate::text::res_view(r) == reloaded(
            cfg@,
            crate::text::seq_view(providers@),
            crate::text::seq_view(routes@),
            vars@,
        ),
{
    let mut new = cfg.clone();
    match load_into_config(&mut new, providers, routes) {
        Err(m) => Err(BridgeError::Internal(concat2("reload from db: ", m.as_str()))),
        Ok(_) => {
            new.apply_env_overrides(vars);
            Ok(new)
        },
    }
}

/// A reload keeps what is set for the process as a whole, and keeps a status for no
/// provider that is gone.
pub proof fn reloads_keep_the_process_settings(
    cfg: ConfigView,
    providers: Seq<StoredProviderView>,
    routes: Seq<RouteRowView>,
    vars: Map<Seq<char>, Seq<char>>,
    status: Map<Seq<char>, StatusView>,
    name: Seq<char>,
)
    ensures
        reloaded(cfg, providers, routes, vars) matches Ok(new) ==> {
            &&& new.listen == cfg.listen && new.database == cfg.database
            &&& new.default_provider == cfg.default_provider && new.auth_token == cfg.auth_token
            &&& new.cost_tracking == cfg.cost_tracking && new.fallback_route == cfg.fallback_route
            &&& status.restrict(new.providers.dom()).dom().contains(name)
                ==> new.providers.dom().contains(name)
        },
{
}

} // verus!
