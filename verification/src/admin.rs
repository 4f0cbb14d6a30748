//! Management of providers and routes: what a request to change them means, and how they
//! are listed.

use vstd::prelude::*;
use vstd::string::*;

use crate::config::{
    default_max_tokens_field, Config, ConfigView, CostWindow, ModelPrice, PriceView, ProbeSource,
    Provider, ProviderView, Route, RouteTarget, RouteView, SpecView, TargetView, UsageSpec,
    WindowView, WireName,
};
use crate::config_json::{
    dict_json, list_json, opt_bool, opt_num, opt_signed, opt_string,
};
use crate::dict::{str_less, Dict};
use crate::double::{opt_double, Double, DoubleView};
use crate::error::{BridgeError, ErrorView};
use crate::json::{Json, JsonValue};
use crate::server::{check_auth, no_usage, status_of, usage_view};
use crate::store::{source_to_str, str_to_source, ProviderStatus, StatusView};
use crate::text::{concat2, concat3, str_eq, trim};
use crate::usage::{ProviderUsage, StatView};

verus! {

/// What a management request is answered: `answer` where the request may pass, and a
/// refusal where it may not.
pub open spec fn guarded<T>(
    cfg: ConfigView,
    authorization: Option<Seq<char>>,
    api_key: Option<Seq<char>>,
    answer: Result<T, ErrorView>,
) -> Result<T, ErrorView> {
    if crate::server::authorized(cfg.auth_token, authorization, api_key) {
        answer
    } else {
        Err(ErrorView::Unauthorized("invalid bridge auth token"@))
    }
}

/// What is asked for a provider.
#[derive(Debug, PartialEq)]
pub struct ProviderInput {
    /// Only read on create; on update the name comes from the path.
    pub name: Option<String>,
    pub wire: String,
    pub base_url: String,
    /// Blank or omitted on update preserves the stored key; a value replaces it.
    pub api_key: Option<String>,
    pub model_prefix: Option<String>,
    pub max_tokens_field: Option<String>,
    pub extra_headers: Dict<String>,
    pub probe_script: Option<String>,
    pub probe_script_text: Option<String>,
    pub probe_source: Option<String>,
    /// Explicit watcher on/off (none: on when a script source is set).
    pub probe_enabled: Option<bool>,
    pub probe_interval_secs: Option<u64>,
    pub quota_min: Option<Double>,
    pub cost_windows: Vec<CostWindow>,
    pub model_prices: Dict<ModelPrice>,
    pub usage: Vec<UsageSpec>,
}

/// The model of a `ProviderInput`.
pub struct InputView {
    pub name: Option<Seq<char>>,
    pub wire: Seq<char>,
    pub base_url: Seq<char>,
    pub api_key: Option<Seq<char>>,
    pub model_prefix: Option<Seq<char>>,
    pub max_tokens_field: Option<Seq<char>>,
    pub extra_headers: Map<Seq<char>, Seq<char>>,
    pub probe_script: Option<Seq<char>>,
    pub probe_script_text: Option<Seq<char>>,
    pub probe_source: Option<Seq<char>>,
    pub probe_enabled: Option<bool>,
    pub probe_interval_secs: Option<u64>,
    pub quota_min: Option<DoubleView>,
    pub cost_windows: Seq<WindowView>,
    pub model_prices: Map<Seq<char>, PriceView>,
    pub usage: Seq<SpecView>,
}

impl View for ProviderInput {
    type V = InputView;

    open spec fn view(&self) -> InputView {
        InputView {
            name: crate::text::opt_view(self.name),
            wire: self.wire@,
            base_url: self.base_url@,
            api_key: crate::text::opt_view(self.api_key),
            model_prefix: crate::text::opt_view(self.model_prefix),
            max_tokens_field: crate::text::opt_view(self.max_tokens_field),
            extra_headers: self.extra_headers@,
            probe_script: crate::text::opt_view(self.probe_script),
            probe_script_text: crate::text::opt_view(self.probe_script_text),
            probe_source: crate::text::opt_view(self.probe_source),
            probe_enabled: self.probe_enabled,
            probe_interval_secs: self.probe_interval_secs,
            quota_min: crate::text::opt_view(self.quota_min),
            cost_windows: crate::text::seq_view(self.cost_windows@),
            model_prices: self.model_prices@,
            usage: crate::text::seq_view(self.usage@),
        }
    }
}

/// A text without the white space around it; nothing where nothing is left.
pub open spec fn cleaned(s: Option<Seq<char>>) -> Option<Seq<char>> {
    match s {
        Some(t) => if crate::text::trimmed(t).len() > 0 {
            Some(crate::text::trimmed(t))
        } else {
            None
        },
        None => None,
    }
}

/// Drop blank strings, so that blank form fields are not stored.
pub fn non_empty(s: Option<String>) -> (r: Option<String>)
    ensures
        crate::text::opt_view(r) == cleaned(crate::text::opt_view(s)),
{
    match s {
        Some(t) => {
            let u = trim(t.as_str());
            if u.is_empty() {
                None
            } else {
                Some(u.to_owned())
            }
        },
        None => None,
    }
}

/// The source of probe scripts that a form names.
pub fn parse_probe_source(s: Option<&str>) -> (r: ProbeSource)
    ensures
        r == crate::store::source_named(crate::text::opt_view(s)),
{
    str_to_source(s)
}

/// The provider that is asked for, or what is wrong with it. The key `stored` is kept
/// where the form leaves the key blank.
pub open spec fn provided(input: InputView, stored: Option<Seq<char>>) -> Result<
    ProviderView,
    ErrorView,
> {
    match crate::config::wire_named(input.wire) {
        None => Err(
            ErrorView::BadRequest(
                "unknown wire '"@ + input.wire
                    + "' (expected openai-chat | openai-responses | anthropic-messages)"@,
            ),
        ),
        Some(wire) => {
            let base_url = crate::text::trimmed(input.base_url);
            if base_url.len() == 0 {
                Err(ErrorView::BadRequest("base_url is required"@))
            } else {
                Ok(
                    ProviderView {
                        wire,
                        base_url,
                        api_key: match cleaned(input.api_key) {
                            Some(k) => Some(k),
                            None => stored,
                        },
                        model_prefix: cleaned(input.model_prefix),
                        max_tokens_field: match cleaned(input.max_tokens_field) {
                            Some(f) => f,
                            None => "max_tokens"@,
                        },
                        extra_headers: input.extra_headers,
                        probe_script: cleaned(input.probe_script),
                        probe_script_text: cleaned(input.probe_script_text),
                        probe_source: crate::store::source_named(input.probe_source),
                        probe_enabled: input.probe_enabled,
                        probe_interval_secs: input.probe_interval_secs,
                        quota_min: input.quota_min,
                        cost_windows: input.cost_windows,
                        model_prices: input.model_prices,
                        usage: input.usage,
                        models: Seq::empty(),
                    }.normalized(),
                )
            }
        },
    }
}

impl ProviderInput {
    /// Build a `Provider`, validating wire and base URL. `existing_api_key` is folded in
    /// when the form leaves the key blank.
    pub fn into_provider(self, existing_api_key: Option<String>) -> (r: Result<
        Provider,
        BridgeError,
    >)
        ensures
            crate::text::res_view(r) == provided(
                self@,
                crate::text::opt_view(existing_api_key),
            ),
    {
        broadcast use crate::text::group_views;

        let wire = match WireName::parse(self.wire.as_str()) {
            Some(w) => w,
            None => {
                return Err(
                    BridgeError::BadRequest(
                        concat3(
                            "unknown wire '",
                            self.wire.as_str(),
                            "' (expected openai-chat | openai-responses | anthropic-messages)",
                        ),
                    ),
                );
            },
        };
        let base_url = trim(self.base_url.as_str()).to_owned();
        if base_url.as_str().is_empty() {
            return Err(BridgeError::bad_request("base_url is required"));
        }
        let api_key = match non_empty(self.api_key) {
            Some(k) => Some(k),
            None => existing_api_key,
        };
        let max_tokens_field = match non_empty(self.max_tokens_field) {
            Some(f) => f,
            None => default_max_tokens_field(),
        };
        let probe_source = match &self.probe_source {
            Some(s) => parse_probe_source(Some(s.as_str())),
            None => parse_probe_source(None),
        };
        let mut provider = Provider {
            wire,
            base_url,
            api_key,
            model_prefix: non_empty(self.model_prefix),
            max_tokens_field,
            extra_headers: self.extra_headers,
            probe_script: non_empty(self.probe_script),
            probe_script_text: non_empty(self.probe_script_text),
            probe_source,
            probe_enabled: self.probe_enabled,
            probe_interval_secs: self.probe_interval_secs,
            quota_min: self.quota_min,
            cost_windows: self.cost_windows,
            model_prices: self.model_prices,
            usage: self.usage,
            models: Vec::new(),
        };
        provider.normalize_usage();
        Ok(provider)
    }
}

/// Leaving the key blank keeps the stored one; a key replaces it.
pub proof fn blank_keys_keep_the_stored_one(input: InputView, stored: Option<Seq<char>>)
    ensures
        provided(input, stored) matches Ok(p) ==> p.api_key == match cleaned(input.api_key) {
            Some(k) => Some(k),
            None => stored,
        },
        provided(input, stored) is Ok <==> provided(input, None) is Ok,
{
}

/// Nothing blank is stored: a provider that is taken on has a base URL, and its optional
/// texts are absent or hold something.
pub proof fn nothing_blank_is_stored(input: InputView)
    ensures
        provided(input, None) matches Ok(p) ==> {
            &&& p.base_url.len() > 0
            &&& p.max_tokens_field.len() > 0
            &&& p.api_key matches Some(t) ==> t.len() > 0
            &&& p.model_prefix matches Some(t) ==> t.len() > 0
            &&& p.probe_script matches Some(t) ==> t.len() > 0
            &&& p.probe_script_text matches Some(t) ==> t.len() > 0
        },
{
    reveal_strlit("max_tokens");
    assert("max_tokens"@.len() == 10);
}

/// The name of a provider that is to be created, or the error that there is none.
pub open spec fn name_for(name: Option<Seq<char>>) -> Result<Seq<char>, ErrorView> {
    match cleaned(name) {
        Some(n) => Ok(n),
        None => Err(ErrorView::BadRequest("name is required"@)),
    }
}

/// The name of a provider that is to be created.
pub fn new_provider_name(name: Option<String>) -> (r: Result<String, BridgeError>)
    ensures
        crate::text::res_view(r) == name_for(crate::text::opt_view(name)),
{
    match non_empty(name) {
        Some(n) => Ok(n),
        None => Err(BridgeError::bad_request("name is required")),
    }
}

/// The provider to create under `name`, given whether the name is taken.
pub open spec fn created(name: Seq<char>, taken: bool, input: InputView) -> Result<
    ProviderView,
    ErrorView,
> {
    if taken {
        Err(ErrorView::Conflict("provider '"@ + name + "' already exists"@))
    } else {
        provided(input, None)
    }
}

/// The provider to create under `name`, given whether the name is taken.
pub fn create_provider(
    cfg: &Config,
    authorization: Option<&str>,
    api_key: Option<&str>,
    name: &str,
    taken: bool,
    input: ProviderInput,
) -> (r: Result<Provider, BridgeError>)
    ensures
        crate::text::res_view(r) == guarded(
            cfg@,
            crate::text::opt_view(authorization),
            crate::text::opt_view(api_key),
            created(name@, taken, input@),
        ),
{
    if let Err(e) = check_auth(cfg, authorization, api_key) {
        return Err(e);
    }
    if taken {
        Err(BridgeError::Conflict(concat3("provider '", name, "' already exists")))
    } else {
        input.into_provider(None)
    }
}

/// The error that there is no provider `name`.
pub open spec fn no_provider(name: Seq<char>) -> ErrorView {
    ErrorView::NotFound("no such provider: "@ + name)
}

/// The error that there is no route `alias`.
pub open spec fn no_route(alias: Seq<char>) -> ErrorView {
    ErrorView::NotFound("no such route: "@ + alias)
}

/// What the provider `name` becomes, given what is stored under the name.
pub open spec fn updated(name: Seq<char>, existing: Option<ProviderView>, input: InputView) -> Result<
    ProviderView,
    ErrorView,
> {
    match existing {
        None => Err(no_provider(name)),
        Some(p) => provided(input, p.api_key),
    }
}

/// What the provider `name` becomes, given what is stored under the name.
pub fn update_provider(
    cfg: &Config,
    authorization: Option<&str>,
    api_key: Option<&str>,
    name: &str,
    existing: Option<Provider>,
    input: ProviderInput,
) -> (r: Result<Provider, BridgeError>)
    ensures
        crate::text::res_view(r) == guarded(
            cfg@,
            crate::text::opt_view(authorization),
            crate::text::opt_view(api_key),
            updated(name@, crate::text::opt_view(existing), input@),
        ),
{
    if let Err(e) = check_auth(cfg, authorization, api_key) {
        return Err(e);
    }
    match existing {
        None => Err(BridgeError::NotFound(concat2("no such provider: ", name))),
        Some(p) => input.into_provider(p.api_key),
    }
}

/// How many routes have `name` as their provider.
pub open spec fn routes_to(routes: Seq<RouteView>, name: Seq<char>) -> nat
    decreases routes.len(),
{
    if routes.len() == 0 {
        0
    } else {
        routes_to(routes.drop_last(), name) + if routes.last().provider == name {
            1nat
        } else {
            0
        }
    }
}

fn count_routes(cfg: &Config, name: &str) -> (r: u64)
    ensures
        r == routes_to(cfg@.routes, name@),
{
    let ghost view = cfg@.routes;
    let mut n: u64 = 0;
    let mut i: usize = 0;
    assert(view.take(0) =~= Seq::empty());
    while i < cfg.routes.len()
        invariant
            i <= cfg.routes@.len(),
            view == cfg@.routes,
            n <= i,
            n == routes_to(view.take(i as int), name@),
        decreases cfg.routes@.len() - i,
    {
        assert(view.take(i as int + 1).drop_last() =~= view.take(i as int));
        assert(view.take(i as int + 1).last() == view[i as int]);
        if str_eq(cfg.routes[i].provider.as_str(), name) {
            n = n + 1;
        }
        i = i + 1;
    }
    assert(view.take(i as int) =~= view);
    n
}

/// The answer to the deletion of the provider `name`, of which `removed` rows went; the
/// routes to it go with it, and are counted.
pub open spec fn provider_deleted(cfg: ConfigView, name: Seq<char>, removed: u64) -> Result<
    Json,
    ErrorView,
> {
    if removed == 0 {
        Err(no_provider(name))
    } else {
        Ok(
            Json::obj().with("ok"@, Json::Bool(true)).with(
                "cascaded_routes"@,
                Json::num(routes_to(cfg.routes, name) as u64),
            ),
        )
    }
}

/// The answer to the deletion of the provider `name`, of which `removed` rows went.
pub fn delete_provider(
    cfg: &Config,
    authorization: Option<&str>,
    api_key: Option<&str>,
    name: &str,
    removed: u64,
) -> (r: Result<JsonValue, BridgeError>)
    ensures
        crate::text::res_view(r) == guarded(
            cfg@,
            crate::text::opt_view(authorization),
            crate::text::opt_view(api_key),
            provider_deleted(cfg@, name@, removed),
        ),
{
    if let Err(e) = check_auth(cfg, authorization, api_key) {
        return Err(e);
    }
    if removed == 0 {
        Err(BridgeError::NotFound(concat2("no such provider: ", name)))
    } else {
        Ok(
            JsonValue::obj().with("ok", JsonValue::Bool(true)).with(
                "cascaded_routes",
                JsonValue::num(count_routes(cfg, name)),
            ),
        )
    }
}

/// What is asked for a route.
#[derive(Debug, PartialEq)]
pub struct RouteInput {
    /// Only read on create; on update the alias comes from the path.
    pub alias: Option<String>,
    pub provider: String,
    pub model: String,
    pub fallback: Vec<RouteTarget>,
}

/// The model of a `RouteInput`.
pub struct RouteInputView {
    pub alias: Option<Seq<char>>,
    pub provider: Seq<char>,
    pub model: Seq<char>,
    pub fallback: Seq<TargetView>,
}

impl View for RouteInput {
    type V = RouteInputView;

    open spec fn view(&self) -> RouteInputView {
        RouteInputView {
            alias: crate::text::opt_view(self.alias),
            provider: self.provider@,
            model: self.model@,
            fallback: crate::text::seq_view(self.fallback@),
        }
    }
}

/// The first fallback whose provider is not known.
pub open spec fn unknown_fallback(
    fallback: Seq<TargetView>,
    providers: Map<Seq<char>, ProviderView>,
) -> Option<Seq<char>>
    decreases fallback.len(),
{
    if fallback.len() == 0 {
        None
    } else if !providers.dom().contains(fallback[0].provider) {
        Some(fallback[0].provider)
    } else {
        unknown_fallback(fallback.skip(1), providers)
    }
}

/// The route that is asked for under `alias`, or what is wrong with it.
pub open spec fn routed(
    input: RouteInputView,
    alias: Seq<char>,
    providers: Map<Seq<char>, ProviderView>,
) -> Result<RouteView, ErrorView> {
    let provider = crate::text::trimmed(input.provider);
    let model = crate::text::trimmed(input.model);
    if model.len() == 0 {
        Err(ErrorView::BadRequest("model is required"@))
    } else if !providers.dom().contains(provider) {
        Err(ErrorView::BadRequest("unknown provider: "@ + provider))
    } else {
        match unknown_fallback(input.fallback, providers) {
            Some(p) => Err(ErrorView::BadRequest("unknown fallback provider: "@ + p)),
            None => Ok(RouteView { alias, provider, model, fallback: input.fallback }),
        }
    }
}

impl RouteInput {
    /// Build a `Route`, validating that its provider and every fallback provider exist
    /// and that its model is not blank.
    pub fn into_route(self, alias: String, providers: &Dict<Provider>) -> (r: Result<
        Route,
        BridgeError,
    >)
        ensures
            crate::text::res_view(r) == routed(self@, alias@, providers@),
    {
        let provider = trim(self.provider.as_str()).to_owned();
        let model = trim(self.model.as_str()).to_owned();
        if model.as_str().is_empty() {
            return Err(BridgeError::bad_request("model is required"));
        }
        if !providers.contains_key(provider.as_str()) {
            return Err(BridgeError::BadRequest(concat2("unknown provider: ", provider.as_str())));
        }
        let ghost view = crate::text::seq_view(self.fallback@);
        let mut i: usize = 0;
        assert(view.skip(0) =~= view);
        while i < self.fallback.len()
            invariant
                i <= self.fallback@.len(),
                view == crate::text::seq_view(self.fallback@),
                provider@ == crate::text::trimmed(self@.provider),
                model@ == crate::text::trimmed(self@.model),
                model@.len() > 0,
                providers@.dom().contains(provider@),
                unknown_fallback(view, providers@) == unknown_fallback(
                    view.skip(i as int),
                    providers@,
                ),
            decreases self.fallback@.len() - i,
        {
            assert(view.skip(i as int)[0] == view[i as int]);
            assert(view.skip(i as int).skip(1) =~= view.skip(i as int + 1));
            if !providers.contains_key(self.fallback[i].provider.as_str()) {
                return Err(
                    BridgeError::BadRequest(
                        concat2("unknown fallback provider: ", self.fallback[i].provider.as_str()),
                    ),
                );
            }
            i = i + 1;
        }
        Ok(Route { alias, provider, model, fallback: self.fallback })
    }
}

proof fn lemma_known_fallbacks(
    fallback: Seq<TargetView>,
    providers: Map<Seq<char>, ProviderView>,
    i: int,
)
    requires
        unknown_fallback(fallback, providers) is None,
        0 <= i < fallback.len(),
    ensures
        providers.dom().contains(fallback[i].provider),
    decreases fallback.len(),
{
    if i > 0 {
        lemma_known_fallbacks(fallback.skip(1), providers, i - 1);
        assert(fallback.skip(1)[i - 1] == fallback[i]);
    }
}

/// A route that is taken on names only providers that exist: every one of its targets can
/// be asked.
pub proof fn routes_name_known_providers(
    input: RouteInputView,
    alias: Seq<char>,
    providers: Map<Seq<char>, ProviderView>,
    i: int,
)
    requires
        routed(input, alias, providers) is Ok,
    ensures
        ({
            let r = routed(input, alias, providers)->Ok_0;
            &&& r.alias == alias
            &&& r.model.len() > 0
            &&& providers.dom().contains(r.provider)
            &&& 0 <= i < r.fallback.len() ==> providers.dom().contains(r.fallback[i].provider)
        }),
{
    if 0 <= i < input.fallback.len() {
        lemma_known_fallbacks(input.fallback, providers, i);
    }
}

/// Whether a route for `alias` exists.
pub open spec fn has_route(routes: Seq<RouteView>, alias: Seq<char>) -> bool {
    exists|i: int| 0 <= i < routes.len() && (#[trigger] routes[i]).alias == alias
}

fn route_exists(cfg: &Config, alias: &str) -> (r: bool)
    ensures
        r == has_route(cfg@.routes, alias@),
{
    let ghost view = cfg@.routes;
    let mut i: usize = 0;
    while i < cfg.routes.len()
        invariant
            i <= cfg.routes@.len(),
            view == cfg@.routes,
            forall|j: int| 0 <= j < i ==> (#[trigger] view[j]).alias != alias@,
        decreases cfg.routes@.len() - i,
    {
        if str_eq(cfg.routes[i].alias.as_str(), alias) {
            assert(view[i as int].alias == alias@);
            return true;
        }
        i = i + 1;
    }
    false
}

/// The route to create, or what is wrong with it.
pub open spec fn route_created(cfg: ConfigView, input: RouteInputView) -> Result<
    RouteView,
    ErrorView,
> {
    match cleaned(input.alias) {
        None => Err(ErrorView::BadRequest("alias is required"@)),
        Some(alias) => if has_route(cfg.routes, alias) {
            Err(ErrorView::Conflict("route '"@ + alias + "' already exists"@))
        } else {
            routed(input, alias, cfg.providers)
        },
    }
}

/// The route to create, or what is wrong with it.
pub fn create_route(
    cfg: &Config,
    authorization: Option<&str>,
    api_key: Option<&str>,
    input: RouteInput,
) -> (r: Result<Route, BridgeError>)
    ensures
        crate::text::res_view(r) == guarded(
            cfg@,
            crate::text::opt_view(authorization),
            crate::text::opt_view(api_key),
            route_created(cfg@, input@),
        ),
{
    if let Err(e) = check_auth(cfg, authorization, api_key) {
        return Err(e);
    }
    let given = match &input.alias {
        Some(a) => Some(a.clone()),
        None => None,
    };
    let alias = match non_empty(given) {
        Some(a) => a,
        None => {
            return Err(BridgeError::bad_request("alias is required"));
        },
    };
    if route_exists(cfg, alias.as_str()) {
        return Err(
            BridgeError::Conflict(concat3("route '", alias.as_str(), "' already exists")),
        );
    }
    input.into_route(alias, &cfg.providers)
}

/// What the route `alias` becomes, or what is wrong with it.
pub open spec fn route_updated(cfg: ConfigView, alias: Seq<char>, input: RouteInputView) -> Result<
    RouteView,
    ErrorView,
> {
    if !has_route(cfg.routes, alias) {
        Err(no_route(alias))
    } else {
        routed(input, alias, cfg.providers)
    }
}

/// What the route `alias` becomes, or what is wrong with it.
pub fn update_route(
    cfg: &Config,
    authorization: Option<&str>,
    api_key: Option<&str>,
    alias: &str,
    input: RouteInput,
) -> (r: Result<Route, BridgeError>)
    ensures
        crate::text::res_view(r) == guarded(
            cfg@,
            crate::text::opt_view(authorization),
            crate::text::opt_view(api_key),
            route_updated(cfg@, alias@, input@),
        ),
{
    if let Err(e) = check_auth(cfg, authorization, api_key) {
        return Err(e);
    }
    if !route_exists(cfg, alias) {
        return Err(BridgeError::NotFound(concat2("no such route: ", alias)));
    }
    input.into_route(alias.to_owned(), &cfg.providers)
}

/// The answer to the deletion of the route `alias`, of which `removed` rows went.
pub open spec fn route_deleted(alias: Seq<char>, removed: u64) -> Result<Json, ErrorView> {
    if removed == 0 {
        Err(no_route(alias))
    } else {
        Ok(Json::obj().with("ok"@, Json::Bool(true)))
    }
}

/// The answer to the deletion of the route `alias`, of which `removed` rows went.
pub fn delete_route(
    cfg: &Config,
    authorization: Option<&str>,
    api_key: Option<&str>,
    alias: &str,
    removed: u64,
) -> (r: Result<JsonValue, BridgeError>)
    ensures
        crate::text::res_view(r) == guarded(
            cfg@,
            crate::text::opt_view(authorization),
            crate::text::opt_view(api_key),
            route_deleted(alias@, removed),
        ),
{
    if let Err(e) = check_auth(cfg, authorization, api_key) {
        return Err(e);
    }
    if removed == 0 {
        Err(BridgeError::NotFound(concat2("no such route: ", alias)))
    } else {
        Ok(JsonValue::obj().with("ok", JsonValue::Bool(true)))
    }
}

/// The answer to what was stored under a name, which is told as `key`.
pub open spec fn stored_answer(key: Seq<char>, name: Seq<char>) -> Json {
    Json::obj().with("ok"@, Json::Bool(true)).with(key, Json::Str(name))
}

/// The answer to a provider that was stored.
pub fn provider_stored(name: &str) -> (r: JsonValue)
    ensures
        r@ == Json::obj().with("ok"@, Json::Bool(true)).with("name"@, Json::Str(name@)),
        r@ == stored_answer("name"@, name@),
{
    JsonValue::obj().with("ok", JsonValue::Bool(true)).with("name", JsonValue::str(name))
}

/// The answer to a route that was stored.
pub fn route_stored(alias: &str) -> (r: JsonValue)
    ensures
        r@ == Json::obj().with("ok"@, Json::Bool(true)).with("alias"@, Json::Str(alias@)),
        r@ == stored_answer("alias"@, alias@),
{
    JsonValue::obj().with("ok", JsonValue::Bool(true)).with("alias", JsonValue::str(alias))
}

/// A request to switch the tracking of costs and usage.
#[derive(Debug, Clone, Copy, PartialEq, Eq, Structural)]
pub struct UsageToggle {
    pub enabled: bool,
}

/// Whether costs and usage are tracked.
pub fn get_usage(
    cfg: &Config,
    authorization: Option<&str>,
    api_key: Option<&str>,
    enabled: bool,
) -> (r: Result<JsonValue, BridgeError>)
    ensures
        crate::text::res_view(r) == guarded(
            cfg@,
            crate::text::opt_view(authorization),
            crate::text::opt_view(api_key),
            Ok(Json::obj().with("enabled"@, Json::Bool(enabled))),
        ),
{
    if let Err(e) = check_auth(cfg, authorization, api_key) {
        return Err(e);
    }
    Ok(JsonValue::obj().with("enabled", JsonValue::Bool(enabled)))
}

/// The answer to a switch of the tracking.
pub fn set_usage(
    cfg: &Config,
    authorization: Option<&str>,
    api_key: Option<&str>,
    toggle: UsageToggle,
) -> (r: Result<JsonValue, BridgeError>)
    ensures
        crate::text::res_view(r) == guarded(
            cfg@,
            crate::text::opt_view(authorization),
            crate::text::opt_view(api_key),
            Ok(
                Json::obj().with("ok"@, Json::Bool(true)).with(
                    "enabled"@,
                    Json::Bool(toggle.enabled),
                ),
            ),
        ),
{
    if let Err(e) = check_auth(cfg, authorization, api_key) {
        return Err(e);
    }
    Ok(
        JsonValue::obj().with("ok", JsonValue::Bool(true)).with(
            "enabled",
            JsonValue::Bool(toggle.enabled),
        ),
    )
}

/// The error of a database operation that failed.
pub fn internal(message: &str) -> (r: BridgeError)
    ensures
        r@ == ErrorView::Internal(message@),
{
    BridgeError::Internal(message.to_owned())
}

/// The error that there is no database to write to.
pub fn no_database() -> (r: BridgeError)
    ensures
        r@ == ErrorView::Internal("no database handle"@),
{
    internal("no database handle")
}

/// The live status of a provider.
pub open spec fn status_json(s: StatusView) -> Json {
    Json::obj().with("available"@, Json::Bool(s.available)).with(
        "quota_remaining"@,
        crate::double::opt_double_json(s.quota_remaining),
    ).with("quota_used"@, crate::double::opt_double_json(s.quota_used)).with(
        "quota_limit"@,
        crate::double::opt_double_json(s.quota_limit),
    ).with("last_checked"@, crate::config_json::opt_signed_json(s.last_checked)).with(
        "last_ok"@,
        Json::Bool(s.last_ok),
    ).with("error"@, Json::opt_str(s.error)).with("note"@, Json::opt_str(s.note))
}

fn status_document(s: &ProviderStatus) -> (r: JsonValue)
    ensures
        r@ == status_json(s@),
{
    JsonValue::obj().with("available", JsonValue::Bool(s.available)).with(
        "quota_remaining",
        opt_double(&s.quota_remaining),
    ).with("quota_used", opt_double(&s.quota_used)).with(
        "quota_limit",
        opt_double(&s.quota_limit),
    ).with("last_checked", opt_signed(s.last_checked)).with(
        "last_ok",
        JsonValue::Bool(s.last_ok),
    ).with("error", opt_string(&s.error)).with("note", opt_string(&s.note))
}

/// A provider as the management page shows it: its whole configuration but the key, of
/// which only its presence is told, and its live status.
pub open spec fn provider_json(
    name: Seq<char>,
    p: ProviderView,
    s: StatusView,
    usage: Option<Seq<Seq<StatView>>>,
) -> Json {
    Json::obj().with("name"@, Json::Str(name)).with(
        "wire"@,
        Json::Str(crate::config::wire_name(p.wire)),
    ).with("base_url"@, Json::Str(p.base_url)).with(
        "api_key_set"@,
        Json::Bool(p.api_key is Some),
    ).with("model_prefix"@, Json::opt_str(p.model_prefix)).with(
        "max_tokens_field"@,
        Json::Str(p.max_tokens_field),
    ).with("extra_headers"@, crate::store::strings_json(p.extra_headers)).with(
        "probe_script"@,
        Json::opt_str(p.probe_script),
    ).with("probe_script_text"@, Json::opt_str(p.probe_script_text)).with(
        "probe_source"@,
        Json::Str(crate::store::source_name(p.probe_source)),
    ).with("probe_enabled"@, Json::Bool(p.probed())).with(
        "probe_enabled_override"@,
        crate::config_json::opt_bool_json(p.probe_enabled),
    ).with("probe_interval_secs"@, crate::config_json::opt_num_json(p.probe_interval_secs)).with(
        "quota_min"@,
        crate::double::opt_double_json(p.quota_min),
    ).with("usage"@, Json::Arr(crate::server::usage_jsons(p.usage, usage))).with(
        "status"@,
        status_json(s),
    )
}

fn provider_document(
    name: &str,
    p: &Provider,
    s: &ProviderStatus,
    usage: Option<&ProviderUsage>,
) -> (r: JsonValue)
    ensures
        r@ == provider_json(name@, p@, s@, crate::text::opt_view(usage)),
{
    JsonValue::obj().with("name", JsonValue::str(name)).with(
        "wire",
        JsonValue::str(p.wire.as_str()),
    ).with("base_url", JsonValue::str(p.base_url.as_str())).with(
        "api_key_set",
        JsonValue::Bool(p.api_key.is_some()),
    ).with("model_prefix", opt_string(&p.model_prefix)).with(
        "max_tokens_field",
        JsonValue::str(p.max_tokens_field.as_str()),
    ).with("extra_headers", dict_json(&p.extra_headers)).with(
        "probe_script",
        opt_string(&p.probe_script),
    ).with("probe_script_text", opt_string(&p.probe_script_text)).with(
        "probe_source",
        JsonValue::str(source_to_str(p.probe_source)),
    ).with("probe_enabled", JsonValue::Bool(p.probe_enabled())).with(
        "probe_enabled_override",
        opt_bool(p.probe_enabled),
    ).with("probe_interval_secs", opt_num(p.probe_interval_secs)).with(
        "quota_min",
        opt_double(&p.quota_min),
    ).with("usage", JsonValue::Array(usage_view(&p.usage, usage))).with(
        "status",
        status_document(s),
    )
}

/// The providers as the management page shows them, by name.
pub open spec fn providers_listing(
    cfg: ConfigView,
    status: Map<Seq<char>, StatusView>,
    usage: Option<Map<Seq<char>, Seq<Seq<StatView>>>>,
) -> Json {
    Json::obj().with(
        "providers"@,
        Json::Arr(
            crate::dict::in_key_order(cfg.providers).map_values(
                |e: (Seq<char>, ProviderView)|
                    provider_json(
                        e.0,
                        e.1,
                        crate::server::known_status(status, e.0),
                        crate::server::known_usage(usage, e.0),
                    ),
            ),
        ),
    ).with("cost_tracking"@, Json::Bool(usage is Some))
}

/// Full editable configuration and live status of every provider, with the key masked.
/// The statistics are there where usage is tracked.
pub fn list_providers(
    cfg: &Config,
    authorization: Option<&str>,
    api_key: Option<&str>,
    status: &Dict<ProviderStatus>,
    usage: Option<&Dict<ProviderUsage>>,
) -> (r: Result<JsonValue, BridgeError>)
    ensures
        crate::text::res_view(r) == guarded(
            cfg@,
            crate::text::opt_view(authorization),
            crate::text::opt_view(api_key),
            Ok(providers_listing(cfg@, status@, crate::text::opt_view(usage))),
        ),
{
    if let Err(e) = check_auth(cfg, authorization, api_key) {
        return Err(e);
    }
    Ok(providers_document(cfg, status, usage))
}

fn providers_document(
    cfg: &Config,
    status: &Dict<ProviderStatus>,
    usage: Option<&Dict<ProviderUsage>>,
) -> (r: JsonValue)
    ensures
        r@ == providers_listing(cfg@, status@, crate::text::opt_view(usage)),
{
    let n = cfg.providers.len();
    let ghost pairs = cfg.providers.pairs();
    let ghost u = crate::text::opt_view(usage);
    let none = no_usage();
    let mut out: Vec<JsonValue> = Vec::new();
    let mut i: usize = 0;
    while i < n
        invariant
            i <= n,
            n == pairs.len(),
            pairs == cfg.providers.pairs(),
            out@.len() == i,
            u == crate::text::opt_view(usage),
            none@ == Seq::<Seq<StatView>>::empty(),
            forall|j: int|
                0 <= j < i ==> (#[trigger] out@[j])@ == provider_json(
                    pairs[j].0,
                    pairs[j].1,
                    crate::server::known_status(status@, pairs[j].0),
                    crate::server::known_usage(u, pairs[j].0),
                ),
        decreases n - i,
    {
        let name = cfg.providers.key(i).as_str();
        let s = status_of(status, name);
        let stats = match usage {
            Some(m) => match m.get(name) {
                Some(x) => Some(x),
                None => Some(&none),
            },
            None => None,
        };
        out.push(provider_document(name, cfg.providers.value(i), &s, stats));
        i = i + 1;
    }
    assert(crate::json::values_view(out@) =~= pairs.map_values(
        |e: (Seq<char>, ProviderView)|
            provider_json(
                e.0,
                e.1,
                crate::server::known_status(status@, e.0),
                crate::server::known_usage(u, e.0),
            ),
    ));
    JsonValue::obj().with("providers", JsonValue::Array(out)).with(
        "cost_tracking",
        JsonValue::Bool(usage.is_some()),
    )
}

/// No key is ever shown: a provider looks the same under every key.
pub proof fn keys_are_never_shown(
    name: Seq<char>,
    p: ProviderView,
    key: Seq<char>,
    other: Seq<char>,
    s: StatusView,
    usage: Option<Seq<Seq<StatView>>>,
)
    ensures
        provider_json(name, ProviderView { api_key: Some(key), ..p }, s, usage) == provider_json(
            name,
            ProviderView { api_key: Some(other), ..p },
            s,
            usage,
        ),
        crate::server::provider_status_json(
            name,
            ProviderView { api_key: Some(key), ..p },
            s,
            usage,
        ) == crate::server::provider_status_json(name, ProviderView { api_key: None, ..p }, s, usage),
{
}

/// `s` with `r` put in behind every route whose alias does not come later.
pub open spec fn insert_by_alias(s: Seq<RouteView>, r: RouteView) -> Seq<RouteView>
    decreases s.len(),
{
    if s.len() == 0 || !crate::dict::str_lt(r.alias, s.last().alias) {
        s.push(r)
    } else {
        insert_by_alias(s.drop_last(), r).push(s.last())
    }
}

/// The routes by alias; those of one alias stay in their order.
pub open spec fn by_alias(s: Seq<RouteView>) -> Seq<RouteView>
    decreases s.len(),
{
    if s.len() == 0 {
        s
    } else {
        insert_by_alias(by_alias(s.drop_last()), s.last())
    }
}

fn insert_route_sorted(v: &mut Vec<Route>, r: Route)
    ensures
        crate::text::seq_view(final(v)@) == insert_by_alias(crate::text::seq_view(old(v)@), r@),
{
    let ghost before = crate::text::seq_view(v@);
    let mut i: usize = v.len();
    while i > 0 && str_less(r.alias.as_str(), v[i - 1].alias.as_str())
        invariant
            i <= v@.len(),
            before == crate::text::seq_view(v@),
            forall|j: int|
                i <= j < before.len() ==> crate::dict::str_lt(
                    r@.alias,
                    (#[trigger] before[j]).alias,
                ),
        decreases i,
    {
        assert(before[i - 1].alias == v@[i - 1].alias@);
        i = i - 1;
    }
    proof {
        if i > 0 {
            assert(before[i - 1].alias == v@[i - 1].alias@);
        }
        lemma_alias_place(before, r@, i as int);
    }
    v.insert(i, r);
    assert(crate::text::seq_view(v@) =~= before.insert(i as int, r@));
}

proof fn lemma_alias_place(s: Seq<RouteView>, r: RouteView, i: int)
    requires
        0 <= i <= s.len(),
        forall|j: int|
            i <= j < s.len() ==> crate::dict::str_lt(r.alias, (#[trigger] s[j]).alias),
        i > 0 ==> !crate::dict::str_lt(r.alias, s[i - 1].alias),
    ensures
        insert_by_alias(s, r) == s.insert(i, r),
    decreases s.len(),
{
    if i == s.len() {
        assert(s.insert(i, r) =~= s.push(r));
    } else {
        let t = s.drop_last();
        assert(s.last() == s[s.len() - 1]);
        assert forall|j: int| i <= j < t.len() implies crate::dict::str_lt(
            r.alias,
            (#[trigger] t[j]).alias,
        ) by {
            assert(t[j] == s[j]);
        }
        lemma_alias_place(t, r, i);
        assert(t.insert(i, r).push(s.last()) =~= s.insert(i, r));
    }
}

/// A route as the management page shows it.
pub open spec fn route_json(r: RouteView) -> Json {
    Json::obj().with("alias"@, Json::Str(r.alias)).with("provider"@, Json::Str(r.provider)).with(
        "model"@,
        Json::Str(r.model),
    ).with("fallback"@, Json::Arr(crate::config_json::jsons::<RouteTarget>(r.fallback)))
}

/// The routes as the management page shows them, by alias.
pub open spec fn routes_listing(cfg: ConfigView) -> Json {
    Json::obj().with(
        "routes"@,
        Json::Arr(by_alias(cfg.routes).map_values(|r: RouteView| route_json(r))),
    )
}

/// All routes, by alias.
pub fn list_routes(
    cfg: &Config,
    authorization: Option<&str>,
    api_key: Option<&str>,
) -> (r: Result<JsonValue, BridgeError>)
    ensures
        crate::text::res_view(r) == guarded(
            cfg@,
            crate::text::opt_view(authorization),
            crate::text::opt_view(api_key),
            Ok(routes_listing(cfg@)),
        ),
{
    if let Err(e) = check_auth(cfg, authorization, api_key) {
        return Err(e);
    }
    Ok(routes_document(cfg))
}

fn routes_document(cfg: &Config) -> (r: JsonValue)
    ensures
        r@ == routes_listing(cfg@),
{
    broadcast use crate::text::group_views;

    let ghost view = cfg@.routes;
    let mut sorted: Vec<Route> = Vec::new();
    let mut i: usize = 0;
    assert(view.take(0) =~= Seq::empty());
    while i < cfg.routes.len()
        invariant
            i <= cfg.routes@.len(),
            view == cfg@.routes,
            crate::text::seq_view(sorted@) == by_alias(view.take(i as int)),
        decreases cfg.routes@.len() - i,
    {
        assert(view.take(i as int + 1).drop_last() =~= view.take(i as int));
        assert(view.take(i as int + 1).last() == view[i as int]);
        insert_route_sorted(&mut sorted, cfg.routes[i].clone());
        i = i + 1;
    }
    assert(view.take(i as int) =~= view);
    let ghost order = crate::text::seq_view(sorted@);
    let mut out: Vec<JsonValue> = Vec::new();
    let mut k: usize = 0;
    while k < sorted.len()
        invariant
            k <= sorted@.len(),
            order == crate::text::seq_view(sorted@),
            out@.len() == k,
            forall|j: int| 0 <= j < k ==> (#[trigger] out@[j])@ == route_json(order[j]),
        decreases sorted@.len() - k,
    {
        let r = &sorted[k];
        out.push(
            JsonValue::obj().with("alias", JsonValue::str(r.alias.as_str())).with(
                "provider",
                JsonValue::str(r.provider.as_str()),
            ).with("model", JsonValue::str(r.model.as_str())).with(
                "fallback",
                list_json(&r.fallback),
            ),
        );
        k = k + 1;
    }
    assert(crate::json::values_view(out@) =~= order.map_values(|r: RouteView| route_json(r)));
    JsonValue::obj().with("routes", JsonValue::Array(out))
}

/// Whether no route comes behind one with a later alias.
pub open spec fn aliases_ascend(s: Seq<RouteView>) -> bool {
    forall|i: int, j: int|
        0 <= i < j < s.len() ==> !crate::dict::str_lt(
            (#[trigger] s[j]).alias,
            (#[trigger] s[i]).alias,
        )
}

proof fn lemma_insert_by_alias(s: Seq<RouteView>, r: RouteView)
    requires
        aliases_ascend(s),
    ensures
        aliases_ascend(insert_by_alias(s, r)),
        insert_by_alias(s, r).to_multiset() == s.to_multiset().insert(r),
        insert_by_alias(s, r).len() == s.len() + 1,
        forall|i: int|
            0 <= i < insert_by_alias(s, r).len() ==> (#[trigger] insert_by_alias(s, r)[i]) == r
                || s.contains(insert_by_alias(s, r)[i]),
    decreases s.len(),
{
    broadcast use {vstd::seq_lib::group_to_multiset_ensures, vstd::multiset::group_multiset_axioms};

    let t = insert_by_alias(s, r);
    if s.len() == 0 || !crate::dict::str_lt(r.alias, s.last().alias) {
        assert(s.push(r).to_multiset() =~= s.to_multiset().insert(r));
        assert forall|i: int, j: int| 0 <= i < j < t.len() implies !crate::dict::str_lt(
            (#[trigger] t[j]).alias,
            (#[trigger] t[i]).alias,
        ) by {
            if j == s.len() {
                let last = s.len() - 1;
                if i < last {
                    assert(!crate::dict::str_lt(s[last].alias, s[i].alias));
                }
                crate::dict::str_order_is_total(r.alias, s[i].alias, s[last].alias);
                crate::dict::str_order_is_total(s[i].alias, s[last].alias, r.alias);
                crate::dict::str_order_is_total(s[last].alias, s[i].alias, r.alias);
            }
        }
        assert forall|i: int| 0 <= i < t.len() implies (#[trigger] t[i]) == r || s.contains(
            t[i],
        ) by {
            if i < s.len() {
                assert(s[i] == t[i]);
            }
        }
    } else {
        let init = s.drop_last();
        let last = s.last();
        assert(last == s[s.len() - 1]);
        assert(aliases_ascend(init));
        lemma_insert_by_alias(init, r);
        let u = insert_by_alias(init, r);
        assert(s =~= init.push(last));
        assert(t.to_multiset() =~= s.to_multiset().insert(r));
        assert forall|i: int| 0 <= i < t.len() implies (#[trigger] t[i]) == r || s.contains(
            t[i],
        ) by {
            if i < u.len() {
                assert(t[i] == u[i]);
                if init.contains(u[i]) {
                    let k = choose|k: int| 0 <= k < init.len() && init[k] == u[i];
                    assert(s[k] == t[i]);
                }
            } else {
                assert(s[s.len() - 1] == t[i]);
            }
        }
        assert forall|i: int, j: int| 0 <= i < j < t.len() implies !crate::dict::str_lt(
            (#[trigger] t[j]).alias,
            (#[trigger] t[i]).alias,
        ) by {
            if j < u.len() {
                assert(!crate::dict::str_lt(u[j].alias, u[i].alias));
            } else {
                assert(t[i] == u[i]);
                crate::dict::str_order_is_total(r.alias, last.alias, r.alias);
                if u[i] != r {
                    let k = choose|k: int| 0 <= k < init.len() && init[k] == u[i];
                    assert(!crate::dict::str_lt(s[s.len() - 1].alias, s[k].alias));
                }
            }
        }
    }
}

/// The routes are listed by alias, and each as often as it is configured.
pub proof fn routes_are_listed_by_alias(s: Seq<RouteView>)
    ensures
        aliases_ascend(by_alias(s)),
        by_alias(s).to_multiset() == s.to_multiset(),
    decreases s.len(),
{
    broadcast use {vstd::seq_lib::group_to_multiset_ensures, vstd::multiset::group_multiset_axioms};

    if s.len() > 0 {
        routes_are_listed_by_alias(s.drop_last());
        lemma_insert_by_alias(by_alias(s.drop_last()), s.last());
        assert(s =~= s.drop_last().push(s.last()));
    }
}

} // verus!
