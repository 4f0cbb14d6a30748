//! Bridge configuration: providers (outbound targets) and model routes.

use vstd::prelude::*;

use crate::dict::Dict;
use crate::double::{Double, DoubleView};
use crate::text::{clone_opt, clone_vec, concat3, is_blank, str_eq};

verus! {

#[derive(Debug)]
pub struct Config {
    pub listen: String,
    /// SQLite database file holding providers and routes (seeded from this config
    /// on first run, then authoritative).
    pub database: String,
    pub default_provider: Option<String>,
    pub auth_token: Option<String>,
    /// Master switch for cost and usage tracking.
    pub cost_tracking: bool,
    pub providers: Dict<Provider>,
    pub routes: Vec<Route>,
    /// Global safety-net target, appended as the last candidate of every resolved
    /// chain, and catching aliases that match no route when `default_provider` is
    /// unset.
    pub fallback_route: Option<RouteTarget>,
}

/// Whether a probe script is a file path or inline text.
#[derive(Debug, Clone, Copy, PartialEq, Eq, Structural)]
pub enum ProbeSource {
    Path,
    Text,
}

#[derive(Debug, PartialEq)]
pub struct Provider {
    pub wire: WireName,
    pub base_url: String,
    pub api_key: Option<String>,
    pub model_prefix: Option<String>,
    pub max_tokens_field: String,
    pub extra_headers: Dict<String>,
    /// Path to a Lua quota probe. Absent: availability ping only.
    pub probe_script: Option<String>,
    /// Inline Lua probe script text (used when `probe_source` is `Text`).
    pub probe_script_text: Option<String>,
    /// Whether to use `probe_script` (file path) or `probe_script_text` (inline).
    pub probe_source: ProbeSource,
    /// Explicit on/off for the watcher (defaults to on when a script source is set).
    pub probe_enabled: Option<bool>,
    /// Seconds between probes.
    pub probe_interval_secs: Option<u64>,
    /// Below this `quota_remaining` the provider counts as exhausted.
    pub quota_min: Option<Double>,
    /// Rolling cost windows; folded into a billing `UsageSpec` at load.
    pub cost_windows: Vec<CostWindow>,
    /// Per-model prices; folded into a billing `UsageSpec` at load.
    pub model_prices: Dict<ModelPrice>,
    /// Typed usage specs, each a set of rolling limit windows. Empty: the provider
    /// is not usage-tracked.
    pub usage: Vec<UsageSpec>,
    /// Supported upstream model names.
    pub models: Vec<String>,
}

/// Pay-as-you-go price for one model, in dollars per 1M tokens.
#[derive(Debug, PartialEq)]
pub struct ModelPrice {
    /// Input (prompt) price per 1M tokens.
    pub input: Double,
    /// Output (completion) price per 1M tokens.
    pub output: Double,
}

/// One rolling cost window: spend over the last `window_secs` is capped at `limit`.
#[derive(Debug, PartialEq)]
pub struct CostWindow {
    /// Display label, such as "5h", "7d" or "30d".
    pub label: String,
    /// Window length in seconds.
    pub window_secs: u64,
    /// Spend cap for the window (dollars).
    pub limit: Double,
}

/// The "currency" a provider is metered in.
#[derive(Debug, Clone, Copy, PartialEq, Eq, Hash, Structural)]
pub enum UsageKind {
    /// Dollars (real `cost`, or an estimate from tokens and prices).
    Billing,
    /// Request count (1 per request).
    Count,
    /// Token count (prompt + completion).
    Token,
}

/// One rolling limit window for any usage kind. `limit` is in the kind's unit.
#[derive(Debug, PartialEq)]
pub struct UsageWindow {
    pub label: String,
    pub window_secs: u64,
    pub limit: Double,
}

/// A typed usage spec: a usage kind with its rolling windows (and, for billing, the
/// per-model prices used to estimate spend).
#[derive(Debug, PartialEq)]
pub enum UsageSpec {
    Billing { windows: Vec<UsageWindow>, model_prices: Dict<ModelPrice> },
    Count { windows: Vec<UsageWindow> },
    Token { windows: Vec<UsageWindow> },
}

#[derive(Debug, Clone, Copy, PartialEq, Eq, Structural)]
pub enum WireName {
    OpenaiChat,
    OpenaiResponses,
    AnthropicMessages,
}

#[derive(Debug, PartialEq)]
pub struct Route {
    pub alias: String,
    pub provider: String,
    pub model: String,
    /// Ordered fallback targets tried (in order) when the primary provider is
    /// unavailable or quota-exhausted.
    pub fallback: Vec<RouteTarget>,
}

/// A (provider, model) pair: the primary of a route or one of its fallbacks.
#[derive(Debug, PartialEq, Eq)]
pub struct RouteTarget {
    pub provider: String,
    pub model: String,
}

/// The model of a `Config`.
pub struct ConfigView {
    pub listen: Seq<char>,
    pub database: Seq<char>,
    pub default_provider: Option<Seq<char>>,
    pub auth_token: Option<Seq<char>>,
    pub cost_tracking: bool,
    pub providers: Map<Seq<char>, ProviderView>,
    pub routes: Seq<RouteView>,
    pub fallback_route: Option<TargetView>,
}

/// The model of a `Provider`.
pub struct ProviderView {
    pub wire: WireName,
    pub base_url: Seq<char>,
    pub api_key: Option<Seq<char>>,
    pub model_prefix: Option<Seq<char>>,
    pub max_tokens_field: Seq<char>,
    pub extra_headers: Map<Seq<char>, Seq<char>>,
    pub probe_script: Option<Seq<char>>,
    pub probe_script_text: Option<Seq<char>>,
    pub probe_source: ProbeSource,
    pub probe_enabled: Option<bool>,
    pub probe_interval_secs: Option<u64>,
    pub quota_min: Option<DoubleView>,
    pub cost_windows: Seq<WindowView>,
    pub model_prices: Map<Seq<char>, PriceView>,
    pub usage: Seq<SpecView>,
    pub models: Seq<Seq<char>>,
}

/// The model of a `CostWindow` and of a `UsageWindow`.
pub struct WindowView {
    pub label: Seq<char>,
    pub window_secs: u64,
    pub limit: DoubleView,
}

/// The model of a `ModelPrice`.
pub struct PriceView {
    pub input: DoubleView,
    pub output: DoubleView,
}

/// The model of a `UsageSpec`.
pub enum SpecView {
    Billing { windows: Seq<WindowView>, model_prices: Map<Seq<char>, PriceView> },
    Count { windows: Seq<WindowView> },
    Token { windows: Seq<WindowView> },
}

/// The model of a `Route`.
pub struct RouteView {
    pub alias: Seq<char>,
    pub provider: Seq<char>,
    pub model: Seq<char>,
    pub fallback: Seq<TargetView>,
}

/// The model of a `RouteTarget`.
pub struct TargetView {
    pub provider: Seq<char>,
    pub model: Seq<char>,
}

impl View for Config {
    type V = ConfigView;

    open spec fn view(&self) -> ConfigView {
        ConfigView {
            listen: self.listen@,
            database: self.database@,
            default_provider: crate::text::opt_view(self.default_provider),
            auth_token: crate::text::opt_view(self.auth_token),
            cost_tracking: self.cost_tracking,
            providers: self.providers@,
            routes: crate::text::seq_view(self.routes@),
            fallback_route: crate::text::opt_view(self.fallback_route),
        }
    }
}

impl View for Provider {
    type V = ProviderView;

    open spec fn view(&self) -> ProviderView {
        ProviderView {
            wire: self.wire,
            base_url: self.base_url@,
            api_key: crate::text::opt_view(self.api_key),
            model_prefix: crate::text::opt_view(self.model_prefix),
            max_tokens_field: self.max_tokens_field@,
            extra_headers: self.extra_headers@,
            probe_script: crate::text::opt_view(self.probe_script),
            probe_script_text: crate::text::opt_view(self.probe_script_text),
            probe_source: self.probe_source,
            probe_enabled: self.probe_enabled,
            probe_interval_secs: self.probe_interval_secs,
            quota_min: crate::text::opt_view(self.quota_min),
            cost_windows: crate::text::seq_view(self.cost_windows@),
            model_prices: self.model_prices@,
            usage: crate::text::seq_view(self.usage@),
            models: crate::text::seq_view(self.models@),
        }
    }
}

impl View for ModelPrice {
    type V = PriceView;

    open spec fn view(&self) -> PriceView {
        PriceView { input: self.input@, output: self.output@ }
    }
}

impl Clone for ModelPrice {
    fn clone(&self) -> (r: Self)
        ensures
            r@ == self@,
    {
        ModelPrice { input: self.input.clone(), output: self.output.clone() }
    }
}

impl View for CostWindow {
    type V = WindowView;

    open spec fn view(&self) -> WindowView {
        WindowView { label: self.label@, window_secs: self.window_secs, limit: self.limit@ }
    }
}

impl View for UsageWindow {
    type V = WindowView;

    open spec fn view(&self) -> WindowView {
        WindowView { label: self.label@, window_secs: self.window_secs, limit: self.limit@ }
    }
}

impl View for UsageSpec {
    type V = SpecView;

    open spec fn view(&self) -> SpecView {
        match *self {
            UsageSpec::Billing { windows, model_prices } => SpecView::Billing {
                windows: crate::text::seq_view(windows@),
                model_prices: model_prices@,
            },
            UsageSpec::Count { windows } => SpecView::Count {
                windows: crate::text::seq_view(windows@),
            },
            UsageSpec::Token { windows } => SpecView::Token {
                windows: crate::text::seq_view(windows@),
            },
        }
    }
}

impl View for Route {
    type V = RouteView;

    open spec fn view(&self) -> RouteView {
        RouteView {
            alias: self.alias@,
            provider: self.provider@,
            model: self.model@,
            fallback: crate::text::seq_view(self.fallback@),
        }
    }
}

impl View for RouteTarget {
    type V = TargetView;

    open spec fn view(&self) -> TargetView {
        TargetView { provider: self.provider@, model: self.model@ }
    }
}

impl Default for ProbeSource {
    fn default() -> (r: Self)
        ensures
            r == ProbeSource::Path,
    {
        ProbeSource::Path
    }
}

impl Clone for RouteTarget {
    fn clone(&self) -> (r: Self)
        ensures
            r@ == self@,
    {
        RouteTarget { provider: self.provider.clone(), model: self.model.clone() }
    }
}

impl Clone for Route {
    fn clone(&self) -> (r: Self)
        ensures
            r@ == self@,
    {
        Route {
            alias: self.alias.clone(),
            provider: self.provider.clone(),
            model: self.model.clone(),
            fallback: clone_vec(&self.fallback),
        }
    }
}

impl Clone for UsageWindow {
    fn clone(&self) -> (r: Self)
        ensures
            r@ == self@,
    {
        UsageWindow {
            label: self.label.clone(),
            window_secs: self.window_secs,
            limit: self.limit.clone(),
        }
    }
}

impl Clone for CostWindow {
    fn clone(&self) -> (r: Self)
        ensures
            r@ == self@,
    {
        CostWindow {
            label: self.label.clone(),
            window_secs: self.window_secs,
            limit: self.limit.clone(),
        }
    }
}

impl Clone for UsageSpec {
    fn clone(&self) -> (r: Self)
        ensures
            r@ == self@,
    {
        match self {
            UsageSpec::Billing { windows, model_prices } => UsageSpec::Billing {
                windows: clone_vec(windows),
                model_prices: model_prices.copy(),
            },
            UsageSpec::Count { windows } => UsageSpec::Count { windows: clone_vec(windows) },
            UsageSpec::Token { windows } => UsageSpec::Token { windows: clone_vec(windows) },
        }
    }
}

impl Clone for Provider {
    fn clone(&self) -> (r: Self)
        ensures
            r@ == self@,
    {
        Provider {
            wire: self.wire,
            base_url: self.base_url.clone(),
            api_key: clone_opt(&self.api_key),
            model_prefix: clone_opt(&self.model_prefix),
            max_tokens_field: self.max_tokens_field.clone(),
            extra_headers: self.extra_headers.copy(),
            probe_script: clone_opt(&self.probe_script),
            probe_script_text: clone_opt(&self.probe_script_text),
            probe_source: self.probe_source,
            probe_enabled: self.probe_enabled,
            probe_interval_secs: self.probe_interval_secs,
            quota_min: clone_opt(&self.quota_min),
            cost_windows: clone_vec(&self.cost_windows),
            model_prices: self.model_prices.copy(),
            usage: clone_vec(&self.usage),
            models: clone_vec(&self.models),
        }
    }
}

impl Clone for Config {
    fn clone(&self) -> (r: Self)
        ensures
            r@ == self@,
    {
        Config {
            listen: self.listen.clone(),
            database: self.database.clone(),
            default_provider: clone_opt(&self.default_provider),
            auth_token: clone_opt(&self.auth_token),
            cost_tracking: self.cost_tracking,
            providers: self.providers.copy(),
            routes: clone_vec(&self.routes),
            fallback_route: clone_opt(&self.fallback_route),
        }
    }
}

pub fn default_listen() -> (r: String)
    ensures
        r@ == "127.0.0.1:8282"@,
{
    "127.0.0.1:8282".to_owned()
}

pub fn default_database() -> (r: String)
    ensures
        r@ == "bridge.db"@,
{
    "bridge.db".to_owned()
}

pub fn default_max_tokens_field() -> (r: String)
    ensures
        r@ == "max_tokens"@,
{
    "max_tokens".to_owned()
}

/// The tag a usage kind is stored and shown under.
pub open spec fn kind_name(k: UsageKind) -> Seq<char> {
    match k {
        UsageKind::Billing => "billing"@,
        UsageKind::Count => "count"@,
        UsageKind::Token => "token"@,
    }
}

/// The usage kind with the tag `s`.
pub open spec fn kind_named(s: Seq<char>) -> Option<UsageKind> {
    if s == "billing"@ {
        Some(UsageKind::Billing)
    } else if s == "count"@ {
        Some(UsageKind::Count)
    } else if s == "token"@ {
        Some(UsageKind::Token)
    } else {
        None
    }
}

/// The unit a usage kind is counted in.
pub open spec fn kind_unit(k: UsageKind) -> Seq<char> {
    match k {
        UsageKind::Billing => "usd"@,
        UsageKind::Count => "requests"@,
        UsageKind::Token => "tokens"@,
    }
}

impl UsageKind {
    /// The display unit for this kind.
    pub fn unit(self) -> (r: &'static str)
        ensures
            r@ == kind_unit(self),
    {
        match self {
            UsageKind::Billing => "usd",
            UsageKind::Count => "requests",
            UsageKind::Token => "tokens",
        }
    }

    /// The persisted/exposed tag for this kind.
    pub fn as_str(self) -> (r: &'static str)
        ensures
            r@ == kind_name(self),
    {
        match self {
            UsageKind::Billing => "billing",
            UsageKind::Count => "count",
            UsageKind::Token => "token",
        }
    }

    pub fn parse(s: &str) -> (r: Option<UsageKind>)
        ensures
            r == kind_named(s@),
    {
        if str_eq(s, "billing") {
            Some(UsageKind::Billing)
        } else if str_eq(s, "count") {
            Some(UsageKind::Count)
        } else if str_eq(s, "token") {
            Some(UsageKind::Token)
        } else {
            None
        }
    }
}

/// Every usage kind is read back from its tag, and a tag that is read is the tag
/// of what was read.
pub proof fn kind_names_round_trip(k: UsageKind, s: Seq<char>)
    ensures
        kind_named(kind_name(k)) == Some(k),
        kind_named(s) matches Some(l) ==> kind_name(l) == s,
{
    reveal_strlit("billing");
    reveal_strlit("count");
    reveal_strlit("token");
    assert("billing"@.len() == 7);
    assert("count"@[0] == 'c');
    assert("token"@[0] == 't');
}

impl SpecView {
    pub open spec fn kind(self) -> UsageKind {
        match self {
            SpecView::Billing { .. } => UsageKind::Billing,
            SpecView::Count { .. } => UsageKind::Count,
            SpecView::Token { .. } => UsageKind::Token,
        }
    }

    pub open spec fn windows(self) -> Seq<WindowView> {
        match self {
            SpecView::Billing { windows, .. } => windows,
            SpecView::Count { windows } => windows,
            SpecView::Token { windows } => windows,
        }
    }

    pub open spec fn model_prices(self) -> Option<Map<Seq<char>, PriceView>> {
        match self {
            SpecView::Billing { model_prices, .. } => Some(model_prices),
            _ => None,
        }
    }

    /// The price of `model`, where the spec knows one.
    pub open spec fn price_of(self, model: Seq<char>) -> Option<PriceView> {
        match self.model_prices() {
            Some(m) => crate::dict::lookup(m, model),
            None => None,
        }
    }
}

impl UsageSpec {
    pub fn kind(&self) -> (r: UsageKind)
        ensures
            r == self@.kind(),
    {
        match self {
            UsageSpec::Billing { .. } => UsageKind::Billing,
            UsageSpec::Count { .. } => UsageKind::Count,
            UsageSpec::Token { .. } => UsageKind::Token,
        }
    }

    pub fn windows(&self) -> (r: &Vec<UsageWindow>)
        ensures
            crate::text::seq_view(r@) == self@.windows(),
    {
        match self {
            UsageSpec::Billing { windows, .. } => windows,
            UsageSpec::Count { windows } => windows,
            UsageSpec::Token { windows } => windows,
        }
    }

    /// Per-model prices (billing specs only) for the estimate from tokens.
    pub fn model_prices(&self) -> (r: Option<&Dict<ModelPrice>>)
        ensures
            crate::text::opt_view(r) == self@.model_prices(),
    {
        match self {
            UsageSpec::Billing { model_prices, .. } => Some(model_prices),
            _ => None,
        }
    }

    /// The price of `model`, where the spec knows one.
    pub fn price_of(&self, model: &str) -> (r: Option<ModelPrice>)
        ensures
            crate::text::opt_view(r) == self@.price_of(model@),
    {
        match self.model_prices() {
            Some(m) => match m.get(model) {
                Some(p) => Some(p.clone()),
                None => None,
            },
            None => None,
        }
    }
}

/// The wire string used in config, the database, and the admin API.
pub open spec fn wire_name(w: WireName) -> Seq<char> {
    match w {
        WireName::OpenaiChat => "openai-chat"@,
        WireName::OpenaiResponses => "openai-responses"@,
        WireName::AnthropicMessages => "anthropic-messages"@,
    }
}

/// The wire format that goes by the name `s`.
pub open spec fn wire_named(s: Seq<char>) -> Option<WireName> {
    if s == "openai-chat"@ {
        Some(WireName::OpenaiChat)
    } else if s == "openai-responses"@ {
        Some(WireName::OpenaiResponses)
    } else if s == "anthropic-messages"@ {
        Some(WireName::AnthropicMessages)
    } else {
        None
    }
}

impl WireName {
    /// The kebab-case wire string.
    pub fn as_str(self) -> (r: &'static str)
        ensures
            r@ == wire_name(self),
    {
        match self {
            WireName::OpenaiChat => "openai-chat",
            WireName::OpenaiResponses => "openai-responses",
            WireName::AnthropicMessages => "anthropic-messages",
        }
    }

    /// Parse the kebab-case wire string (the inverse of `as_str`).
    pub fn parse(s: &str) -> (r: Option<WireName>)
        ensures
            r == wire_named(s@),
    {
        if str_eq(s, "openai-chat") {
            Some(WireName::OpenaiChat)
        } else if str_eq(s, "openai-responses") {
            Some(WireName::OpenaiResponses)
        } else if str_eq(s, "anthropic-messages") {
            Some(WireName::AnthropicMessages)
        } else {
            None
        }
    }
}

/// Every wire format is read back from its name, and a name that is read is the
/// name of what was read.
pub proof fn wire_names_round_trip(w: WireName, s: Seq<char>)
    ensures
        wire_named(wire_name(w)) == Some(w),
        wire_named(s) matches Some(v) ==> wire_name(v) == s,
{
    reveal_strlit("openai-chat");
    reveal_strlit("openai-responses");
    reveal_strlit("anthropic-messages");
    assert("openai-chat"@.len() == 11);
    assert("openai-responses"@.len() == 16);
    assert("anthropic-messages"@.len() == 18);
}

impl ProviderView {
    /// Whether the watcher runs for this provider.
    pub open spec fn probed(self) -> bool {
        match self.probe_enabled {
            Some(b) => b,
            None => match self.probe_source {
                ProbeSource::Path => self.probe_script is Some,
                ProbeSource::Text => match self.probe_script_text {
                    Some(s) => crate::text::trimmed(s).len() > 0,
                    None => false,
                },
            },
        }
    }

    /// Seconds between two probes: at least one.
    pub open spec fn interval(self) -> u64 {
        match self.probe_interval_secs {
            Some(n) => if n == 0 {
                1
            } else {
                n
            },
            None => 300,
        }
    }

    /// The provider with its older cost settings folded into a billing spec, where
    /// it has no usage specs yet.
    pub open spec fn normalized(self) -> ProviderView {
        if self.usage.len() == 0 && (self.cost_windows.len() > 0 || self.model_prices
            != Map::<Seq<char>, PriceView>::empty()) {
            ProviderView {
                usage: seq![
                    SpecView::Billing {
                        windows: self.cost_windows,
                        model_prices: self.model_prices,
                    },
                ],
                ..self
            }
        } else {
            self
        }
    }
}

impl Provider {
    /// Whether the watcher should run for this provider.
    pub fn probe_enabled(&self) -> (r: bool)
        ensures
            r == self@.probed(),
    {
        match self.probe_enabled {
            Some(b) => b,
            None => match self.probe_source {
                ProbeSource::Path => self.probe_script.is_some(),
                ProbeSource::Text => match &self.probe_script_text {
                    Some(s) => !is_blank(s.as_str()),
                    None => false,
                },
            },
        }
    }

    /// Seconds between two probes (default 300, at least 1).
    pub fn probe_interval(&self) -> (r: u64)
        ensures
            r == self@.interval(),
    {
        match self.probe_interval_secs {
            Some(n) => if n == 0 {
                1
            } else {
                n
            },
            None => 300,
        }
    }

    /// Fold older `cost_windows`/`model_prices` into a billing `UsageSpec` when
    /// `usage` is empty.
    pub fn normalize_usage(&mut self)
        ensures
            final(self)@ == old(self)@.normalized(),
    {
        broadcast use crate::text::group_views;

        let no_prices = self.model_prices.is_empty();
        if self.usage.len() == 0 && (self.cost_windows.len() > 0 || !no_prices) {
            let mut windows: Vec<UsageWindow> = Vec::new();
            let mut i: usize = 0;
            while i < self.cost_windows.len()
                invariant
                    i <= self.cost_windows@.len(),
                    windows@.len() == i,
                    forall|j: int| 0 <= j < i ==> (#[trigger] windows@[j])@ == self.cost_windows@[j]@,
                decreases self.cost_windows@.len() - i,
            {
                let w = UsageWindow {
                    label: self.cost_windows[i].label.clone(),
                    window_secs: self.cost_windows[i].window_secs,
                    limit: self.cost_windows[i].limit.clone(),
                };
                windows.push(w);
                i = i + 1;
            }
            assert(crate::text::seq_view(windows@) =~= crate::text::seq_view(self.cost_windows@));
            let spec = UsageSpec::Billing { windows, model_prices: self.model_prices.copy() };
            let mut usage: Vec<UsageSpec> = Vec::new();
            usage.push(spec);
            assert(crate::text::seq_view(usage@) =~= seq![spec@]);
            self.usage = usage;
        }
    }
}

/// Folding the older settings twice is folding them once.
pub proof fn normalizing_is_idempotent(p: ProviderView)
    ensures
        p.normalized().normalized() == p.normalized(),
{
}

/// A text in upper case.
pub uninterp spec fn uppercase(s: Seq<char>) -> Seq<char>;

/// `str::to_uppercase`: the upper-case equivalent of the text, which is a function of the
/// text alone. What it is, Unicode decides.
#[verifier::external_body]
fn to_upper(s: &str) -> (r: String)
    ensures
        r@ == uppercase(s@),
{
    s.to_uppercase()
}

/// The environment variable that overrides the key of a provider, given the provider's
/// name in upper case.
pub open spec fn key_variable(upper: Seq<char>) -> Seq<char> {
    "BRIDGE_PROVIDERS_"@ + upper + "_API_KEY"@
}

/// The environment variable for a name in upper case.
pub fn key_variable_for(upper: &str) -> (r: String)
    ensures
        r@ == key_variable(upper@),
{
    concat3("BRIDGE_PROVIDERS_", upper, "_API_KEY")
}

/// The environment variable that overrides the key of the provider `name`.
pub fn env_key(name: &str) -> (r: String)
    ensures
        r@ == key_variable(uppercase(name@)),
{
    let upper = to_upper(name);
    key_variable_for(upper.as_str())
}

impl ProviderView {
    /// The provider under another key, where there is one.
    pub open spec fn under_key(self, key: Option<Seq<char>>) -> ProviderView {
        match key {
            Some(k) => ProviderView { api_key: Some(k), ..self },
            None => self,
        }
    }
}

impl Provider {
    /// Put a key in the place of the provider's own, where there is one.
    pub fn override_key(&mut self, key: Option<&String>)
        ensures
            final(self)@ == old(self)@.under_key(crate::text::opt_view(key)),
    {
        match key {
            Some(k) => {
                self.api_key = Some(k.clone());
            },
            None => {},
        }
    }
}

/// The providers under the keys that the environment gives them.
pub open spec fn under_env_keys(
    providers: Map<Seq<char>, ProviderView>,
    vars: Map<Seq<char>, Seq<char>>,
) -> Map<Seq<char>, ProviderView> {
    Map::new(
        |name: Seq<char>| providers.dom().contains(name),
        |name: Seq<char>|
            providers[name].under_key(
                crate::dict::lookup(vars, key_variable(uppercase(name))),
            ),
    )
}

impl Config {
    /// Fold the older cost settings of every provider into its usage specs.
    pub fn normalize(&mut self)
        ensures
            final(self)@ == (ConfigView {
                providers: old(self)@.providers.map_values(|p: ProviderView| p.normalized()),
                ..old(self)@
            }),
    {
        let n = self.providers.len();
        let ghost pairs = self.providers.pairs();
        let ghost f = |p: ProviderView| p.normalized();
        let mut out: Dict<Provider> = Dict::new();
        let mut i: usize = 0;
        assert(crate::dict::pairs_map(pairs.take(0)) =~= Map::empty());
        assert(out@ =~= crate::dict::pairs_map(pairs.take(0)).map_values(f));
        while i < n
            invariant
                i <= n,
                n == pairs.len(),
                pairs == self.providers.pairs(),
                self@ == old(self)@,
                crate::dict::ascending(pairs),
                f == (|p: ProviderView| p.normalized()),
                out@ == crate::dict::pairs_map(pairs.take(i as int)).map_values(f),
            decreases n - i,
        {
            proof {
                crate::dict::lemma_pairs_take(pairs, i as int);
            }
            let mut p = self.providers.value(i).clone();
            p.normalize_usage();
            out.insert(self.providers.key(i).as_str(), p);
            assert(out@ =~= crate::dict::pairs_map(pairs.take(i as int + 1)).map_values(f));
            i = i + 1;
        }
        assert(pairs.take(i as int) =~= pairs);
        self.providers = out;
    }

    /// Overlay `BRIDGE_PROVIDERS_<NAME>_API_KEY` variables onto provider keys. Applied
    /// after what is stored is loaded, so that keys from the environment are never stored.
    pub fn apply_env_overrides(&mut self, vars: &Dict<String>)
        ensures
            final(self)@ == (ConfigView {
                providers: under_env_keys(old(self)@.providers, vars@),
                ..old(self)@
            }),
    {
        let n = self.providers.len();
        let ghost pairs = self.providers.pairs();
        let mut out: Dict<Provider> = Dict::new();
        let mut i: usize = 0;
        assert(crate::dict::pairs_map(pairs.take(0)) =~= Map::empty());
        assert(out@ =~= under_env_keys(crate::dict::pairs_map(pairs.take(0)), vars@));
        while i < n
            invariant
                i <= n,
                n == pairs.len(),
                pairs == self.providers.pairs(),
                self@ == old(self)@,
                crate::dict::ascending(pairs),
                out@ == under_env_keys(crate::dict::pairs_map(pairs.take(i as int)), vars@),
            decreases n - i,
        {
            proof {
                crate::dict::lemma_pairs_take(pairs, i as int);
            }
            let name = self.providers.key(i).as_str();
            let variable = env_key(name);
            let mut p = self.providers.value(i).clone();
            p.override_key(vars.get(variable.as_str()));
            out.insert(name, p);
            assert(out@ =~= under_env_keys(
                crate::dict::pairs_map(pairs.take(i as int + 1)),
                vars@,
            ));
            i = i + 1;
        }
        assert(pairs.take(i as int) =~= pairs);
        self.providers = out;
    }
}

/// Keys from the environment change nothing but keys: there are the same providers, alike
/// in everything else, and without a variable a provider keeps its own key.
pub proof fn env_keys_change_only_keys(
    providers: Map<Seq<char>, ProviderView>,
    vars: Map<Seq<char>, Seq<char>>,
    name: Seq<char>,
)
    requires
        providers.dom().contains(name),
    ensures
        under_env_keys(providers, vars).dom() == providers.dom(),
        under_env_keys(providers, vars)[name] == (ProviderView {
            api_key: under_env_keys(providers, vars)[name].api_key,
            ..providers[name]
        }),
        under_env_keys(providers, vars)[name].api_key == match crate::dict::lookup(
            vars,
            key_variable(uppercase(name)),
        ) {
            Some(k) => Some(k),
            None => providers[name].api_key,
        },
{
    assert(under_env_keys(providers, vars).dom() =~= providers.dom());
}

} // verus!
