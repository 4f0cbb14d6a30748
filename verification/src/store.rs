//! What the bridge stores of its providers and routes, and how it is read back.

use vstd::prelude::*;

use crate::columns::{read_names, read_strings, read_targets};
use crate::config::{
    Config, ConfigView, CostWindow, ModelPrice, PriceView, ProbeSource, Provider, ProviderView,
    Route, RouteTarget, RouteView, SpecView, TargetView, UsageKind, UsageSpec, WindowView,
    WireName,
};
use crate::config_json::{dict_json, list_json, ToJson};
use crate::dict::Dict;
use crate::double::{Double, DoubleView};
use crate::json::Json;
use crate::text::{clone_opt, concat2, str_eq};
use crate::usage::{signed, StoredEvent, StoredView, UsageEvent, UsageEventView};

verus! {

/// Runtime watcher state for one provider (written by the watcher; read by the
/// status endpoint and the failover router).
#[derive(Debug, PartialEq)]
pub struct ProviderStatus {
    pub available: bool,
    pub quota_remaining: Option<Double>,
    pub quota_used: Option<Double>,
    pub quota_limit: Option<Double>,
    pub last_checked: Option<i64>,
    pub last_ok: bool,
    pub error: Option<String>,
    pub note: Option<String>,
}

/// The model of a `ProviderStatus`.
pub struct StatusView {
    pub available: bool,
    pub quota_remaining: Option<DoubleView>,
    pub quota_used: Option<DoubleView>,
    pub quota_limit: Option<DoubleView>,
    pub last_checked: Option<i64>,
    pub last_ok: bool,
    pub error: Option<Seq<char>>,
    pub note: Option<Seq<char>>,
}

impl View for ProviderStatus {
    type V = StatusView;

    open spec fn view(&self) -> StatusView {
        StatusView {
            available: self.available,
            quota_remaining: crate::text::opt_view(self.quota_remaining),
            quota_used: crate::text::opt_view(self.quota_used),
            quota_limit: crate::text::opt_view(self.quota_limit),
            last_checked: self.last_checked,
            last_ok: self.last_ok,
            error: crate::text::opt_view(self.error),
            note: crate::text::opt_view(self.note),
        }
    }
}

impl StatusView {
    /// The status of a provider of which nothing is known.
    pub open spec fn unknown() -> StatusView {
        StatusView {
            available: false,
            quota_remaining: None,
            quota_used: None,
            quota_limit: None,
            last_checked: None,
            last_ok: false,
            error: None,
            note: None,
        }
    }
}

impl Default for ProviderStatus {
    fn default() -> (r: Self)
        ensures
            r@ == StatusView::unknown(),
    {
        ProviderStatus {
            available: false,
            quota_remaining: None,
            quota_used: None,
            quota_limit: None,
            last_checked: None,
            last_ok: false,
            error: None,
            note: None,
        }
    }
}

impl Clone for ProviderStatus {
    fn clone(&self) -> (r: Self)
        ensures
            r@ == self@,
    {
        ProviderStatus {
            available: self.available,
            quota_remaining: clone_opt(&self.quota_remaining),
            quota_used: clone_opt(&self.quota_used),
            quota_limit: clone_opt(&self.quota_limit),
            last_checked: self.last_checked,
            last_ok: self.last_ok,
            error: clone_opt(&self.error),
            note: clone_opt(&self.note),
        }
    }
}

/// A row of the table of providers. Lists and maps are kept as JSON texts.
#[derive(Debug, PartialEq)]
pub struct ProviderRow {
    pub name: String,
    pub wire: String,
    pub base_url: String,
    pub api_key: Option<String>,
    pub model_prefix: Option<String>,
    pub max_tokens_field: String,
    pub extra_headers: String,
    pub probe_script: Option<String>,
    pub probe_script_text: Option<String>,
    pub probe_source: String,
    pub probe_enabled: Option<i64>,
    pub probe_interval_secs: Option<i64>,
    pub quota_min: Option<Double>,
    pub cost_windows: String,
    pub model_prices: String,
    pub usage: String,
    pub models: String,
}

/// The model of a `ProviderRow`.
pub struct ProviderRowView {
    pub name: Seq<char>,
    pub wire: Seq<char>,
    pub base_url: Seq<char>,
    pub api_key: Option<Seq<char>>,
    pub model_prefix: Option<Seq<char>>,
    pub max_tokens_field: Seq<char>,
    pub extra_headers: Seq<char>,
    pub probe_script: Option<Seq<char>>,
    pub probe_script_text: Option<Seq<char>>,
    pub probe_source: Seq<char>,
    pub probe_enabled: Option<i64>,
    pub probe_interval_secs: Option<i64>,
    pub quota_min: Option<DoubleView>,
    pub cost_windows: Seq<char>,
    pub model_prices: Seq<char>,
    pub usage: Seq<char>,
    pub models: Seq<char>,
}

impl View for ProviderRow {
    type V = ProviderRowView;

    open spec fn view(&self) -> ProviderRowView {
        ProviderRowView {
            name: self.name@,
            wire: self.wire@,
            base_url: self.base_url@,
            api_key: crate::text::opt_view(self.api_key),
            model_prefix: crate::text::opt_view(self.model_prefix),
            max_tokens_field: self.max_tokens_field@,
            extra_headers: self.extra_headers@,
            probe_script: crate::text::opt_view(self.probe_script),
            probe_script_text: crate::text::opt_view(self.probe_script_text),
            probe_source: self.probe_source@,
            probe_enabled: self.probe_enabled,
            probe_interval_secs: self.probe_interval_secs,
            quota_min: crate::text::opt_view(self.quota_min),
            cost_windows: self.cost_windows@,
            model_prices: self.model_prices@,
            usage: self.usage@,
            models: self.models@,
        }
    }
}

/// What the JSON columns that hold amounts say; nothing where a column does not say what
/// it should.
#[derive(Debug, PartialEq)]
pub struct Columns {
    pub cost_windows: Option<Vec<CostWindow>>,
    pub model_prices: Option<Dict<ModelPrice>>,
    pub usage: Option<Vec<UsageSpec>>,
}

/// The model of `Columns`.
pub struct ColumnsView {
    pub cost_windows: Option<Seq<WindowView>>,
    pub model_prices: Option<Map<Seq<char>, PriceView>>,
    pub usage: Option<Seq<SpecView>>,
}

impl View for Columns {
    type V = ColumnsView;

    open spec fn view(&self) -> ColumnsView {
        ColumnsView {
            cost_windows: crate::columns::opt_seq_view(self.cost_windows),
            model_prices: crate::text::opt_view(self.model_prices),
            usage: crate::columns::opt_seq_view(self.usage),
        }
    }
}

/// A row of the table of routes. The fallbacks are kept as a JSON text.
#[derive(Debug, PartialEq)]
pub struct RouteRow {
    pub alias: String,
    pub provider: String,
    pub model: String,
    pub fallback: String,
}

/// The model of a `RouteRow`.
pub struct RouteRowView {
    pub alias: Seq<char>,
    pub provider: Seq<char>,
    pub model: Seq<char>,
    pub fallback: Seq<char>,
}

impl View for RouteRow {
    type V = RouteRowView;

    open spec fn view(&self) -> RouteRowView {
        RouteRowView {
            alias: self.alias@,
            provider: self.provider@,
            model: self.model@,
            fallback: self.fallback@,
        }
    }
}

/// The name a wire format is stored under.
pub fn wire_to_str(w: WireName) -> (r: &'static str)
    ensures
        r@ == crate::config::wire_name(w),
{
    w.as_str()
}

/// The wire format stored under a name, or what is wrong with the name.
pub fn str_to_wire(s: &str) -> (r: Result<WireName, String>)
    ensures
        match r {
            Ok(w) => crate::config::wire_named(s@) == Some(w),
            Err(m) => crate::config::wire_named(s@) is None && m@ == unknown_wire(s@),
        },
{
    match WireName::parse(s) {
        Some(w) => Ok(w),
        None => Err(concat2("unknown wire format in DB: ", s)),
    }
}

/// The message about a wire format that is not known.
pub open spec fn unknown_wire(s: Seq<char>) -> Seq<char> {
    "unknown wire format in DB: "@ + s
}

/// The name a source of probe scripts goes by.
pub open spec fn source_name(s: ProbeSource) -> Seq<char> {
    match s {
        ProbeSource::Path => "path"@,
        ProbeSource::Text => "text"@,
    }
}

/// The source of probe scripts that goes by a name; a path unless the name says text.
pub open spec fn source_named(s: Option<Seq<char>>) -> ProbeSource {
    if s == Some("text"@) {
        ProbeSource::Text
    } else {
        ProbeSource::Path
    }
}

pub fn source_to_str(s: ProbeSource) -> (r: &'static str)
    ensures
        r@ == source_name(s),
{
    match s {
        ProbeSource::Path => "path",
        ProbeSource::Text => "text",
    }
}

pub fn str_to_source(s: Option<&str>) -> (r: ProbeSource)
    ensures
        r == source_named(crate::text::opt_view(s)),
{
    match s {
        Some(t) => if str_eq(t, "text") {
            ProbeSource::Text
        } else {
            ProbeSource::Path
        },
        None => ProbeSource::Path,
    }
}

/// A flag as a number.
pub open spec fn flag_number(b: bool) -> i64 {
    if b {
        1
    } else {
        0
    }
}

fn to_flag_number(b: bool) -> (r: i64)
    ensures
        r == flag_number(b),
{
    if b {
        1
    } else {
        0
    }
}

/// A signed number as an unsigned number of the same bits.
pub open spec fn unsigned_secs(n: i64) -> int {
    if n >= 0 {
        n as int
    } else {
        n + 0x1_0000_0000_0000_0000
    }
}

fn unsigned(n: i64) -> (r: u64)
    ensures
        r == unsigned_secs(n),
{
    if n >= 0 {
        n as u64
    } else {
        0xffff_ffff_ffff_ffff - ((-(n + 1)) as u64)
    }
}

/// The document of a map of strings.
pub open spec fn strings_json(m: Map<Seq<char>, Seq<char>>) -> Json {
    Json::Obj(m.map_values(|s: Seq<char>| <String as ToJson>::json(s)))
}

/// The document of a list of strings.
pub open spec fn names_json(s: Seq<Seq<char>>) -> Json {
    Json::Arr(crate::config_json::jsons::<String>(s))
}

/// The document of a list of targets.
pub open spec fn targets_json(s: Seq<TargetView>) -> Json {
    Json::Arr(crate::config_json::jsons::<RouteTarget>(s))
}

/// A map of strings is what its document says.
pub proof fn strings_are_read_back(m: Map<Seq<char>, Seq<char>>)
    ensures
        crate::columns::strings_in(Some(strings_json(m))) == Some(m),
{
    let f = |s: Seq<char>| <String as ToJson>::json(s);
    let g = |v: Json| crate::columns::text_of(v);
    assert(m.map_values(f).map_values(g) =~= m);
}

/// A list of strings is what its document says.
pub proof fn names_are_read_back(s: Seq<Seq<char>>)
    ensures
        crate::columns::names_in(Some(names_json(s))) == Some(s),
{
    let docs = crate::config_json::jsons::<String>(s);
    let g = |v: Json| crate::columns::text_of(v);
    assert(docs.map_values(g) =~= s);
}

/// A list of targets is what its document says.
pub proof fn targets_are_read_back(s: Seq<TargetView>)
    ensures
        crate::columns::targets_in(Some(targets_json(s))) == Some(s),
{
    reveal_strlit("provider");
    reveal_strlit("model");
    assert("provider"@.len() != "model"@.len());
    let docs = crate::config_json::jsons::<RouteTarget>(s);
    let g = |v: Json| crate::columns::target_in(v)->Some_0;
    assert forall|i: int| 0 <= i < docs.len() implies crate::columns::target_in(
        #[trigger] docs[i],
    ) == Some(s[i]) by {
        assert(docs[i] == <RouteTarget as ToJson>::json(s[i]));
    }
    assert(docs.map_values(g) =~= s);
}

proof fn lemma_targets_plain(s: Seq<TargetView>)
    ensures
        targets_json(s).plain(64),
{
    reveal_strlit("provider");
    reveal_strlit("model");
    reveal_strlit("$serde_json::private::RawValue");
    assert("provider"@.len() == 8 && "model"@.len() == 5);
    assert(crate::json::reserved_name().len() == 30);
    reveal_with_fuel(Json::plain, 4);
    let docs = crate::config_json::jsons::<RouteTarget>(s);
    assert forall|i: int| 0 <= i < docs.len() implies (#[trigger] docs[i]).plain(63) by {
        assert(docs[i] == <RouteTarget as ToJson>::json(s[i]));
    }
}

/// The row that a provider is stored in.
pub open spec fn row_of(name: Seq<char>, p: ProviderView) -> ProviderRowView {
    ProviderRowView {
        name,
        wire: crate::config::wire_name(p.wire),
        base_url: p.base_url,
        api_key: p.api_key,
        model_prefix: p.model_prefix,
        max_tokens_field: p.max_tokens_field,
        extra_headers: crate::json::json_text(strings_json(p.extra_headers)),
        probe_script: p.probe_script,
        probe_script_text: p.probe_script_text,
        probe_source: source_name(p.probe_source),
        probe_enabled: match p.probe_enabled {
            Some(b) => Some(flag_number(b)),
            None => None,
        },
        probe_interval_secs: match p.probe_interval_secs {
            Some(n) => Some(crate::usage::signed_secs(n) as i64),
            None => None,
        },
        quota_min: p.quota_min,
        cost_windows: crate::json::json_text(
            Json::Arr(crate::config_json::jsons::<CostWindow>(p.cost_windows)),
        ),
        model_prices: crate::json::json_text(crate::config_json::prices_json(p.model_prices)),
        usage: crate::json::json_text(Json::Arr(crate::config_json::jsons::<UsageSpec>(p.usage))),
        models: crate::json::json_text(names_json(p.models)),
    }
}

/// The row that a provider is stored in. The row stands for the provider it was made of,
/// with its older cost settings folded in.
pub fn provider_row(name: &str, p: &Provider) -> (r: ProviderRow)
    ensures
        r@ == row_of(name@, p@),
        written_as_read(p@),
        provider_in(r@, columns_of(p@)) == Ok::<ProviderView, Seq<char>>(p@.normalized()),
{
    let headers = dict_json(&p.extra_headers);
    let models = list_json(&p.models);
    let headers_text = headers.to_text();
    let models_text = models.to_text();
    proof {
        assert(headers@ == strings_json(p@.extra_headers));
        assert(models@ == names_json(p@.models));
        strings_are_read_back(p@.extra_headers);
        names_are_read_back(p@.models);
        stored_providers_are_read_back(name@, p@);
    }
    ProviderRow {
        name: name.to_owned(),
        wire: wire_to_str(p.wire).to_owned(),
        base_url: p.base_url.clone(),
        api_key: clone_opt(&p.api_key),
        model_prefix: clone_opt(&p.model_prefix),
        max_tokens_field: p.max_tokens_field.clone(),
        extra_headers: headers_text,
        probe_script: clone_opt(&p.probe_script),
        probe_script_text: clone_opt(&p.probe_script_text),
        probe_source: source_to_str(p.probe_source).to_owned(),
        probe_enabled: match p.probe_enabled {
            Some(b) => Some(to_flag_number(b)),
            None => None,
        },
        probe_interval_secs: match p.probe_interval_secs {
            Some(n) => Some(signed(n)),
            None => None,
        },
        quota_min: clone_opt(&p.quota_min),
        cost_windows: list_json(&p.cost_windows).to_text(),
        model_prices: dict_json(&p.model_prices).to_text(),
        usage: list_json(&p.usage).to_text(),
        models: models_text,
    }
}

/// The row that a route is stored in.
pub open spec fn route_row_of(r: RouteView) -> RouteRowView {
    RouteRowView {
        alias: r.alias,
        provider: r.provider,
        model: r.model,
        fallback: crate::json::json_text(targets_json(r.fallback)),
    }
}

/// The row that a route is stored in. The row stands for the route it was made of.
pub fn route_row(route: &Route) -> (r: RouteRow)
    ensures
        r@ == route_row_of(route@),
        crate::json::reads_back(targets_json(route@.fallback)),
        route_in(r@) == route@,
{
    let fallback = list_json(&route.fallback);
    let fallback_text = fallback.to_text();
    proof {
        lemma_targets_plain(route@.fallback);
        assert(fallback@ == targets_json(route@.fallback));
        stored_routes_are_read_back(route@);
    }
    RouteRow {
        alias: route.alias.clone(),
        provider: route.provider.clone(),
        model: route.model.clone(),
        fallback: fallback_text,
    }
}

/// The value of a column, or the default.
pub open spec fn or_empty<V>(o: Option<Seq<V>>) -> Seq<V> {
    match o {
        Some(s) => s,
        None => Seq::empty(),
    }
}

/// The value of a column, or the default.
pub open spec fn or_no_entries<V>(o: Option<Map<Seq<char>, V>>) -> Map<Seq<char>, V> {
    match o {
        Some(m) => m,
        None => Map::empty(),
    }
}

/// The provider that a row stands for, with the older cost settings folded in; or what is
/// wrong with the row. A JSON column that does not say what it should counts as empty.
pub open spec fn provider_in(row: ProviderRowView, cols: ColumnsView) -> Result<
    ProviderView,
    Seq<char>,
> {
    match crate::config::wire_named(row.wire) {
        None => Err(unknown_wire(row.wire)),
        Some(wire) => Ok(
            ProviderView {
                wire,
                base_url: row.base_url,
                api_key: row.api_key,
                model_prefix: row.model_prefix,
                max_tokens_field: row.max_tokens_field,
                extra_headers: or_no_entries(crate::json::strings_read(row.extra_headers)),
                probe_script: row.probe_script,
                probe_script_text: row.probe_script_text,
                probe_source: source_named(Some(row.probe_source)),
                probe_enabled: match row.probe_enabled {
                    Some(n) => Some(n != 0),
                    None => None,
                },
                probe_interval_secs: match row.probe_interval_secs {
                    Some(n) => Some(unsigned_secs(n) as u64),
                    None => None,
                },
                quota_min: row.quota_min,
                cost_windows: or_empty(cols.cost_windows),
                model_prices: or_no_entries(cols.model_prices),
                usage: or_empty(cols.usage),
                models: or_empty(crate::json::names_read(row.models)),
            }.normalized(),
        ),
    }
}

fn list_or_empty<T: View>(o: Option<Vec<T>>) -> (r: Vec<T>)
    ensures
        crate::text::seq_view(r@) == or_empty(crate::columns::opt_seq_view(o)),
{
    broadcast use crate::text::group_views;

    match o {
        Some(v) => v,
        None => Vec::new(),
    }
}

fn dict_or_empty<T: View>(o: Option<Dict<T>>) -> (r: Dict<T>)
    ensures
        r@ == or_no_entries(crate::text::opt_view(o)),
{
    match o {
        Some(d) => d,
        None => Dict::new(),
    }
}

/// The provider that a row stands for, or what is wrong with the row.
pub fn row_to_provider(row: ProviderRow, cols: Columns) -> (r: Result<Provider, String>)
    ensures
        crate::text::res_view(r) == provider_in(row@, cols@),
{
    let wire = match str_to_wire(row.wire.as_str()) {
        Ok(w) => w,
        Err(m) => {
            return Err(m);
        },
    };
    let mut p = Provider {
        wire,
        base_url: row.base_url,
        api_key: row.api_key,
        model_prefix: row.model_prefix,
        max_tokens_field: row.max_tokens_field,
        extra_headers: dict_or_empty(read_strings(row.extra_headers.as_str())),
        probe_script: row.probe_script,
        probe_script_text: row.probe_script_text,
        probe_source: str_to_source(Some(row.probe_source.as_str())),
        probe_enabled: match row.probe_enabled {
            Some(n) => Some(n != 0),
            None => None,
        },
        probe_interval_secs: match row.probe_interval_secs {
            Some(n) => Some(unsigned(n)),
            None => None,
        },
        quota_min: row.quota_min,
        cost_windows: list_or_empty(cols.cost_windows),
        model_prices: dict_or_empty(cols.model_prices),
        usage: list_or_empty(cols.usage),
        models: list_or_empty(read_names(row.models.as_str())),
    };
    p.normalize_usage();
    Ok(p)
}

/// The route that a row stands for. Fallbacks that are not written as they should be
/// count as none.
pub open spec fn route_in(row: RouteRowView) -> RouteView {
    RouteView {
        alias: row.alias,
        provider: row.provider,
        model: row.model,
        fallback: or_empty(crate::columns::targets_in(crate::json::json_parse(row.fallback))),
    }
}

/// The route that a row stands for.
pub fn row_to_route(row: RouteRow) -> (r: Route)
    ensures
        r@ == route_in(row@),
{
    let fallback = list_or_empty(read_targets(row.fallback.as_str()));
    Route { alias: row.alias, provider: row.provider, model: row.model, fallback }
}

/// Whether the texts of a provider's headers and models are read as they were written.
pub open spec fn written_as_read(p: ProviderView) -> bool {
    &&& crate::json::strings_read(crate::json::json_text(strings_json(p.extra_headers))) == Some(
        p.extra_headers,
    )
    &&& crate::json::names_read(crate::json::json_text(names_json(p.models))) == Some(p.models)
}

/// The columns of a provider's own row that hold amounts, read as they were written.
pub open spec fn columns_of(p: ProviderView) -> ColumnsView {
    ColumnsView {
        cost_windows: Some(p.cost_windows),
        model_prices: Some(p.model_prices),
        usage: Some(p.usage),
    }
}

/// A provider that is stored and loaded again is the same one, with its older cost
/// settings folded in, where the texts of its headers and its models are read as they
/// were written.
pub proof fn stored_providers_are_read_back(name: Seq<char>, p: ProviderView)
    requires
        written_as_read(p),
    ensures
        provider_in(row_of(name, p), columns_of(p)) == Ok::<ProviderView, Seq<char>>(
            p.normalized(),
        ),
{
    crate::config::wire_names_round_trip(p.wire, Seq::empty());
    reveal_strlit("path");
    reveal_strlit("text");
    assert("path"@[0] == 'p');
    assert("text"@[0] == 't');
}

/// A route that is stored and loaded again is the same one, where the text of its
/// fallbacks is read as it was written.
pub proof fn stored_routes_are_read_back(r: RouteView)
    requires
        crate::json::reads_back(targets_json(r.fallback)),
    ensures
        route_in(route_row_of(r)) == r,
{
    targets_are_read_back(r.fallback);
}

/// A row of the table of provider statuses.
#[derive(Debug, PartialEq)]
pub struct StatusRow {
    pub provider: String,
    pub available: i64,
    pub quota_remaining: Option<Double>,
    pub quota_used: Option<Double>,
    pub quota_limit: Option<Double>,
    pub last_checked: Option<i64>,
    pub last_ok: i64,
    pub error: Option<String>,
    pub note: Option<String>,
}

/// The model of a `StatusRow`.
pub struct StatusRowView {
    pub provider: Seq<char>,
    pub available: i64,
    pub quota_remaining: Option<DoubleView>,
    pub quota_used: Option<DoubleView>,
    pub quota_limit: Option<DoubleView>,
    pub last_checked: Option<i64>,
    pub last_ok: i64,
    pub error: Option<Seq<char>>,
    pub note: Option<Seq<char>>,
}

impl View for StatusRow {
    type V = StatusRowView;

    open spec fn view(&self) -> StatusRowView {
        StatusRowView {
            provider: self.provider@,
            available: self.available,
            quota_remaining: crate::text::opt_view(self.quota_remaining),
            quota_used: crate::text::opt_view(self.quota_used),
            quota_limit: crate::text::opt_view(self.quota_limit),
            last_checked: self.last_checked,
            last_ok: self.last_ok,
            error: crate::text::opt_view(self.error),
            note: crate::text::opt_view(self.note),
        }
    }
}

/// The row that a status is stored in.
pub open spec fn status_row_of(provider: Seq<char>, s: StatusView) -> StatusRowView {
    StatusRowView {
        provider,
        available: flag_number(s.available),
        quota_remaining: s.quota_remaining,
        quota_used: s.quota_used,
        quota_limit: s.quota_limit,
        last_checked: s.last_checked,
        last_ok: flag_number(s.last_ok),
        error: s.error,
        note: s.note,
    }
}

/// The status that a row stands for.
pub open spec fn status_in(row: StatusRowView) -> StatusView {
    StatusView {
        available: row.available != 0,
        quota_remaining: row.quota_remaining,
        quota_used: row.quota_used,
        quota_limit: row.quota_limit,
        last_checked: row.last_checked,
        last_ok: row.last_ok != 0,
        error: row.error,
        note: row.note,
    }
}

/// The row that a status is stored in.
pub fn status_row(provider: &str, s: &ProviderStatus) -> (r: StatusRow)
    ensures
        r@ == status_row_of(provider@, s@),
{
    let s = s.clone();
    StatusRow {
        provider: provider.to_owned(),
        available: to_flag_number(s.available),
        quota_remaining: s.quota_remaining,
        quota_used: s.quota_used,
        quota_limit: s.quota_limit,
        last_checked: s.last_checked,
        last_ok: to_flag_number(s.last_ok),
        error: s.error,
        note: s.note,
    }
}

/// A status that is stored and loaded again is the same one.
pub proof fn stored_statuses_are_read_back(provider: Seq<char>, s: StatusView)
    ensures
        status_in(status_row_of(provider, s)) == s,
{
}

/// The statuses that rows stand for, by provider; the last row of a provider counts.
pub open spec fn statuses_in(rows: Seq<StatusRowView>) -> Map<Seq<char>, StatusView>
    decreases rows.len(),
{
    if rows.len() == 0 {
        Map::empty()
    } else {
        statuses_in(rows.drop_last()).insert(rows.last().provider, status_in(rows.last()))
    }
}

/// The statuses that rows stand for, by provider.
pub fn load_statuses(rows: &Vec<StatusRow>) -> (r: Dict<ProviderStatus>)
    ensures
        r@ == statuses_in(crate::text::seq_view(rows@)),
{
    let ghost view = crate::text::seq_view(rows@);
    let mut out: Dict<ProviderStatus> = Dict::new();
    let mut i: usize = 0;
    assert(view.take(0) =~= Seq::empty());
    while i < rows.len()
        invariant
            i <= rows@.len(),
            view == crate::text::seq_view(rows@),
            out@ == statuses_in(view.take(i as int)),
        decreases rows@.len() - i,
    {
        assert(view.take(i as int + 1).drop_last() =~= view.take(i as int));
        assert(view.take(i as int + 1).last() == view[i as int]);
        let row = &rows[i];
        let s = ProviderStatus {
            available: row.available != 0,
            quota_remaining: clone_opt(&row.quota_remaining),
            quota_used: clone_opt(&row.quota_used),
            quota_limit: clone_opt(&row.quota_limit),
            last_checked: row.last_checked,
            last_ok: row.last_ok != 0,
            error: clone_opt(&row.error),
            note: clone_opt(&row.note),
        };
        out.insert(row.provider.as_str(), s);
        i = i + 1;
    }
    assert(view.take(i as int) =~= view);
    out
}

/// The charge that a stored event stands for; nothing where its kind is not known.
pub open spec fn event_in(
    provider: Seq<char>,
    ts: i64,
    usage_type: Seq<char>,
    amount: DoubleView,
) -> Option<StoredView> {
    match crate::config::kind_named(usage_type) {
        Some(kind) => Some(StoredView { provider, kind, event: UsageEventView { ts, amount } }),
        None => None,
    }
}

/// The charge that a stored event stands for.
pub fn row_to_event(provider: String, ts: i64, usage_type: &str, amount: Double) -> (r: Option<
    StoredEvent,
>)
    ensures
        crate::text::opt_view(r) == event_in(provider@, ts, usage_type@, amount@),
{
    match UsageKind::parse(usage_type) {
        Some(kind) => Some(StoredEvent { provider, kind, event: UsageEvent { ts, amount } }),
        None => None,
    }
}

/// The rows that a configuration is stored in: its providers by name, and its routes.
#[derive(Debug, PartialEq)]
pub struct Rows {
    pub providers: Vec<ProviderRow>,
    pub routes: Vec<RouteRow>,
}

/// The rows of the providers of a configuration.
pub open spec fn provider_rows(cfg: ConfigView) -> Seq<ProviderRowView> {
    crate::dict::in_key_order(cfg.providers).map_values(
        |e: (Seq<char>, ProviderView)| row_of(e.0, e.1),
    )
}

/// The rows of the routes of a configuration.
pub open spec fn route_rows(cfg: ConfigView) -> Seq<RouteRowView> {
    cfg.routes.map_values(|r: RouteView| route_row_of(r))
}

/// The rows that a configuration's providers and routes are stored in. Loaded again they
/// give the same providers, with their older cost settings folded in, and the same routes.
pub fn seed_from_config(cfg: &Config) -> (r: Rows)
    ensures
        crate::text::seq_view(r.providers@) == provider_rows(cfg@),
        crate::text::seq_view(r.routes@) == route_rows(cfg@),
        providers_in(seeded(cfg@)) == Ok::<Map<Seq<char>, ProviderView>, Seq<char>>(
            cfg@.providers.map_values(|p: ProviderView| p.normalized()),
        ),
        routes_in(crate::text::seq_view(r.routes@)) == cfg@.routes,
{
    let n = cfg.providers.len();
    let ghost pairs = cfg.providers.pairs();
    let mut providers: Vec<ProviderRow> = Vec::new();
    let mut i: usize = 0;
    while i < n
        invariant
            i <= n,
            n == pairs.len(),
            pairs == cfg.providers.pairs(),
            providers@.len() == i,
            forall|j: int|
                0 <= j < i ==> (#[trigger] providers@[j])@ == row_of(pairs[j].0, pairs[j].1),
            forall|j: int| 0 <= j < i ==> written_as_read((#[trigger] pairs[j]).1),
        decreases n - i,
    {
        providers.push(provider_row(cfg.providers.key(i).as_str(), cfg.providers.value(i)));
        i = i + 1;
    }
    assert(crate::text::seq_view(providers@) =~= provider_rows(cfg@));
    proof {
        lemma_seeded(pairs, pairs.len() as int);
        assert(pairs.take(pairs.len() as int) =~= pairs);
    }
    let mut routes: Vec<RouteRow> = Vec::new();
    let mut k: usize = 0;
    while k < cfg.routes.len()
        invariant
            k <= cfg.routes@.len(),
            routes@.len() == k,
            forall|j: int| 0 <= j < k ==> (#[trigger] routes@[j])@ == route_row_of(cfg.routes@[j]@),
            forall|j: int| 0 <= j < k ==> route_in((#[trigger] routes@[j])@) == cfg.routes@[j]@,
        decreases cfg.routes@.len() - k,
    {
        routes.push(route_row(&cfg.routes[k]));
        k = k + 1;
    }
    assert(crate::text::seq_view(routes@) =~= route_rows(cfg@));
    assert(routes_in(crate::text::seq_view(routes@)) =~= cfg@.routes);
    Rows { providers, routes }
}

/// A provider's row with what its JSON columns say.
#[derive(Debug, PartialEq)]
pub struct StoredProvider {
    pub row: ProviderRow,
    pub columns: Columns,
}

/// The model of a `StoredProvider`.
pub struct StoredProviderView {
    pub row: ProviderRowView,
    pub columns: ColumnsView,
}

impl View for StoredProvider {
    type V = StoredProviderView;

    open spec fn view(&self) -> StoredProviderView {
        StoredProviderView { row: self.row@, columns: self.columns@ }
    }
}

/// The providers that rows stand for, by name; the last row of a name counts. The first
/// row that something is wrong with decides.
pub open spec fn providers_in(rows: Seq<StoredProviderView>) -> Result<
    Map<Seq<char>, ProviderView>,
    Seq<char>,
>
    decreases rows.len(),
{
    if rows.len() == 0 {
        Ok(Map::empty())
    } else {
        match providers_in(rows.drop_last()) {
            Err(m) => Err(m),
            Ok(before) => match provider_in(rows.last().row, rows.last().columns) {
                Err(m) => Err(m),
                Ok(p) => Ok(before.insert(rows.last().row.name, p)),
            },
        }
    }
}

/// The routes that rows stand for.
pub open spec fn routes_in(rows: Seq<RouteRowView>) -> Seq<RouteView> {
    rows.map_values(|r: RouteRowView| route_in(r))
}

/// Replace the configuration's providers and routes with what is stored. Where something
/// is wrong with a row, the configuration stays as it is.
pub fn load_into_config(
    cfg: &mut Config,
    providers: Vec<StoredProvider>,
    routes: Vec<RouteRow>,
) -> (r: Result<(), String>)
    ensures
        match r {
            Ok(_) => {
                &&& providers_in(crate::text::seq_view(providers@)) is Ok
                &&& final(cfg)@ == (ConfigView {
                    providers: providers_in(crate::text::seq_view(providers@))->Ok_0,
                    routes: routes_in(crate::text::seq_view(routes@)),
                    ..old(cfg)@
                })
            },
            Err(m) => {
                &&& providers_in(crate::text::seq_view(providers@)) == Err::<
                    Map<Seq<char>, ProviderView>,
                    Seq<char>,
                >(m@)
                &&& final(cfg)@ == old(cfg)@
            },
        },
{
    broadcast use crate::text::group_views;

    let ghost pview = crate::text::seq_view(providers@);
    let ghost rview = crate::text::seq_view(routes@);
    let mut queue = providers;
    let n = queue.len();
    let mut loaded: Dict<Provider> = Dict::new();
    let mut i: usize = 0;
    assert(pview.take(0) =~= Seq::empty());
    assert(pview.skip(0) =~= pview);
    while i < n
        invariant
            i <= n,
            n == pview.len(),
            pview == crate::text::seq_view(providers@),
            queue@.len() == n - i,
            crate::text::seq_view(queue@) == pview.skip(i as int),
            cfg@ == old(cfg)@,
            providers_in(pview.take(i as int)) == Ok::<Map<Seq<char>, ProviderView>, Seq<char>>(
                loaded@,
            ),
        decreases n - i,
    {
        let ghost cur = queue@;
        assert(pview.take(i as int + 1).drop_last() =~= pview.take(i as int));
        assert(pview.take(i as int + 1).last() == pview[i as int]);
        let e = queue.remove(0);
        assert(crate::text::seq_view(cur)[0] == pview[i as int]);
        assert(crate::text::seq_view(queue@) =~= crate::text::seq_view(cur).skip(1));
        assert(pview.skip(i as int).skip(1) =~= pview.skip(i as int + 1));
        let name = e.row.name.clone();
        match row_to_provider(e.row, e.columns) {
            Ok(p) => {
                loaded.insert(name.as_str(), p);
            },
            Err(m) => {
                proof {
                    lemma_first_error(pview, i as int);
                }
                return Err(m);
            },
        }
        i = i + 1;
    }
    assert(pview.take(i as int) =~= pview);
    let mut rqueue = routes;
    let k = rqueue.len();
    let mut list: Vec<Route> = Vec::new();
    let mut j: usize = 0;
    assert(rview.skip(0) =~= rview);
    while j < k
        invariant
            j <= k,
            k == rview.len(),
            rqueue@.len() == k - j,
            crate::text::seq_view(rqueue@) == rview.skip(j as int),
            list@.len() == j,
            forall|x: int| 0 <= x < j ==> (#[trigger] list@[x])@ == route_in(rview[x]),
        decreases k - j,
    {
        let ghost cur = rqueue@;
        let e = rqueue.remove(0);
        assert(crate::text::seq_view(cur)[0] == rview[j as int]);
        assert(crate::text::seq_view(rqueue@) =~= crate::text::seq_view(cur).skip(1));
        assert(rview.skip(j as int).skip(1) =~= rview.skip(j as int + 1));
        list.push(row_to_route(e));
        j = j + 1;
    }
    assert(crate::text::seq_view(list@) =~= routes_in(rview));
    cfg.providers = loaded;
    cfg.routes = list;
    Ok(())
}

proof fn lemma_first_error(rows: Seq<StoredProviderView>, i: int)
    requires
        0 <= i < rows.len(),
        providers_in(rows.take(i + 1)) is Err,
    ensures
        providers_in(rows) == providers_in(rows.take(i + 1)),
    decreases rows.len(),
{
    if i + 1 == rows.len() {
        assert(rows.take(i + 1) =~= rows);
    } else {
        let init = rows.drop_last();
        assert(init.take(i + 1) =~= rows.take(i + 1));
        lemma_first_error(init, i);
    }
}

/// Rows that were seeded from a configuration, with their columns read as they were
/// written.
pub open spec fn seeded(cfg: ConfigView) -> Seq<StoredProviderView> {
    crate::dict::in_key_order(cfg.providers).map_values(
        |e: (Seq<char>, ProviderView)|
            StoredProviderView { row: row_of(e.0, e.1), columns: columns_of(e.1) },
    )
}

proof fn lemma_seeded(pairs: Seq<(Seq<char>, ProviderView)>, n: int)
    requires
        crate::dict::ascending(pairs),
        0 <= n <= pairs.len(),
        forall|j: int| 0 <= j < pairs.len() ==> written_as_read((#[trigger] pairs[j]).1),
    ensures
        providers_in(
            pairs.take(n).map_values(
                |e: (Seq<char>, ProviderView)|
                    StoredProviderView { row: row_of(e.0, e.1), columns: columns_of(e.1) },
            ),
        ) == Ok::<Map<Seq<char>, ProviderView>, Seq<char>>(
            crate::dict::pairs_map(pairs.take(n)).map_values(|p: ProviderView| p.normalized()),
        ),
    decreases n,
{
    let f = |e: (Seq<char>, ProviderView)|
        StoredProviderView { row: row_of(e.0, e.1), columns: columns_of(e.1) };
    let g = |p: ProviderView| p.normalized();
    let rows = pairs.take(n).map_values(f);
    if n == 0 {
        assert(crate::dict::pairs_map(pairs.take(0)) =~= Map::empty());
        assert(crate::dict::pairs_map(pairs.take(0)).map_values(g) =~= Map::empty());
    } else {
        lemma_seeded(pairs, n - 1);
        crate::dict::lemma_pairs_take(pairs, n - 1);
        assert(rows.drop_last() =~= pairs.take(n - 1).map_values(f));
        assert(rows.last() == f(pairs[n - 1]));
        stored_providers_are_read_back(pairs[n - 1].0, pairs[n - 1].1);
        assert(crate::dict::pairs_map(pairs.take(n)).map_values(g) =~= crate::dict::pairs_map(
            pairs.take(n - 1),
        ).map_values(g).insert(pairs[n - 1].0, pairs[n - 1].1.normalized()));
    }
}

} // verus!
