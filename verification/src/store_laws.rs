//! What stands in the stored rows, and what is read of them.

use vstd::prelude::*;

use crate::config::{
    CostWindow, ProbeSource, ProviderView, RouteView, SpecView, UsageKind, UsageSpec, WireName,
};
use crate::config_json::ToJson;
use crate::double::DoubleView;
use crate::json::Json;
use crate::store::{
    ColumnsView, ProviderRowView, RouteRowView, StatusRowView, StatusView, StoredProviderView,
};

verus! {

/// Wire formats go by their names.
pub proof fn wires_go_by_their_names(w: WireName)
    ensures
        crate::config::wire_name(w) == match w {
            WireName::OpenaiChat => "openai-chat"@,
            WireName::OpenaiResponses => "openai-responses"@,
            WireName::AnthropicMessages => "anthropic-messages"@,
        },
        crate::config::wire_named("openai-chat"@) == Some(WireName::OpenaiChat),
        crate::config::wire_named("openai-responses"@) == Some(WireName::OpenaiResponses),
        crate::config::wire_named("anthropic-messages"@) == Some(WireName::AnthropicMessages),
{
    crate::config::wire_names_round_trip(WireName::OpenaiChat, Seq::empty());
    crate::config::wire_names_round_trip(WireName::OpenaiResponses, Seq::empty());
    crate::config::wire_names_round_trip(WireName::AnthropicMessages, Seq::empty());
}

/// Kinds of usage go by their names, and are counted in dollars, requests or tokens.
pub proof fn kinds_go_by_their_names(k: UsageKind)
    ensures
        crate::config::kind_name(k) == match k {
            UsageKind::Billing => "billing"@,
            UsageKind::Count => "count"@,
            UsageKind::Token => "token"@,
        },
        crate::config::kind_unit(k) == match k {
            UsageKind::Billing => "usd"@,
            UsageKind::Count => "requests"@,
            UsageKind::Token => "tokens"@,
        },
        crate::config::kind_named("billing"@) == Some(UsageKind::Billing),
        crate::config::kind_named("count"@) == Some(UsageKind::Count),
        crate::config::kind_named("token"@) == Some(UsageKind::Token),
{
    crate::config::kind_names_round_trip(UsageKind::Billing, Seq::empty());
    crate::config::kind_names_round_trip(UsageKind::Count, Seq::empty());
    crate::config::kind_names_round_trip(UsageKind::Token, Seq::empty());
}

/// A usage spec is of its kind and has its windows; only one for billing has prices, and the
/// price of a model is the one it has for it.
pub proof fn specs_are_what_they_hold(spec: SpecView, model: Seq<char>)
    ensures
        match spec {
            SpecView::Billing { windows, model_prices } => {
                &&& spec.kind() is Billing
                &&& spec.windows() == windows
                &&& spec.model_prices() == Some(model_prices)
                &&& model_prices.dom().contains(model) ==> spec.price_of(model) == Some(
                    model_prices[model],
                )
                &&& !model_prices.dom().contains(model) ==> spec.price_of(model) is None
            },
            SpecView::Count { windows } => {
                &&& spec.kind() is Count
                &&& spec.windows() == windows
                &&& spec.model_prices() is None
                &&& spec.price_of(model) is None
            },
            SpecView::Token { windows } => {
                &&& spec.kind() is Token
                &&& spec.windows() == windows
                &&& spec.model_prices() is None
                &&& spec.price_of(model) is None
            },
        },
{
}

/// Older cost settings become the one usage spec of a provider, for billing, where it has
/// none; and nothing else of it changes.
pub proof fn older_settings_are_folded_in(p: ProviderView)
    ensures
        ({
            let n = p.normalized();
            let older = p.cost_windows.len() > 0 || exists|m: Seq<char>|
                p.model_prices.dom().contains(m);
            &&& n == (ProviderView { usage: n.usage, ..p })
            &&& p.usage.len() > 0 || !older ==> n.usage == p.usage
            &&& p.usage.len() == 0 && older ==> n.usage.len() == 1 && n.usage[0] == (
            SpecView::Billing { windows: p.cost_windows, model_prices: p.model_prices })
        }),
{
    if !(exists|m: Seq<char>| p.model_prices.dom().contains(m)) {
        assert(p.model_prices =~= Map::empty());
    }
}

/// A provider is stored column by column: lists and maps as the texts of their documents,
/// flags as numbers, and its wire format and its source of scripts by their names.
pub proof fn providers_are_stored(name: Seq<char>, p: ProviderView)
    ensures
        ({
            let row = crate::store::row_of(name, p);
            &&& row.name == name
            &&& row.wire == crate::config::wire_name(p.wire)
            &&& row.base_url == p.base_url
            &&& row.api_key == p.api_key
            &&& row.model_prefix == p.model_prefix
            &&& row.max_tokens_field == p.max_tokens_field
            &&& row.probe_script == p.probe_script
            &&& row.probe_script_text == p.probe_script_text
            &&& p.probe_source is Path ==> row.probe_source == "path"@
            &&& p.probe_source is Text ==> row.probe_source == "text"@
            &&& p.probe_enabled is None ==> row.probe_enabled is None
            &&& p.probe_enabled == Some(true) ==> row.probe_enabled == Some(1i64)
            &&& p.probe_enabled == Some(false) ==> row.probe_enabled == Some(0i64)
            &&& p.probe_interval_secs is None ==> row.probe_interval_secs is None
            &&& p.probe_interval_secs matches Some(n) ==> (n <= i64::MAX ==> row.probe_interval_secs
                == Some(n as i64))
            &&& row.quota_min == p.quota_min
        }),
{
}

/// The columns of a stored provider that hold lists and maps are the texts of documents with
/// its headers, its windows, its prices, its usage specs and its models.
pub proof fn provider_lists_are_stored(name: Seq<char>, p: ProviderView)
    ensures
        ({
            let row = crate::store::row_of(name, p);
            &&& row.extra_headers == crate::json::json_text(
                Json::Obj(p.extra_headers.map_values(|s: Seq<char>| Json::Str(s))),
            )
            &&& row.cost_windows == crate::json::json_text(
                Json::Arr(
                    Seq::new(
                        p.cost_windows.len(),
                        |i: int| <CostWindow as ToJson>::json(p.cost_windows[i]),
                    ),
                ),
            )
            &&& row.model_prices == crate::json::json_text(
                Json::Obj(
                    p.model_prices.map_values(
                        |x: crate::config::PriceView|
                            Json::obj().with("input"@, x.input.json).with(
                                "output"@,
                                x.output.json,
                            ),
                    ),
                ),
            )
            &&& row.usage == crate::json::json_text(
                Json::Arr(
                    Seq::new(p.usage.len(), |i: int| <UsageSpec as ToJson>::json(p.usage[i])),
                ),
            )
            &&& row.models == crate::json::json_text(
                Json::Arr(Seq::new(p.models.len(), |i: int| Json::Str(p.models[i]))),
            )
        }),
{
    assert(crate::store::strings_json(p.extra_headers)->Obj_0 =~= p.extra_headers.map_values(
        |s: Seq<char>| Json::Str(s),
    ));
    assert(crate::config_json::jsons::<CostWindow>(p.cost_windows) =~= Seq::new(
        p.cost_windows.len(),
        |i: int| <CostWindow as ToJson>::json(p.cost_windows[i]),
    ));
    assert(crate::config_json::prices_json(p.model_prices)->Obj_0 =~= p.model_prices.map_values(
        |x: crate::config::PriceView|
            Json::obj().with("input"@, x.input.json).with("output"@, x.output.json),
    ));
    assert(crate::config_json::jsons::<UsageSpec>(p.usage) =~= Seq::new(
        p.usage.len(),
        |i: int| <UsageSpec as ToJson>::json(p.usage[i]),
    ));
    assert(crate::config_json::jsons::<String>(p.models) =~= Seq::new(
        p.models.len(),
        |i: int| Json::Str(p.models[i]),
    ));
}

/// A row of a wire format that is not known is refused, and the answer names it. Any other
/// stands for a provider that has what its columns say. Columns that are not read count as
/// empty, flags are set where they are not zero, and a source is a path unless it is text.
pub proof fn provider_rows_are_read(row: ProviderRowView, cols: ColumnsView)
    ensures
        crate::config::wire_named(row.wire) is None ==> crate::store::provider_in(row, cols)
            == Err::<ProviderView, Seq<char>>("unknown wire format in DB: "@ + row.wire),
        crate::config::wire_named(row.wire) matches Some(wire) ==> {
            &&& crate::store::provider_in(row, cols) matches Ok(p) && {
                &&& p.wire == wire
                &&& p.base_url == row.base_url
                &&& p.api_key == row.api_key
                &&& p.model_prefix == row.model_prefix
                &&& p.max_tokens_field == row.max_tokens_field
                &&& p.probe_script == row.probe_script
                &&& p.probe_script_text == row.probe_script_text
                &&& p.probe_source is Text <==> row.probe_source == "text"@
                &&& row.probe_enabled is None ==> p.probe_enabled is None
                &&& row.probe_enabled matches Some(n) ==> p.probe_enabled == Some(n != 0)
                &&& row.probe_interval_secs is None ==> p.probe_interval_secs is None
                &&& row.probe_interval_secs matches Some(n) ==> (n >= 0 ==> p.probe_interval_secs
                    == Some(n as u64))
                &&& p.quota_min == row.quota_min
                &&& p.extra_headers == match crate::json::strings_read(row.extra_headers) {
                    Some(m) => m,
                    None => Map::empty(),
                }
                &&& p.models == match crate::json::names_read(row.models) {
                    Some(s) => s,
                    None => Seq::empty(),
                }
                &&& p.cost_windows == match cols.cost_windows {
                    Some(s) => s,
                    None => Seq::empty(),
                }
                &&& p.model_prices == match cols.model_prices {
                    Some(m) => m,
                    None => Map::empty(),
                }
                &&& cols.usage matches Some(s) ==> (s.len() > 0 ==> p.usage == s)
                &&& p.normalized() == p
            }
        },
{
}

/// A route is stored with its alias, its provider and its model, and with its fallbacks as
/// the text of a document; and is read from there. Fallbacks that are not read count as
/// none.
pub proof fn routes_are_stored_and_read(r: RouteView, row: RouteRowView)
    ensures
        ({
            let out = crate::store::route_row_of(r);
            &&& out.alias == r.alias
            &&& out.provider == r.provider
            &&& out.model == r.model
            &&& out.fallback == crate::json::json_text(
                Json::Arr(
                    Seq::new(
                        r.fallback.len(),
                        |i: int|
                            Json::obj().with("provider"@, Json::Str(r.fallback[i].provider)).with(
                                "model"@,
                                Json::Str(r.fallback[i].model),
                            ),
                    ),
                ),
            )
        }),
        ({
            let out = crate::store::route_in(row);
            &&& out.alias == row.alias
            &&& out.provider == row.provider
            &&& out.model == row.model
            &&& out.fallback == match crate::columns::targets_in(
                crate::json::json_parse(row.fallback),
            ) {
                Some(ts) => ts,
                None => Seq::empty(),
            }
        }),
{
    assert(crate::config_json::jsons::<crate::config::RouteTarget>(r.fallback) =~= Seq::new(
        r.fallback.len(),
        |i: int|
            Json::obj().with("provider"@, Json::Str(r.fallback[i].provider)).with(
                "model"@,
                Json::Str(r.fallback[i].model),
            ),
    ));
}

/// Whether a document stands for a target: as an object with the provider and the model
/// under these names, or as the pair of them.
pub open spec fn names_target(j: Json, t: crate::config::TargetView) -> bool {
    match j {
        Json::Arr(a) => a == seq![Json::Str(t.provider), Json::Str(t.model)],
        _ => j.get("provider"@) == Some(Json::Str(t.provider)) && j.get("model"@) == Some(
            Json::Str(t.model),
        ),
    }
}

/// A document is a list of targets exactly where it is an array of documents that stand for
/// them, in their order.
pub proof fn targets_are_read(j: Option<Json>, ts: Seq<crate::config::TargetView>)
    ensures
        crate::columns::targets_in(j) == Some(ts) <==> (j matches Some(Json::Arr(a)) && a.len()
            == ts.len() && forall|i: int|
            0 <= i < a.len() ==> names_target(#[trigger] a[i], ts[i])),
{
    if let Some(Json::Arr(a)) = j {
        assert forall|i: int| 0 <= i < a.len() implies (names_target(#[trigger] a[i], ts[i])
            <==> crate::columns::target_in(a[i]) == Some(ts[i])) by {
            if let Json::Arr(b) = a[i] {
                if crate::columns::target_in(a[i]) == Some(ts[i]) {
                    assert(b =~= seq![Json::Str(ts[i].provider), Json::Str(ts[i].model)]);
                }
            }
        }
        if a.len() == ts.len() && forall|i: int|
            0 <= i < a.len() ==> names_target(#[trigger] a[i], ts[i]) {
            assert(a.map_values(|v: Json| crate::columns::target_in(v)->Some_0) =~= ts);
        }
    }
}

/// Rows are read one after the other: one more row that stands for a provider adds it under
/// its name, or puts it in the place of the one that had the name; and one that does not
/// makes the whole fail. After a failure nothing counts.
pub proof fn provider_rows_are_read_in_order(
    rows: Seq<StoredProviderView>,
    row: StoredProviderView,
)
    ensures
        crate::store::providers_in(Seq::empty()) == Ok::<Map<Seq<char>, ProviderView>, Seq<char>>(
            Map::empty(),
        ),
        ({
            let before = crate::store::providers_in(rows);
            let after = crate::store::providers_in(rows.push(row));
            match (before, crate::store::provider_in(row.row, row.columns)) {
                (Err(m), _) => after == before,
                (Ok(m), Ok(p)) => after == Ok::<Map<Seq<char>, ProviderView>, Seq<char>>(
                    m.insert(row.row.name, p),
                ),
                (Ok(m), Err(e)) => after == Err::<Map<Seq<char>, ProviderView>, Seq<char>>(e),
            }
        }),
{
    assert(rows.push(row).drop_last() =~= rows);
}

/// The routes that rows stand for are read row by row.
pub proof fn route_rows_are_read_in_order(rows: Seq<RouteRowView>, i: int)
    ensures
        crate::store::routes_in(rows).len() == rows.len(),
        0 <= i < rows.len() ==> crate::store::routes_in(rows)[i] == crate::store::route_in(rows[i]),
{
}

/// The rows of a configuration are those of its providers, in the order of their names, and
/// those of its routes, in their order.
pub proof fn configurations_are_stored(
    cfg: crate::config::ConfigView,
    all: Seq<(Seq<char>, ProviderView)>,
    i: int,
)
    requires
        crate::dict::ascending(all),
        crate::dict::pairs_map(all) == cfg.providers,
    ensures
        crate::store::provider_rows(cfg).len() == all.len(),
        0 <= i < all.len() ==> crate::store::provider_rows(cfg)[i] == crate::store::row_of(
            all[i].0,
            all[i].1,
        ),
        crate::store::route_rows(cfg).len() == cfg.routes.len(),
        0 <= i < cfg.routes.len() ==> crate::store::route_rows(cfg)[i]
            == crate::store::route_row_of(cfg.routes[i]),
{
    crate::dict::key_order_is_unique(all);
}

/// A status is stored member by member, under the name of its provider, and read from there;
/// its flags are stored as one and zero, and are set where they are not zero.
pub proof fn statuses_are_stored_and_read(provider: Seq<char>, s: StatusView, row: StatusRowView)
    ensures
        ({
            let out = crate::store::status_row_of(provider, s);
            &&& out.provider == provider
            &&& out.available == if s.available {
                1int
            } else {
                0int
            }
            &&& out.quota_remaining == s.quota_remaining
            &&& out.quota_used == s.quota_used
            &&& out.quota_limit == s.quota_limit
            &&& out.last_checked == s.last_checked
            &&& out.last_ok == if s.last_ok {
                1int
            } else {
                0int
            }
            &&& out.error == s.error
            &&& out.note == s.note
        }),
        ({
            let out = crate::store::status_in(row);
            &&& out.available <==> row.available != 0
            &&& out.quota_remaining == row.quota_remaining
            &&& out.quota_used == row.quota_used
            &&& out.quota_limit == row.quota_limit
            &&& out.last_checked == row.last_checked
            &&& out.last_ok <==> row.last_ok != 0
            &&& out.error == row.error
            &&& out.note == row.note
        }),
{
}

/// Statuses are read one after the other: one more row gives the provider it names its
/// status, and no other provider another.
pub proof fn status_rows_are_read_in_order(rows: Seq<StatusRowView>, row: StatusRowView)
    ensures
        crate::store::statuses_in(Seq::empty()) == Map::<Seq<char>, StatusView>::empty(),
        crate::store::statuses_in(rows.push(row)) == crate::store::statuses_in(rows).insert(
            row.provider,
            crate::store::status_in(row),
        ),
{
    assert(rows.push(row).drop_last() =~= rows);
}

/// A stored charge is one of the provider it names, in the kind it names, of its time and
/// its amount; one of a kind that is not known is none.
pub proof fn charges_are_read(
    provider: Seq<char>,
    ts: i64,
    usage_type: Seq<char>,
    amount: DoubleView,
)
    ensures
        ({
            let out = crate::store::event_in(provider, ts, usage_type, amount);
            &&& out is Some <==> usage_type == "billing"@ || usage_type == "count"@ || usage_type
                == "token"@
            &&& out matches Some(e) ==> {
                &&& e.provider == provider
                &&& e.event.ts == ts
                &&& e.event.amount == amount
                &&& e.kind is Billing <==> usage_type == "billing"@
                &&& e.kind is Count <==> usage_type == "count"@
                &&& e.kind is Token <==> usage_type == "token"@
            }
        }),
{
    kinds_go_by_their_names(UsageKind::Billing);
    kinds_go_by_their_names(UsageKind::Count);
    kinds_go_by_their_names(UsageKind::Token);
}

/// A source of scripts is a path unless its name says text.
pub proof fn sources_go_by_their_names(s: Option<Seq<char>>)
    ensures
        crate::store::source_name(ProbeSource::Path) == "path"@,
        crate::store::source_name(ProbeSource::Text) == "text"@,
        crate::store::source_named(s) is Text <==> s == Some("text"@),
{
}

} // verus!
