//! What a request to change providers or routes comes to, and how they are listed.

use vstd::prelude::*;

use crate::admin::{InputView, RouteInputView};
use crate::config::{ConfigView, ProviderView, RouteView, WireName};
use crate::error::ErrorView;
use crate::json::Json;
use crate::store::StatusView;
use crate::usage::StatView;

verus! {

/// A management request is answered only where it carries the token, if there is one; else
/// it is refused, whatever it asks.
pub proof fn management_is_guarded(
    cfg: ConfigView,
    authorization: Option<Seq<char>>,
    api_key: Option<Seq<char>>,
    answer: Result<Json, ErrorView>,
)
    ensures
        ({
            let open = match cfg.auth_token {
                None => true,
                Some(t) => authorization == Some("Bearer "@ + t) || api_key == Some(t),
            };
            let out = crate::admin::guarded(cfg, authorization, api_key, answer);
            &&& open ==> out == answer
            &&& !open ==> out == Err::<Json, ErrorView>(
                ErrorView::Unauthorized("invalid bridge auth token"@),
            )
        }),
{
    if let Some(t) = cfg.auth_token {
        crate::report_laws::only_the_token_opens(t, authorization, api_key);
    }
}

/// A text of a form is taken without the white space around it, and counts as missing where
/// nothing else is in it.
pub proof fn blank_texts_are_missing(s: Option<Seq<char>>)
    ensures
        s is None ==> crate::admin::cleaned(s) is None,
        s matches Some(t) ==> (crate::text::trimmed(t).len() == 0 ==> crate::admin::cleaned(
            s,
        ) is None),
        s matches Some(t) ==> (crate::text::trimmed(t).len() > 0 ==> crate::admin::cleaned(s)
            == Some(crate::text::trimmed(t))),
{
}

/// A provider is taken on where its wire format is known and it has a base URL; otherwise
/// the answer says what is wrong.
pub proof fn providers_are_checked(input: InputView, stored: Option<Seq<char>>)
    ensures
        ({
            let known = input.wire == "openai-chat"@ || input.wire == "openai-responses"@
                || input.wire == "anthropic-messages"@;
            let out = crate::admin::provided(input, stored);
            &&& !known ==> out == Err::<ProviderView, ErrorView>(
                ErrorView::BadRequest(
                    "unknown wire '"@ + input.wire
                        + "' (expected openai-chat | openai-responses | anthropic-messages)"@,
                ),
            )
            &&& known && crate::text::trimmed(input.base_url).len() == 0 ==> out == Err::<
                ProviderView,
                ErrorView,
            >(ErrorView::BadRequest("base_url is required"@))
            &&& known && crate::text::trimmed(input.base_url).len() > 0 ==> out is Ok
        }),
{
    crate::store_laws::wires_go_by_their_names(WireName::OpenaiChat);
}

/// A provider that is taken on has what was asked for: its texts without the white space
/// around them, its own key or else the stored one, and the common name for the token limit
/// where it has none of its own. Its models are not asked for.
pub proof fn providers_are_what_was_asked_for(
    input: InputView,
    stored: Option<Seq<char>>,
    p: ProviderView,
)
    requires
        crate::admin::provided(input, stored) == Ok::<ProviderView, ErrorView>(p),
    ensures
        p.wire is OpenaiChat <==> input.wire == "openai-chat"@,
        p.wire is OpenaiResponses <==> input.wire == "openai-responses"@,
        p.wire is AnthropicMessages <==> input.wire == "anthropic-messages"@,
        p.base_url == crate::text::trimmed(input.base_url),
        crate::admin::cleaned(input.api_key) matches Some(k) ==> p.api_key == Some(k),
        crate::admin::cleaned(input.api_key) is None ==> p.api_key == stored,
        p.model_prefix == crate::admin::cleaned(input.model_prefix),
        crate::admin::cleaned(input.max_tokens_field) matches Some(f) ==> p.max_tokens_field == f,
        crate::admin::cleaned(input.max_tokens_field) is None ==> p.max_tokens_field
            == "max_tokens"@,
        p.extra_headers == input.extra_headers,
        p.probe_script == crate::admin::cleaned(input.probe_script),
        p.probe_script_text == crate::admin::cleaned(input.probe_script_text),
        p.probe_source is Text <==> input.probe_source == Some("text"@),
        p.probe_enabled == input.probe_enabled,
        p.probe_interval_secs == input.probe_interval_secs,
        p.quota_min == input.quota_min,
        p.cost_windows == input.cost_windows,
        p.model_prices == input.model_prices,
        input.usage.len() > 0 ==> p.usage == input.usage,
        p.normalized() == p,
        p.models.len() == 0,
{
    crate::store_laws::wires_go_by_their_names(WireName::OpenaiChat);
    crate::store_laws::wires_go_by_their_names(WireName::OpenaiResponses);
    crate::store_laws::wires_go_by_their_names(WireName::AnthropicMessages);
}

/// A provider is created where its name is free, without a key of before, and changed where
/// there is one of its name, whose key stays where none is given. The name of a new one must
/// not be blank.
pub proof fn providers_are_created_and_changed(
    name: Seq<char>,
    given: Option<Seq<char>>,
    taken: bool,
    existing: Option<ProviderView>,
    input: InputView,
)
    ensures
        taken ==> crate::admin::created(name, taken, input) == Err::<ProviderView, ErrorView>(
            ErrorView::Conflict("provider '"@ + name + "' already exists"@),
        ),
        !taken ==> crate::admin::created(name, taken, input) == crate::admin::provided(input, None),
        existing is None ==> crate::admin::updated(name, existing, input) == Err::<
            ProviderView,
            ErrorView,
        >(ErrorView::NotFound("no such provider: "@ + name)),
        existing matches Some(p) ==> crate::admin::updated(name, existing, input)
            == crate::admin::provided(input, p.api_key),
        crate::admin::cleaned(given) is None ==> crate::admin::name_for(given) == Err::<
            Seq<char>,
            ErrorView,
        >(ErrorView::BadRequest("name is required"@)),
        crate::admin::cleaned(given) matches Some(n) ==> crate::admin::name_for(given) == Ok::<
            Seq<char>,
            ErrorView,
        >(n),
{
}

/// Of one more route, it goes with a provider exactly where the provider is its own.
pub proof fn routes_go_with_their_provider(routes: Seq<RouteView>, r: RouteView, name: Seq<char>)
    ensures
        crate::admin::routes_to(Seq::empty(), name) == 0,
        r.provider == name ==> crate::admin::routes_to(routes.push(r), name)
            == crate::admin::routes_to(routes, name) + 1,
        r.provider != name ==> crate::admin::routes_to(routes.push(r), name)
            == crate::admin::routes_to(routes, name),
{
    assert(routes.push(r).drop_last() =~= routes);
}

/// A deletion is answered with how many routes went with the provider; and where nothing was
/// deleted, that there was nothing of the name.
pub proof fn deletions_are_answered(cfg: ConfigView, name: Seq<char>, removed: u64)
    ensures
        removed == 0 ==> crate::admin::provider_deleted(cfg, name, removed) == Err::<
            Json,
            ErrorView,
        >(ErrorView::NotFound("no such provider: "@ + name)),
        removed > 0 ==> (crate::admin::provider_deleted(cfg, name, removed) matches Ok(j) && {
            &&& j.get("ok"@) == Some(Json::Bool(true))
            &&& j.get("cascaded_routes"@) == Some(
                Json::num(crate::admin::routes_to(cfg.routes, name) as u64),
            )
        }),
        removed == 0 ==> crate::admin::route_deleted(name, removed) == Err::<Json, ErrorView>(
            ErrorView::NotFound("no such route: "@ + name),
        ),
        removed > 0 ==> (crate::admin::route_deleted(name, removed) matches Ok(j) && j.get("ok"@)
            == Some(Json::Bool(true))),
{
    reveal_strlit("ok");
    reveal_strlit("cascaded_routes");
    assert("ok"@.len() == 2 && "cascaded_routes"@.len() == 15);
}

/// What was stored is answered with its name.
pub proof fn storing_is_answered(name: Seq<char>)
    ensures
        crate::admin::stored_answer("name"@, name).get("ok"@) == Some(Json::Bool(true)),
        crate::admin::stored_answer("name"@, name).get("name"@) == Some(Json::Str(name)),
        crate::admin::stored_answer("alias"@, name).get("ok"@) == Some(Json::Bool(true)),
        crate::admin::stored_answer("alias"@, name).get("alias"@) == Some(Json::Str(name)),
{
    reveal_strlit("ok");
    reveal_strlit("name");
    reveal_strlit("alias");
    assert("ok"@.len() == 2 && "name"@.len() == 4 && "alias"@.len() == 5);
}

/// Whether the fallback `i` is the first whose provider is not known.
pub open spec fn is_stray(
    input: RouteInputView,
    providers: Map<Seq<char>, ProviderView>,
    i: int,
) -> bool {
    &&& 0 <= i < input.fallback.len()
    &&& !providers.dom().contains(input.fallback[i].provider)
    &&& forall|j: int|
        0 <= j < i ==> providers.dom().contains((#[trigger] input.fallback[j]).provider)
}

proof fn lemma_stray(
    fallback: Seq<crate::config::TargetView>,
    providers: Map<Seq<char>, ProviderView>,
    i: int,
)
    requires
        0 <= i < fallback.len(),
        !providers.dom().contains(fallback[i].provider),
        forall|j: int| 0 <= j < i ==> providers.dom().contains((#[trigger] fallback[j]).provider),
    ensures
        crate::admin::unknown_fallback(fallback, providers) == Some(fallback[i].provider),
    decreases i,
{
    if i > 0 {
        let rest = fallback.skip(1);
        assert(providers.dom().contains(fallback[0].provider));
        assert forall|j: int| 0 <= j < i - 1 implies providers.dom().contains(
            (#[trigger] rest[j]).provider,
        ) by {
            assert(rest[j] == fallback[j + 1]);
        }
        lemma_stray(rest, providers, i - 1);
    }
}

proof fn lemma_no_stray(
    fallback: Seq<crate::config::TargetView>,
    providers: Map<Seq<char>, ProviderView>,
)
    requires
        forall|j: int|
            0 <= j < fallback.len() ==> providers.dom().contains(
                (#[trigger] fallback[j]).provider,
            ),
    ensures
        crate::admin::unknown_fallback(fallback, providers) is None,
    decreases fallback.len(),
{
    if fallback.len() > 0 {
        let rest = fallback.skip(1);
        assert(providers.dom().contains(fallback[0].provider));
        assert forall|j: int| 0 <= j < rest.len() implies providers.dom().contains(
            (#[trigger] rest[j]).provider,
        ) by {
            assert(rest[j] == fallback[j + 1]);
        }
        lemma_no_stray(rest, providers);
    }
}

/// A route is taken on as it was asked for, its provider and its model without the white
/// space around them, where its model is not blank and all its providers are known;
/// otherwise the answer says what is wrong, of the fallbacks with the first that is not
/// known.
pub proof fn routes_are_checked(
    input: RouteInputView,
    alias: Seq<char>,
    providers: Map<Seq<char>, ProviderView>,
    i: int,
)
    ensures
        ({
            let provider = crate::text::trimmed(input.provider);
            let model = crate::text::trimmed(input.model);
            let out = crate::admin::routed(input, alias, providers);
            &&& model.len() == 0 ==> out == Err::<RouteView, ErrorView>(
                ErrorView::BadRequest("model is required"@),
            )
            &&& model.len() > 0 && !providers.dom().contains(provider) ==> out == Err::<
                RouteView,
                ErrorView,
            >(ErrorView::BadRequest("unknown provider: "@ + provider))
            &&& model.len() > 0 && providers.dom().contains(provider) && is_stray(
                input,
                providers,
                i,
            ) ==> out == Err::<RouteView, ErrorView>(
                ErrorView::BadRequest(
                    "unknown fallback provider: "@ + input.fallback[i].provider,
                ),
            )
            &&& model.len() > 0 && providers.dom().contains(provider) && (forall|j: int|
                0 <= j < input.fallback.len() ==> providers.dom().contains(
                    (#[trigger] input.fallback[j]).provider,
                )) ==> (out matches Ok(r) && r.alias == alias && r.provider == provider && r.model
                == model && r.fallback == input.fallback)
        }),
{
    if is_stray(input, providers, i) {
        lemma_stray(input.fallback, providers, i);
    }
    if forall|j: int|
        0 <= j < input.fallback.len() ==> providers.dom().contains(
            (#[trigger] input.fallback[j]).provider,
        ) {
        lemma_no_stray(input.fallback, providers);
    }
}

/// A route is created where it has an alias that no route has, and changed where a route has
/// its alias.
pub proof fn routes_are_created_and_changed(
    cfg: ConfigView,
    alias: Seq<char>,
    input: RouteInputView,
)
    ensures
        ({
            let exists_already = exists|i: int|
                0 <= i < cfg.routes.len() && (#[trigger] cfg.routes[i]).alias == alias;
            &&& crate::admin::cleaned(input.alias) is None ==> crate::admin::route_created(
                cfg,
                input,
            ) == Err::<RouteView, ErrorView>(ErrorView::BadRequest("alias is required"@))
            &&& crate::admin::cleaned(input.alias) == Some(alias) && exists_already
                ==> crate::admin::route_created(cfg, input) == Err::<RouteView, ErrorView>(
                ErrorView::Conflict("route '"@ + alias + "' already exists"@),
            )
            &&& crate::admin::cleaned(input.alias) == Some(alias) && !exists_already
                ==> crate::admin::route_created(cfg, input) == crate::admin::routed(
                input,
                alias,
                cfg.providers,
            )
            &&& !exists_already ==> crate::admin::route_updated(cfg, alias, input) == Err::<
                RouteView,
                ErrorView,
            >(ErrorView::NotFound("no such route: "@ + alias))
            &&& exists_already ==> crate::admin::route_updated(cfg, alias, input)
                == crate::admin::routed(input, alias, cfg.providers)
        }),
{
}

proof fn lemma_listing_keys()
    ensures
        "name"@.len() == 4,
        "wire"@.len() == 4,
        "note"@.len() == 4,
        "name"@ != "wire"@,
        "base_url"@.len() == 8,
        "api_key_set"@.len() == 11,
        "quota_limit"@.len() == 11,
        "model_prefix"@.len() == 12,
        "probe_script"@.len() == 12,
        "probe_source"@.len() == 12,
        "last_checked"@.len() == 12,
        "model_prefix"@ != "probe_script"@,
        "model_prefix"@ != "probe_source"@,
        "probe_script"@ != "probe_source"@,
        "max_tokens_field"@.len() == 16,
        "extra_headers"@.len() == 13,
        "probe_enabled"@.len() == 13,
        "extra_headers"@ != "probe_enabled"@,
        "probe_script_text"@.len() == 17,
        "probe_enabled_override"@.len() == 22,
        "probe_interval_secs"@.len() == 19,
        "quota_min"@.len() == 9,
        "available"@.len() == 9,
        "usage"@.len() == 5,
        "error"@.len() == 5,
        "status"@.len() == 6,
        "quota_remaining"@.len() == 15,
        "quota_used"@.len() == 10,
        "last_ok"@.len() == 7,
{
    reveal_strlit("name");
    reveal_strlit("wire");
    reveal_strlit("note");
    reveal_strlit("base_url");
    reveal_strlit("api_key_set");
    reveal_strlit("quota_limit");
    reveal_strlit("model_prefix");
    reveal_strlit("probe_script");
    reveal_strlit("probe_source");
    reveal_strlit("last_checked");
    reveal_strlit("max_tokens_field");
    reveal_strlit("extra_headers");
    reveal_strlit("probe_enabled");
    reveal_strlit("probe_script_text");
    reveal_strlit("probe_enabled_override");
    reveal_strlit("probe_interval_secs");
    reveal_strlit("quota_min");
    reveal_strlit("available");
    reveal_strlit("usage");
    reveal_strlit("error");
    reveal_strlit("status");
    reveal_strlit("quota_remaining");
    reveal_strlit("quota_used");
    reveal_strlit("last_ok");
    assert("name"@[0] == 'n' && "wire"@[0] == 'w');
    assert("model_prefix"@[0] == 'm' && "probe_script"@[0] == 'p' && "probe_source"@[0] == 'p');
    assert("probe_script"@[7] == 'c' && "probe_source"@[7] == 'o');
    assert("extra_headers"@[0] == 'e' && "probe_enabled"@[0] == 'p');
}

/// Whether a document shows a status, member by member.
pub open spec fn shows_status(j: Json, s: StatusView) -> bool {
    &&& j.get("available"@) == Some(Json::Bool(s.available))
    &&& j.get("quota_remaining"@) == Some(crate::double::opt_double_json(s.quota_remaining))
    &&& j.get("quota_used"@) == Some(crate::double::opt_double_json(s.quota_used))
    &&& j.get("quota_limit"@) == Some(crate::double::opt_double_json(s.quota_limit))
    &&& j.get("last_checked"@) == Some(crate::config_json::opt_signed_json(s.last_checked))
    &&& j.get("last_ok"@) == Some(Json::Bool(s.last_ok))
    &&& j.get("error"@) == Some(Json::opt_str(s.error))
    &&& j.get("note"@) == Some(Json::opt_str(s.note))
}

/// Whether a document shows a provider for management: all of its settings, whether it has a
/// key but not the key, and what is known of it.
pub open spec fn shows_settings(j: Json, name: Seq<char>, p: ProviderView, s: StatusView) -> bool {
    &&& j.get("name"@) == Some(Json::Str(name))
    &&& j.get("wire"@) == Some(Json::Str(crate::config::wire_name(p.wire)))
    &&& j.get("base_url"@) == Some(Json::Str(p.base_url))
    &&& j.get("api_key_set"@) == Some(Json::Bool(p.api_key is Some))
    &&& j.get("model_prefix"@) == Some(Json::opt_str(p.model_prefix))
    &&& j.get("max_tokens_field"@) == Some(Json::Str(p.max_tokens_field))
    &&& j.get("extra_headers"@) == Some(
        Json::Obj(p.extra_headers.map_values(|v: Seq<char>| Json::Str(v))),
    )
    &&& j.get("probe_script"@) == Some(Json::opt_str(p.probe_script))
    &&& j.get("probe_script_text"@) == Some(Json::opt_str(p.probe_script_text))
    &&& j.get("probe_source"@) == Some(
        Json::Str(
            if p.probe_source is Text {
                "text"@
            } else {
                "path"@
            },
        ),
    )
    &&& j.get("probe_enabled"@) == Some(Json::Bool(p.probed()))
    &&& j.get("probe_enabled_override"@) == Some(
        crate::config_json::opt_bool_json(p.probe_enabled),
    )
    &&& j.get("probe_interval_secs"@) == Some(
        crate::config_json::opt_num_json(p.probe_interval_secs),
    )
    &&& j.get("quota_min"@) == Some(crate::double::opt_double_json(p.quota_min))
    &&& j.get("status"@) matches Some(d) && shows_status(d, s)
}

/// Whether a document shows the usage of a provider, spec by spec.
pub open spec fn shows_usage(
    j: Json,
    p: ProviderView,
    usage: Option<Seq<Seq<StatView>>>,
) -> bool {
    j.get("usage"@) matches Some(Json::Arr(docs)) && docs.len() == p.usage.len() && forall|i: int|
        0 <= i < docs.len() ==> #[trigger] docs[i] == crate::server::spec_view(
            p.usage[i],
            match usage {
                None => None,
                Some(st) => Some(
                    if i < st.len() {
                        st[i]
                    } else {
                        Seq::empty()
                    },
                ),
            },
        )
}

#[verifier::rlimit(40)]
proof fn lemma_settings(
    name: Seq<char>,
    p: ProviderView,
    s: StatusView,
    usage: Option<Seq<Seq<StatView>>>,
)
    ensures
        shows_settings(crate::admin::provider_json(name, p, s, usage), name, p, s),
        shows_usage(crate::admin::provider_json(name, p, s, usage), p, usage),
{
    lemma_listing_keys();
    assert(p.extra_headers.map_values(|v: Seq<char>| Json::Str(v)) =~= crate::store::strings_json(
        p.extra_headers,
    )->Obj_0);
}

/// The listing shows each provider once, in the order of their names, with its settings, its
/// usage and what is known of it; and says whether usage is tracked.
pub proof fn providers_are_listed(
    cfg: ConfigView,
    status: Map<Seq<char>, StatusView>,
    usage: Option<Map<Seq<char>, Seq<Seq<StatView>>>>,
    all: Seq<(Seq<char>, ProviderView)>,
)
    requires
        crate::dict::ascending(all),
        crate::dict::pairs_map(all) == cfg.providers,
    ensures
        ({
            let listing = crate::admin::providers_listing(cfg, status, usage);
            &&& listing.get("cost_tracking"@) == Some(Json::Bool(usage is Some))
            &&& listing.get("providers"@) matches Some(Json::Arr(docs)) && docs.len() == all.len()
                && forall|i: int|
                0 <= i < docs.len() ==> {
                    let name = all[i].0;
                    let known = if status.dom().contains(name) {
                        status[name]
                    } else {
                        StatusView::unknown()
                    };
                    let spent = match usage {
                        None => None,
                        Some(m) => Some(
                            if m.dom().contains(name) {
                                m[name]
                            } else {
                                Seq::empty()
                            },
                        ),
                    };
                    &&& shows_settings(#[trigger] docs[i], name, all[i].1, known)
                    &&& shows_usage(docs[i], all[i].1, spent)
                }
        }),
{
    reveal_strlit("providers");
    reveal_strlit("cost_tracking");
    assert("providers"@.len() == 9 && "cost_tracking"@.len() == 13);
    crate::dict::key_order_is_unique(all);
    let docs = crate::admin::providers_listing(cfg, status, usage).get("providers"@)->0->Arr_0;
    assert forall|i: int| 0 <= i < docs.len() implies {
        let name = all[i].0;
        let known = if status.dom().contains(name) {
            status[name]
        } else {
            StatusView::unknown()
        };
        let spent = match usage {
            None => None,
            Some(m) => Some(
                if m.dom().contains(name) {
                    m[name]
                } else {
                    Seq::empty()
                },
            ),
        };
        &&& shows_settings(#[trigger] docs[i], name, all[i].1, known)
        &&& shows_usage(docs[i], all[i].1, spent)
    } by {
        lemma_settings(
            all[i].0,
            all[i].1,
            crate::server::known_status(status, all[i].0),
            crate::server::known_usage(usage, all[i].0),
        );
    }
}

/// A route is listed with its alias, its provider, its model and its fallbacks, in their
/// order.
pub proof fn routes_are_listed(cfg: ConfigView, r: RouteView)
    ensures
        ({
            let j = crate::admin::route_json(r);
            &&& j.get("alias"@) == Some(Json::Str(r.alias))
            &&& j.get("provider"@) == Some(Json::Str(r.provider))
            &&& j.get("model"@) == Some(Json::Str(r.model))
            &&& j.get("fallback"@) matches Some(Json::Arr(docs)) && docs.len() == r.fallback.len()
                && forall|i: int|
                0 <= i < docs.len() ==> {
                    &&& (#[trigger] docs[i]).get("provider"@) == Some(
                        Json::Str(r.fallback[i].provider),
                    )
                    &&& docs[i].get("model"@) == Some(Json::Str(r.fallback[i].model))
                }
        }),
        crate::admin::routes_listing(cfg).get("routes"@) matches Some(Json::Arr(docs)) && docs.len()
            == crate::admin::by_alias(cfg.routes).len() && forall|i: int|
            0 <= i < docs.len() ==> #[trigger] docs[i] == crate::admin::route_json(
                crate::admin::by_alias(cfg.routes)[i],
            ),
{
    reveal_strlit("alias");
    reveal_strlit("provider");
    reveal_strlit("model");
    reveal_strlit("fallback");
    assert("alias"@.len() == 5 && "provider"@.len() == 8 && "model"@.len() == 5);
    assert("fallback"@.len() == 8);
    assert("alias"@[0] == 'a' && "model"@[0] == 'm');
    assert("provider"@[0] == 'p' && "fallback"@[0] == 'f');
}

/// Of one more route, it is put in behind all those whose alias does not come after its own,
/// and nothing else moves.
pub proof fn routes_are_put_in_by_alias(s: Seq<RouteView>, r: RouteView) -> (k: int)
    requires
        crate::admin::aliases_ascend(s),
    ensures
        0 <= k <= s.len(),
        crate::admin::insert_by_alias(s, r) == s.insert(k, r),
        forall|i: int| 0 <= i < k ==> !crate::dict::str_lt(r.alias, (#[trigger] s[i]).alias),
        forall|i: int|
            k <= i < s.len() ==> crate::dict::str_lt(r.alias, (#[trigger] s[i]).alias),
    decreases s.len(),
{
    if s.len() == 0 || !crate::dict::str_lt(r.alias, s.last().alias) {
        assert(s.push(r) =~= s.insert(s.len() as int, r));
        let n = s.len() - 1;
        assert forall|i: int| 0 <= i < s.len() implies !crate::dict::str_lt(
            r.alias,
            (#[trigger] s[i]).alias,
        ) by {
            if i < n {
                assert(!crate::dict::str_lt(s[n].alias, s[i].alias));
                crate::dict::str_order_is_total(r.alias, s[i].alias, s[n].alias);
                crate::dict::str_order_is_total(s[i].alias, s[n].alias, r.alias);
            }
        }
        s.len() as int
    } else {
        let t = s.drop_last();
        assert forall|i: int, j: int| 0 <= i < j < t.len() implies !crate::dict::str_lt(
            (#[trigger] t[j]).alias,
            (#[trigger] t[i]).alias,
        ) by {
            assert(!crate::dict::str_lt(s[j].alias, s[i].alias));
        }
        let k = routes_are_put_in_by_alias(t, r);
        assert(t.insert(k, r).push(s.last()) =~= s.insert(k, r));
        assert forall|i: int| 0 <= i < k implies !crate::dict::str_lt(
            r.alias,
            (#[trigger] s[i]).alias,
        ) by {
            assert(t[i] == s[i]);
        }
        assert forall|i: int| k <= i < s.len() implies crate::dict::str_lt(
            r.alias,
            (#[trigger] s[i]).alias,
        ) by {
            if i < t.len() {
                assert(t[i] == s[i]);
            }
        }
        k
    }
}

} // verus!
