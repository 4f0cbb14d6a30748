//! Model alias to (provider, upstream model) resolution, with quota and availability
//! failover across a route's fallback chain.

use vstd::prelude::*;
use vstd::string::*;

use crate::config::{Config, ConfigView, Provider, ProviderView, RouteTarget, RouteView, TargetView};
use crate::dict::Dict;
use crate::error::{BridgeError, ErrorView};
use crate::store::{ProviderStatus, StatusView};
use crate::text::{concat2, concat3, has_char, str_eq};

verus! {

/// A candidate for a request: a configured provider and the model to ask it for.
#[derive(Debug)]
pub struct Resolved<'a> {
    pub provider_name: String,
    pub provider: &'a Provider,
    pub upstream_model: String,
}

/// The model of a `Resolved`.
pub struct ResolvedView {
    pub provider_name: Seq<char>,
    pub provider: ProviderView,
    pub upstream_model: Seq<char>,
}

impl<'a> View for Resolved<'a> {
    type V = ResolvedView;

    open spec fn view(&self) -> ResolvedView {
        ResolvedView {
            provider_name: self.provider_name@,
            provider: self.provider@,
            upstream_model: self.upstream_model@,
        }
    }
}

/// The first route for `alias`.
pub open spec fn route_for(routes: Seq<RouteView>, alias: Seq<char>) -> Option<RouteView>
    decreases routes.len(),
{
    if routes.len() == 0 {
        None
    } else if routes[0].alias == alias {
        Some(routes[0])
    } else {
        route_for(routes.skip(1), alias)
    }
}

/// The model that the default provider is asked for: the alias with the provider's
/// prefix, unless the alias is qualified already.
pub open spec fn default_model(cfg: ConfigView, provider: Seq<char>, alias: Seq<char>) -> Seq<char> {
    match crate::dict::lookup(cfg.providers, provider) {
        Some(p) => match p.model_prefix {
            Some(prefix) => if alias.contains('/') {
                alias
            } else {
                prefix + alias
            },
            None => alias,
        },
        None => alias,
    }
}

/// The targets that the configuration names for `alias` itself: a route's primary and
/// its fallbacks, or else the default provider.
pub open spec fn own_targets(cfg: ConfigView, alias: Seq<char>) -> Seq<TargetView> {
    match route_for(cfg.routes, alias) {
        Some(r) => seq![TargetView { provider: r.provider, model: r.model }] + r.fallback,
        None => match cfg.default_provider {
            Some(p) => seq![TargetView { provider: p, model: default_model(cfg, p, alias) }],
            None => Seq::empty(),
        },
    }
}

/// All targets for `alias`: its own, and then the global fallback route.
pub open spec fn targets(cfg: ConfigView, alias: Seq<char>) -> Seq<TargetView> {
    match cfg.fallback_route {
        Some(f) => own_targets(cfg, alias).push(f),
        None => own_targets(cfg, alias),
    }
}

/// A provider is usable unless its status says it is unavailable or out of quota. One
/// without a status is not monitored, and assumed usable.
pub open spec fn usable(provider: ProviderView, status: Option<StatusView>) -> bool {
    match status {
        None => true,
        Some(s) => s.available && match (s.quota_remaining, provider.quota_min) {
            (Some(rem), Some(min)) => min.le(rem),
            _ => true,
        },
    }
}

/// Whether a target is one to try first: its provider is configured, usable, and has no
/// exhausted usage window.
pub open spec fn preferred(
    cfg: ConfigView,
    status: Map<Seq<char>, StatusView>,
    exhausted: Seq<Seq<char>>,
    t: TargetView,
) -> bool {
    match crate::dict::lookup(cfg.providers, t.provider) {
        Some(p) => usable(p, crate::dict::lookup(status, t.provider)) && !exhausted.contains(
            t.provider,
        ),
        None => false,
    }
}

/// The candidate that a target stands for, where its provider is configured.
pub open spec fn candidate(cfg: ConfigView, t: TargetView) -> Option<ResolvedView> {
    match crate::dict::lookup(cfg.providers, t.provider) {
        Some(p) => Some(
            ResolvedView { provider_name: t.provider, provider: p, upstream_model: t.model },
        ),
        None => None,
    }
}

/// The candidates to try first, in the order of the targets.
pub open spec fn first_candidates(
    cfg: ConfigView,
    status: Map<Seq<char>, StatusView>,
    exhausted: Seq<Seq<char>>,
    ts: Seq<TargetView>,
) -> Seq<ResolvedView> {
    ts.filter_map(
        |t: TargetView|
            if preferred(cfg, status, exhausted, t) {
                candidate(cfg, t)
            } else {
                None
            },
    )
}

/// The candidates that are a last resort, in the order of the targets.
pub open spec fn last_candidates(
    cfg: ConfigView,
    status: Map<Seq<char>, StatusView>,
    exhausted: Seq<Seq<char>>,
    ts: Seq<TargetView>,
) -> Seq<ResolvedView> {
    ts.filter_map(
        |t: TargetView|
            if preferred(cfg, status, exhausted, t) {
                None
            } else {
                candidate(cfg, t)
            },
    )
}

/// What is wrong when the first target of `alias` names a provider that is not
/// configured.
pub open spec fn missing_provider(cfg: ConfigView, alias: Seq<char>) -> ErrorView {
    match route_for(cfg.routes, alias) {
        Some(r) => ErrorView::Internal(
            "route '"@ + alias + "' references unknown provider "@ + r.provider,
        ),
        None => match cfg.default_provider {
            Some(p) => ErrorView::Internal("default provider "@ + p + " not configured"@),
            None => match cfg.fallback_route {
                Some(f) => ErrorView::Internal(
                    "fallback route references unknown provider "@ + f.provider,
                ),
                None => ErrorView::UnknownModel(alias),
            },
        },
    }
}

/// The candidate chain of a request: the usable candidates first, the others as a last
/// resort, each group in the order of the targets. An alias without targets is an
/// unknown model.
pub open spec fn candidate_chain(
    cfg: ConfigView,
    status: Map<Seq<char>, StatusView>,
    exhausted: Seq<Seq<char>>,
    alias: Seq<char>,
) -> Result<Seq<ResolvedView>, ErrorView> {
    let ts = targets(cfg, alias);
    let all = first_candidates(cfg, status, exhausted, ts) + last_candidates(
        cfg,
        status,
        exhausted,
        ts,
    );
    if all.len() == 0 {
        Err(missing_provider(cfg, alias))
    } else {
        Ok(all)
    }
}

/// The one candidate for `alias`: the first usable one, or else the first target.
pub open spec fn best_candidate(
    cfg: ConfigView,
    status: Map<Seq<char>, StatusView>,
    alias: Seq<char>,
) -> Result<ResolvedView, ErrorView> {
    let ts = targets(cfg, alias);
    let first = first_candidates(cfg, status, Seq::empty(), ts);
    if first.len() > 0 {
        Ok(first[0])
    } else if ts.len() > 0 && candidate(cfg, ts[0]) is Some {
        Ok(candidate(cfg, ts[0])->0)
    } else {
        Err(missing_provider(cfg, alias))
    }
}

/// A provider is usable unless its status says unavailable or quota-exhausted.
pub fn is_usable(provider: &Provider, status: Option<&ProviderStatus>) -> (r: bool)
    ensures
        r == usable(provider@, crate::text::opt_view(status)),
{
    match status {
        None => true,
        Some(s) => {
            if !s.available {
                return false;
            }
            match (&s.quota_remaining, &provider.quota_min) {
                (Some(rem), Some(min)) => min.at_most(rem),
                _ => true,
            }
        },
    }
}

/// Whether `name` is listed.
pub fn is_listed(names: &Vec<String>, name: &str) -> (r: bool)
    ensures
        r == crate::text::seq_view(names@).contains(name@),
{
    let ghost view = crate::text::seq_view(names@);
    let mut i: usize = 0;
    while i < names.len()
        invariant
            i <= names@.len(),
            view == crate::text::seq_view(names@),
            forall|j: int| 0 <= j < i ==> view[j] != name@,
        decreases names@.len() - i,
    {
        if str_eq(names[i].as_str(), name) {
            assert(view[i as int] == name@);
            return true;
        }
        i = i + 1;
    }
    false
}

fn find_route<'a>(cfg: &'a Config, alias: &str) -> (r: Option<&'a crate::config::Route>)
    ensures
        crate::text::opt_view(r) == route_for(cfg@.routes, alias@),
{
    let ghost view = cfg@.routes;
    let mut i: usize = 0;
    assert(view.skip(0) =~= view);
    while i < cfg.routes.len()
        invariant
            i <= cfg.routes@.len(),
            view == cfg@.routes,
            route_for(view, alias@) == route_for(view.skip(i as int), alias@),
        decreases cfg.routes@.len() - i,
    {
        assert(view.skip(i as int)[0] == view[i as int]);
        assert(view.skip(i as int).skip(1) =~= view.skip(i as int + 1));
        if str_eq(cfg.routes[i].alias.as_str(), alias) {
            return Some(&cfg.routes[i]);
        }
        i = i + 1;
    }
    None
}

fn default_upstream(cfg: &Config, provider: &str, alias: &str) -> (r: String)
    ensures
        r@ == default_model(cfg@, provider@, alias@),
{
    match cfg.providers.get(provider) {
        Some(p) => match &p.model_prefix {
            Some(prefix) => if has_char(alias, '/') {
                alias.to_owned()
            } else {
                concat2(prefix.as_str(), alias)
            },
            None => alias.to_owned(),
        },
        None => alias.to_owned(),
    }
}

fn all_targets(cfg: &Config, alias: &str) -> (r: Vec<RouteTarget>)
    ensures
        crate::text::seq_view(r@) == targets(cfg@, alias@),
{
    broadcast use crate::text::group_views;

    let mut out: Vec<RouteTarget> = Vec::new();
    match find_route(cfg, alias) {
        Some(route) => {
            out.push(
                RouteTarget { provider: route.provider.clone(), model: route.model.clone() },
            );
            let ghost head = crate::text::seq_view(out@);
            let ghost view = crate::text::seq_view(route.fallback@);
            assert(head =~= seq![
                TargetView { provider: route.provider@, model: route.model@ },
            ]);
            let mut i: usize = 0;
            assert(head + view.take(0) =~= head);
            while i < route.fallback.len()
                invariant
                    i <= route.fallback@.len(),
                    view == crate::text::seq_view(route.fallback@),
                    crate::text::seq_view(out@) == head + view.take(i as int),
                decreases route.fallback@.len() - i,
            {
                broadcast use crate::text::group_views;

                let t = route.fallback[i].clone();
                out.push(t);
                assert((head + view.take(i as int)).push(t@) =~= head + view.take(i as int + 1));
                i = i + 1;
            }
            assert(view.take(i as int) =~= view);
        },
        None => {
            match &cfg.default_provider {
                Some(p) => {
                    let model = default_upstream(cfg, p.as_str(), alias);
                    out.push(RouteTarget { provider: p.clone(), model });
                    assert(crate::text::seq_view(out@) =~= own_targets(cfg@, alias@));
                },
                None => {},
            }
        },
    }
    match &cfg.fallback_route {
        Some(f) => {
            out.push(f.clone());
        },
        None => {},
    }
    out
}

fn missing(cfg: &Config, alias: &str) -> (r: BridgeError)
    ensures
        r@ == missing_provider(cfg@, alias@),
{
    match find_route(cfg, alias) {
        Some(route) => {
            let mut m = concat3("route '", alias, "' references unknown provider ");
            m.append(route.provider.as_str());
            BridgeError::Internal(m)
        },
        None => match &cfg.default_provider {
            Some(p) => BridgeError::Internal(
                concat3("default provider ", p.as_str(), " not configured"),
            ),
            None => match &cfg.fallback_route {
                Some(f) => BridgeError::Internal(
                    concat2("fallback route references unknown provider ", f.provider.as_str()),
                ),
                None => BridgeError::UnknownModel(alias.to_owned()),
            },
        },
    }
}

fn is_preferred(
    cfg: &Config,
    status: &Dict<ProviderStatus>,
    exhausted: &Vec<String>,
    t: &RouteTarget,
) -> (r: bool)
    ensures
        r == preferred(cfg@, status@, crate::text::seq_view(exhausted@), t@),
{
    match cfg.providers.get(t.provider.as_str()) {
        Some(p) => is_usable(p, status.get(t.provider.as_str())) && !is_listed(
            exhausted,
            t.provider.as_str(),
        ),
        None => false,
    }
}

fn to_candidate<'a>(cfg: &'a Config, t: &RouteTarget) -> (r: Option<Resolved<'a>>)
    ensures
        crate::text::opt_view(r) == candidate(cfg@, t@),
{
    match cfg.providers.get(t.provider.as_str()) {
        Some(p) => Some(
            Resolved {
                provider_name: t.provider.clone(),
                provider: p,
                upstream_model: t.model.clone(),
            },
        ),
        None => None,
    }
}

/// Adds the candidates of one group: those to try first, or the last resort.
fn push_candidates<'a>(
    cfg: &'a Config,
    status: &Dict<ProviderStatus>,
    exhausted: &Vec<String>,
    ts: &Vec<RouteTarget>,
    first: bool,
    out: &mut Vec<Resolved<'a>>,
)
    ensures
        crate::text::seq_view(final(out)@) == crate::text::seq_view(old(out)@) + (if first {
            first_candidates(
                cfg@,
                status@,
                crate::text::seq_view(exhausted@),
                crate::text::seq_view(ts@),
            )
        } else {
            last_candidates(
                cfg@,
                status@,
                crate::text::seq_view(exhausted@),
                crate::text::seq_view(ts@),
            )
        }),
{
    let ghost before = crate::text::seq_view(out@);
    let ghost view = crate::text::seq_view(ts@);
    let ghost names = crate::text::seq_view(exhausted@);
    let ghost group = |ts: Seq<TargetView>|
        if first {
            first_candidates(cfg@, status@, names, ts)
        } else {
            last_candidates(cfg@, status@, names, ts)
        };
    let mut i: usize = 0;
    assert(view.take(0) =~= Seq::empty());
    assert(before + Seq::<ResolvedView>::empty() =~= before);
    while i < ts.len()
        invariant
            i <= ts@.len(),
            view == crate::text::seq_view(ts@),
            names == crate::text::seq_view(exhausted@),
            group == (|ts: Seq<TargetView>|
                if first {
                    first_candidates(cfg@, status@, names, ts)
                } else {
                    last_candidates(cfg@, status@, names, ts)
                }),
            crate::text::seq_view(out@) == before + group(view.take(i as int)),
        decreases ts@.len() - i,
    {
        broadcast use crate::text::group_views;

        let ghost done = group(view.take(i as int));
        proof {
            assert(view.take(i as int + 1).drop_last() =~= view.take(i as int));
            assert(view.take(i as int + 1).last() == view[i as int]);
        }
        if is_preferred(cfg, status, exhausted, &ts[i]) == first {
            match to_candidate(cfg, &ts[i]) {
                Some(c) => {
                    out.push(c);
                    assert((before + done).push(c@) =~= before + (done + seq![c@]));
                },
                None => {},
            }
        }
        i = i + 1;
    }
    assert(view.take(i as int) =~= view);
}

/// The candidate chain of a request: usable providers first, the others as a last resort.
pub fn resolve_candidates<'a>(
    cfg: &'a Config,
    status: &Dict<ProviderStatus>,
    exhausted: &Vec<String>,
    alias: &str,
) -> (r: Result<Vec<Resolved<'a>>, BridgeError>)
    ensures
        match r {
            Ok(c) => candidate_chain(
                cfg@,
                status@,
                crate::text::seq_view(exhausted@),
                alias@,
            ) == Ok::<Seq<ResolvedView>, ErrorView>(crate::text::seq_view(c@)),
            Err(e) => candidate_chain(
                cfg@,
                status@,
                crate::text::seq_view(exhausted@),
                alias@,
            ) == Err::<Seq<ResolvedView>, ErrorView>(e@),
        },
{
    broadcast use crate::text::group_views;

    let ts = all_targets(cfg, alias);
    let mut out: Vec<Resolved<'a>> = Vec::new();
    push_candidates(cfg, status, exhausted, &ts, true, &mut out);
    push_candidates(cfg, status, exhausted, &ts, false, &mut out);
    proof {
        let names = crate::text::seq_view(exhausted@);
        let t = crate::text::seq_view(ts@);
        let a = first_candidates(cfg@, status@, names, t);
        let b = last_candidates(cfg@, status@, names, t);
        assert(crate::text::seq_view(out@) =~= a + b);
    }
    if out.len() == 0 {
        Err(missing(cfg, alias))
    } else {
        Ok(out)
    }
}

/// Pick the first usable candidate; if all are down or exhausted, use the primary.
pub fn resolve<'a>(cfg: &'a Config, status: &Dict<ProviderStatus>, alias: &str) -> (r: Result<
    Resolved<'a>,
    BridgeError,
>)
    ensures
        crate::text::res_view(r) == best_candidate(cfg@, status@, alias@),
{
    broadcast use crate::text::group_views;

    let ts = all_targets(cfg, alias);
    let none: Vec<String> = Vec::new();
    let ghost names = crate::text::seq_view(none@);
    assert(names =~= Seq::empty());
    let ghost view = crate::text::seq_view(ts@);
    let mut i: usize = 0;
    assert(view.take(0) =~= Seq::empty());
    while i < ts.len()
        invariant
            i <= ts@.len(),
            view == crate::text::seq_view(ts@),
            view == targets(cfg@, alias@),
            names == crate::text::seq_view(none@),
            names == Seq::<Seq<char>>::empty(),
            first_candidates(cfg@, status@, names, view.take(i as int)).len() == 0,
        decreases ts@.len() - i,
    {
        assert(view.take(i as int + 1).drop_last() =~= view.take(i as int));
        assert(view.take(i as int + 1).last() == view[i as int]);
        if is_preferred(cfg, status, &none, &ts[i]) {
            match to_candidate(cfg, &ts[i]) {
                Some(c) => {
                    proof {
                        lemma_first_stays_first(cfg@, status@, names, view, i as int + 1);
                        assert(first_candidates(
                            cfg@,
                            status@,
                            names,
                            view.take(i as int + 1),
                        ) =~= seq![c@]);
                    }
                    return Ok(c);
                },
                None => {},
            }
        }
        i = i + 1;
    }
    assert(view.take(i as int) =~= view);
    if ts.len() > 0 {
        match to_candidate(cfg, &ts[0]) {
            Some(c) => {
                return Ok(c);
            },
            None => {},
        }
    }
    Err(missing(cfg, alias))
}

/// The first candidate among some of the targets is the first among all of them.
proof fn lemma_first_stays_first(
    cfg: ConfigView,
    status: Map<Seq<char>, StatusView>,
    exhausted: Seq<Seq<char>>,
    ts: Seq<TargetView>,
    k: int,
)
    requires
        0 <= k <= ts.len(),
        first_candidates(cfg, status, exhausted, ts.take(k)).len() > 0,
    ensures
        first_candidates(cfg, status, exhausted, ts).len() > 0,
        first_candidates(cfg, status, exhausted, ts)[0] == first_candidates(
            cfg,
            status,
            exhausted,
            ts.take(k),
        )[0],
    decreases ts.len() - k,
{
    if k < ts.len() {
        assert(ts.take(k + 1).drop_last() =~= ts.take(k));
        lemma_first_stays_first(cfg, status, exhausted, ts, k + 1);
    } else {
        assert(ts.take(k) =~= ts);
    }
}

// ---------------------------------------------------------------------------
// What holds of every resolution
// ---------------------------------------------------------------------------

/// The target that a candidate was made from.
pub open spec fn target_of(c: ResolvedView) -> TargetView {
    TargetView { provider: c.provider_name, model: c.upstream_model }
}

/// The candidates of all targets whose provider is configured.
pub open spec fn configured(cfg: ConfigView, ts: Seq<TargetView>) -> Seq<ResolvedView> {
    ts.filter_map(|t: TargetView| candidate(cfg, t))
}

/// The chain holds every configured target, each as often as it is named, and nothing
/// else: health only changes the order.
pub proof fn health_only_reorders(
    cfg: ConfigView,
    status: Map<Seq<char>, StatusView>,
    exhausted: Seq<Seq<char>>,
    ts: Seq<TargetView>,
)
    ensures
        (first_candidates(cfg, status, exhausted, ts) + last_candidates(
            cfg,
            status,
            exhausted,
            ts,
        )).to_multiset() == configured(cfg, ts).to_multiset(),
    decreases ts.len(),
{
    broadcast use vstd::multiset::group_multiset_axioms;
    broadcast use vstd::seq_lib::group_to_multiset_ensures;

    let a = first_candidates(cfg, status, exhausted, ts);
    let b = last_candidates(cfg, status, exhausted, ts);
    let c = configured(cfg, ts);
    if ts.len() == 0 {
        assert(a + b =~= c);
    } else {
        let init = ts.drop_last();
        health_only_reorders(cfg, status, exhausted, init);
        let a0 = first_candidates(cfg, status, exhausted, init);
        let b0 = last_candidates(cfg, status, exhausted, init);
        let c0 = configured(cfg, init);
        match candidate(cfg, ts.last()) {
            None => {
                assert(a + b =~= a0 + b0);
            },
            Some(x) => {
                assert(c =~= c0.push(x));
                if preferred(cfg, status, exhausted, ts.last()) {
                    assert(a =~= a0.push(x));
                    assert(a + b =~= a0.push(x) + b0);
                    assert(a0.push(x) + b0 =~= (a0 + b0).insert(a0.len() as int, x));
                } else {
                    assert(a + b =~= (a0 + b0).push(x));
                }
            },
        }
    }
}

/// The first group of the chain is usable, the second is not: no candidate that is down
/// or exhausted is tried before one that is not.
pub proof fn usable_candidates_come_first(
    cfg: ConfigView,
    status: Map<Seq<char>, StatusView>,
    exhausted: Seq<Seq<char>>,
    ts: Seq<TargetView>,
)
    ensures
        forall|i: int|
            #![trigger first_candidates(cfg, status, exhausted, ts)[i]]
            0 <= i < first_candidates(cfg, status, exhausted, ts).len() ==> preferred(
                cfg,
                status,
                exhausted,
                target_of(first_candidates(cfg, status, exhausted, ts)[i]),
            ),
        forall|i: int|
            #![trigger last_candidates(cfg, status, exhausted, ts)[i]]
            0 <= i < last_candidates(cfg, status, exhausted, ts).len() ==> !preferred(
                cfg,
                status,
                exhausted,
                target_of(last_candidates(cfg, status, exhausted, ts)[i]),
            ),
    decreases ts.len(),
{
    if ts.len() > 0 {
        let init = ts.drop_last();
        usable_candidates_come_first(cfg, status, exhausted, init);
        let a0 = first_candidates(cfg, status, exhausted, init);
        let b0 = last_candidates(cfg, status, exhausted, init);
        let a = first_candidates(cfg, status, exhausted, ts);
        let b = last_candidates(cfg, status, exhausted, ts);
        assert forall|i: int| #![trigger a[i]] 0 <= i < a.len() implies preferred(
            cfg,
            status,
            exhausted,
            target_of(a[i]),
        ) by {
            if i < a0.len() {
                assert(a[i] == a0[i]);
            }
        }
        assert forall|i: int| #![trigger b[i]] 0 <= i < b.len() implies !preferred(
            cfg,
            status,
            exhausted,
            target_of(b[i]),
        ) by {
            if i < b0.len() {
                assert(b[i] == b0[i]);
            }
        }
    }
}

/// Where every configured target is usable the chain is in the order of the targets.
pub proof fn healthy_chain_keeps_its_order(
    cfg: ConfigView,
    status: Map<Seq<char>, StatusView>,
    exhausted: Seq<Seq<char>>,
    ts: Seq<TargetView>,
)
    requires
        forall|i: int|
            0 <= i < ts.len() && candidate(cfg, #[trigger] ts[i]) is Some ==> preferred(
                cfg,
                status,
                exhausted,
                ts[i],
            ),
    ensures
        first_candidates(cfg, status, exhausted, ts) == configured(cfg, ts),
        last_candidates(cfg, status, exhausted, ts).len() == 0,
    decreases ts.len(),
{
    if ts.len() > 0 {
        let init = ts.drop_last();
        assert(ts.last() == ts[ts.len() - 1]);
        assert forall|i: int|
            0 <= i < init.len() && candidate(cfg, #[trigger] init[i]) is Some implies preferred(
            cfg,
            status,
            exhausted,
            init[i],
        ) by {
            assert(init[i] == ts[i]);
        }
        healthy_chain_keeps_its_order(cfg, status, exhausted, init);
    }
}

proof fn lemma_head_of_last(
    cfg: ConfigView,
    status: Map<Seq<char>, StatusView>,
    exhausted: Seq<Seq<char>>,
    ts: Seq<TargetView>,
)
    requires
        ts.len() > 0,
        candidate(cfg, ts[0]) is Some,
    ensures
        preferred(cfg, status, exhausted, ts[0]) ==> first_candidates(
            cfg,
            status,
            exhausted,
            ts,
        ).len() > 0 && first_candidates(cfg, status, exhausted, ts)[0] == candidate(cfg, ts[0])->0,
        !preferred(cfg, status, exhausted, ts[0]) ==> last_candidates(
            cfg,
            status,
            exhausted,
            ts,
        ).len() > 0 && last_candidates(cfg, status, exhausted, ts)[0] == candidate(cfg, ts[0])->0,
    decreases ts.len(),
{
    if ts.len() > 1 {
        let init = ts.drop_last();
        assert(init[0] == ts[0]);
        lemma_head_of_last(cfg, status, exhausted, init);
    } else {
        assert(ts.drop_last() =~= Seq::empty());
        assert(ts.last() == ts[0]);
        let init = ts.drop_last();
        assert(first_candidates(cfg, status, exhausted, init).len() == 0);
        assert(last_candidates(cfg, status, exhausted, init).len() == 0);
    }
}

/// A usable primary is tried first, whatever else the chain holds.
pub proof fn usable_primary_is_tried_first(
    cfg: ConfigView,
    status: Map<Seq<char>, StatusView>,
    exhausted: Seq<Seq<char>>,
    alias: Seq<char>,
)
    requires
        targets(cfg, alias).len() > 0,
        preferred(cfg, status, exhausted, targets(cfg, alias)[0]),
    ensures
        candidate_chain(cfg, status, exhausted, alias) matches Ok(chain) && chain.len() > 0
            && target_of(chain[0]) == targets(cfg, alias)[0],
{
    lemma_head_of_last(cfg, status, exhausted, targets(cfg, alias));
}

/// The single best candidate is the head of the chain, when no window is exhausted.
/// Left out are requests whose first target is not configured and that have no usable
/// candidate: there the chain holds what is left, and the single resolution fails.
pub proof fn best_candidate_heads_the_chain(
    cfg: ConfigView,
    status: Map<Seq<char>, StatusView>,
    alias: Seq<char>,
)
    requires
        targets(cfg, alias).len() > 0,
        candidate(cfg, targets(cfg, alias)[0]) is Some || first_candidates(
            cfg,
            status,
            Seq::empty(),
            targets(cfg, alias),
        ).len() > 0,
    ensures
        candidate_chain(cfg, status, Seq::empty(), alias) matches Ok(chain) && chain.len() > 0
            && best_candidate(cfg, status, alias) == Ok::<ResolvedView, ErrorView>(chain[0]),
{
    let ts = targets(cfg, alias);
    let first = first_candidates(cfg, status, Seq::empty(), ts);
    if first.len() == 0 {
        lemma_head_of_last(cfg, status, Seq::empty(), ts);
    }
}

/// A model is unknown exactly when no route, no default provider and no fallback route
/// takes it.
pub proof fn unknown_model_iff_nothing_takes_it(
    cfg: ConfigView,
    status: Map<Seq<char>, StatusView>,
    exhausted: Seq<Seq<char>>,
    alias: Seq<char>,
)
    ensures
        candidate_chain(cfg, status, exhausted, alias) == Err::<Seq<ResolvedView>, ErrorView>(
            ErrorView::UnknownModel(alias),
        ) <==> route_for(cfg.routes, alias) is None && cfg.default_provider is None
            && cfg.fallback_route is None,
        targets(cfg, alias).len() == 0 <==> route_for(cfg.routes, alias) is None
            && cfg.default_provider is None && cfg.fallback_route is None,
{
    let ts = targets(cfg, alias);
    if ts.len() == 0 {
        assert(first_candidates(cfg, status, exhausted, ts).len() == 0);
        assert(last_candidates(cfg, status, exhausted, ts).len() == 0);
    }
}

} // verus!
