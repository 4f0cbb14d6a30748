//! Where a request goes: what the routes, the defaults and the health of the providers
//! make of a model's name.

use vstd::prelude::*;

use crate::config::{ConfigView, ProviderView, TargetView};
use crate::error::ErrorView;
use crate::router::ResolvedView;
use crate::store::StatusView;

verus! {

/// Picking out and turning at once is picking out and then turning.
proof fn lemma_pick_then_turn<A, B>(
    s: Seq<A>,
    f: spec_fn(A) -> Option<B>,
    p: spec_fn(A) -> bool,
    g: spec_fn(A) -> B,
)
    requires
        forall|a: A| #[trigger] f(a) == if p(a) {
            Some(g(a))
        } else {
            None
        },
    ensures
        s.filter_map(f) == s.filter(p).map_values(g),
    decreases s.len(),
{
    reveal(Seq::filter);
    reveal(Seq::filter_map);
    if s.len() == 0 {
        assert(s.filter(p).map_values(g) =~= Seq::empty());
    } else {
        let init = s.drop_last();
        lemma_pick_then_turn(init, f, p, g);
        assert(f(s.last()) == if p(s.last()) {
            Some(g(s.last()))
        } else {
            None
        });
        if p(s.last()) {
            assert(init.filter(p).push(s.last()).map_values(g) =~= init.filter(p).map_values(g)
                + seq![g(s.last())]);
        }
    }
}

/// Whether no route is for `alias`.
pub open spec fn unrouted(cfg: ConfigView, alias: Seq<char>) -> bool {
    forall|i: int| 0 <= i < cfg.routes.len() ==> (#[trigger] cfg.routes[i]).alias != alias
}

/// Whether the route `i` is the first for `alias`.
pub open spec fn is_route(cfg: ConfigView, alias: Seq<char>, i: int) -> bool {
    &&& 0 <= i < cfg.routes.len()
    &&& cfg.routes[i].alias == alias
    &&& forall|j: int| 0 <= j < i ==> (#[trigger] cfg.routes[j]).alias != alias
}

proof fn lemma_first_route(routes: Seq<crate::config::RouteView>, alias: Seq<char>, i: int)
    requires
        0 <= i < routes.len(),
        routes[i].alias == alias,
        forall|j: int| 0 <= j < i ==> (#[trigger] routes[j]).alias != alias,
    ensures
        crate::router::route_for(routes, alias) == Some(routes[i]),
    decreases i,
{
    if i > 0 {
        let rest = routes.skip(1);
        assert(routes[0].alias != alias);
        assert forall|j: int| 0 <= j < i - 1 implies (#[trigger] rest[j]).alias != alias by {
            assert(rest[j] == routes[j + 1]);
        }
        lemma_first_route(rest, alias, i - 1);
    }
}

proof fn lemma_no_route(routes: Seq<crate::config::RouteView>, alias: Seq<char>)
    requires
        forall|j: int| 0 <= j < routes.len() ==> (#[trigger] routes[j]).alias != alias,
    ensures
        crate::router::route_for(routes, alias) is None,
    decreases routes.len(),
{
    if routes.len() > 0 {
        let rest = routes.skip(1);
        assert(routes[0].alias != alias);
        assert forall|j: int| 0 <= j < rest.len() implies (#[trigger] rest[j]).alias != alias by {
            assert(rest[j] == routes[j + 1]);
        }
        lemma_no_route(rest, alias);
    }
}

/// The first route for an alias names its targets: its own provider and model, then its
/// fallbacks in their order, then the fallback of all routes.
pub proof fn routes_name_the_targets(cfg: ConfigView, alias: Seq<char>, i: int, k: int)
    requires
        is_route(cfg, alias, i),
    ensures
        ({
            let r = cfg.routes[i];
            let ts = crate::router::targets(cfg, alias);
            let n = r.fallback.len();
            &&& ts.len() == 1 + n + if cfg.fallback_route is Some {
                1int
            } else {
                0int
            }
            &&& ts[0].provider == r.provider
            &&& ts[0].model == r.model
            &&& 0 <= k < n ==> ts[1 + k] == r.fallback[k]
            &&& cfg.fallback_route matches Some(f) ==> ts.last() == f
        }),
{
    lemma_first_route(cfg.routes, alias, i);
}

/// An alias that no route is for goes to the default provider, under the alias as its
/// model: unchanged where the provider has no prefix for its models or is not configured, or
/// where the alias has a slash; and behind the prefix otherwise.
pub proof fn defaults_take_the_rest(cfg: ConfigView, alias: Seq<char>, p: Seq<char>)
    requires
        unrouted(cfg, alias),
        cfg.default_provider == Some(p),
    ensures
        ({
            let ts = crate::router::targets(cfg, alias);
            &&& ts.len() == 1 + if cfg.fallback_route is Some {
                1int
            } else {
                0int
            }
            &&& ts[0].provider == p
            &&& !cfg.providers.dom().contains(p) ==> ts[0].model == alias
            &&& cfg.providers.dom().contains(p) && cfg.providers[p].model_prefix is None
                ==> ts[0].model == alias
            &&& alias.contains('/') ==> ts[0].model == alias
            &&& cfg.providers.dom().contains(p) && !alias.contains('/') ==> (
            cfg.providers[p].model_prefix matches Some(prefix) ==> ts[0].model == prefix + alias)
            &&& cfg.fallback_route matches Some(f) ==> ts.last() == f
        }),
{
    lemma_no_route(cfg.routes, alias);
}

/// Without a route and a default provider an alias goes to the fallback of all routes, or
/// nowhere.
pub proof fn the_fallback_takes_what_is_left(cfg: ConfigView, alias: Seq<char>)
    requires
        unrouted(cfg, alias),
        cfg.default_provider is None,
    ensures
        match cfg.fallback_route {
            Some(f) => crate::router::targets(cfg, alias) == seq![f],
            None => crate::router::targets(cfg, alias).len() == 0,
        },
{
    lemma_no_route(cfg.routes, alias);
    assert(Seq::<TargetView>::empty().push(cfg.fallback_route->0) =~= seq![cfg.fallback_route->0]);
}

/// A provider can be asked where nothing is known of it; otherwise where it is available
/// and, if what remains of its quota and what must remain are both known, enough remains.
pub proof fn availability_and_quota_decide(p: ProviderView, status: Option<StatusView>)
    ensures
        status is None ==> crate::router::usable(p, status),
        status matches Some(s) ==> (!s.available ==> !crate::router::usable(p, status)),
        status matches Some(s) ==> (s.available && (s.quota_remaining is None
            || p.quota_min is None) ==> crate::router::usable(p, status)),
        status matches Some(s) ==> (s.available && s.quota_remaining is Some && p.quota_min is Some
            ==> (crate::router::usable(p, status) <==> p.quota_min->0.le(s.quota_remaining->0))),
{
}

/// Whether the provider of a target is configured.
pub open spec fn is_configured(cfg: ConfigView, t: TargetView) -> bool {
    cfg.providers.dom().contains(t.provider)
}

/// Whether a target is fit to be tried first: its provider is configured, can be asked, and
/// is not among those that have used up a window.
pub open spec fn is_fit(
    cfg: ConfigView,
    status: Map<Seq<char>, StatusView>,
    exhausted: Seq<Seq<char>>,
    t: TargetView,
) -> bool {
    &&& is_configured(cfg, t)
    &&& !exhausted.contains(t.provider)
    &&& status.dom().contains(t.provider) ==> {
        let s = status[t.provider];
        &&& s.available
        &&& s.quota_remaining is Some && cfg.providers[t.provider].quota_min is Some
            ==> cfg.providers[t.provider].quota_min->0.le(s.quota_remaining->0)
    }
}

/// Whether a candidate is a target with its provider.
pub open spec fn stands_for(cfg: ConfigView, c: ResolvedView, t: TargetView) -> bool {
    &&& c.provider_name == t.provider
    &&& c.upstream_model == t.model
    &&& c.provider == cfg.providers[t.provider]
}

/// The targets that are fit, in their order.
pub open spec fn fit_targets(
    cfg: ConfigView,
    status: Map<Seq<char>, StatusView>,
    exhausted: Seq<Seq<char>>,
    alias: Seq<char>,
) -> Seq<TargetView> {
    crate::router::targets(cfg, alias).filter(|t: TargetView| is_fit(cfg, status, exhausted, t))
}

/// The configured targets that are not fit, in their order.
pub open spec fn spare_targets(
    cfg: ConfigView,
    status: Map<Seq<char>, StatusView>,
    exhausted: Seq<Seq<char>>,
    alias: Seq<char>,
) -> Seq<TargetView> {
    crate::router::targets(cfg, alias).filter(
        |t: TargetView| is_configured(cfg, t) && !is_fit(cfg, status, exhausted, t),
    )
}

proof fn lemma_groups(
    cfg: ConfigView,
    status: Map<Seq<char>, StatusView>,
    exhausted: Seq<Seq<char>>,
    ts: Seq<TargetView>,
)
    ensures
        crate::router::first_candidates(cfg, status, exhausted, ts) == ts.filter(
            |t: TargetView| is_fit(cfg, status, exhausted, t),
        ).map_values(|t: TargetView| crate::router::candidate(cfg, t)->0),
        crate::router::last_candidates(cfg, status, exhausted, ts) == ts.filter(
            |t: TargetView| is_configured(cfg, t) && !is_fit(cfg, status, exhausted, t),
        ).map_values(|t: TargetView| crate::router::candidate(cfg, t)->0),
{
    let g = |t: TargetView| crate::router::candidate(cfg, t)->0;
    lemma_pick_then_turn(
        ts,
        |t: TargetView|
            if crate::router::preferred(cfg, status, exhausted, t) {
                crate::router::candidate(cfg, t)
            } else {
                None
            },
        |t: TargetView| is_fit(cfg, status, exhausted, t),
        g,
    );
    lemma_pick_then_turn(
        ts,
        |t: TargetView|
            if crate::router::preferred(cfg, status, exhausted, t) {
                None
            } else {
                crate::router::candidate(cfg, t)
            },
        |t: TargetView| is_configured(cfg, t) && !is_fit(cfg, status, exhausted, t),
        g,
    );
}

proof fn lemma_kept(s: Seq<TargetView>, p: spec_fn(TargetView) -> bool)
    ensures
        forall|i: int| 0 <= i < s.filter(p).len() ==> p(#[trigger] s.filter(p)[i]),
    decreases s.len(),
{
    reveal(Seq::filter);
    if s.len() > 0 {
        lemma_kept(s.drop_last(), p);
    }
}

/// The chain of a request is its fit targets, in their order, and then its other configured
/// targets, in their order; each with its provider. It fails where there are none.
pub proof fn chains_are_the_targets(
    cfg: ConfigView,
    status: Map<Seq<char>, StatusView>,
    exhausted: Seq<Seq<char>>,
    alias: Seq<char>,
    i: int,
)
    ensures
        ({
            let fit = fit_targets(cfg, status, exhausted, alias);
            let spare = spare_targets(cfg, status, exhausted, alias);
            match crate::router::candidate_chain(cfg, status, exhausted, alias) {
                Ok(chain) => {
                    &&& chain.len() > 0
                    &&& chain.len() == fit.len() + spare.len()
                    &&& 0 <= i < fit.len() ==> stands_for(cfg, chain[i], fit[i])
                    &&& 0 <= i < spare.len() ==> stands_for(cfg, chain[fit.len() + i], spare[i])
                },
                Err(_) => fit.len() == 0 && spare.len() == 0,
            }
        }),
{
    let ts = crate::router::targets(cfg, alias);
    lemma_groups(cfg, status, exhausted, ts);
    lemma_kept(ts, |t: TargetView| is_fit(cfg, status, exhausted, t));
    lemma_kept(
        ts,
        |t: TargetView| is_configured(cfg, t) && !is_fit(cfg, status, exhausted, t),
    );
    let fit = fit_targets(cfg, status, exhausted, alias);
    let spare = spare_targets(cfg, status, exhausted, alias);
    if 0 <= i < fit.len() {
        assert(is_fit(cfg, status, exhausted, fit[i]));
    }
    if 0 <= i < spare.len() {
        assert(is_configured(cfg, spare[i]));
    }
}

proof fn lemma_first_kept(s: Seq<TargetView>, p: spec_fn(TargetView) -> bool, i: int)
    requires
        0 <= i < s.len(),
        p(s[i]),
        forall|j: int| 0 <= j < i ==> !p(#[trigger] s[j]),
    ensures
        s.filter(p).len() > 0,
        s.filter(p)[0] == s[i],
    decreases s.len(),
{
    reveal(Seq::filter);
    let init = s.drop_last();
    if i < init.len() {
        assert forall|j: int| 0 <= j < i implies !p(#[trigger] init[j]) by {
            assert(init[j] == s[j]);
        }
        lemma_first_kept(init, p, i);
    } else {
        assert forall|j: int| 0 <= j < init.len() implies !p(#[trigger] init[j]) by {
            assert(init[j] == s[j]);
        }
        lemma_none_kept(init, p);
    }
}

proof fn lemma_none_kept(s: Seq<TargetView>, p: spec_fn(TargetView) -> bool)
    requires
        forall|j: int| 0 <= j < s.len() ==> !p(#[trigger] s[j]),
    ensures
        s.filter(p).len() == 0,
    decreases s.len(),
{
    reveal(Seq::filter);
    if s.len() > 0 {
        let init = s.drop_last();
        assert(!p(s[s.len() - 1]));
        assert forall|j: int| 0 <= j < init.len() implies !p(#[trigger] init[j]) by {
            assert(init[j] == s[j]);
        }
        lemma_none_kept(init, p);
    }
}

/// The one candidate of a request is its first fit target.
pub proof fn the_first_fit_target_is_best(
    cfg: ConfigView,
    status: Map<Seq<char>, StatusView>,
    alias: Seq<char>,
    i: int,
)
    requires
        ({
            let ts = crate::router::targets(cfg, alias);
            &&& 0 <= i < ts.len()
            &&& is_fit(cfg, status, Seq::empty(), ts[i])
            &&& forall|j: int| 0 <= j < i ==> !is_fit(cfg, status, Seq::empty(), #[trigger] ts[j])
        }),
    ensures
        crate::router::best_candidate(cfg, status, alias) matches Ok(c) && stands_for(
            cfg,
            c,
            crate::router::targets(cfg, alias)[i],
        ),
{
    let ts = crate::router::targets(cfg, alias);
    lemma_groups(cfg, status, Seq::empty(), ts);
    lemma_first_kept(ts, |t: TargetView| is_fit(cfg, status, Seq::empty(), t), i);
}

/// Without a fit target the one candidate of a request is its first target, where its
/// provider is configured; otherwise the request fails.
pub proof fn the_first_target_is_the_last_resort(
    cfg: ConfigView,
    status: Map<Seq<char>, StatusView>,
    alias: Seq<char>,
)
    requires
        ({
            let ts = crate::router::targets(cfg, alias);
            forall|j: int|
                0 <= j < ts.len() ==> !is_fit(cfg, status, Seq::empty(), #[trigger] ts[j])
        }),
    ensures
        ({
            let ts = crate::router::targets(cfg, alias);
            if ts.len() > 0 && is_configured(cfg, ts[0]) {
                crate::router::best_candidate(cfg, status, alias) matches Ok(c) && stands_for(
                    cfg,
                    c,
                    ts[0],
                )
            } else {
                crate::router::best_candidate(cfg, status, alias) is Err
            }
        }),
{
    let ts = crate::router::targets(cfg, alias);
    lemma_groups(cfg, status, Seq::empty(), ts);
    lemma_none_kept(ts, |t: TargetView| is_fit(cfg, status, Seq::empty(), t));
}

/// A request that fails says why: the provider of its route, its default provider or the
/// fallback's provider is not configured, or nothing takes the model.
pub proof fn failures_say_why(
    cfg: ConfigView,
    status: Map<Seq<char>, StatusView>,
    exhausted: Seq<Seq<char>>,
    alias: Seq<char>,
    e: ErrorView,
    i: int,
)
    requires
        crate::router::candidate_chain(cfg, status, exhausted, alias) == Err::<
            Seq<ResolvedView>,
            ErrorView,
        >(e) || crate::router::best_candidate(cfg, status, alias) == Err::<ResolvedView, ErrorView>(
            e,
        ),
    ensures
        is_route(cfg, alias, i) ==> e == ErrorView::Internal(
            "route '"@ + alias + "' references unknown provider "@ + cfg.routes[i].provider,
        ),
        unrouted(cfg, alias) ==> match (cfg.default_provider, cfg.fallback_route) {
            (Some(p), _) => e == ErrorView::Internal(
                "default provider "@ + p + " not configured"@,
            ),
            (None, Some(f)) => e == ErrorView::Internal(
                "fallback route references unknown provider "@ + f.provider,
            ),
            (None, None) => e == ErrorView::UnknownModel(alias),
        },
{
    if is_route(cfg, alias, i) {
        lemma_first_route(cfg.routes, alias, i);
    }
    if unrouted(cfg, alias) {
        lemma_no_route(cfg.routes, alias);
    }
}

} // verus!
