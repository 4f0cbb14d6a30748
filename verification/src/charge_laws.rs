//! What requests are charged, and what counts in a window.

use vstd::prelude::*;

use crate::config::{SpecView, UsageKind, WindowView};
use crate::double::DoubleView;
use crate::json::Json;
use crate::usage::{
    AmountView, CostView, KindEstimateView, MeterView, StatView, StoredView, UsageEventView,
};

verus! {

/// The order of the numbers is that of their encodings: above zero the larger encoding is
/// the larger number, below zero the smaller one, and both zeros are one. An encoding
/// behind that of infinity, or of minus infinity, is no number.
pub proof fn encodings_give_the_order(a: DoubleView, b: DoubleView)
    ensures
        a.nan() <==> 0x7ff0_0000_0000_0000 < a.bits < 0x8000_0000_0000_0000 || a.bits
            > 0xfff0_0000_0000_0000,
        a.finite() <==> a.bits < 0x7ff0_0000_0000_0000 || 0x8000_0000_0000_0000 <= a.bits
            < 0xfff0_0000_0000_0000,
        a.positive() <==> 0 < a.bits <= 0x7ff0_0000_0000_0000,
        a.not_positive() <==> a.bits == 0 || 0x8000_0000_0000_0000 <= a.bits
            <= 0xfff0_0000_0000_0000,
        a.bits <= 0x7ff0_0000_0000_0000 && b.bits <= 0x7ff0_0000_0000_0000 ==> (a.le(b) <==> a.bits
            <= b.bits),
        0x8000_0000_0000_0000 <= a.bits <= 0xfff0_0000_0000_0000 && 0x8000_0000_0000_0000 <= b.bits
            <= 0xfff0_0000_0000_0000 ==> (a.le(b) <==> b.bits <= a.bits),
        0x8000_0000_0000_0000 <= a.bits <= 0xfff0_0000_0000_0000 && b.bits
            <= 0x7ff0_0000_0000_0000 ==> a.le(b),
        a.bits <= 0x7ff0_0000_0000_0000 && 0x8000_0000_0000_0000 <= b.bits
            <= 0xfff0_0000_0000_0000 ==> (a.le(b) <==> a.bits == 0 && b.bits
            == 0x8000_0000_0000_0000),
{
}

/// What is charged is more than nothing, and finite.
pub proof fn charges_are_positive(amount: DoubleView)
    ensures
        crate::usage::chargeable(amount) <==> 0 < amount.bits < 0x7ff0_0000_0000_0000,
{
}

/// A charge is put in behind all that are no later, and before all that are later, where the
/// log is in the order of time; and nothing else moves.
pub proof fn charges_are_put_in_by_time(s: Seq<UsageEventView>, e: UsageEventView) -> (k: int)
    requires
        crate::usage::time_ascending(s),
    ensures
        0 <= k <= s.len(),
        crate::usage::insert_by_time(s, e) == s.insert(k, e),
        forall|i: int| 0 <= i < k ==> (#[trigger] s[i]).ts <= e.ts,
        forall|i: int| k <= i < s.len() ==> (#[trigger] s[i]).ts > e.ts,
    decreases s.len(),
{
    if s.len() == 0 || s.last().ts <= e.ts {
        assert(s.push(e) =~= s.insert(s.len() as int, e));
        assert forall|i: int| 0 <= i < s.len() implies (#[trigger] s[i]).ts <= e.ts by {
            assert(s[i].ts <= s[s.len() - 1].ts);
        }
        s.len() as int
    } else {
        let t = s.drop_last();
        assert(crate::usage::time_ascending(t));
        let k = charges_are_put_in_by_time(t, e);
        assert(t.insert(k, e).push(s.last()) =~= s.insert(k, e));
        assert forall|i: int| 0 <= i < k implies (#[trigger] s[i]).ts <= e.ts by {
            assert(t[i] == s[i]);
        }
        assert forall|i: int| k <= i < s.len() implies (#[trigger] s[i]).ts > e.ts by {
            if i < t.len() {
                assert(t[i] == s[i]);
            }
        }
        k
    }
}

/// Charges of thirty-one days are kept: of one more charge in a log, it is kept exactly
/// where it is no older.
pub proof fn a_month_is_kept(s: Seq<UsageEventView>, e: UsageEventView, now: i64)
    ensures
        crate::usage::retained(Seq::empty(), now).len() == 0,
        e.ts >= now - 31 * 24 * 60 * 60 ==> crate::usage::retained(s.push(e), now)
            == crate::usage::retained(s, now).push(e),
        e.ts < now - 31 * 24 * 60 * 60 ==> crate::usage::retained(s.push(e), now)
            == crate::usage::retained(s, now),
{
    reveal(Seq::filter);
    assert(s.push(e).drop_last() =~= s);
}

/// What counts in a window is what was charged after its beginning: of one more charge in a
/// log, it counts exactly where it is later than that, and its amount then comes last.
pub proof fn windows_count_what_is_recent(
    s: Seq<UsageEventView>,
    e: UsageEventView,
    now: i64,
    secs: int,
)
    ensures
        crate::usage::amounts_in(Seq::empty(), now, secs).len() == 0,
        crate::usage::in_window(Seq::empty(), now, secs).len() == 0,
        e.ts + secs > now ==> {
            &&& crate::usage::in_window(s.push(e), now, secs) == crate::usage::in_window(
                s,
                now,
                secs,
            ).push(e)
            &&& crate::usage::amounts_in(s.push(e), now, secs) == crate::usage::amounts_in(
                s,
                now,
                secs,
            ).push(e.amount)
        },
        e.ts + secs <= now ==> {
            &&& crate::usage::in_window(s.push(e), now, secs) == crate::usage::in_window(
                s,
                now,
                secs,
            )
            &&& crate::usage::amounts_in(s.push(e), now, secs) == crate::usage::amounts_in(
                s,
                now,
                secs,
            )
        },
{
    reveal(Seq::filter);
    assert(s.push(e).drop_last() =~= s);
    let w = crate::usage::in_window(s, now, secs);
    assert(w.push(e).map_values(|e: UsageEventView| e.amount) =~= w.map_values(
        |e: UsageEventView| e.amount,
    ).push(e.amount));
}

/// A window in which nothing counts is free for its whole length. One in which something
/// does is free again when the first that counts has left it, and at once where it should
/// have.
pub proof fn windows_are_freed(s: Seq<UsageEventView>, now: i64, secs: int)
    ensures
        ({
            let w = crate::usage::in_window(s, now, secs);
            let r = crate::usage::reset_in(s, now, secs);
            &&& w.len() == 0 ==> r == secs
            &&& w.len() > 0 && w[0].ts + secs >= now ==> now + r == w[0].ts + secs
            &&& w.len() > 0 && w[0].ts + secs < now ==> r == 0
        }),
{
}

/// Recording a charge changes the log of its provider and its kind, and no other.
pub proof fn logs_are_apart(
    m: MeterView,
    provider: Seq<char>,
    kind: UsageKind,
    events: Seq<UsageEventView>,
    p: Seq<char>,
    k: UsageKind,
)
    ensures
        m.with(provider, kind, events).history(provider, kind) == events,
        p != provider || k != kind ==> m.with(provider, kind, events).history(p, k) == m.history(
            p,
            k,
        ),
{
}

/// A provider has no charges of a kind where its log has none.
pub proof fn logs_hold_the_charges(m: MeterView, p: Seq<char>)
    ensures
        m.history(p, UsageKind::Billing) == if m.billing.dom().contains(p) {
            m.billing[p]
        } else {
            Seq::empty()
        },
        m.history(p, UsageKind::Count) == if m.count.dom().contains(p) {
            m.count[p]
        } else {
            Seq::empty()
        },
        m.history(p, UsageKind::Token) == if m.token.dom().contains(p) {
            m.token[p]
        } else {
            Seq::empty()
        },
{
}

/// Of one more stored charge, it is loaded for a provider and a kind exactly where it is of
/// both; what is stored joins what there was.
pub proof fn stored_charges_are_loaded(
    m: MeterView,
    events: Seq<StoredView>,
    e: StoredView,
    provider: Seq<char>,
    kind: UsageKind,
)
    ensures
        crate::usage::stored_for(Seq::empty(), provider, kind).len() == 0,
        e.provider == provider && e.kind == kind ==> crate::usage::stored_for(
            events.push(e),
            provider,
            kind,
        ) == crate::usage::stored_for(events, provider, kind).push(e.event),
        e.provider != provider || e.kind != kind ==> crate::usage::stored_for(
            events.push(e),
            provider,
            kind,
        ) == crate::usage::stored_for(events, provider, kind),
        crate::usage::loaded(m, events, provider, kind).to_multiset() == m.history(
            provider,
            kind,
        ).to_multiset().add(crate::usage::stored_for(events, provider, kind).to_multiset()),
        crate::usage::time_ascending(crate::usage::loaded(m, events, provider, kind)),
{
    let f = |s: StoredView|
        if s.provider == provider && s.kind == kind {
            Some(s.event)
        } else {
            None
        };
    let more = events.push(e);
    let n = events.len() as int;
    more.lemma_filter_map_take_succ(f, n);
    assert(more.take(n) =~= events);
    assert(more.take(n + 1) =~= more);
    assert(Seq::<StoredView>::empty().filter_map(f) =~= Seq::empty());
    let a = m.history(provider, kind);
    let b = crate::usage::stored_for(events, provider, kind);
    crate::usage_laws::loading_orders_the_log(a + b);
    vstd::seq_lib::lemma_multiset_commutative(a, b);
}

/// A provider is passed over where some window of it, of whatever kind, has nothing left.
pub proof fn spent_windows_exhaust(specs: Seq<Seq<StatView>>)
    ensures
        crate::usage::provider_exhausted(specs) <==> exists|i: int, k: int|
            #![trigger specs[i][k]]
            0 <= i < specs.len() && 0 <= k < specs[i].len() && specs[i][k].remaining.not_positive(),
        forall|i: int|
            0 <= i < specs.len() ==> (crate::usage::any_exhausted(#[trigger] specs[i]) <==> exists|
                k: int,
            |
                0 <= k < specs[i].len() && (#[trigger] specs[i][k]).remaining.not_positive()),
{
    if crate::usage::provider_exhausted(specs) {
        let i = choose|i: int|
            0 <= i < specs.len() && crate::usage::any_exhausted(#[trigger] specs[i]);
        let s = specs[i];
        let k = choose|k: int| 0 <= k < s.len() && (#[trigger] s[k]).remaining.not_positive();
        assert(specs[i][k].remaining.not_positive());
    }
    if exists|i: int, k: int|
        #![trigger specs[i][k]]
        0 <= i < specs.len() && 0 <= k < specs[i].len() && specs[i][k].remaining.not_positive() {
        let (i, k) = choose|i: int, k: int|
            #![trigger specs[i][k]]
            0 <= i < specs.len() && 0 <= k < specs[i].len()
                && specs[i][k].remaining.not_positive();
        assert(crate::usage::any_exhausted(specs[i]));
    }
}

/// A cost is a number as it stands, or a text, without the white space around it, that is to
/// be read as one; nothing else is.
pub proof fn costs_are_numbers_or_texts(v: Json)
    ensures
        match v {
            Json::Number(_) => crate::usage::cost_in(v) == Some(CostView::Number(v)),
            Json::Str(s) => crate::usage::cost_in(v) == Some(
                CostView::Text(crate::text::trimmed(s)),
            ),
            _ => crate::usage::cost_in(v) is None,
        },
{
}

/// The tokens of an answer are those of its prompt and those of its completion, as far as
/// its usage counts them.
pub proof fn tokens_are_counted(usage: Option<Json>)
    ensures
        usage is None ==> crate::usage::tokens_in(usage) == (None::<u64>, None::<u64>),
        usage matches Some(u) ==> crate::usage::tokens_in(usage).0 == u.get_u64("prompt_tokens"@)
            && crate::usage::tokens_in(usage).1 == u.get_u64("completion_tokens"@),
{
}

/// The stated cost is charged where it is more than nothing, and the estimate otherwise.
pub proof fn stated_costs_go_before_estimates(
    actual: Option<DoubleView>,
    estimate: Option<DoubleView>,
)
    ensures
        actual matches Some(c) ==> (c.positive() ==> crate::usage::charged_cost(actual, estimate)
            == Some(c)),
        actual is None || !actual->0.positive() ==> crate::usage::charged_cost(actual, estimate)
            == estimate,
{
}

/// A request is charged its cost in dollars, where it has one; as one request; or with the
/// sum of its tokens, of which those that are not counted are none.
pub proof fn requests_are_charged(
    k: KindEstimateView,
    actual: Option<DoubleView>,
    prompt_tokens: Option<u64>,
    completion_tokens: Option<u64>,
)
    ensures
        ({
            let charge = crate::usage::charge_in(k, actual, prompt_tokens, completion_tokens);
            let cost = crate::usage::charged_cost(actual, k.estimate);
            &&& charge matches Some(c) ==> c.kind == k.kind
            &&& k.kind is Billing ==> (charge is Some <==> cost is Some)
            &&& k.kind is Billing && cost is Some ==> charge->0.amount == AmountView::Dollars(
                cost->0,
            )
            &&& k.kind is Count ==> charge is Some && charge->0.amount == AmountView::Units(1)
            &&& k.kind is Token ==> charge is Some && (charge->0.amount matches AmountView::Units(n)
                && n == (if prompt_tokens is Some {
                prompt_tokens->0 as int
            } else {
                0int
            }) + (if completion_tokens is Some {
                completion_tokens->0 as int
            } else {
                0int
            }))
        }),
{
}

/// What a log says of a usage spec is said window by window: of each what counts in it, of
/// the spec's kind, and when it is free again.
pub proof fn specs_are_read_window_by_window(
    m: MeterView,
    provider: Seq<char>,
    spec: SpecView,
    now: i64,
    i: int,
)
    ensures
        ({
            let (kind, windows) = match spec {
                SpecView::Billing { windows, .. } => (UsageKind::Billing, windows),
                SpecView::Count { windows } => (UsageKind::Count, windows),
                SpecView::Token { windows } => (UsageKind::Token, windows),
            };
            let out = crate::usage::spec_windows(m, provider, spec, now);
            let events = m.history(provider, kind);
            &&& out.len() == windows.len()
            &&& 0 <= i < windows.len() && windows[i].window_secs <= i64::MAX ==> {
                &&& out[i].amounts == crate::usage::amounts_in(
                    events,
                    now,
                    windows[i].window_secs as int,
                )
                &&& out[i].reset_in_secs == crate::usage::reset_in(
                    events,
                    now,
                    windows[i].window_secs as int,
                )
            }
        }),
{
}

/// A length is read as a signed number of the same bits: one that is too long for the clock
/// as a negative one.
pub proof fn lengths_are_signed(n: u64)
    ensures
        n <= 0x7fff_ffff_ffff_ffff ==> crate::usage::signed_secs(n) == n,
        n > 0x7fff_ffff_ffff_ffff ==> crate::usage::signed_secs(n) == n - 0x1_0000_0000_0000_0000,
        i64::MIN <= crate::usage::signed_secs(n) <= i64::MAX,
        crate::server::unix_secs(Some(n)) == crate::usage::signed_secs(n),
{
}

/// The windows of a provider's specs can be read exactly where each of them can: where its
/// beginning is a time of the clock, and so are the end of its first charge and the time
/// until then.
pub proof fn windows_are_read_where_the_clock_goes(
    m: MeterView,
    provider: Seq<char>,
    specs: Seq<SpecView>,
    now: i64,
)
    ensures
        crate::usage::specs_fit(m, provider, specs, now) <==> forall|i: int, k: int|
            #![trigger specs[i].windows()[k]]
            0 <= i < specs.len() && 0 <= k < specs[i].windows().len() ==> {
                let secs = crate::usage::signed_secs(specs[i].windows()[k].window_secs);
                let w = crate::usage::in_window(
                    m.history(provider, specs[i].kind()),
                    now,
                    secs,
                );
                &&& i64::MIN <= now - secs <= i64::MAX
                &&& w.len() > 0 ==> i64::MIN <= w[0].ts + secs <= i64::MAX && i64::MIN <= w[0].ts
                    + secs - now <= i64::MAX
            },
{
    if crate::usage::specs_fit(m, provider, specs, now) {
        assert forall|i: int, k: int|
            #![trigger specs[i].windows()[k]]
            0 <= i < specs.len() && 0 <= k < specs[i].windows().len() implies {
            let secs = crate::usage::signed_secs(specs[i].windows()[k].window_secs);
            let w = crate::usage::in_window(m.history(provider, specs[i].kind()), now, secs);
            &&& i64::MIN <= now - secs <= i64::MAX
            &&& w.len() > 0 ==> i64::MIN <= w[0].ts + secs <= i64::MAX && i64::MIN <= w[0].ts + secs
                - now <= i64::MAX
        } by {
            assert(crate::usage::all_fit(
                m.history(provider, specs[i].kind()),
                now,
                specs[i].windows(),
            ));
        }
    }
}

/// A window can be read where its beginning and the end of its first charge are times of the
/// clock.
pub proof fn windows_that_can_be_read(s: Seq<UsageEventView>, now: i64, w: WindowView)
    requires
        w.window_secs <= 0x3fff_ffff_ffff_ffff,
        0 <= now <= 0x3fff_ffff_ffff_ffff,
        forall|i: int| 0 <= i < s.len() ==> 0 <= (#[trigger] s[i]).ts <= 0x3fff_ffff_ffff_ffff,
    ensures
        crate::usage::clock_fits(s, now, crate::usage::signed_secs(w.window_secs)),
{
    let secs = crate::usage::signed_secs(w.window_secs);
    lemma_members(s, |e: UsageEventView| e.ts > now - secs);
    let win = crate::usage::in_window(s, now, secs);
    if win.len() > 0 {
        let k = choose|k: int| 0 <= k < s.len() && s[k] == win[0];
        assert(s[k].ts >= 0);
    }
}

proof fn lemma_members(s: Seq<UsageEventView>, f: spec_fn(UsageEventView) -> bool)
    ensures
        forall|i: int| 0 <= i < s.filter(f).len() ==> s.contains(#[trigger] s.filter(f)[i]),
    decreases s.len(),
{
    reveal(Seq::filter);
    if s.len() > 0 {
        let t = s.drop_last();
        lemma_members(t, f);
        let r = s.filter(f);
        assert forall|i: int| 0 <= i < r.len() implies s.contains(#[trigger] r[i]) by {
            if i < t.filter(f).len() {
                let k = choose|k: int| 0 <= k < t.len() && t[k] == t.filter(f)[i];
                assert(s[k] == r[i]);
            } else {
                assert(s[s.len() - 1] == r[i]);
            }
        }
    }
}

} // verus!
