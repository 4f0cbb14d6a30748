//! Usage accumulator: per-provider rolling usage windows.
//!
//! Each request is charged to its provider by kind: dollars, requests or tokens. The
//! amounts of the last while are kept in a log, from which the windows are read. The
//! amounts are double-precision numbers; their sums are formed by the caller.

use vstd::prelude::*;

use crate::config::{SpecView, UsageKind, UsageSpec, UsageWindow, WindowView};
use crate::dict::Dict;
use crate::double::{Double, DoubleView};
use crate::json::{Json, JsonValue};
use crate::text::{clone_opt, clone_vec, trim};

verus! {

/// Retention horizon: events older than this are dropped (31 days, so that a window of
/// 30 days is whole).
pub const RETAIN_SECS: i64 = 2_678_400;

/// One charge: when, and how much.
#[derive(Debug, PartialEq)]
pub struct UsageEvent {
    pub ts: i64,
    pub amount: Double,
}

/// The model of a `UsageEvent`.
pub struct UsageEventView {
    pub ts: i64,
    pub amount: DoubleView,
}

impl View for UsageEvent {
    type V = UsageEventView;

    open spec fn view(&self) -> UsageEventView {
        UsageEventView { ts: self.ts, amount: self.amount@ }
    }
}

impl Clone for UsageEvent {
    fn clone(&self) -> (r: Self)
        ensures
            r@ == self@,
    {
        UsageEvent { ts: self.ts, amount: self.amount.clone() }
    }
}

/// A charge with the provider and the kind it belongs to, as it is stored.
#[derive(Debug, PartialEq)]
pub struct StoredEvent {
    pub provider: String,
    pub kind: UsageKind,
    pub event: UsageEvent,
}

/// The model of a `StoredEvent`.
pub struct StoredView {
    pub provider: Seq<char>,
    pub kind: UsageKind,
    pub event: UsageEventView,
}

impl View for StoredEvent {
    type V = StoredView;

    open spec fn view(&self) -> StoredView {
        StoredView { provider: self.provider@, kind: self.kind, event: self.event@ }
    }
}

/// Per-window usage snapshot.
#[derive(Debug, PartialEq)]
pub struct WindowStat {
    pub label: String,
    pub limit: Double,
    pub spent: Double,
    pub remaining: Double,
    /// Seconds until the oldest in-window event ages out (soonest partial relief).
    pub reset_in_secs: i64,
}

/// The model of a `WindowStat`.
pub struct StatView {
    pub label: Seq<char>,
    pub limit: DoubleView,
    pub spent: DoubleView,
    pub remaining: DoubleView,
    pub reset_in_secs: i64,
}

impl View for WindowStat {
    type V = StatView;

    open spec fn view(&self) -> StatView {
        StatView {
            label: self.label@,
            limit: self.limit@,
            spent: self.spent@,
            remaining: self.remaining@,
            reset_in_secs: self.reset_in_secs,
        }
    }
}

/// What the log says of a window: the amounts charged in it, to be summed, and when the
/// first of them ages out.
#[derive(Debug, PartialEq)]
pub struct WindowUsage {
    pub amounts: Vec<Double>,
    pub reset_in_secs: i64,
}

/// The charges of one provider and kind, in the order of the log.
#[derive(Debug, PartialEq)]
pub struct EventList {
    pub events: Vec<UsageEvent>,
}

impl View for EventList {
    type V = Seq<UsageEventView>;

    open spec fn view(&self) -> Seq<UsageEventView> {
        crate::text::seq_view(self.events@)
    }
}

impl Clone for EventList {
    fn clone(&self) -> (r: Self)
        ensures
            r@ == self@,
    {
        EventList { events: clone_vec(&self.events) }
    }
}

/// The state of a `UsageMeter`: the charges by kind and provider.
pub struct MeterView {
    pub billing: Map<Seq<char>, Seq<UsageEventView>>,
    pub count: Map<Seq<char>, Seq<UsageEventView>>,
    pub token: Map<Seq<char>, Seq<UsageEventView>>,
}

/// The charges that `m` holds for a provider.
pub open spec fn charges(m: Map<Seq<char>, Seq<UsageEventView>>, provider: Seq<char>) -> Seq<
    UsageEventView,
> {
    match crate::dict::lookup(m, provider) {
        Some(s) => s,
        None => Seq::empty(),
    }
}

impl MeterView {
    pub open spec fn of(self, kind: UsageKind) -> Map<Seq<char>, Seq<UsageEventView>> {
        match kind {
            UsageKind::Billing => self.billing,
            UsageKind::Count => self.count,
            UsageKind::Token => self.token,
        }
    }

    /// The charges of a provider and kind.
    pub open spec fn history(self, provider: Seq<char>, kind: UsageKind) -> Seq<UsageEventView> {
        charges(self.of(kind), provider)
    }

    /// The state with other charges for a provider and kind.
    pub open spec fn with(
        self,
        provider: Seq<char>,
        kind: UsageKind,
        events: Seq<UsageEventView>,
    ) -> MeterView {
        match kind {
            UsageKind::Billing => MeterView {
                billing: self.billing.insert(provider, events),
                ..self
            },
            UsageKind::Count => MeterView { count: self.count.insert(provider, events), ..self },
            UsageKind::Token => MeterView { token: self.token.insert(provider, events), ..self },
        }
    }
}

/// In-memory rolling usage log per provider and kind.
pub struct UsageMeter {
    billing: Dict<EventList>,
    count: Dict<EventList>,
    token: Dict<EventList>,
}

impl View for UsageMeter {
    type V = MeterView;

    closed spec fn view(&self) -> MeterView {
        MeterView { billing: self.billing@, count: self.count@, token: self.token@ }
    }
}

/// Whether an amount is charged at all: amounts that are zero, negative or not finite
/// consume no budget.
pub open spec fn chargeable(amount: DoubleView) -> bool {
    amount.finite() && amount.positive()
}

/// The charges that are no older than the retention horizon at `now`.
pub open spec fn retained(events: Seq<UsageEventView>, now: i64) -> Seq<UsageEventView> {
    events.filter(|e: UsageEventView| e.ts >= now - RETAIN_SECS)
}

/// A window length in seconds, as a signed number of the same bits.
pub open spec fn signed_secs(n: u64) -> int {
    if n <= i64::MAX {
        n as int
    } else {
        n - 0x1_0000_0000_0000_0000
    }
}

/// The charges that fall into the window of `secs` seconds before `now`.
pub open spec fn in_window(events: Seq<UsageEventView>, now: i64, secs: int) -> Seq<
    UsageEventView,
> {
    events.filter(|e: UsageEventView| e.ts > now - secs)
}

/// Seconds until the first charge of the window ages out, which in a log in the order of
/// time is the oldest one; the whole window where there is none.
pub open spec fn reset_in(events: Seq<UsageEventView>, now: i64, secs: int) -> int {
    let w = in_window(events, now, secs);
    if w.len() == 0 {
        secs
    } else if w[0].ts + secs - now > 0 {
        w[0].ts + secs - now
    } else {
        0
    }
}

pub open spec fn is_i64(n: int) -> bool {
    i64::MIN <= n <= i64::MAX
}

/// Whether the times of a window can be computed without leaving the range of the clock.
pub open spec fn clock_fits(events: Seq<UsageEventView>, now: i64, secs: int) -> bool {
    let w = in_window(events, now, secs);
    &&& is_i64(now - secs)
    &&& w.len() > 0 ==> is_i64(w[0].ts + secs) && is_i64(w[0].ts + secs - now)
}

/// The amounts charged in the window of `secs` seconds before `now`.
pub open spec fn amounts_in(events: Seq<UsageEventView>, now: i64, secs: int) -> Seq<DoubleView> {
    in_window(events, now, secs).map_values(|e: UsageEventView| e.amount)
}

/// Whether the times of all the windows can be computed.
pub open spec fn all_fit(events: Seq<UsageEventView>, now: i64, windows: Seq<WindowView>) -> bool {
    forall|i: int|
        0 <= i < windows.len() ==> clock_fits(
            events,
            now,
            signed_secs((#[trigger] windows[i]).window_secs),
        )
}

/// `s` with `e` put in behind everything that is no later.
pub open spec fn insert_by_time(s: Seq<UsageEventView>, e: UsageEventView) -> Seq<UsageEventView>
    decreases s.len(),
{
    if s.len() == 0 || s.last().ts <= e.ts {
        s.push(e)
    } else {
        insert_by_time(s.drop_last(), e).push(s.last())
    }
}

/// The charges by time; those of one time stay in their order.
pub open spec fn by_time(s: Seq<UsageEventView>) -> Seq<UsageEventView>
    decreases s.len(),
{
    if s.len() == 0 {
        s
    } else {
        insert_by_time(by_time(s.drop_last()), s.last())
    }
}

pub open spec fn time_ascending(s: Seq<UsageEventView>) -> bool {
    forall|i: int, j: int| 0 <= i <= j < s.len() ==> (#[trigger] s[i]).ts <= (#[trigger] s[j]).ts
}

/// The stored charges of a provider and kind, in their order.
pub open spec fn stored_for(
    events: Seq<StoredView>,
    provider: Seq<char>,
    kind: UsageKind,
) -> Seq<UsageEventView> {
    events.filter_map(
        |s: StoredView|
            if s.provider == provider && s.kind == kind {
                Some(s.event)
            } else {
                None
            },
    )
}

impl UsageMeter {
    pub fn new() -> (r: Self)
        ensures
            forall|p: Seq<char>, k: UsageKind| (#[trigger] r@.history(p, k)).len() == 0,
    {
        UsageMeter { billing: Dict::new(), count: Dict::new(), token: Dict::new() }
    }

    fn take(&mut self, provider: &str, kind: UsageKind) -> (r: EventList)
        ensures
            r@ == old(self)@.history(provider@, kind),
            forall|p: Seq<char>, k: UsageKind|
                p != provider@ || k != kind ==> #[trigger] final(self)@.history(p, k) == old(
                    self,
                )@.history(p, k),
            final(self)@.with(provider@, kind, r@) == old(self)@.with(provider@, kind, r@),
    {
        broadcast use crate::text::group_views;

        let ghost before = self@;
        let taken = match kind {
            UsageKind::Billing => self.billing.remove(provider),
            UsageKind::Count => self.count.remove(provider),
            UsageKind::Token => self.token.remove(provider),
        };
        let r = match taken {
            Some(l) => l,
            None => EventList { events: Vec::new() },
        };
        proof {
            let m = before.of(kind);
            assert(m.remove(provider@).insert(provider@, r@) =~= m.insert(provider@, r@));
        }
        r
    }

    fn put(&mut self, provider: &str, kind: UsageKind, events: EventList)
        ensures
            final(self)@ == old(self)@.with(provider@, kind, events@),
    {
        match kind {
            UsageKind::Billing => {
                self.billing.insert(provider, events);
            },
            UsageKind::Count => {
                self.count.insert(provider, events);
            },
            UsageKind::Token => {
                self.token.insert(provider, events);
            },
        }
    }

    /// Record one request's amount, in the order of time. Says whether it was charged.
    pub fn record(&mut self, provider: &str, kind: UsageKind, amount: Double, now: i64) -> (r: bool)
        requires
            chargeable(amount@) ==> now - RETAIN_SECS >= i64::MIN,
        ensures
            r == chargeable(amount@),
            !r ==> final(self)@ == old(self)@,
            r ==> final(self)@ == old(self)@.with(
                provider@,
                kind,
                retained(
                    insert_by_time(
                        old(self)@.history(provider@, kind),
                        UsageEventView { ts: now, amount: amount@ },
                    ),
                    now,
                ),
            ),
    {
        broadcast use crate::text::group_views;

        if !amount.is_finite() || !amount.is_positive() {
            return false;
        }
        let mut list = self.take(provider, kind);
        insert_sorted(&mut list.events, UsageEvent { ts: now, amount });
        let kept = retain(list.events, now);
        proof {
            let m = self@;
            let k = kept@;
            assert(m.of(kind).insert(provider@, k) =~= old(self)@.of(kind).insert(provider@, k)) by {
                assert(m.with(provider@, kind, old(self)@.history(provider@, kind)).of(kind)
                    == old(self)@.with(
                    provider@,
                    kind,
                    old(self)@.history(provider@, kind),
                ).of(kind));
                let a = m.of(kind);
                let b = old(self)@.of(kind);
                let h = old(self)@.history(provider@, kind);
                assert(a.insert(provider@, h) == b.insert(provider@, h));
                assert(a.insert(provider@, h).insert(provider@, k) =~= a.insert(provider@, k));
                assert(b.insert(provider@, h).insert(provider@, k) =~= b.insert(provider@, k));
            }
        }
        self.put(provider, kind, kept);
        true
    }

    /// The charges of a provider and kind.
    pub fn events(&self, provider: &str, kind: UsageKind) -> (r: Vec<UsageEvent>)
        ensures
            crate::text::seq_view(r@) == self@.history(provider@, kind),
    {
        broadcast use crate::text::group_views;

        let found = match kind {
            UsageKind::Billing => self.billing.get(provider),
            UsageKind::Count => self.count.get(provider),
            UsageKind::Token => self.token.get(provider),
        };
        match found {
            Some(l) => clone_vec(&l.events),
            None => Vec::new(),
        }
    }
}

fn retain(events: Vec<UsageEvent>, now: i64) -> (r: EventList)
    requires
        now - RETAIN_SECS >= i64::MIN,
    ensures
        r@ == retained(crate::text::seq_view(events@), now),
{
    broadcast use crate::text::group_views;

    let cutoff: i64 = now - RETAIN_SECS;
    let ghost view = crate::text::seq_view(events@);
    let ghost f = |e: UsageEventView| e.ts >= now - RETAIN_SECS;
    let mut out: Vec<UsageEvent> = Vec::new();
    let mut i: usize = 0;
    assert(view.take(0) =~= Seq::empty());
    while i < events.len()
        invariant
            i <= events@.len(),
            cutoff == now - RETAIN_SECS,
            view == crate::text::seq_view(events@),
            f == (|e: UsageEventView| e.ts >= now - RETAIN_SECS),
            crate::text::seq_view(out@) == view.take(i as int).filter(f),
        decreases events@.len() - i,
    {
        broadcast use crate::text::group_views;

        proof {
            reveal(Seq::filter);
            assert(view.take(i as int + 1).drop_last() =~= view.take(i as int));
            assert(view.take(i as int + 1).last() == view[i as int]);
        }
        if events[i].ts >= cutoff {
            out.push(events[i].clone());
        }
        i = i + 1;
    }
    assert(view.take(i as int) =~= view);
    EventList { events: out }
}

/// A number of seconds as a signed number of the same bits.
pub fn signed(n: u64) -> (r: i64)
    ensures
        r == signed_secs(n),
{
    if n <= 0x7fff_ffff_ffff_ffff {
        n as i64
    } else {
        -((0xffff_ffff_ffff_ffff - n) as i64) - 1
    }
}

impl UsageMeter {
    /// Whether the times of a window can be computed without leaving the range of the
    /// clock.
    pub fn window_fits(&self, provider: &str, kind: UsageKind, window: &UsageWindow, now: i64) -> (r:
        bool)
        ensures
            r == clock_fits(
                self@.history(provider@, kind),
                now,
                signed_secs(window@.window_secs),
            ),
    {
        let events = self.events(provider, kind);
        let ghost view = crate::text::seq_view(events@);
        let secs: i128 = signed(window.window_secs) as i128;
        let cutoff: i128 = now as i128 - secs;
        if cutoff < i64::MIN as i128 || cutoff > i64::MAX as i128 {
            return false;
        }
        match first_after(&events, cutoff as i64) {
            Some(i) => {
                proof {
                    lemma_first_in_window(view, now, secs as int, i as int);
                }
                let end: i128 = events[i].ts as i128 + secs;
                let left: i128 = end - now as i128;
                i64::MIN as i128 <= end && end <= i64::MAX as i128 && i64::MIN as i128 <= left
                    && left <= i64::MAX as i128
            },
            None => {
                proof {
                    lemma_empty_window(view, now, secs as int);
                }
                true
            },
        }
    }

    /// What the log says of a window at time `now`.
    pub fn window_usage(
        &self,
        provider: &str,
        kind: UsageKind,
        window: &UsageWindow,
        now: i64,
    ) -> (r: WindowUsage)
        requires
            clock_fits(self@.history(provider@, kind), now, signed_secs(window@.window_secs)),
        ensures
            crate::text::seq_view(r.amounts@) == amounts_in(
                self@.history(provider@, kind),
                now,
                signed_secs(window@.window_secs),
            ),
            r.reset_in_secs == reset_in(
                self@.history(provider@, kind),
                now,
                signed_secs(window@.window_secs),
            ),
    {
        broadcast use crate::text::group_views;

        let events = self.events(provider, kind);
        let secs: i64 = signed(window.window_secs);
        let cutoff: i64 = now - secs;
        let ghost view = crate::text::seq_view(events@);
        let ghost f = |e: UsageEventView| e.ts > now - secs;
        let ghost g = |e: UsageEventView| e.amount;
        assert(in_window(view, now, secs as int) == view.filter(f));
        let mut amounts: Vec<Double> = Vec::new();
        let mut i: usize = 0;
        assert(view.take(0) =~= Seq::empty());
        assert(view.take(0).filter(f).map_values(g) =~= Seq::empty()) by {
            reveal(Seq::filter);
        }
        while i < events.len()
            invariant
                i <= events@.len(),
                cutoff == now - secs,
                view == crate::text::seq_view(events@),
                f == (|e: UsageEventView| e.ts > now - secs),
                g == (|e: UsageEventView| e.amount),
                crate::text::seq_view(amounts@) == view.take(i as int).filter(f).map_values(g),
            decreases events@.len() - i,
        {
            broadcast use crate::text::group_views;

            let ghost done = view.take(i as int).filter(f);
            proof {
                reveal(Seq::filter);
                assert(view.take(i as int + 1).drop_last() =~= view.take(i as int));
                assert(view.take(i as int + 1).last() == view[i as int]);
            }
            if events[i].ts > cutoff {
                amounts.push(events[i].amount.clone());
                assert(done.push(view[i as int]).map_values(g) =~= done.map_values(g).push(
                    view[i as int].amount,
                ));
            }
            i = i + 1;
        }
        assert(view.take(i as int) =~= view);
        let reset_in_secs: i64 = match first_after(&events, cutoff) {
            Some(k) => {
                proof {
                    lemma_first_in_window(view, now, secs as int, k as int);
                }
                let left: i64 = events[k].ts + secs - now;
                if left > 0 {
                    left
                } else {
                    0
                }
            },
            None => {
                proof {
                    lemma_empty_window(view, now, secs as int);
                }
                secs
            },
        };
        WindowUsage { amounts, reset_in_secs }
    }
}

/// The first event after `cutoff`, in the order of the log.
fn first_after(events: &Vec<UsageEvent>, cutoff: i64) -> (r: Option<usize>)
    ensures
        match r {
            Some(i) => i < events@.len() && crate::text::seq_view(events@)[i as int].ts > cutoff
                && forall|j: int|
                0 <= j < i ==> (#[trigger] crate::text::seq_view(events@)[j]).ts <= cutoff,
            None => forall|j: int|
                0 <= j < events@.len() ==> (#[trigger] crate::text::seq_view(events@)[j]).ts
                    <= cutoff,
        },
{
    let ghost view = crate::text::seq_view(events@);
    let mut i: usize = 0;
    while i < events.len()
        invariant
            i <= events@.len(),
            view == crate::text::seq_view(events@),
            forall|j: int| 0 <= j < i ==> (#[trigger] view[j]).ts <= cutoff,
        decreases events@.len() - i,
    {
        assert(view[i as int].ts == events@[i as int].ts);
        if events[i].ts > cutoff {
            return Some(i);
        }
        i = i + 1;
    }
    None
}

proof fn lemma_empty_window(s: Seq<UsageEventView>, now: i64, secs: int)
    requires
        forall|j: int| 0 <= j < s.len() ==> (#[trigger] s[j]).ts <= now - secs,
    ensures
        in_window(s, now, secs).len() == 0,
    decreases s.len(),
{
    reveal(Seq::filter);
    if s.len() > 0 {
        assert(s.last() == s[s.len() - 1]);
        assert forall|j: int| 0 <= j < s.drop_last().len() implies (#[trigger] s.drop_last()[j]).ts
            <= now - secs by {
            assert(s.drop_last()[j] == s[j]);
        }
        lemma_empty_window(s.drop_last(), now, secs);
    }
}

proof fn lemma_first_in_window(s: Seq<UsageEventView>, now: i64, secs: int, i: int)
    requires
        0 <= i < s.len(),
        s[i].ts > now - secs,
        forall|j: int| 0 <= j < i ==> (#[trigger] s[j]).ts <= now - secs,
    ensures
        in_window(s, now, secs).len() > 0,
        in_window(s, now, secs)[0] == s[i],
    decreases s.len(),
{
    reveal(Seq::filter);
    let init = s.drop_last();
    if i < init.len() {
        assert forall|j: int| 0 <= j < i implies (#[trigger] init[j]).ts <= now - secs by {
            assert(init[j] == s[j]);
        }
        lemma_first_in_window(init, now, secs, i);
    } else {
        assert(s.last() == s[i]);
        assert forall|j: int| 0 <= j < init.len() implies (#[trigger] init[j]).ts <= now - secs by {
            assert(init[j] == s[j]);
        }
        lemma_empty_window(init, now, secs);
    }
}

/// The snapshot of a window, once its amounts are summed: `spent` is their sum, and
/// `remaining` what it leaves of the limit.
pub fn window_stat(window: &UsageWindow, usage: &WindowUsage, spent: Double, remaining: Double) -> (r:
    WindowStat)
    ensures
        r@ == (StatView {
            label: window@.label,
            limit: window@.limit,
            spent: spent@,
            remaining: remaining@,
            reset_in_secs: usage.reset_in_secs,
        }),
{
    WindowStat {
        label: window.label.clone(),
        limit: window.limit.clone(),
        spent,
        remaining,
        reset_in_secs: usage.reset_in_secs,
    }
}

/// Whether some window has nothing left.
pub open spec fn any_exhausted(stats: Seq<StatView>) -> bool {
    exists|i: int| 0 <= i < stats.len() && (#[trigger] stats[i]).remaining.not_positive()
}

/// The windows of one usage spec.
#[derive(Debug, PartialEq)]
pub struct SpecStats {
    pub stats: Vec<WindowStat>,
}

impl View for SpecStats {
    type V = Seq<StatView>;

    open spec fn view(&self) -> Seq<StatView> {
        crate::text::seq_view(self.stats@)
    }
}

/// The windows of a provider, spec by spec.
#[derive(Debug, PartialEq)]
pub struct ProviderUsage {
    pub specs: Vec<SpecStats>,
}

impl View for ProviderUsage {
    type V = Seq<Seq<StatView>>;

    open spec fn view(&self) -> Seq<Seq<StatView>> {
        crate::text::seq_view(self.specs@)
    }
}

/// Whether some window of a provider, of whatever kind, has nothing left.
pub open spec fn provider_exhausted(specs: Seq<Seq<StatView>>) -> bool {
    exists|i: int| 0 <= i < specs.len() && any_exhausted(#[trigger] specs[i])
}

/// Whether `name` is among the first `n` providers and has an exhausted window.
spec fn among_exhausted(pairs: Seq<(Seq<char>, Seq<Seq<StatView>>)>, n: int, name: Seq<char>) -> bool {
    exists|j: int| 0 <= j < n && (#[trigger] pairs[j]).0 == name && provider_exhausted(pairs[j].1)
}

fn is_exhausted(usage: &ProviderUsage) -> (r: bool)
    ensures
        r == provider_exhausted(usage@),
{
    let ghost view = usage@;
    let mut i: usize = 0;
    while i < usage.specs.len()
        invariant
            i <= usage.specs@.len(),
            view == usage@,
            forall|j: int| 0 <= j < i ==> !any_exhausted(#[trigger] view[j]),
        decreases usage.specs@.len() - i,
    {
        assert(view[i as int] == usage.specs@[i as int]@);
        if UsageMeter::exhausted(&usage.specs[i].stats) {
            return true;
        }
        i = i + 1;
    }
    false
}

impl UsageMeter {
    /// Whether any window is exhausted (`remaining <= 0`). Without windows none is.
    pub fn exhausted(stats: &Vec<WindowStat>) -> (r: bool)
        ensures
            r == any_exhausted(crate::text::seq_view(stats@)),
    {
        let ghost view = crate::text::seq_view(stats@);
        let mut i: usize = 0;
        while i < stats.len()
            invariant
                i <= stats@.len(),
                view == crate::text::seq_view(stats@),
                forall|j: int| 0 <= j < i ==> !(#[trigger] view[j]).remaining.not_positive(),
            decreases stats@.len() - i,
        {
            if stats[i].remaining.is_not_positive() {
                assert(view[i as int].remaining.not_positive());
                return true;
            }
            i = i + 1;
        }
        false
    }

    /// The providers with at least one exhausted window, which failover skips.
    pub fn exhausted_set(usage: &Dict<ProviderUsage>) -> (r: Vec<String>)
        ensures
            forall|name: Seq<char>|
                #![trigger crate::text::seq_view(r@).contains(name)]
                #![trigger usage@.dom().contains(name)]
                crate::text::seq_view(r@).contains(name) <==> usage@.dom().contains(name)
                    && provider_exhausted(usage@[name]),
            crate::text::seq_view(r@).no_duplicates(),
    {
        broadcast use crate::text::group_views;

        let n = usage.len();
        let ghost pairs = usage.pairs();
        let mut out: Vec<String> = Vec::new();
        let mut i: usize = 0;
        while i < n
            invariant
                i <= n,
                n == pairs.len(),
                pairs == usage.pairs(),
                crate::dict::ascending(pairs),
                forall|name: Seq<char>| #[trigger]
                    crate::text::seq_view(out@).contains(name) <==> among_exhausted(
                        pairs,
                        i as int,
                        name,
                    ),
                crate::text::seq_view(out@).no_duplicates(),
            decreases n - i,
        {
            broadcast use crate::text::group_views;

            let ghost done = crate::text::seq_view(out@);
            let ghost key = pairs[i as int].0;
            proof {
                if among_exhausted(pairs, i as int, key) {
                    let j = choose|j: int|
                        0 <= j < i && (#[trigger] pairs[j]).0 == key && provider_exhausted(
                            pairs[j].1,
                        );
                    assert(crate::dict::str_lt(pairs[j].0, pairs[i as int].0));
                    crate::dict::str_order_is_total(key, key, key);
                }
                assert(!done.contains(key));
            }
            if is_exhausted(usage.value(i)) {
                let name = usage.key(i).clone();
                out.push(name);
                assert(crate::text::seq_view(out@) == done.push(key));
                assert(done.push(key)[done.len() as int] == key);
            }
            proof {
                let now = crate::text::seq_view(out@);
                assert forall|name: Seq<char>| #[trigger]
                    now.contains(name) <==> among_exhausted(pairs, i + 1, name) by {
                    assert(done.contains(name) <==> among_exhausted(pairs, i as int, name));
                    if done.contains(name) {
                        let m = choose|m: int| 0 <= m < done.len() && done[m] == name;
                        assert(now[m] == name);
                        let j = choose|j: int|
                            0 <= j < i && (#[trigger] pairs[j]).0 == name && provider_exhausted(
                                pairs[j].1,
                            );
                        assert(pairs[j].0 == name);
                    }
                    if now.contains(name) && !done.contains(name) {
                        let m = choose|m: int| 0 <= m < now.len() && now[m] == name;
                        if m < done.len() {
                            assert(done[m] == name);
                        }
                        assert(pairs[i as int].0 == name);
                    }
                    if among_exhausted(pairs, i + 1, name) && !done.contains(name) {
                        let j = choose|j: int|
                            0 <= j < i + 1 && (#[trigger] pairs[j]).0 == name
                                && provider_exhausted(pairs[j].1);
                        assert(j == i);
                    }
                }
            }
            i = i + 1;
        }
        proof {
            let view = crate::text::seq_view(out@);
            assert forall|name: Seq<char>|
                #![trigger view.contains(name)]
                #![trigger usage@.dom().contains(name)]
                view.contains(name) <==> usage@.dom().contains(name) && provider_exhausted(
                    usage@[name],
                ) by {
                if among_exhausted(pairs, i as int, name) {
                    let j = choose|j: int|
                        0 <= j < i && (#[trigger] pairs[j]).0 == name && provider_exhausted(
                            pairs[j].1,
                        );
                    crate::dict::lemma_position(pairs, j);
                }
                if usage@.dom().contains(name) && provider_exhausted(usage@[name]) {
                    let j = crate::dict::position(pairs, name);
                    assert(crate::dict::has_key(pairs, name));
                    assert(pairs[j].0 == name);
                }
                assert(view.contains(name) <==> among_exhausted(pairs, i as int, name));
            }
        }
        out
    }
}

/// A `cost` as an upstream states it, to be read as a number.
#[derive(Debug, PartialEq)]
pub enum CostText {
    Number(JsonValue),
    Text(String),
}

/// The model of a `CostText`.
pub enum CostView {
    Number(Json),
    Text(Seq<char>),
}

impl View for CostText {
    type V = CostView;

    open spec fn view(&self) -> CostView {
        match *self {
            CostText::Number(n) => CostView::Number(n@),
            CostText::Text(t) => CostView::Text(t@),
        }
    }
}

/// What may be a cost: a number, or a string that is to be read as one, without the white
/// space around it.
pub open spec fn cost_in(v: Json) -> Option<CostView> {
    match v {
        Json::Number(_) => Some(CostView::Number(v)),
        Json::Str(s) => Some(CostView::Text(crate::text::trimmed(s))),
        _ => None,
    }
}

/// The cost that a `cost` member states. Some providers send a string, some a number.
pub fn cost_text(v: &JsonValue) -> (r: Option<CostText>)
    ensures
        crate::text::opt_view(r) == cost_in(v@),
{
    match v {
        JsonValue::Number(_) => Some(CostText::Number(v.copy())),
        JsonValue::String(s) => Some(CostText::Text(trim(s.as_str()).to_owned())),
        _ => None,
    }
}

/// The prompt and completion tokens that a `usage` object counts.
pub open spec fn tokens_in(usage: Option<Json>) -> (Option<u64>, Option<u64>) {
    match usage {
        Some(u) => (u.get_u64("prompt_tokens"@), u.get_u64("completion_tokens"@)),
        None => (None, None),
    }
}

/// Extract `(prompt_tokens, completion_tokens)` from a response's `usage` object.
pub fn tokens_from_usage(usage: Option<&JsonValue>) -> (r: (Option<u64>, Option<u64>))
    ensures
        r == tokens_in(crate::text::opt_view(usage)),
{
    match usage {
        Some(u) => (u.get_u64("prompt_tokens"), u.get_u64("completion_tokens")),
        None => (None, None),
    }
}

/// The cost to charge: the real one where it is positive, or else the estimate.
pub open spec fn charged_cost(actual: Option<DoubleView>, estimate: Option<DoubleView>) -> Option<
    DoubleView,
> {
    match actual {
        Some(c) => if c.positive() {
            Some(c)
        } else {
            estimate
        },
        None => estimate,
    }
}

/// The cost to charge against the windows: the upstream's real `cost` when it is
/// positive, otherwise an estimate from tokens and prices (subscription plans report
/// zero). `None` when neither is available.
pub fn effective_cost(actual: Option<Double>, estimate: Option<Double>) -> (r: Option<Double>)
    ensures
        crate::text::opt_view(r) == charged_cost(
            crate::text::opt_view(actual),
            crate::text::opt_view(estimate),
        ),
{
    match actual {
        Some(c) => if c.is_positive() {
            Some(c)
        } else {
            estimate
        },
        None => estimate,
    }
}

/// What a request is charged: dollars, or a number of requests or tokens.
#[derive(Debug, PartialEq)]
pub enum Amount {
    Dollars(Double),
    Units(u128),
}

/// The model of an `Amount`.
pub enum AmountView {
    Dollars(DoubleView),
    Units(nat),
}

impl View for Amount {
    type V = AmountView;

    open spec fn view(&self) -> AmountView {
        match *self {
            Amount::Dollars(d) => AmountView::Dollars(d@),
            Amount::Units(n) => AmountView::Units(n as nat),
        }
    }
}

/// What a request is charged in the given kind.
pub open spec fn charged_amount(
    kind: UsageKind,
    actual: Option<DoubleView>,
    estimate: Option<DoubleView>,
    prompt_tokens: Option<u64>,
    completion_tokens: Option<u64>,
) -> Option<AmountView> {
    match kind {
        UsageKind::Billing => match charged_cost(actual, estimate) {
            Some(c) => Some(AmountView::Dollars(c)),
            None => None,
        },
        UsageKind::Count => Some(AmountView::Units(1)),
        UsageKind::Token => Some(
            AmountView::Units(
                (match prompt_tokens {
                    Some(n) => n as nat,
                    None => 0,
                }) + (match completion_tokens {
                    Some(n) => n as nat,
                    None => 0,
                }),
            ),
        ),
    }
}

/// What a request is charged: its cost, one request, or its tokens.
pub fn amount_for(
    kind: UsageKind,
    actual: Option<Double>,
    estimate: Option<Double>,
    prompt_tokens: Option<u64>,
    completion_tokens: Option<u64>,
) -> (r: Option<Amount>)
    ensures
        crate::text::opt_view(r) == charged_amount(
            kind,
            crate::text::opt_view(actual),
            crate::text::opt_view(estimate),
            prompt_tokens,
            completion_tokens,
        ),
{
    match kind {
        UsageKind::Billing => match effective_cost(actual, estimate) {
            Some(c) => Some(Amount::Dollars(c)),
            None => None,
        },
        UsageKind::Count => Some(Amount::Units(1)),
        UsageKind::Token => {
            let p: u64 = match prompt_tokens {
                Some(n) => n,
                None => 0,
            };
            let c: u64 = match completion_tokens {
                Some(n) => n,
                None => 0,
            };
            Some(Amount::Units(p as u128 + c as u128))
        },
    }
}

/// A usage kind with what a request would cost by the prices of the kind, where that is
/// known.
#[derive(Debug, PartialEq)]
pub struct KindEstimate {
    pub kind: UsageKind,
    pub estimate: Option<Double>,
}

/// The model of a `KindEstimate`.
pub struct KindEstimateView {
    pub kind: UsageKind,
    pub estimate: Option<DoubleView>,
}

impl View for KindEstimate {
    type V = KindEstimateView;

    open spec fn view(&self) -> KindEstimateView {
        KindEstimateView { kind: self.kind, estimate: crate::text::opt_view(self.estimate) }
    }
}

/// What one request is charged in one kind.
#[derive(Debug, PartialEq)]
pub struct Charge {
    pub kind: UsageKind,
    pub amount: Amount,
}

/// The model of a `Charge`.
pub struct ChargeView {
    pub kind: UsageKind,
    pub amount: AmountView,
}

impl View for Charge {
    type V = ChargeView;

    open spec fn view(&self) -> ChargeView {
        ChargeView { kind: self.kind, amount: self.amount@ }
    }
}

/// What one request is charged in one kind, if anything.
pub open spec fn charge_in(
    k: KindEstimateView,
    actual: Option<DoubleView>,
    prompt_tokens: Option<u64>,
    completion_tokens: Option<u64>,
) -> Option<ChargeView> {
    match charged_amount(k.kind, actual, k.estimate, prompt_tokens, completion_tokens) {
        Some(amount) => Some(ChargeView { kind: k.kind, amount }),
        None => None,
    }
}

/// What one request is charged, kind by kind.
pub fn amounts_for(
    kinds: &Vec<KindEstimate>,
    actual: &Option<Double>,
    prompt_tokens: Option<u64>,
    completion_tokens: Option<u64>,
) -> (r: Vec<Charge>)
    ensures
        crate::text::seq_view(r@) == crate::text::seq_view(kinds@).filter_map(
            |k: KindEstimateView|
                charge_in(k, crate::text::opt_view(*actual), prompt_tokens, completion_tokens),
        ),
{
    broadcast use crate::text::group_views;

    let ghost view = crate::text::seq_view(kinds@);
    let ghost f = |k: KindEstimateView|
        charge_in(k, crate::text::opt_view(*actual), prompt_tokens, completion_tokens);
    let mut out: Vec<Charge> = Vec::new();
    let mut i: usize = 0;
    assert(view.take(0) =~= Seq::empty());
    while i < kinds.len()
        invariant
            i <= kinds@.len(),
            view == crate::text::seq_view(kinds@),
            f == (|k: KindEstimateView|
                charge_in(k, crate::text::opt_view(*actual), prompt_tokens, completion_tokens)),
            crate::text::seq_view(out@) == view.take(i as int).filter_map(f),
        decreases kinds@.len() - i,
    {
        broadcast use crate::text::group_views;

        proof {
            view.lemma_filter_map_take_succ(f, i as int);
        }
        let k = &kinds[i];
        assert(view[i as int] == k@);
        match amount_for(
            k.kind,
            clone_opt(actual),
            clone_opt(&k.estimate),
            prompt_tokens,
            completion_tokens,
        ) {
            Some(amount) => {
                out.push(Charge { kind: k.kind, amount });
            },
            None => {},
        }
        i = i + 1;
    }
    assert(view.take(i as int) =~= view);
    out
}

/// Puts `e` in behind everything that is no later.
fn insert_sorted(v: &mut Vec<UsageEvent>, e: UsageEvent)
    ensures
        crate::text::seq_view(final(v)@) == insert_by_time(crate::text::seq_view(old(v)@), e@),
{
    let ghost before = crate::text::seq_view(v@);
    let mut i: usize = v.len();
    while i > 0 && v[i - 1].ts > e.ts
        invariant
            i <= v@.len(),
            before == crate::text::seq_view(v@),
            forall|j: int| i <= j < before.len() ==> (#[trigger] before[j]).ts > e.ts,
        decreases i,
    {
        assert(before[i - 1].ts == v@[i - 1].ts);
        i = i - 1;
    }
    proof {
        if i > 0 {
            assert(before[i - 1].ts == v@[i - 1].ts);
        }
        lemma_insert_place(before, e@, i as int);
    }
    v.insert(i, e);
    assert(crate::text::seq_view(v@) =~= before.insert(i as int, e@));
}

proof fn lemma_insert_place(s: Seq<UsageEventView>, e: UsageEventView, i: int)
    requires
        0 <= i <= s.len(),
        forall|j: int| i <= j < s.len() ==> (#[trigger] s[j]).ts > e.ts,
        i > 0 ==> s[i - 1].ts <= e.ts,
    ensures
        insert_by_time(s, e) == s.insert(i, e),
    decreases s.len(),
{
    if i == s.len() {
        assert(s.insert(i, e) =~= s.push(e));
    } else {
        let t = s.drop_last();
        assert forall|j: int| i <= j < t.len() implies (#[trigger] t[j]).ts > e.ts by {
            assert(t[j] == s[j]);
        }
        lemma_insert_place(t, e, i);
        assert(t.insert(i, e).push(s.last()) =~= s.insert(i, e));
    }
}

/// The charges by time; those of one time stay in their order.
fn sort_events(v: &Vec<UsageEvent>) -> (r: Vec<UsageEvent>)
    ensures
        crate::text::seq_view(r@) == by_time(crate::text::seq_view(v@)),
{
    broadcast use crate::text::group_views;

    let ghost view = crate::text::seq_view(v@);
    let mut out: Vec<UsageEvent> = Vec::new();
    let mut i: usize = 0;
    assert(view.take(0) =~= Seq::empty());
    while i < v.len()
        invariant
            i <= v@.len(),
            view == crate::text::seq_view(v@),
            crate::text::seq_view(out@) == by_time(view.take(i as int)),
        decreases v@.len() - i,
    {
        assert(view.take(i as int + 1).drop_last() =~= view.take(i as int));
        assert(view.take(i as int + 1).last() == view[i as int]);
        insert_sorted(&mut out, v[i].clone());
        i = i + 1;
    }
    assert(view.take(i as int) =~= view);
    out
}

/// Every list of `d` by time.
fn sort_all(d: &Dict<EventList>) -> (r: Dict<EventList>)
    ensures
        r@ == d@.map_values(|s: Seq<UsageEventView>| by_time(s)),
{
    let n = d.len();
    let ghost pairs = d.pairs();
    let ghost f = |s: Seq<UsageEventView>| by_time(s);
    let mut out: Dict<EventList> = Dict::new();
    let mut i: usize = 0;
    assert(crate::dict::pairs_map(pairs.take(0)) =~= Map::empty());
    assert(out@ =~= crate::dict::pairs_map(pairs.take(0)).map_values(f));
    while i < n
        invariant
            i <= n,
            n == pairs.len(),
            pairs == d.pairs(),
            crate::dict::ascending(pairs),
            f == (|s: Seq<UsageEventView>| by_time(s)),
            out@ == crate::dict::pairs_map(pairs.take(i as int)).map_values(f),
        decreases n - i,
    {
        proof {
            crate::dict::lemma_pairs_take(pairs, i as int);
        }
        let list = EventList { events: sort_events(&d.value(i).events) };
        out.insert(d.key(i).as_str(), list);
        assert(out@ =~= crate::dict::pairs_map(pairs.take(i as int + 1)).map_values(f));
        i = i + 1;
    }
    assert(pairs.take(i as int) =~= pairs);
    out
}

/// The charges that a provider and kind have after a load: those there were and those
/// that were stored, by time.
pub open spec fn loaded(
    m: MeterView,
    events: Seq<StoredView>,
    provider: Seq<char>,
    kind: UsageKind,
) -> Seq<UsageEventView> {
    by_time(m.history(provider, kind) + stored_for(events, provider, kind))
}

impl UsageMeter {
    /// Seed the log from persisted events (call once at startup).
    pub fn load(&mut self, events: &Vec<StoredEvent>)
        ensures
            forall|p: Seq<char>, k: UsageKind| #[trigger]
                final(self)@.history(p, k) == loaded(
                    old(self)@,
                    crate::text::seq_view(events@),
                    p,
                    k,
                ),
    {
        broadcast use crate::text::group_views;

        let ghost view = crate::text::seq_view(events@);
        let ghost before = self@;
        let mut i: usize = 0;
        assert(view.take(0) =~= Seq::empty());
        assert forall|p: Seq<char>, k: UsageKind| #[trigger] self@.history(p, k) == before.history(
            p,
            k,
        ) + stored_for(view.take(0), p, k) by {
            assert(before.history(p, k) + Seq::<UsageEventView>::empty() =~= before.history(p, k));
        }
        while i < events.len()
            invariant
                i <= events@.len(),
                view == crate::text::seq_view(events@),
                forall|p: Seq<char>, k: UsageKind| #[trigger]
                    self@.history(p, k) == before.history(p, k) + stored_for(
                        view.take(i as int),
                        p,
                        k,
                    ),
            decreases events@.len() - i,
        {
            broadcast use crate::text::group_views;

            let ghost prior = self@;
            let kind = events[i].kind;
            let mut list = self.take(events[i].provider.as_str(), kind);
            let ghost without = self@;
            list.events.push(events[i].event.clone());
            let ghost held = list@;
            self.put(events[i].provider.as_str(), kind, list);
            proof {
                let e = view[i as int];
                assert forall|p: Seq<char>, k: UsageKind| #[trigger]
                    self@.history(p, k) == before.history(p, k) + stored_for(
                        view.take(i as int + 1),
                        p,
                        k,
                    ) by {
                    let f = |s: StoredView|
                        if s.provider == p && s.kind == k {
                            Some(s.event)
                        } else {
                            None
                        };
                    view.lemma_filter_map_take_succ(f, i as int);
                    assert(stored_for(view.take(i as int), p, k) == view.take(i as int).filter_map(
                        f,
                    ));
                    assert(prior.history(p, k) == before.history(p, k) + stored_for(
                        view.take(i as int),
                        p,
                        k,
                    ));
                    if p == e.provider && k == e.kind {
                        assert(held =~= prior.history(p, k).push(e.event));
                        assert((before.history(p, k) + stored_for(view.take(i as int), p, k)).push(
                            e.event,
                        ) =~= before.history(p, k) + stored_for(view.take(i as int), p, k).push(
                            e.event,
                        ));
                    } else {
                        assert(without.history(p, k) == prior.history(p, k));
                        assert(self@.history(p, k) == without.history(p, k));
                    }
                }
            }
            i = i + 1;
        }
        assert(view.take(i as int) =~= view);
        let ghost gathered = self@;
        let billing = sort_all(&self.billing);
        let count = sort_all(&self.count);
        let token = sort_all(&self.token);
        self.billing = billing;
        self.count = count;
        self.token = token;
        proof {
            assert forall|p: Seq<char>, k: UsageKind| #[trigger] self@.history(p, k) == loaded(
                before,
                view,
                p,
                k,
            ) by {
                assert(gathered.history(p, k) == before.history(p, k) + stored_for(view, p, k));
            }
        }
    }

    /// Whether the times of all the windows can be computed.
    pub fn windows_fit(
        &self,
        provider: &str,
        kind: UsageKind,
        windows: &Vec<UsageWindow>,
        now: i64,
    ) -> (r: bool)
        ensures
            r == all_fit(
                self@.history(provider@, kind),
                now,
                crate::text::seq_view(windows@),
            ),
    {
        let ghost view = crate::text::seq_view(windows@);
        let mut i: usize = 0;
        while i < windows.len()
            invariant
                i <= windows@.len(),
                view == crate::text::seq_view(windows@),
                forall|j: int|
                    0 <= j < i ==> clock_fits(
                        self@.history(provider@, kind),
                        now,
                        signed_secs((#[trigger] view[j]).window_secs),
                    ),
            decreases windows@.len() - i,
        {
            assert(view[i as int] == windows@[i as int]@);
            if !self.window_fits(provider, kind, &windows[i], now) {
                return false;
            }
            i = i + 1;
        }
        true
    }

    /// What the log says of each window at time `now`.
    pub fn windows(
        &self,
        provider: &str,
        kind: UsageKind,
        windows: &Vec<UsageWindow>,
        now: i64,
    ) -> (r: Vec<WindowUsage>)
        requires
            all_fit(self@.history(provider@, kind), now, crate::text::seq_view(windows@)),
        ensures
            r@.len() == windows@.len(),
            forall|i: int|
                0 <= i < windows@.len() ==> {
                    let secs = signed_secs((#[trigger] windows@[i])@.window_secs);
                    let events = self@.history(provider@, kind);
                    &&& crate::text::seq_view(r@[i].amounts@) == amounts_in(events, now, secs)
                    &&& r@[i].reset_in_secs == reset_in(events, now, secs)
                },
    {
        let ghost view = crate::text::seq_view(windows@);
        let mut out: Vec<WindowUsage> = Vec::new();
        let mut i: usize = 0;
        while i < windows.len()
            invariant
                i <= windows@.len(),
                out@.len() == i,
                view == crate::text::seq_view(windows@),
                all_fit(self@.history(provider@, kind), now, view),
                forall|j: int|
                    0 <= j < i ==> {
                        let secs = signed_secs((#[trigger] windows@[j])@.window_secs);
                        let events = self@.history(provider@, kind);
                        &&& crate::text::seq_view(out@[j].amounts@) == amounts_in(events, now, secs)
                        &&& out@[j].reset_in_secs == reset_in(events, now, secs)
                    },
            decreases windows@.len() - i,
        {
            assert(view[i as int] == windows@[i as int]@);
            let u = self.window_usage(provider, kind, &windows[i], now);
            out.push(u);
            i = i + 1;
        }
        out
    }
}

/// The model of a `WindowUsage`.
pub struct WindowUsageView {
    pub amounts: Seq<DoubleView>,
    pub reset_in_secs: int,
}

impl View for WindowUsage {
    type V = WindowUsageView;

    open spec fn view(&self) -> WindowUsageView {
        WindowUsageView {
            amounts: crate::text::seq_view(self.amounts@),
            reset_in_secs: self.reset_in_secs as int,
        }
    }
}

/// What the log says of each window of a spec.
#[derive(Debug, PartialEq)]
pub struct SpecWindows {
    pub windows: Vec<WindowUsage>,
}

impl View for SpecWindows {
    type V = Seq<WindowUsageView>;

    open spec fn view(&self) -> Seq<WindowUsageView> {
        crate::text::seq_view(self.windows@)
    }
}

/// What a log says of the windows of a spec at time `now`: the amounts charged within each
/// window, and when the oldest of them leaves it.
pub open spec fn spec_windows(m: MeterView, provider: Seq<char>, spec: SpecView, now: i64) -> Seq<
    WindowUsageView,
> {
    let events = m.history(provider, spec.kind());
    spec.windows().map_values(
        |w: WindowView|
            WindowUsageView {
                amounts: amounts_in(events, now, signed_secs(w.window_secs)),
                reset_in_secs: reset_in(events, now, signed_secs(w.window_secs)),
            },
    )
}

/// Whether the times of all the windows of the specs can be computed.
pub open spec fn specs_fit(
    m: MeterView,
    provider: Seq<char>,
    specs: Seq<SpecView>,
    now: i64,
) -> bool {
    forall|i: int|
        0 <= i < specs.len() ==> all_fit(
            m.history(provider, (#[trigger] specs[i]).kind()),
            now,
            specs[i].windows(),
        )
}

impl UsageMeter {
    /// What the log says of every window of a provider's specs at time `now`; nothing
    /// where a time cannot be computed.
    pub fn usages(&self, provider: &str, specs: &Vec<UsageSpec>, now: i64) -> (r: Option<
        Vec<SpecWindows>,
    >)
        ensures
            match r {
                Some(v) => specs_fit(self@, provider@, crate::text::seq_view(specs@), now)
                    && crate::text::seq_view(v@) == crate::text::seq_view(specs@).map_values(
                    |s: SpecView| spec_windows(self@, provider@, s, now),
                ),
                None => !specs_fit(self@, provider@, crate::text::seq_view(specs@), now),
            },
    {
        let ghost view = crate::text::seq_view(specs@);
        let mut out: Vec<SpecWindows> = Vec::new();
        let mut i: usize = 0;
        while i < specs.len()
            invariant
                i <= specs@.len(),
                view == crate::text::seq_view(specs@),
                out@.len() == i,
                forall|j: int|
                    0 <= j < i ==> all_fit(
                        self@.history(provider@, (#[trigger] view[j]).kind()),
                        now,
                        view[j].windows(),
                    ),
                forall|j: int|
                    0 <= j < i ==> (#[trigger] out@[j])@ == spec_windows(
                        self@,
                        provider@,
                        view[j],
                        now,
                    ),
            decreases specs@.len() - i,
        {
            let spec = &specs[i];
            assert(view[i as int] == spec@);
            let kind = spec.kind();
            let windows = spec.windows();
            if !self.windows_fit(provider, kind, windows, now) {
                return None;
            }
            let usages = self.windows(provider, kind, windows, now);
            assert(crate::text::seq_view(usages@) =~= spec_windows(self@, provider@, spec@, now));
            out.push(SpecWindows { windows: usages });
            i = i + 1;
        }
        assert(crate::text::seq_view(out@) =~= view.map_values(
            |s: SpecView| spec_windows(self@, provider@, s, now),
        ));
        Some(out)
    }
}

/// What a whole answer states of its cost and its tokens.
#[derive(Debug, PartialEq)]
pub struct AnswerUsage {
    pub cost: Option<CostText>,
    pub prompt_tokens: Option<u64>,
    pub completion_tokens: Option<u64>,
}

/// What a whole answer states of its cost and its tokens.
pub fn answer_usage(resp: &JsonValue) -> (r: AnswerUsage)
    ensures
        crate::text::opt_view(r.cost) == match resp@.get("cost"@) {
            Some(v) => cost_in(v),
            None => None,
        },
        (r.prompt_tokens, r.completion_tokens) == tokens_in(resp@.get("usage"@)),
{
    let cost = match resp.get("cost") {
        Some(v) => cost_text(v),
        None => None,
    };
    let (prompt_tokens, completion_tokens) = tokens_from_usage(resp.get("usage"));
    AnswerUsage { cost, prompt_tokens, completion_tokens }
}

} // verus!
