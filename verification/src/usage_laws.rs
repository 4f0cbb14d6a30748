//! What holds of every usage log.

use vstd::prelude::*;

use crate::double::DoubleView;
use crate::usage::{UsageEventView, RETAIN_SECS};

verus! {

proof fn lemma_insert_by_time(s: Seq<UsageEventView>, e: UsageEventView)
    requires
        crate::usage::time_ascending(s),
    ensures
        crate::usage::time_ascending(crate::usage::insert_by_time(s, e)),
        crate::usage::insert_by_time(s, e).to_multiset() == s.to_multiset().insert(e),
        crate::usage::insert_by_time(s, e).len() == s.len() + 1,
        crate::usage::insert_by_time(s, e).last().ts == if s.len() == 0 || s.last().ts <= e.ts {
            e.ts
        } else {
            s.last().ts
        },
    decreases s.len(),
{
    broadcast use {vstd::seq_lib::group_to_multiset_ensures, vstd::multiset::group_multiset_axioms};

    let r = crate::usage::insert_by_time(s, e);
    if s.len() == 0 || s.last().ts <= e.ts {
        assert(s.push(e).to_multiset() =~= s.to_multiset().insert(e));
        assert forall|i: int, j: int| 0 <= i <= j < r.len() implies (#[trigger] r[i]).ts <= (
        #[trigger] r[j]).ts by {
            if j == s.len() && i < j {
                assert(s[i].ts <= s[s.len() - 1].ts);
            }
        }
    } else {
        let t = s.drop_last();
        assert(crate::usage::time_ascending(t));
        lemma_insert_by_time(t, e);
        let u = crate::usage::insert_by_time(t, e);
        assert(s =~= t.push(s.last()));
        assert(r.to_multiset() =~= s.to_multiset().insert(e));
        assert forall|i: int, j: int| 0 <= i <= j < r.len() implies (#[trigger] r[i]).ts <= (
        #[trigger] r[j]).ts by {
            if j == u.len() && i < j {
                assert(u[i].ts <= u[u.len() - 1].ts);
                if t.len() > 0 {
                    assert(s[t.len() - 1].ts <= s[s.len() - 1].ts);
                }
            } else if j < u.len() {
                assert(u[i].ts <= u[j].ts);
            }
        }
    }
}

/// A log that was loaded is in the order of time, and holds each charge as often as it
/// was stored.
pub proof fn loading_orders_the_log(s: Seq<UsageEventView>)
    ensures
        crate::usage::time_ascending(crate::usage::by_time(s)),
        crate::usage::by_time(s).to_multiset() == s.to_multiset(),
    decreases s.len(),
{
    broadcast use {vstd::seq_lib::group_to_multiset_ensures, vstd::multiset::group_multiset_axioms};

    if s.len() > 0 {
        loading_orders_the_log(s.drop_last());
        lemma_insert_by_time(crate::usage::by_time(s.drop_last()), s.last());
        assert(s =~= s.drop_last().push(s.last()));
    }
}

/// Loading leaves a log that is in order as it is.
pub proof fn ordered_logs_are_left_alone(s: Seq<UsageEventView>)
    requires
        crate::usage::time_ascending(s),
    ensures
        crate::usage::by_time(s) == s,
    decreases s.len(),
{
    if s.len() > 0 {
        let t = s.drop_last();
        assert(crate::usage::time_ascending(t));
        ordered_logs_are_left_alone(t);
        if t.len() > 0 {
            assert(s[t.len() - 1].ts <= s[s.len() - 1].ts);
        }
        assert(s =~= t.push(s.last()));
    }
}

proof fn lemma_filter_members(s: Seq<UsageEventView>, f: spec_fn(UsageEventView) -> bool)
    requires
        crate::usage::time_ascending(s),
    ensures
        crate::usage::time_ascending(s.filter(f)),
        s.filter(f).len() > 0 ==> s.filter(f).last().ts <= s.last().ts,
        forall|i: int| 0 <= i < s.filter(f).len() ==> f(#[trigger] s.filter(f)[i]) && s.contains(
            s.filter(f)[i],
        ),
    decreases s.len(),
{
    reveal(Seq::filter);
    if s.len() > 0 {
        let t = s.drop_last();
        let r = s.filter(f);
        let u = t.filter(f);
        assert(crate::usage::time_ascending(t));
        lemma_filter_members(t, f);
        if t.len() > 0 {
            assert(s[t.len() - 1].ts <= s[s.len() - 1].ts);
        }
        assert forall|i: int| 0 <= i < r.len() implies f(#[trigger] r[i]) && s.contains(r[i]) by {
            if i < u.len() {
                let k = choose|k: int| 0 <= k < t.len() && t[k] == u[i];
                assert(u[i] == r[i]);
                assert(s[k] == r[i]);
            } else {
                assert(s[s.len() - 1] == r[i]);
            }
        }
        assert forall|i: int, j: int| 0 <= i <= j < r.len() implies (#[trigger] r[i]).ts <= (
        #[trigger] r[j]).ts by {
            if j < u.len() {
                assert(u[i].ts <= u[j].ts);
            } else if i < u.len() {
                assert(u[i].ts <= u[u.len() - 1].ts);
            }
        }
    }
}

/// A log that is in the order of time stays so when a charge is recorded, whatever the
/// clock says.
pub proof fn recording_keeps_the_order(s: Seq<UsageEventView>, amount: DoubleView, now: i64)
    requires
        crate::usage::time_ascending(s),
    ensures
        crate::usage::time_ascending(
            crate::usage::retained(
                crate::usage::insert_by_time(s, UsageEventView { ts: now, amount }),
                now,
            ),
        ),
{
    let e = UsageEventView { ts: now, amount };
    lemma_insert_by_time(s, e);
    lemma_filter_members(
        crate::usage::insert_by_time(s, e),
        |e: UsageEventView| e.ts >= now - RETAIN_SECS,
    );
}

/// In a log that is in the order of time, the charge by which a window's reset is counted
/// is the oldest of the window.
pub proof fn reset_follows_the_oldest(s: Seq<UsageEventView>, now: i64, secs: int, i: int)
    requires
        crate::usage::time_ascending(s),
        0 <= i < crate::usage::in_window(s, now, secs).len(),
    ensures
        crate::usage::in_window(s, now, secs)[0].ts <= crate::usage::in_window(s, now, secs)[i].ts,
{
    lemma_filter_members(s, |e: UsageEventView| e.ts > now - secs);
}

/// A window resets within its own length: not in the past, and never later than a whole
/// window from now.
pub proof fn resets_lie_within_the_window(s: Seq<UsageEventView>, now: i64, secs: int)
    requires
        secs >= 0,
        crate::usage::time_ascending(s),
        forall|i: int| 0 <= i < s.len() ==> (#[trigger] s[i]).ts <= now,
    ensures
        0 <= crate::usage::reset_in(s, now, secs) <= secs,
{
    let w = crate::usage::in_window(s, now, secs);
    lemma_filter_members(s, |e: UsageEventView| e.ts > now - secs);
    if w.len() > 0 {
        let k = choose|k: int| 0 <= k < s.len() && s[k] == w[0];
        assert(s[k].ts <= now);
    }
}

proof fn lemma_filter_twice(
    s: Seq<UsageEventView>,
    f: spec_fn(UsageEventView) -> bool,
    g: spec_fn(UsageEventView) -> bool,
)
    requires
        forall|e: UsageEventView| #[trigger] f(e) ==> g(e),
    ensures
        s.filter(g).filter(f) == s.filter(f),
    decreases s.len(),
{
    reveal(Seq::filter);
    if s.len() > 0 {
        let t = s.drop_last();
        lemma_filter_twice(t, f, g);
        let u = t.filter(g);
        if g(s.last()) {
            assert(u.push(s.last()).drop_last() =~= u);
        }
    }
}

/// Dropping what is past the retention horizon changes no window that is no longer than
/// the horizon, now or later.
pub proof fn retention_changes_no_window(
    s: Seq<UsageEventView>,
    now: i64,
    later: i64,
    secs: int,
)
    requires
        now <= later,
        secs <= RETAIN_SECS,
    ensures
        crate::usage::in_window(crate::usage::retained(s, now), later, secs)
            == crate::usage::in_window(s, later, secs),
{
    lemma_filter_twice(
        s,
        |e: UsageEventView| e.ts > later - secs,
        |e: UsageEventView| e.ts >= now - RETAIN_SECS,
    );
}

proof fn lemma_insert_into_window(
    s: Seq<UsageEventView>,
    e: UsageEventView,
    now: i64,
    secs: int,
)
    requires
        crate::usage::time_ascending(s),
        e.ts > now - secs,
    ensures
        crate::usage::in_window(crate::usage::insert_by_time(s, e), now, secs)
            == crate::usage::insert_by_time(crate::usage::in_window(s, now, secs), e),
    decreases s.len(),
{
    reveal(Seq::filter);
    let f = |x: UsageEventView| x.ts > now - secs;
    let r = crate::usage::insert_by_time(s, e);
    let w = crate::usage::in_window(s, now, secs);
    if s.len() == 0 || s.last().ts <= e.ts {
        assert(r.drop_last() =~= s);
        lemma_filter_members(s, f);
        if w.len() > 0 {
            assert(w.last().ts <= s.last().ts);
        }
    } else {
        let t = s.drop_last();
        assert(crate::usage::time_ascending(t));
        lemma_insert_into_window(t, e, now, secs);
        assert(r.drop_last() =~= crate::usage::insert_by_time(t, e));
        assert(r.last() == s.last());
        let u = crate::usage::in_window(t, now, secs);
        assert(w == u.push(s.last()));
        assert(w.drop_last() =~= u);
    }
}

/// A charge counts at once in every window: it joins what the window held already, in the
/// order of time.
pub proof fn charges_count_at_once(
    s: Seq<UsageEventView>,
    amount: DoubleView,
    now: i64,
    secs: int,
)
    requires
        crate::usage::time_ascending(s),
        0 < secs <= RETAIN_SECS,
    ensures
        ({
            let e = UsageEventView { ts: now, amount };
            let after = crate::usage::retained(crate::usage::insert_by_time(s, e), now);
            let w = crate::usage::in_window(s, now, secs);
            &&& crate::usage::in_window(after, now, secs) == crate::usage::insert_by_time(w, e)
            &&& crate::usage::in_window(after, now, secs).to_multiset() == w.to_multiset().insert(e)
        }),
{
    let e = UsageEventView { ts: now, amount };
    let t = crate::usage::insert_by_time(s, e);
    retention_changes_no_window(t, now, now, secs);
    lemma_insert_into_window(s, e, now, secs);
    lemma_filter_members(s, |x: UsageEventView| x.ts > now - secs);
    lemma_insert_by_time(crate::usage::in_window(s, now, secs), e);
}

} // verus!
