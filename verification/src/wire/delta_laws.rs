//! How an upstream cuts its texts and arguments into pieces does not matter for what an
//! answer comes to.

use vstd::prelude::*;

use crate::canonical::EventView;
use crate::wire::anthropic::{AnthropicView, ToolBlockView};
use crate::wire::responses::{ResponsesStep, ResponsesView, ToolItemView};

verus! {

/// The delta that two deltas of the same kind make together.
pub open spec fn joined_deltas(a: EventView, b: EventView) -> Option<EventView> {
    match (a, b) {
        (EventView::ReasoningDelta { text: x }, EventView::ReasoningDelta { text: y }) => Some(
            EventView::ReasoningDelta { text: x + y },
        ),
        (EventView::TextDelta { text: x }, EventView::TextDelta { text: y }) => Some(
            EventView::TextDelta { text: x + y },
        ),
        (
            EventView::ToolCallArgsDelta { index: i, delta: x },
            EventView::ToolCallArgsDelta { index: j, delta: y },
        ) => if i == j {
            Some(EventView::ToolCallArgsDelta { index: i, delta: x + y })
        } else {
            None
        },
        _ => None,
    }
}

proof fn lemma_set_twice<V>(s: Seq<(u32, V)>, k: u32, a: V, b: V)
    ensures
        crate::wire::slots::slot_set(crate::wire::slots::slot_set(s, k, a), k, b)
            == crate::wire::slots::slot_set(s, k, b),
        crate::wire::slots::slot_get(crate::wire::slots::slot_set(s, k, a), k) == Some(a),
    decreases s.len(),
{
    let t = crate::wire::slots::slot_set(s, k, a);
    if s.len() == 0 || s.last().0 < k {
        assert(t.drop_last() =~= s);
    } else if s.last().0 == k {
        assert(t.drop_last() =~= s.drop_last());
    } else {
        lemma_set_twice(s.drop_last(), k, a, b);
        assert(t.drop_last() =~= crate::wire::slots::slot_set(s.drop_last(), k, a));
    }
}

proof fn lemma_two_deltas(s: AnthropicView, a: EventView, b: EventView, ab: EventView)
    requires
        joined_deltas(a, b) == Some(ab),
    ensures
        s.step(a).state.step(b).state == s.step(ab).state,
{
    match (a, b) {
        (EventView::ReasoningDelta { text: x }, EventView::ReasoningDelta { text: y }) => {
            assert(s.thinking_text + x + y =~= s.thinking_text + (x + y));
        },
        (EventView::TextDelta { text: x }, EventView::TextDelta { text: y }) => {
            assert(s.text_text + x + y =~= s.text_text + (x + y));
        },
        (
            EventView::ToolCallArgsDelta { index, delta: x },
            EventView::ToolCallArgsDelta { delta: y, .. },
        ) => {
            if let Some(t) = crate::wire::slots::slot_get(s.tools, index) {
                let u = ToolBlockView { args: t.args + x, ..t };
                let v = ToolBlockView { args: t.args + (x + y), ..t };
                assert(t.args + x + y =~= t.args + (x + y));
                lemma_set_twice(s.tools, index, u, v);
            }
        },
        _ => {},
    }
}

proof fn lemma_run_on(s: AnthropicView, evs: Seq<EventView>, more: Seq<EventView>)
    ensures
        crate::wire::anthropic_laws::run(s, evs + more).state == crate::wire::anthropic_laws::run(
            crate::wire::anthropic_laws::run(s, evs).state,
            more,
        ).state,
    decreases more.len(),
{
    if more.len() == 0 {
        assert(evs + more =~= evs);
    } else {
        lemma_run_on(s, evs, more.drop_last());
        assert((evs + more).drop_last() =~= evs + more.drop_last());
        assert((evs + more).last() == more.last());
    }
}

/// A message comes to the same whether a piece of its reasoning, its text or its arguments
/// arrives at once or in two pieces, whatever comes before and after it.
pub proof fn cuts_change_no_message(
    s: AnthropicView,
    before: Seq<EventView>,
    a: EventView,
    b: EventView,
    ab: EventView,
    after: Seq<EventView>,
)
    requires
        joined_deltas(a, b) == Some(ab),
    ensures
        crate::wire::anthropic_laws::run(s, before + seq![a, b] + after).state
            == crate::wire::anthropic_laws::run(s, before + seq![ab] + after).state,
{
    let two = seq![a, b];
    let one = seq![ab];
    let t = crate::wire::anthropic_laws::run(s, before).state;
    reveal_with_fuel(crate::wire::anthropic_laws::run, 3);
    assert(two.drop_last() =~= seq![a]);
    assert(seq![a].drop_last() =~= Seq::empty());
    assert(one.drop_last() =~= Seq::empty());
    lemma_two_deltas(t, a, b, ab);
    lemma_run_on(s, before, two);
    lemma_run_on(s, before, one);
    lemma_run_on(s, before + two, after);
    lemma_run_on(s, before + one, after);
}

/// Whether two states differ at most in the number of their next frame.
pub open spec fn alike(s: ResponsesView, t: ResponsesView) -> bool {
    s == (ResponsesView { seq: s.seq, ..t })
}

proof fn lemma_finish_alike(a: ResponsesStep, b: ResponsesStep, ts: Seq<(u32, ToolItemView)>)
    requires
        alike(a.state, b.state),
    ensures
        alike(a.finish_tools(ts).state, b.finish_tools(ts).state),
    decreases ts.len(),
{
    if ts.len() > 0 {
        lemma_finish_alike(a, b, ts.drop_last());
    }
}

proof fn lemma_after_alike(s: ResponsesView, t: ResponsesView, ev: EventView, id: Seq<char>)
    requires
        alike(s, t),
    ensures
        alike(s.after(ev, id), t.after(ev, id)),
{
    if ev is Completed {
        let a = ResponsesStep { state: s, frames: Seq::empty() }.close_reasoning().close_message();
        let b = ResponsesStep { state: t, frames: Seq::empty() }.close_reasoning().close_message();
        lemma_finish_alike(
            ResponsesStep { state: ResponsesView { tools: Seq::empty(), ..a.state }, ..a },
            ResponsesStep { state: ResponsesView { tools: Seq::empty(), ..b.state }, ..b },
            a.state.tools,
        );
    }
}

proof fn lemma_run_alike(
    s: ResponsesView,
    t: ResponsesView,
    evs: Seq<EventView>,
    ids: Seq<Seq<char>>,
)
    requires
        alike(s, t),
    ensures
        alike(
            crate::wire::responses_laws::run(s, evs, ids),
            crate::wire::responses_laws::run(t, evs, ids),
        ),
    decreases evs.len(),
{
    if evs.len() > 0 {
        lemma_run_alike(s, t, evs.drop_last(), ids);
        lemma_after_alike(
            crate::wire::responses_laws::run(s, evs.drop_last(), ids),
            crate::wire::responses_laws::run(t, evs.drop_last(), ids),
            evs.last(),
            ids[evs.len() - 1],
        );
    }
}

proof fn lemma_two_item_deltas(
    s: ResponsesView,
    a: EventView,
    b: EventView,
    ab: EventView,
    x: Seq<char>,
    y: Seq<char>,
)
    requires
        joined_deltas(a, b) == Some(ab),
    ensures
        alike(s.after(a, x).after(b, y), s.after(ab, x)),
{
    match (a, b) {
        (EventView::ReasoningDelta { text: p }, EventView::ReasoningDelta { text: q }) => {
            assert(s.reasoning_text + p + q =~= s.reasoning_text + (p + q));
        },
        (EventView::TextDelta { text: p }, EventView::TextDelta { text: q }) => {
            assert(s.message_text + p + q =~= s.message_text + (p + q));
        },
        (
            EventView::ToolCallArgsDelta { index, delta: p },
            EventView::ToolCallArgsDelta { delta: q, .. },
        ) => {
            if let Some(t) = crate::wire::slots::slot_get(s.tools, index) {
                let u = ToolItemView { args: t.args + p, ..t };
                let v = ToolItemView { args: t.args + (p + q), ..t };
                assert(t.args + p + q =~= t.args + (p + q));
                lemma_set_twice(s.tools, index, u, v);
            }
        },
        _ => {},
    }
}

proof fn lemma_items_run_on(
    s: ResponsesView,
    evs: Seq<EventView>,
    more: Seq<EventView>,
    ids: Seq<Seq<char>>,
    others: Seq<Seq<char>>,
)
    requires
        ids.len() == evs.len(),
        others.len() == more.len(),
    ensures
        crate::wire::responses_laws::run(s, evs + more, ids + others)
            == crate::wire::responses_laws::run(
            crate::wire::responses_laws::run(s, evs, ids),
            more,
            others,
        ),
    decreases more.len(),
{
    if more.len() == 0 {
        assert(evs + more =~= evs);
        assert(ids + others =~= ids);
    } else {
        let fewer = others.drop_last();
        lemma_items_run_on(s, evs, more.drop_last(), ids, fewer);
        assert((evs + more).drop_last() =~= evs + more.drop_last());
        assert((evs + more).last() == more.last());
        crate::wire::responses_laws::lemma_later_ids_do_not_matter(
            s,
            evs + more.drop_last(),
            ids + fewer,
            ids + others,
        );
        crate::wire::responses_laws::lemma_later_ids_do_not_matter(
            crate::wire::responses_laws::run(s, evs, ids),
            more.drop_last(),
            fewer,
            others,
        );
    }
}

/// A response comes to the same whether a piece of its reasoning, its text or its arguments
/// arrives at once or in two pieces, whatever comes before and after it; `x` is the name of
/// the item that the piece may open.
pub proof fn cuts_change_no_response(
    s: ResponsesView,
    before: Seq<EventView>,
    a: EventView,
    b: EventView,
    ab: EventView,
    after: Seq<EventView>,
    ids: Seq<Seq<char>>,
    x: Seq<char>,
    y: Seq<char>,
    others: Seq<Seq<char>>,
)
    requires
        joined_deltas(a, b) == Some(ab),
        ids.len() == before.len(),
        others.len() == after.len(),
    ensures
        ({
            let cut = crate::wire::responses_laws::run(
                s,
                before + seq![a, b] + after,
                ids + seq![x, y] + others,
            );
            let whole = crate::wire::responses_laws::run(
                s,
                before + seq![ab] + after,
                ids + seq![x] + others,
            );
            &&& alike(cut, whole)
            &&& cut.completed_response() == whole.completed_response()
        }),
{
    let two = seq![a, b];
    let one = seq![ab];
    let t = crate::wire::responses_laws::run(s, before, ids);
    reveal_with_fuel(crate::wire::responses_laws::run, 3);
    assert(two.drop_last() =~= seq![a]);
    assert(seq![a].drop_last() =~= Seq::empty());
    assert(one.drop_last() =~= Seq::empty());
    lemma_two_item_deltas(t, a, b, ab, x, y);
    lemma_items_run_on(s, before, two, ids, seq![x, y]);
    lemma_items_run_on(s, before, one, ids, seq![x]);
    lemma_items_run_on(s, before + two, after, ids + seq![x, y], others);
    lemma_items_run_on(s, before + one, after, ids + seq![x], others);
    lemma_run_alike(
        crate::wire::responses_laws::run(s, before + two, ids + seq![x, y]),
        crate::wire::responses_laws::run(s, before + one, ids + seq![x]),
        after,
        others,
    );
}

} // verus!
