//! What holds of every list of chunks that an upstream sends.

use vstd::prelude::*;
use vstd::seq_lib::lemma_multiset_commutative;

use crate::canonical::EventView;
use crate::json::Json;
use crate::wire::chat::ParserView;

verus! {

/// The state of a new parser.
pub open spec fn new_parser(response_id: Seq<char>) -> ParserView {
    ParserView { response_id, model: Seq::empty(), created: false, started: Seq::empty() }
}

/// The state after a list of chunks.
pub open spec fn after_all(p: ParserView, chunks: Seq<Json>) -> ParserView
    decreases chunks.len(),
{
    if chunks.len() == 0 {
        p
    } else {
        after_all(p, chunks.drop_last()).after(chunks.last())
    }
}

/// The events of a list of chunks.
pub open spec fn all_events(p: ParserView, chunks: Seq<Json>) -> Seq<EventView>
    decreases chunks.len(),
{
    if chunks.len() == 0 {
        Seq::empty()
    } else {
        all_events(p, chunks.drop_last()) + after_all(p, chunks.drop_last()).events(chunks.last())
    }
}

/// Whether all the chunks report an error.
pub open spec fn all_failed(chunks: Seq<Json>) -> bool {
    forall|i: int|
        0 <= i < chunks.len() ==> crate::wire::chat::chunk_error(#[trigger] chunks[i]) is Some
}

/// The call that an event goes on with or ends.
pub open spec fn continues(ev: EventView, index: u32) -> bool {
    match ev {
        EventView::ToolCallArgsDelta { index: i, .. } => i == index,
        EventView::ToolCallDone { index: i } => i == index,
        _ => false,
    }
}

/// Whether the event `k` of a list comes after the start of the call `index`.
pub open spec fn after_its_start(evs: Seq<EventView>, k: int, index: u32) -> bool {
    exists|i: int| 0 <= i < k && crate::wire::chat::starts(#[trigger] evs[i], index)
}

/// The part of a chunk's events before its tool calls.
spec fn head_of(p: ParserView, chunk: Json) -> Seq<EventView> {
    p.opening(chunk) + crate::wire::chat::said_in(chunk)
}

proof fn lemma_parts(p: ParserView, chunk: Json)
    requires
        crate::wire::chat::chunk_error(chunk) is None,
    ensures
        p.events(chunk) == head_of(p, chunk) + crate::wire::chat::all_fragment_events(
            p.started,
            crate::wire::chat::fragments_of(chunk),
        ) + p.endings(chunk) + crate::wire::chat::usage_events(chunk),
{
    assert(p.events(chunk) =~= head_of(p, chunk) + crate::wire::chat::all_fragment_events(
        p.started,
        crate::wire::chat::fragments_of(chunk),
    ) + p.endings(chunk) + crate::wire::chat::usage_events(chunk));
}

proof fn lemma_fragments_create_nothing(started: Seq<u32>, tcs: Seq<Json>)
    ensures
        forall|i: int|
            0 <= i < crate::wire::chat::all_fragment_events(started, tcs).len() ==> !((
            #[trigger] crate::wire::chat::all_fragment_events(started, tcs)[i]) is Created) && !(
            crate::wire::chat::all_fragment_events(started, tcs)[i] is ToolCallDone),
    decreases tcs.len(),
{
    let all = crate::wire::chat::all_fragment_events(started, tcs);
    if tcs.len() > 0 {
        let init = tcs.drop_last();
        lemma_fragments_create_nothing(started, init);
        let before = crate::wire::chat::all_fragment_events(started, init);
        let last = crate::wire::chat::fragment_events(
            crate::wire::chat::all_started(started, init),
            tcs.last(),
        );
        assert forall|i: int| 0 <= i < all.len() implies !((#[trigger] all[i]) is Created) && !(
        all[i] is ToolCallDone) by {
            if i < before.len() {
                assert(all[i] == before[i]);
            } else {
                assert(all[i] == last[i - before.len()]);
            }
        }
    }
}

/// The creation is the first event of the first chunk that reports no error, and comes
/// nowhere else.
proof fn lemma_chunk_creation(p: ParserView, chunk: Json)
    ensures
        crate::wire::chat::chunk_error(chunk) is None && !p.created ==> {
            &&& p.events(chunk).len() > 0
            &&& p.events(chunk)[0] == (EventView::Created {
                response_id: p.response_id,
                model: chunk.str_or_empty("model"@),
            })
        },
        forall|k: int|
            0 <= k < p.events(chunk).len() && (#[trigger] p.events(chunk)[k]) is Created ==> k == 0
                && !p.created && crate::wire::chat::chunk_error(chunk) is None,
{
    let evs = p.events(chunk);
    if crate::wire::chat::chunk_error(chunk) is None {
        lemma_parts(p, chunk);
        let head = head_of(p, chunk);
        let tcs = crate::wire::chat::fragments_of(chunk);
        let calls = crate::wire::chat::all_fragment_events(p.started, tcs);
        let dones = p.endings(chunk);
        let usage = crate::wire::chat::usage_events(chunk);
        lemma_fragments_create_nothing(p.started, tcs);
        let n1 = head.len() as int;
        let n2 = n1 + calls.len();
        let n3 = n2 + dones.len();
        assert forall|k: int| 0 <= k < evs.len() && (#[trigger] evs[k]) is Created implies k == 0
            && !p.created by {
            if k < n1 {
                assert(evs[k] == head[k]);
            } else if k < n2 {
                assert(evs[k] == calls[k - n1]);
            } else if k < n3 {
                assert(evs[k] == dones[k - n2]);
            } else {
                assert(evs[k] == usage[k - n3]);
            }
        }
        if !p.created {
            assert(evs[0] == head[0]);
        }
    }
}

/// A piece of a call and its end come after the call's start.
proof fn lemma_chunk_order(p: ParserView, chunk: Json, k: int, index: u32)
    requires
        crate::wire::chat::strictly_ascending(p.started),
        0 <= k < p.events(chunk).len(),
        continues(p.events(chunk)[k], index),
    ensures
        p.started.contains(index) || after_its_start(p.events(chunk), k, index),
{
    let evs = p.events(chunk);
    if crate::wire::chat::chunk_error(chunk) is None {
        lemma_parts(p, chunk);
        let head = head_of(p, chunk);
        let tcs = crate::wire::chat::fragments_of(chunk);
        let calls = crate::wire::chat::all_fragment_events(p.started, tcs);
        let dones = p.endings(chunk);
        let usage = crate::wire::chat::usage_events(chunk);
        let n1 = head.len() as int;
        let n2 = n1 + calls.len();
        let n3 = n2 + dones.len();
        lemma_fragments_create_nothing(p.started, tcs);
        if k < n1 {
            assert(evs[k] == head[k]);
        } else if k < n2 {
            assert(evs[k] == calls[k - n1]);
            assert(calls[k - n1] is ToolCallArgsDelta);
            crate::wire::chat::arguments_follow_their_start(p.started, tcs, k - n1);
            if !p.started.contains(index) {
                let i = choose|i: int|
                    0 <= i < k - n1 && crate::wire::chat::starts(#[trigger] calls[i], index);
                assert(evs[n1 + i] == calls[i]);
            }
        } else if k < n3 {
            assert(evs[k] == dones[k - n2]);
            let known = p.after(chunk).started;
            assert(known[k - n2] == index);
            assert(known.contains(index));
            crate::wire::chat::lemma_known_was_started(p.started, tcs, index);
            if !p.started.contains(index) {
                let i = choose|i: int|
                    0 <= i < calls.len() && crate::wire::chat::starts(#[trigger] calls[i], index);
                assert(evs[n1 + i] == calls[i]);
            }
        } else {
            assert(evs[k] == usage[k - n3]);
        }
    }
}

/// The calls that are known after a chunk were known before it, or are started by it.
proof fn lemma_chunk_starts(p: ParserView, chunk: Json, index: u32)
    requires
        crate::wire::chat::strictly_ascending(p.started),
        p.after(chunk).started.contains(index),
    ensures
        p.started.contains(index) || after_its_start(
            p.events(chunk),
            p.events(chunk).len() as int,
            index,
        ),
{
    let evs = p.events(chunk);
    if crate::wire::chat::chunk_error(chunk) is None {
        lemma_parts(p, chunk);
        let head = head_of(p, chunk);
        let tcs = crate::wire::chat::fragments_of(chunk);
        let calls = crate::wire::chat::all_fragment_events(p.started, tcs);
        crate::wire::chat::lemma_known_was_started(p.started, tcs, index);
        if !p.started.contains(index) {
            let i = choose|i: int|
                0 <= i < calls.len() && crate::wire::chat::starts(#[trigger] calls[i], index);
            assert(evs[head.len() + i] == calls[i]);
        }
    }
}

proof fn lemma_run(response_id: Seq<char>, chunks: Seq<Json>)
    ensures
        ({
            let p = after_all(new_parser(response_id), chunks);
            let evs = all_events(new_parser(response_id), chunks);
            &&& p.response_id == response_id
            &&& p.created == !all_failed(chunks)
            &&& crate::wire::chat::strictly_ascending(p.started)
            &&& crate::wire::chat::distinct_starts(evs)
            &&& crate::wire::chat::starts_within(evs, p.started)
            &&& forall|index: u32| #[trigger]
                p.started.contains(index) ==> after_its_start(evs, evs.len() as int, index)
            &&& forall|k: int, index: u32|
                0 <= k < evs.len() && #[trigger] continues(evs[k], index) ==> after_its_start(
                    evs,
                    k,
                    index,
                )
        }),
    decreases chunks.len(),
{
    let s = new_parser(response_id);
    if chunks.len() > 0 {
        let init = chunks.drop_last();
        let chunk = chunks.last();
        assert(chunk == chunks[chunks.len() - 1]);
        lemma_run(response_id, init);
        let mid = after_all(s, init);
        let p = after_all(s, chunks);
        let a = all_events(s, init);
        let b = mid.events(chunk);
        let all = all_events(s, chunks);
        crate::wire::chat::calls_start_once(mid, chunk);
        crate::wire::chat::tool_calls_stay_ascending(mid, chunk);
        assert(all_failed(chunks) <==> all_failed(init)
            && crate::wire::chat::chunk_error(chunk) is Some) by {
            if all_failed(init) && crate::wire::chat::chunk_error(chunk) is Some {
                assert forall|i: int| 0 <= i < chunks.len() implies crate::wire::chat::chunk_error(
                    #[trigger] chunks[i],
                ) is Some by {
                    if i < init.len() {
                        assert(chunks[i] == init[i]);
                    }
                }
            }
            if all_failed(chunks) {
                assert forall|i: int| 0 <= i < init.len() implies crate::wire::chat::chunk_error(
                    #[trigger] init[i],
                ) is Some by {
                    assert(chunks[i] == init[i]);
                }
            }
        }
        assert forall|index: u32| mid.started.contains(index) implies p.started.contains(index) by {
            lemma_started_stays(mid, chunk, index);
        }
        assert forall|i: int| 0 <= i < all.len() && (#[trigger] all[i])
            is ToolCallStart implies p.started.contains(all[i]->ToolCallStart_index) by {
            if i < a.len() {
                assert(all[i] == a[i]);
                assert(mid.started.contains(a[i]->ToolCallStart_index));
            } else {
                assert(all[i] == b[i - a.len()]);
            }
        }
        assert forall|i: int, j: int| 0 <= i < j < all.len() implies !crate::wire::chat::same_start(
            #[trigger] all[i],
            #[trigger] all[j],
        ) by {
            if j < a.len() {
                assert(all[i] == a[i] && all[j] == a[j]);
            } else if i < a.len() {
                assert(all[i] == a[i] && all[j] == b[j - a.len()]);
                if a[i] is ToolCallStart {
                    assert(mid.started.contains(a[i]->ToolCallStart_index));
                }
            } else {
                assert(all[i] == b[i - a.len()] && all[j] == b[j - a.len()]);
            }
        }
        assert forall|index: u32| #[trigger] p.started.contains(index) implies after_its_start(
            all,
            all.len() as int,
            index,
        ) by {
            lemma_chunk_starts(mid, chunk, index);
            if mid.started.contains(index) {
                lemma_earlier_start(a, b, a.len() as int, index);
            } else {
                lemma_later_start(a, b, b.len() as int, index);
            }
        }
        assert forall|k: int, index: u32|
            0 <= k < all.len() && #[trigger] continues(all[k], index) implies after_its_start(
            all,
            k,
            index,
        ) by {
            if k < a.len() {
                assert(all[k] == a[k]);
                assert(continues(a[k], index));
                lemma_earlier_start(a, b, k, index);
            } else {
                assert(all[k] == b[k - a.len()]);
                lemma_chunk_order(mid, chunk, k - a.len(), index);
                if mid.started.contains(index) {
                    lemma_earlier_start(a, b, a.len() as int, index);
                } else {
                    lemma_later_start(a, b, k - a.len(), index);
                }
            }
        }
    } else {
        assert(all_failed(chunks));
    }
}

proof fn lemma_earlier_start(a: Seq<EventView>, b: Seq<EventView>, k: int, index: u32)
    requires
        k <= a.len(),
        after_its_start(a, k, index),
    ensures
        forall|n: int| k <= n ==> #[trigger] after_its_start(a + b, n, index),
{
    let i = choose|i: int| 0 <= i < k && crate::wire::chat::starts(#[trigger] a[i], index);
    assert((a + b)[i] == a[i]);
}

proof fn lemma_later_start(a: Seq<EventView>, b: Seq<EventView>, k: int, index: u32)
    requires
        k <= b.len(),
        after_its_start(b, k, index),
    ensures
        after_its_start(a + b, a.len() + k, index),
{
    let i = choose|i: int| 0 <= i < k && crate::wire::chat::starts(#[trigger] b[i], index);
    assert((a + b)[a.len() + i] == b[i]);
}

proof fn lemma_started_stays(p: ParserView, chunk: Json, index: u32)
    requires
        crate::wire::chat::strictly_ascending(p.started),
        p.started.contains(index),
    ensures
        p.after(chunk).started.contains(index),
{
    if crate::wire::chat::chunk_error(chunk) is None {
        crate::wire::chat::lemma_started_stay(
            p.started,
            crate::wire::chat::fragments_of(chunk),
            index,
        );
    }
}

/// Whatever chunks an upstream sends: a chunk that reports an error gives that error and
/// nothing else, and no other chunk gives one. The creation of the answer is the first
/// event of the first chunk that reports no error, with the parser's identifier and that
/// chunk's model, and comes nowhere else. No tool call is started twice, and the pieces and
/// the end of a call come after its start.
pub proof fn chunks_are_read_in_order(response_id: Seq<char>, chunks: Seq<Json>)
    ensures
        forall|i: int|
            0 <= i < chunks.len() ==> {
                let evs = after_all(new_parser(response_id), chunks.take(i)).events(
                    #[trigger] chunks[i],
                );
                match crate::wire::chat::chunk_error(chunks[i]) {
                    Some(e) => e is Error && evs == seq![e],
                    None => {
                        &&& forall|k: int| 0 <= k < evs.len() ==> !((#[trigger] evs[k]) is Error)
                        &&& all_failed(chunks.take(i)) ==> evs.len() > 0 && evs[0] == (
                        EventView::Created {
                            response_id,
                            model: chunks[i].str_or_empty("model"@),
                        })
                        &&& forall|k: int|
                            0 <= k < evs.len() && (#[trigger] evs[k]) is Created ==> k == 0
                                && all_failed(chunks.take(i))
                    },
                }
            },
        crate::wire::chat::distinct_starts(all_events(new_parser(response_id), chunks)),
        forall|k: int, index: u32|
            0 <= k < all_events(new_parser(response_id), chunks).len() && #[trigger] continues(
                all_events(new_parser(response_id), chunks)[k],
                index,
            ) ==> after_its_start(all_events(new_parser(response_id), chunks), k, index),
{
    lemma_run(response_id, chunks);
    assert forall|i: int| 0 <= i < chunks.len() implies {
        let evs = after_all(new_parser(response_id), chunks.take(i)).events(#[trigger] chunks[i]);
        match crate::wire::chat::chunk_error(chunks[i]) {
            Some(e) => e is Error && evs == seq![e],
            None => {
                &&& forall|k: int| 0 <= k < evs.len() ==> !((#[trigger] evs[k]) is Error)
                &&& all_failed(chunks.take(i)) ==> evs.len() > 0 && evs[0] == (EventView::Created {
                    response_id,
                    model: chunks[i].str_or_empty("model"@),
                })
                &&& forall|k: int|
                    0 <= k < evs.len() && (#[trigger] evs[k]) is Created ==> k == 0 && all_failed(
                        chunks.take(i),
                    )
            },
        }
    } by {
        let p = after_all(new_parser(response_id), chunks.take(i));
        lemma_run(response_id, chunks.take(i));
        lemma_chunk_creation(p, chunks[i]);
        crate::wire::chat::chunks_end_only_in_errors(p, chunks[i]);
    }
}

/// Whether a chunk says at once what the whole answer `resp` says: the same model and
/// usage, and as its only piece the answer's message, whose tool calls it numbers from zero
/// on.
pub open spec fn restates(chunk: Json, resp: Json) -> bool {
    &&& chunk.get("error"@) == resp.get("error"@)
    &&& chunk.get("model"@) == resp.get("model"@)
    &&& chunk.get("usage"@) == resp.get("usage"@)
    &&& crate::wire::chat::finishes(chunk)
    &&& match (crate::wire::chat::first_choice(resp), crate::wire::chat::first_choice(chunk)) {
        (Some(whole), Some(piece)) => match (whole.get("message"@), piece.get("delta"@)) {
            (Some(m), Some(d)) => {
                &&& d.get("reasoning_content"@) == m.get("reasoning_content"@)
                &&& d.get("reasoning"@) == m.get("reasoning"@)
                &&& d.get("content"@) == m.get("content"@)
                &&& numbers(
                    crate::wire::items_of(d.get("tool_calls"@)),
                    crate::wire::items_of(m.get("tool_calls"@)),
                )
            },
            _ => false,
        },
        _ => false,
    }
}

/// Whether the fragments are the calls, numbered from zero on.
pub open spec fn numbers(fragments: Seq<Json>, calls: Seq<Json>) -> bool {
    &&& fragments.len() == calls.len()
    &&& forall|i: int|
        0 <= i < calls.len() ==> (#[trigger] fragments[i]).get_u64("index"@) == Some(i as u64)
            && fragments[i].get("id"@) == calls[i].get("id"@) && fragments[i].get("function"@)
            == calls[i].get("function"@)
}

/// Whether the event is other than the end of a call.
pub open spec fn ends_no_call(ev: EventView) -> bool {
    !(ev is ToolCallDone)
}

/// The first `n` indices.
spec fn indices(n: nat) -> Seq<u32> {
    Seq::new(n, |i: int| i as u32)
}

/// The events without the ends of calls.
pub open spec fn without_dones(evs: Seq<EventView>) -> Seq<EventView> {
    evs.filter(|ev: EventView| ends_no_call(ev))
}

proof fn lemma_keeps_all(evs: Seq<EventView>)
    requires
        forall|i: int| 0 <= i < evs.len() ==> ends_no_call(#[trigger] evs[i]),
    ensures
        without_dones(evs) == evs,
    decreases evs.len(),
{
    reveal(Seq::filter);
    if evs.len() > 0 {
        let init = evs.drop_last();
        assert forall|i: int| 0 <= i < init.len() implies ends_no_call(#[trigger] init[i]) by {
            assert(init[i] == evs[i]);
        }
        lemma_keeps_all(init);
        assert(evs.last() == evs[evs.len() - 1]);
        assert(init.push(evs.last()) =~= evs);
    }
}

proof fn lemma_keeps_none(evs: Seq<EventView>)
    requires
        forall|i: int| 0 <= i < evs.len() ==> (#[trigger] evs[i]) is ToolCallDone,
    ensures
        without_dones(evs) == Seq::<EventView>::empty(),
    decreases evs.len(),
{
    reveal(Seq::filter);
    if evs.len() > 0 {
        let init = evs.drop_last();
        assert forall|i: int| 0 <= i < init.len() implies (#[trigger] init[i]) is ToolCallDone by {
            assert(init[i] == evs[i]);
        }
        lemma_keeps_none(init);
        assert(evs.last() == evs[evs.len() - 1]);
    }
}

/// Calls that come whole, and the same calls as numbered fragments.
proof fn lemma_calls_both_ways(fragments: Seq<Json>, calls: Seq<Json>)
    requires
        numbers(fragments, calls),
        calls.len() <= 0x1_0000_0000,
    ensures
        ({
            let none = Seq::<u32>::empty();
            let whole = crate::wire::chat::whole_calls_events(calls);
            let pieces = crate::wire::chat::all_fragment_events(none, fragments);
            let dones = indices(calls.len()).map_values(
                |i: u32| EventView::ToolCallDone { index: i },
            );
            &&& crate::wire::chat::all_started(none, fragments) == indices(calls.len())
            &&& without_dones(whole) == pieces
            &&& whole.to_multiset() == pieces.to_multiset().add(dones.to_multiset())
        }),
    decreases calls.len(),
{
    broadcast use vstd::multiset::group_multiset_axioms;

    let none = Seq::<u32>::empty();
    let keep = |ev: EventView| ends_no_call(ev);
    let f = |i: u32| EventView::ToolCallDone { index: i };
    let whole = crate::wire::chat::whole_calls_events(calls);
    let pieces = crate::wire::chat::all_fragment_events(none, fragments);
    let dones = indices(calls.len()).map_values(f);
    if calls.len() == 0 {
        assert(indices(0) =~= none);
        assert(dones =~= Seq::empty());
        lemma_keeps_all(whole);
        assert(pieces.to_multiset().add(dones.to_multiset()) =~= whole.to_multiset()) by {
            lemma_multiset_commutative(pieces, dones);
            assert(pieces + dones =~= whole);
        }
    } else {
        let n = calls.len() - 1;
        let c = calls.drop_last();
        let g = fragments.drop_last();
        assert forall|i: int| 0 <= i < c.len() implies (#[trigger] g[i]).get_u64("index"@) == Some(
            i as u64,
        ) && g[i].get("id"@) == c[i].get("id"@) && g[i].get("function"@) == c[i].get(
            "function"@,
        ) by {
            assert(g[i] == fragments[i] && c[i] == calls[i]);
        }
        lemma_calls_both_ways(g, c);
        let w = crate::wire::chat::whole_calls_events(c);
        let q = crate::wire::chat::all_fragment_events(none, g);
        let d = indices(c.len()).map_values(f);
        let index = n as u32;
        assert(fragments[n].get_u64("index"@) == Some(n as u64));
        assert(crate::wire::chat::fragment_index(fragments.last()) == index);
        let known = indices(c.len());
        assert(!known.contains(index));
        assert(crate::wire::chat::add_ascending(known, index) =~= indices(calls.len())) by {
            if known.len() > 0 {
                assert(known.last() == (n - 1) as u32);
            }
        }
        let tc = calls.last();
        let one = crate::wire::chat::fragment_events(known, fragments.last());
        let end = EventView::ToolCallDone { index };
        assert(fragments.last().get("function"@) == tc.get("function"@));
        assert(fragments.last().get("id"@) == tc.get("id"@));
        assert(crate::wire::chat::whole_call_events(index, tc) =~= one + seq![end]);
        assert(whole =~= w + (one + seq![end]));
        assert(pieces =~= q + one);
        assert(dones =~= d + seq![end]);
        lemma_keeps_all(one);
        lemma_keeps_none(seq![end]);
        Seq::filter_distributes_over_add(w, one + seq![end], keep);
        Seq::filter_distributes_over_add(one, seq![end], keep);
        assert(one + Seq::<EventView>::empty() =~= one);
        lemma_multiset_commutative(w, one + seq![end]);
        lemma_multiset_commutative(one, seq![end]);
        lemma_multiset_commutative(q, one);
        lemma_multiset_commutative(d, seq![end]);
        assert(whole.to_multiset() =~= pieces.to_multiset().add(dones.to_multiset()));
    }
}

/// The ends of calls `d` may come among the other events or behind them.
proof fn lemma_shuffled(
    head: Seq<EventView>,
    a: Seq<EventView>,
    b: Seq<EventView>,
    d: Seq<EventView>,
    tail: Seq<EventView>,
)
    requires
        without_dones(a) == b,
        a.to_multiset() == b.to_multiset().add(d.to_multiset()),
        forall|i: int| 0 <= i < b.len() ==> !((#[trigger] b[i]) is ToolCallDone),
        forall|i: int| 0 <= i < d.len() ==> (#[trigger] d[i]) is ToolCallDone,
    ensures
        (head + (a + tail)).to_multiset() == (head + (b + d + tail)).to_multiset(),
        without_dones(head + (a + tail)) == without_dones(head + (b + d + tail)),
{
    let keep = |ev: EventView| ends_no_call(ev);
    lemma_multiset_commutative(head, a + tail);
    lemma_multiset_commutative(a, tail);
    lemma_multiset_commutative(head, b + d + tail);
    lemma_multiset_commutative(b + d, tail);
    lemma_multiset_commutative(b, d);
    Seq::filter_distributes_over_add(head, a + tail, keep);
    Seq::filter_distributes_over_add(a, tail, keep);
    Seq::filter_distributes_over_add(head, b + d + tail, keep);
    Seq::filter_distributes_over_add(b + d, tail, keep);
    Seq::filter_distributes_over_add(b, d, keep);
    assert forall|i: int| 0 <= i < b.len() implies ends_no_call(#[trigger] b[i]) by {}
    lemma_keeps_all(b);
    lemma_keeps_none(d);
    assert(b + Seq::<EventView>::empty() =~= b);
}

proof fn lemma_whole_shape(resp: Json, response_id: Seq<char>, m: Json)
    requires
        crate::wire::chat::first_choice(resp) matches Some(c) && c.get("message"@) == Some(m),
    ensures
        crate::wire::chat::completion_events(resp, response_id) == (seq![
            EventView::Created { response_id, model: resp.str_or_empty("model"@) },
        ] + crate::wire::chat::text_events(m)) + (crate::wire::chat::whole_calls_events(
            crate::wire::items_of(m.get("tool_calls"@)),
        ) + (crate::wire::chat::usage_events(resp) + seq![EventView::Completed])),
{
    let a = seq![EventView::Created { response_id, model: resp.str_or_empty("model"@) }];
    let b = crate::wire::chat::text_events(m);
    let c = crate::wire::chat::whole_calls_events(crate::wire::items_of(m.get("tool_calls"@)));
    let d = crate::wire::chat::usage_events(resp);
    lemma_grouped(a, b, c, d, seq![EventView::Completed]);
}

proof fn lemma_grouped(
    a: Seq<EventView>,
    b: Seq<EventView>,
    c: Seq<EventView>,
    d: Seq<EventView>,
    e: Seq<EventView>,
)
    ensures
        a + (b + c) + d + e == (a + b) + (c + (d + e)),
{
    assert(a + (b + c) + d + e =~= (a + b) + (c + (d + e)));
}

proof fn lemma_regroup(
    a: Seq<EventView>,
    b: Seq<EventView>,
    c: Seq<EventView>,
    d: Seq<EventView>,
    e: EventView,
)
    ensures
        (a + b + c + d).push(e) == a + (b + c + (d + seq![e])),
{
    assert((a + b + c + d).push(e) =~= a + (b + c + (d + seq![e])));
}

/// A whole answer and a stream that says it in one chunk give the same events, each as
/// often, and in the same order but for the ends of tool calls: a whole answer ends each
/// call at once, and a stream ends all of them together.
pub proof fn whole_answers_and_streams_agree(chunk: Json, resp: Json, response_id: Seq<char>)
    requires
        restates(chunk, resp),
        crate::wire::chat::chunk_error(resp) is None,
        crate::wire::chat::fragments_of(chunk).len() <= 0x1_0000_0000,
    ensures
        ({
            let whole = crate::wire::chat::completion_events(resp, response_id);
            let stream = new_parser(response_id).events(chunk).push(EventView::Completed);
            &&& whole.to_multiset() == stream.to_multiset()
            &&& without_dones(whole) == without_dones(stream)
        }),
{
    let p = new_parser(response_id);
    let m = crate::wire::chat::first_choice(resp)->0.get("message"@)->0;
    let delta = crate::wire::chat::first_choice(chunk)->0.get("delta"@)->0;
    let calls = crate::wire::items_of(m.get("tool_calls"@));
    let fragments = crate::wire::chat::fragments_of(chunk);
    let created = seq![
        EventView::Created { response_id, model: resp.str_or_empty("model"@) },
    ];
    let head = created + crate::wire::chat::text_events(m);
    let a = crate::wire::chat::whole_calls_events(calls);
    let b = crate::wire::chat::all_fragment_events(p.started, fragments);
    let d = p.endings(chunk);
    let usage = crate::wire::chat::usage_events(resp);
    let tail = usage + seq![EventView::Completed];
    lemma_parts(p, chunk);
    assert(crate::wire::chat::text_events(delta) == crate::wire::chat::text_events(m));
    assert(head_of(p, chunk) == head);
    lemma_calls_both_ways(fragments, calls);
    lemma_fragments_create_nothing(p.started, fragments);
    lemma_shuffled(head, a, b, d, tail);
    lemma_whole_shape(resp, response_id, m);
    lemma_regroup(head, b, d, usage, EventView::Completed);
}

} // verus!
