//! What holds of every stream that is read and translated.

use vstd::prelude::*;

use crate::canonical::EventView;
use crate::json::Json;
use crate::sse::ItemView;
use crate::stream::ReaderView;
use crate::wire::anthropic::AnthropicView;
use crate::wire::ledger::Ledger;
use crate::wire::responses::ResponsesView;

verus! {

/// The state after some chunks of bytes, read one after the other.
pub open spec fn after_chunks(s: ReaderView, chunks: Seq<Seq<u8>>) -> ReaderView
    decreases chunks.len(),
{
    if chunks.len() == 0 {
        s
    } else {
        after_chunks(s, chunks.drop_last()).after_bytes(chunks.last())
    }
}

/// The events of some chunks of bytes, read one after the other.
pub open spec fn chunks_events(s: ReaderView, chunks: Seq<Seq<u8>>) -> Seq<EventView>
    decreases chunks.len(),
{
    if chunks.len() == 0 {
        Seq::empty()
    } else {
        chunks_events(s, chunks.drop_last()) + after_chunks(s, chunks.drop_last()).bytes_events(
            chunks.last(),
        )
    }
}

proof fn lemma_items_in_two_parts(s: ReaderView, a: Seq<ItemView>, b: Seq<ItemView>)
    ensures
        s.after_items(a + b) == s.after_items(a).after_items(b),
        s.items_events(a + b) == s.items_events(a) + s.after_items(a).items_events(b),
    decreases b.len(),
{
    if b.len() == 0 {
        assert(a + b =~= a);
        assert(s.items_events(a) + Seq::<EventView>::empty() =~= s.items_events(a));
    } else {
        let c = b.drop_last();
        lemma_items_in_two_parts(s, a, c);
        assert((a + b).drop_last() =~= a + c);
        assert((a + b).last() == b.last());
        let mid = s.after_items(a);
        assert(s.items_events(a) + mid.items_events(c) + mid.after_items(c).item_events(b.last())
            =~= s.items_events(a) + (mid.items_events(c) + mid.after_items(c).item_events(
            b.last(),
        )));
    }
}

proof fn lemma_ended_stays(s: ReaderView, items: Seq<ItemView>)
    requires
        s.ended,
    ensures
        s.after_items(items) == s,
        s.items_events(items).len() == 0,
    decreases items.len(),
{
    if items.len() > 0 {
        lemma_ended_stays(s, items.drop_last());
    }
}

/// However the upstream's bytes are cut into chunks, even in the middle of a character,
/// the events are the same, and so are the costs and the token counts taken down.
pub proof fn chunking_does_not_matter(response_id: Seq<char>, track: bool, chunks: Seq<Seq<u8>>)
    ensures
        ({
            let s = ReaderView::initial(response_id, track);
            let whole = s.after_bytes(crate::sse::joined(chunks));
            let cut = after_chunks(s, chunks);
            &&& chunks_events(s, chunks) == s.bytes_events(crate::sse::joined(chunks))
            &&& cut.holding(Seq::empty()) == whole.holding(Seq::empty())
            &&& !cut.ended ==> cut == whole
        }),
    decreases chunks.len(),
{
    let s = ReaderView::initial(response_id, track);
    let all = crate::sse::joined(chunks);
    assert(s.waiting + all =~= all);
    if chunks.len() == 0 {
        crate::sse::lemma_block_end(all, 0);
        assert(s.holding(crate::sse::left_over(all)) == s);
    } else {
        let init = chunks.drop_last();
        let head = crate::sse::joined(init);
        let last = chunks.last();
        chunking_does_not_matter(response_id, track, init);
        crate::sse::cuts_do_not_matter(head, last);
        assert(s.waiting + head =~= head);
        let mid = after_chunks(s, init);
        let items1 = crate::sse::items_in(head);
        let w1 = crate::sse::left_over(head);
        let w2 = crate::sse::left_over(all);
        let items2 = crate::sse::items_in(w1 + last);
        crate::stream::lemma_waiting_is_not_read(s, items1, w1);
        crate::stream::lemma_waiting_is_not_read(s, items1 + items2, w2);
        lemma_items_in_two_parts(s, items1, items2);
        let plain = s.after_items(items1);
        assert(s.bytes_events(head) == s.items_events(items1));
        if mid.ended {
            lemma_ended_stays(plain, items2);
            assert(chunks_events(s, chunks) =~= s.bytes_events(all));
        } else {
            assert(mid == plain.holding(w1));
            crate::stream::lemma_waiting_is_not_read(plain, items2, w1);
            crate::stream::lemma_waiting_is_not_read(plain, items2, w2);
            assert(mid.holding(w2) == plain.holding(w2));
        }
    }
}

/// Whether exactly the last of the events brings the answer to an end.
pub open spec fn ends_once(evs: Seq<EventView>) -> bool {
    &&& evs.len() > 0
    &&& crate::stream::terminal(evs.last())
    &&& forall|i: int| 0 <= i < evs.len() - 1 ==> !crate::stream::terminal(#[trigger] evs[i])
}

/// Whether no event brings the answer to an end.
pub open spec fn goes_on(evs: Seq<EventView>) -> bool {
    forall|i: int| 0 <= i < evs.len() ==> !crate::stream::terminal(#[trigger] evs[i])
}

proof fn lemma_up_to_error_whole(evs: Seq<EventView>)
    requires
        !crate::stream::has_error(evs),
    ensures
        crate::stream::up_to_error(evs) == evs,
    decreases evs.len(),
{
    if evs.len() > 0 {
        let rest = evs.skip(1);
        assert(!(evs[0] is Error));
        assert(!crate::stream::has_error(rest)) by {
            if crate::stream::has_error(rest) {
                let i = choose|i: int| 0 <= i < rest.len() && (#[trigger] rest[i]) is Error;
                assert(evs[i + 1] is Error);
            }
        }
        lemma_up_to_error_whole(rest);
        assert(seq![evs[0]] + rest =~= evs);
    }
}

/// The events of a chunk that are passed on are all of them.
proof fn lemma_chunk_passed_on(s: ReaderView, chunk: Json)
    ensures
        crate::stream::up_to_error(s.parser.events(chunk)) == s.parser.events(chunk),
        crate::stream::has_error(s.parser.events(chunk)) == (crate::wire::chat::chunk_error(
            chunk,
        ) is Some),
        crate::wire::chat::chunk_error(chunk) is Some ==> ends_once(s.parser.events(chunk)),
        crate::wire::chat::chunk_error(chunk) is None ==> goes_on(s.parser.events(chunk)),
{
    let evs = s.parser.events(chunk);
    crate::wire::chat::chunks_end_only_in_errors(s.parser, chunk);
    match crate::wire::chat::chunk_error(chunk) {
        Some(e) => {
            assert(evs[0] is Error);
            assert(evs =~= seq![evs[0]]);
        },
        None => {
            if crate::stream::has_error(evs) {
                let i = choose|i: int| 0 <= i < evs.len() && (#[trigger] evs[i]) is Error;
                assert(!(evs[i] is Error));
            }
            lemma_up_to_error_whole(evs);
        },
    }
}

/// Whether the answer is over: what is still read is read for its cost alone.
pub open spec fn over(s: ReaderView) -> bool {
    s.ended || s.done
}

proof fn lemma_items_end_once(response_id: Seq<char>, track: bool, items: Seq<ItemView>)
    ensures
        ({
            let s = ReaderView::initial(response_id, track);
            let t = s.after_items(items);
            &&& t.completed == over(t)
            &&& if over(t) {
                ends_once(s.items_events(items))
            } else {
                goes_on(s.items_events(items))
            }
        }),
    decreases items.len(),
{
    let s = ReaderView::initial(response_id, track);
    if items.len() > 0 {
        let init = items.drop_last();
        lemma_items_end_once(response_id, track, init);
        let mid = s.after_items(init);
        let before = s.items_events(init);
        let more = mid.item_events(items.last());
        let all = s.items_events(items);
        if over(mid) {
            assert(all =~= before);
        } else {
            match items.last() {
                ItemView::Done => {
                    assert(all.last() == more[0]);
                    assert forall|i: int| 0 <= i < all.len() - 1 implies !crate::stream::terminal(
                        #[trigger] all[i],
                    ) by {
                        assert(all[i] == before[i]);
                    }
                },
                ItemView::Data(d) => {
                    match crate::json::json_parse(d) {
                        None => {
                            assert(all =~= before);
                        },
                        Some(chunk) => {
                            lemma_chunk_passed_on(mid, chunk);
                            assert forall|i: int|
                                0 <= i < all.len() implies #[trigger] all[i] == (if i
                                < before.len() {
                                before[i]
                            } else {
                                more[i - before.len()]
                            }) by {}
                        },
                    }
                },
            }
        }
    }
}

/// A stream comes to exactly one end, which is the last thing that is said: the completion
/// or an error, however the upstream's bytes are cut, whether they run out or the
/// connection breaks, and whether or not the usage is tracked.
pub proof fn streams_end_once(
    response_id: Seq<char>,
    track: bool,
    chunks: Seq<Seq<u8>>,
    failure: Option<Seq<char>>,
)
    ensures
        ({
            let s = ReaderView::initial(response_id, track);
            let t = after_chunks(s, chunks);
            ends_once(
                chunks_events(s, chunks) + match failure {
                    Some(message) => t.failure_events(message)
                        + t.after_failure().finish_events(),
                    None => t.finish_events(),
                },
            )
        }),
{
    let s = ReaderView::initial(response_id, track);
    let t = after_chunks(s, chunks);
    let all = crate::sse::joined(chunks);
    chunking_does_not_matter(response_id, track, chunks);
    assert(s.waiting + all =~= all);
    let items = crate::sse::items_in(all);
    lemma_items_end_once(response_id, track, items);
    crate::stream::lemma_waiting_is_not_read(s, items, crate::sse::left_over(all));
    let plain = s.after_items(items);
    assert(t.holding(Seq::empty()) == plain.holding(Seq::empty()));
    assert(over(t) == over(plain) && t.completed == plain.completed);
    let evs = chunks_events(s, chunks);
    let end = match failure {
        Some(message) => t.failure_events(message) + t.after_failure().finish_events(),
        None => t.finish_events(),
    };
    let full = evs + end;
    if over(t) {
        assert(end.len() == 0);
        assert(full =~= evs);
    } else {
        assert(end.len() == 1 && crate::stream::terminal(end[0]));
        assert(full.last() == end[0]);
        assert forall|i: int| 0 <= i < full.len() - 1 implies !crate::stream::terminal(
            #[trigger] full[i],
        ) by {
            assert(full[i] == evs[i]);
        }
    }
}

/// Tracking the usage of a stream changes nothing of what is said: the events are the
/// same as without tracking. What follows the end marker is read for its cost alone.
pub proof fn tracking_is_not_heard(response_id: Seq<char>, items: Seq<ItemView>)
    ensures
        ({
            let a = ReaderView::initial(response_id, true);
            let b = ReaderView::initial(response_id, false);
            &&& a.items_events(items) == b.items_events(items)
            &&& a.after_items(items).finish_events() == b.after_items(items).finish_events()
            &&& over(a.after_items(items)) == over(b.after_items(items))
        }),
{
    lemma_tracking(response_id, items);
}

proof fn lemma_tracking(response_id: Seq<char>, items: Seq<ItemView>)
    ensures
        ({
            let a = ReaderView::initial(response_id, true).after_items(items);
            let b = ReaderView::initial(response_id, false).after_items(items);
            &&& ReaderView::initial(response_id, true).items_events(items) == ReaderView::initial(
                response_id,
                false,
            ).items_events(items)
            &&& a.track && !b.track && !b.done
            &&& b.ended == over(a)
            &&& a.done ==> a.completed
            &&& a.completed == b.completed
            &&& a.parser == b.parser
        }),
    decreases items.len(),
{
    if items.len() > 0 {
        lemma_tracking(response_id, items.drop_last());
    }
}

/// Without tracking nothing is taken down.
pub proof fn untracked_streams_keep_no_accounts(response_id: Seq<char>, items: Seq<ItemView>)
    ensures
        ({
            let t = ReaderView::initial(response_id, false).after_items(items);
            t.costs.len() == 0 && t.prompt_tokens is None && t.completion_tokens is None
                && !t.track
        }),
    decreases items.len(),
{
    if items.len() > 0 {
        untracked_streams_keep_no_accounts(response_id, items.drop_last());
    }
}

/// The calls that a stream starts: each once, and all of them known to its reader.
proof fn lemma_starts(response_id: Seq<char>, track: bool, items: Seq<ItemView>)
    ensures
        ({
            let s = ReaderView::initial(response_id, track);
            let t = s.after_items(items);
            &&& crate::wire::chat::strictly_ascending(t.parser.started)
            &&& crate::wire::chat::distinct_starts(s.items_events(items))
            &&& crate::wire::chat::starts_within(s.items_events(items), t.parser.started)
        }),
    decreases items.len(),
{
    let s = ReaderView::initial(response_id, track);
    if items.len() > 0 {
        let init = items.drop_last();
        lemma_starts(response_id, track, init);
        let mid = s.after_items(init);
        let a = s.items_events(init);
        let b = mid.item_events(items.last());
        let all = s.items_events(items);
        let known = s.after_items(items).parser.started;
        if mid.ended || items.last() is Done {
            assert(crate::wire::chat::starts_within(b, known));
            assert(crate::wire::chat::starts_outside(b, mid.parser.started));
            assert(crate::wire::chat::distinct_starts(b));
            assert(known == mid.parser.started);
        } else {
            let d = items.last()->Data_0;
            if let Some(chunk) = crate::json::json_parse(d) {
                if !mid.done {
                    lemma_chunk_passed_on(mid, chunk);
                    crate::wire::chat::calls_start_once(mid.parser, chunk);
                    crate::wire::chat::tool_calls_stay_ascending(mid.parser, chunk);
                }
            }
        }
        assert forall|i: int| 0 <= i < all.len() && (#[trigger] all[i])
            is ToolCallStart implies known.contains(all[i]->ToolCallStart_index) by {
            if i < a.len() {
                assert(all[i] == a[i]);
                assert(mid.parser.started.contains(a[i]->ToolCallStart_index));
            } else {
                assert(all[i] == b[i - a.len()]);
            }
        }
        assert forall|i: int, j: int| 0 <= i < j < all.len() implies !crate::wire::chat::same_start(
            #[trigger] all[i],
            #[trigger] all[j],
        ) by {
            if j < a.len() {
                assert(all[i] == a[i] && all[j] == a[j]);
            } else if i < a.len() {
                assert(all[i] == a[i] && all[j] == b[j - a.len()]);
                if a[i] is ToolCallStart {
                    assert(mid.parser.started.contains(a[i]->ToolCallStart_index));
                }
            } else {
                assert(all[i] == b[i - a.len()] && all[j] == b[j - a.len()]);
            }
        }
    }
}

/// The events of a whole stream: those of its chunks, and those of its end.
pub open spec fn stream_events(response_id: Seq<char>, track: bool, chunks: Seq<Seq<u8>>) -> Seq<
    EventView,
> {
    let s = ReaderView::initial(response_id, track);
    chunks_events(s, chunks) + after_chunks(s, chunks).finish_events()
}

/// No stream starts a tool call twice, whatever its upstream sends.
pub proof fn streams_start_calls_once(response_id: Seq<char>, track: bool, chunks: Seq<Seq<u8>>)
    ensures
        crate::wire::chat::distinct_starts(stream_events(response_id, track, chunks)),
{
    let s = ReaderView::initial(response_id, track);
    let all = crate::sse::joined(chunks);
    chunking_does_not_matter(response_id, track, chunks);
    assert(s.waiting + all =~= all);
    lemma_starts(response_id, track, crate::sse::items_in(all));
    let evs = chunks_events(s, chunks);
    let full = stream_events(response_id, track, chunks);
    assert forall|i: int, j: int| 0 <= i < j < full.len() implies !crate::wire::chat::same_start(
        #[trigger] full[i],
        #[trigger] full[j],
    ) by {
        if j < evs.len() {
            assert(full[i] == evs[i] && full[j] == evs[j]);
        }
    }
}

/// A stream that is carried to its completion leaves nothing open, in either dialect,
/// whatever the upstream sends and however its bytes are cut: the output items and the
/// content blocks are opened under consecutive numbers, and each is closed exactly once.
pub proof fn completed_streams_leave_nothing_open(
    response_id: Seq<char>,
    track: bool,
    chunks: Seq<Seq<u8>>,
    ids: Seq<Seq<char>>,
) -> (ledgers: (Ledger, Ledger))
    requires
        stream_events(response_id, track, chunks).len() > 0,
        stream_events(response_id, track, chunks).last() is Completed,
    ensures
        crate::wire::ledger::tallies(
            crate::wire::item_laws::item_marks(),
            crate::wire::responses_laws::run_frames(
                ResponsesView::initial(),
                stream_events(response_id, track, chunks),
                ids,
            ),
            ledgers.0.opens.len() as int,
            Set::empty(),
            ledgers.0,
        ),
        crate::wire::ledger::tallies(
            crate::wire::block_laws::block_marks(),
            crate::wire::anthropic_laws::run(
                AnthropicView::initial(),
                stream_events(response_id, track, chunks),
            ).frames,
            ledgers.1.opens.len() as int,
            Set::empty(),
            ledgers.1,
        ),
{
    let evs = stream_events(response_id, track, chunks);
    streams_start_calls_once(response_id, track, chunks);
    crate::wire::responses_laws::fresh_calls_restart_nothing(evs, ids);
    crate::wire::anthropic_laws::fresh_calls_restart_nothing(evs);
    let items = crate::wire::item_laws::items_open_in_order_and_close_once(evs, ids);
    let blocks = crate::wire::block_laws::blocks_open_in_order_and_close_once(evs);
    (items, blocks)
}

} // verus!
