//! What the chunks and the whole answers of a Chat Completions upstream are read as.

use vstd::prelude::*;

use crate::canonical::EventView;
use crate::json::Json;
use crate::wire::chat::ParserView;

verus! {

/// The member `key` of the first choice of an answer.
pub open spec fn in_choice(j: Json, key: Seq<char>) -> Option<Json> {
    match j.get("choices"@) {
        Some(Json::Arr(a)) => if a.len() > 0 {
            a[0].get(key)
        } else {
            None
        },
        _ => None,
    }
}

/// The string under `key`, or the empty string.
pub open spec fn string_in(d: Option<Json>, key: Seq<char>) -> Seq<char> {
    match d {
        Some(d) => match d.get(key) {
            Some(Json::Str(s)) => s,
            _ => Seq::empty(),
        },
        None => Seq::empty(),
    }
}

/// The reasoning that a message or a piece of one carries: what stands under
/// `reasoning_content`, or, where nothing does, under `reasoning`.
pub open spec fn reasoning_in(d: Option<Json>) -> Seq<char> {
    match d {
        Some(d) => if d.get("reasoning_content"@) is Some {
            string_in(Some(d), "reasoning_content"@)
        } else {
            string_in(Some(d), "reasoning"@)
        },
        None => Seq::empty(),
    }
}

/// The tool calls in a message or a piece of one.
pub open spec fn calls_in(d: Option<Json>) -> Seq<Json> {
    match d {
        Some(d) => match d.get("tool_calls"@) {
            Some(Json::Arr(a)) => a,
            _ => Seq::empty(),
        },
        None => Seq::empty(),
    }
}

/// Whether a chunk reports an error.
pub open spec fn has_failed(chunk: Json) -> bool {
    chunk.get("error"@) matches Some(e) && !(e is Null)
}

/// A chunk that reports an error gives that error alone: with its message, or a general one,
/// and its code, or that of a bad gateway. The parser does not change.
pub proof fn failures_are_read(p: ParserView, chunk: Json)
    requires
        has_failed(chunk),
    ensures
        ({
            let e = chunk.get("error"@)->0;
            &&& p.after(chunk) == p
            &&& p.events(chunk).len() == 1
            &&& p.events(chunk)[0] matches EventView::Error { message, status } && {
                &&& match e.get("message"@) {
                    Some(Json::Str(m)) => message == m,
                    _ => message == "upstream error"@,
                }
                &&& match e.get_u64("code"@) {
                    Some(n) => status == n % 65536,
                    None => status == 502,
                }
            }
        }),
{
}

/// The events that begin an answer: its creation, where it is not created yet, and the
/// reasoning and the text of the piece `d`, where it has them.
pub open spec fn begins_with(
    evs: Seq<EventView>,
    fresh: bool,
    response_id: Seq<char>,
    model: Seq<char>,
    d: Option<Json>,
) -> bool {
    let k: int = if fresh {
        1
    } else {
        0
    };
    let r: int = if reasoning_in(d).len() > 0 {
        1
    } else {
        0
    };
    let c: int = if string_in(d, "content"@).len() > 0 {
        1
    } else {
        0
    };
    &&& evs.len() == k + r + c
    &&& fresh ==> evs[0] == (EventView::Created { response_id, model })
    &&& r == 1 ==> evs[k] == (EventView::ReasoningDelta { text: reasoning_in(d) })
    &&& c == 1 ==> evs[k + r] == (EventView::TextDelta { text: string_in(d, "content"@) })
}

/// Whether the events are the ends of the calls `known`, where there is a reason for the
/// finish, and none otherwise.
pub open spec fn ends_with(evs: Seq<EventView>, reason: Option<Json>, known: Seq<u32>) -> bool {
    if reason matches Some(Json::Str(_)) {
        &&& evs.len() == known.len()
        &&& forall|i: int|
            0 <= i < known.len() ==> #[trigger] evs[i] == (EventView::ToolCallDone {
                index: known[i],
            })
    } else {
        evs.len() == 0
    }
}

/// The thirty-two low bits of a count, or zero.
pub open spec fn cut(v: Option<u64>) -> int {
    match v {
        Some(n) => n as int % 0x1_0000_0000,
        None => 0,
    }
}

/// Whether an event gives the counts of a `usage` object.
pub open spec fn is_usage(ev: EventView, u: Json) -> bool {
    let in_details = match u.get("prompt_tokens_details"@) {
        Some(d) => d.get_u64("cached_tokens"@),
        None => None,
    };
    let reasoning = match u.get("completion_tokens_details"@) {
        Some(d) => d.get_u64("reasoning_tokens"@),
        None => None,
    };
    ev matches EventView::Usage {
        input_tokens,
        output_tokens,
        total_tokens,
        cached_input_tokens,
        reasoning_tokens,
    } && {
        &&& input_tokens == cut(u.get_u64("prompt_tokens"@))
        &&& output_tokens == cut(u.get_u64("completion_tokens"@))
        &&& total_tokens == cut(u.get_u64("total_tokens"@))
        &&& in_details is Some ==> cached_input_tokens == cut(in_details)
        &&& in_details is None ==> cached_input_tokens == cut(
            u.get_u64("prompt_cache_hit_tokens"@),
        )
        &&& reasoning_tokens == cut(reasoning)
    }
}

/// Whether the events are the usage of an answer, where it has one.
pub open spec fn counts(evs: Seq<EventView>, j: Json) -> bool {
    match j.get("usage"@) {
        Some(Json::Null) => evs.len() == 0,
        Some(u) => evs.len() == 1 && is_usage(evs[0], u),
        None => evs.len() == 0,
    }
}

/// The counts of a `usage` object are read from under their names. What was read from a
/// cache stands in the details, or, where it does not, beside them.
pub proof fn counts_are_read(u: Json)
    ensures
        is_usage(crate::wire::chat::parsed_usage(u), u),
{
}

/// A chunk that reports no error gives the creation, once, with its model and the parser's
/// identifier; the reasoning and the text of its first choice; the fragments of its tool
/// calls; the end of all calls so far, where the choice finishes; and its usage.
pub proof fn chunks_are_read(p: ParserView, chunk: Json)
    requires
        !has_failed(chunk),
    ensures
        ({
            let d = in_choice(chunk, "delta"@);
            let a = p.opening(chunk) + crate::wire::chat::said_in(chunk);
            let b = crate::wire::chat::all_fragment_events(p.started, calls_in(d));
            let c = p.endings(chunk);
            let e = crate::wire::chat::usage_events(chunk);
            &&& p.events(chunk) == a + b + c + e
            &&& begins_with(a, !p.created, p.response_id, string_in(Some(chunk), "model"@), d)
            &&& ends_with(
                c,
                in_choice(chunk, "finish_reason"@),
                crate::wire::chat::all_started(p.started, calls_in(d)),
            )
            &&& counts(e, chunk)
            &&& p.after(chunk).created
            &&& p.after(chunk).response_id == p.response_id
            &&& p.created ==> p.after(chunk).model == p.model
            &&& !p.created ==> p.after(chunk).model == string_in(Some(chunk), "model"@)
            &&& p.after(chunk).started == crate::wire::chat::all_started(p.started, calls_in(d))
        }),
{
    let d = in_choice(chunk, "delta"@);
    let a = p.opening(chunk) + crate::wire::chat::said_in(chunk);
    let b = crate::wire::chat::all_fragment_events(p.started, calls_in(d));
    assert(crate::wire::chat::fragments_of(chunk) =~= calls_in(d));
    assert(p.events(chunk) =~= a + b + p.endings(chunk) + crate::wire::chat::usage_events(chunk));
    if let Some(u) = chunk.get("usage"@) {
        counts_are_read(u);
    }
}

/// The index of a fragment.
pub open spec fn index_of(tc: Json) -> int {
    cut(tc.get_u64("index"@))
}

/// A fragment whose index is new starts a call, with its identifier and its function's name;
/// and where it has arguments it gives them as a piece, after that. Fragments are read one
/// after the other.
pub proof fn fragments_are_read(started: Seq<u32>, tcs: Seq<Json>, tc: Json)
    ensures
        crate::wire::chat::all_fragment_events(started, Seq::empty()).len() == 0,
        ({
            let before = crate::wire::chat::all_fragment_events(started, tcs);
            let after = crate::wire::chat::all_fragment_events(started, tcs.push(tc));
            let fresh = !crate::wire::chat::all_started(started, tcs).contains(index_of(tc) as u32);
            let args = string_in(tc.get("function"@), "arguments"@);
            let n = before.len() as int;
            let k: int = if fresh {
                1
            } else {
                0
            };
            &&& after.len() == n + k + if args.len() > 0 {
                1int
            } else {
                0int
            }
            &&& after.take(n) == before
            &&& fresh ==> (after[n] matches EventView::ToolCallStart { index, call_id, name }
                && index == index_of(tc) && call_id == string_in(Some(tc), "id"@) && name
                == string_in(tc.get("function"@), "name"@))
            &&& args.len() > 0 ==> (after[n + k] matches EventView::ToolCallArgsDelta {
                index,
                delta,
            } && index == index_of(tc) && delta == args)
        }),
{
    assert(tcs.push(tc).drop_last() =~= tcs);
    let before = crate::wire::chat::all_fragment_events(started, tcs);
    let after = crate::wire::chat::all_fragment_events(started, tcs.push(tc));
    assert(after.take(before.len() as int) =~= before);
}

proof fn lemma_put_in(s: Seq<u32>, x: u32, y: u32)
    ensures
        crate::wire::chat::add_ascending(s, x).contains(y) <==> s.contains(y) || y == x,
    decreases s.len(),
{
    let t = crate::wire::chat::add_ascending(s, x);
    if s.len() == 0 || s.last() < x {
        assert(t[s.len() as int] == x);
        if s.contains(y) {
            let i = choose|i: int| 0 <= i < s.len() && s[i] == y;
            assert(t[i] == y);
        }
    } else {
        let init = s.drop_last();
        let u = crate::wire::chat::add_ascending(init, x);
        lemma_put_in(init, x, y);
        assert(t[u.len() as int] == s.last());
        assert(s[s.len() - 1] == s.last());
        if u.contains(y) {
            let i = choose|i: int| 0 <= i < u.len() && u[i] == y;
            assert(t[i] == y);
        }
        if init.contains(y) {
            let i = choose|i: int| 0 <= i < init.len() && init[i] == y;
            assert(s[i] == y);
        }
        if s.contains(y) && y != s.last() {
            let i = choose|i: int| 0 <= i < s.len() && s[i] == y;
            assert(init[i] == y);
        }
        if t.contains(y) && y != s.last() {
            let i = choose|i: int| 0 <= i < t.len() && t[i] == y;
            assert(u[i] == y);
        }
    }
}

/// The calls that are known after some fragments are those that were known before, and those
/// that the fragments name by their index.
pub proof fn known_calls_are_those_named(started: Seq<u32>, tcs: Seq<Json>, index: u32)
    ensures
        crate::wire::chat::all_started(started, tcs).contains(index) <==> started.contains(index)
            || exists|i: int| 0 <= i < tcs.len() && index_of(#[trigger] tcs[i]) == index,
    decreases tcs.len(),
{
    if tcs.len() > 0 {
        let init = tcs.drop_last();
        let n = tcs.len() - 1;
        known_calls_are_those_named(started, init, index);
        lemma_put_in(
            crate::wire::chat::all_started(started, init),
            index_of(tcs[n]) as u32,
            index,
        );
        if exists|i: int| 0 <= i < init.len() && index_of(#[trigger] init[i]) == index {
            let i = choose|i: int| 0 <= i < init.len() && index_of(#[trigger] init[i]) == index;
            assert(tcs[i] == init[i]);
        }
        if exists|i: int| 0 <= i < tcs.len() && index_of(#[trigger] tcs[i]) == index {
            let i = choose|i: int| 0 <= i < tcs.len() && index_of(#[trigger] tcs[i]) == index;
            if i < n {
                assert(tcs[i] == init[i]);
            }
        }
    }
}

/// The texts that a list of chunks carries, in a row. A chunk that reports an error carries
/// none.
pub open spec fn contents(chunks: Seq<Json>) -> Seq<char>
    decreases chunks.len(),
{
    if chunks.len() == 0 {
        Seq::empty()
    } else {
        contents(chunks.drop_last()) + (if has_failed(chunks.last()) {
            Seq::empty()
        } else {
            string_in(in_choice(chunks.last(), "delta"@), "content"@)
        })
    }
}

/// The reasoning that a list of chunks carries, in a row.
pub open spec fn reasonings(chunks: Seq<Json>) -> Seq<char>
    decreases chunks.len(),
{
    if chunks.len() == 0 {
        Seq::empty()
    } else {
        reasonings(chunks.drop_last()) + (if has_failed(chunks.last()) {
            Seq::empty()
        } else {
            reasoning_in(in_choice(chunks.last(), "delta"@))
        })
    }
}

pub proof fn lemma_texts_add(a: Seq<EventView>, b: Seq<EventView>)
    ensures
        crate::canonical::said(a + b) == crate::canonical::said(a) + crate::canonical::said(b),
        crate::canonical::reasoned(a + b) == crate::canonical::reasoned(a)
            + crate::canonical::reasoned(b),
    decreases b.len(),
{
    if b.len() == 0 {
        assert(a + b =~= a);
        assert(crate::canonical::said(a) + Seq::<char>::empty() =~= crate::canonical::said(a));
        assert(crate::canonical::reasoned(a) + Seq::<char>::empty() =~= crate::canonical::reasoned(
            a,
        ));
    } else {
        let c = b.drop_last();
        lemma_texts_add(a, c);
        assert((a + b).drop_last() =~= a + c);
        assert((a + b).last() == b.last());
        let t = match b.last() {
            EventView::TextDelta { text } => text,
            _ => Seq::empty(),
        };
        let r = match b.last() {
            EventView::ReasoningDelta { text } => text,
            _ => Seq::empty(),
        };
        assert(crate::canonical::said(a) + crate::canonical::said(c) + t
            =~= crate::canonical::said(a) + (crate::canonical::said(c) + t));
        assert(crate::canonical::reasoned(a) + crate::canonical::reasoned(c) + r
            =~= crate::canonical::reasoned(a) + (crate::canonical::reasoned(c) + r));
    }
}

proof fn lemma_silent(evs: Seq<EventView>)
    requires
        forall|i: int|
            0 <= i < evs.len() ==> !((#[trigger] evs[i]) is TextDelta) && !(
            evs[i] is ReasoningDelta),
    ensures
        crate::canonical::said(evs) == Seq::<char>::empty(),
        crate::canonical::reasoned(evs) == Seq::<char>::empty(),
    decreases evs.len(),
{
    if evs.len() > 0 {
        let init = evs.drop_last();
        assert forall|i: int| 0 <= i < init.len() implies !((#[trigger] init[i]) is TextDelta) && !(
        init[i] is ReasoningDelta) by {
            assert(init[i] == evs[i]);
        }
        lemma_silent(init);
        let x = evs[evs.len() - 1];
        assert(Seq::<char>::empty() + Seq::<char>::empty() =~= Seq::<char>::empty());
    }
}

proof fn lemma_fragments_are_silent(started: Seq<u32>, tcs: Seq<Json>)
    ensures
        ({
            let evs = crate::wire::chat::all_fragment_events(started, tcs);
            crate::canonical::said(evs) == Seq::<char>::empty() && crate::canonical::reasoned(evs)
                == Seq::<char>::empty()
        }),
    decreases tcs.len(),
{
    if tcs.len() > 0 {
        let init = tcs.drop_last();
        lemma_fragments_are_silent(started, init);
        let last = crate::wire::chat::fragment_events(
            crate::wire::chat::all_started(started, init),
            tcs.last(),
        );
        lemma_silent(last);
        lemma_texts_add(crate::wire::chat::all_fragment_events(started, init), last);
        assert(Seq::<char>::empty() + Seq::<char>::empty() =~= Seq::<char>::empty());
    }
}

proof fn lemma_begun_texts(
    a: Seq<EventView>,
    fresh: bool,
    response_id: Seq<char>,
    model: Seq<char>,
    d: Option<Json>,
)
    requires
        begins_with(a, fresh, response_id, model, d),
    ensures
        crate::canonical::said(a) == string_in(d, "content"@),
        crate::canonical::reasoned(a) == reasoning_in(d),
{
    reveal_with_fuel(crate::canonical::said, 4);
    reveal_with_fuel(crate::canonical::reasoned, 4);
    assert(crate::canonical::said(a) =~= string_in(d, "content"@));
    assert(crate::canonical::reasoned(a) =~= reasoning_in(d));
}

/// What a chunk says is what its events say; one that reports an error says nothing.
pub proof fn chunk_texts_are_heard(p: ParserView, chunk: Json)
    ensures
        crate::canonical::said(p.events(chunk)) == if has_failed(chunk) {
            Seq::empty()
        } else {
            string_in(in_choice(chunk, "delta"@), "content"@)
        },
        crate::canonical::reasoned(p.events(chunk)) == if has_failed(chunk) {
            Seq::empty()
        } else {
            reasoning_in(in_choice(chunk, "delta"@))
        },
{
    if has_failed(chunk) {
        lemma_silent(p.events(chunk));
    } else {
        chunks_are_read(p, chunk);
        let d = in_choice(chunk, "delta"@);
        let a = p.opening(chunk) + crate::wire::chat::said_in(chunk);
        let b = crate::wire::chat::all_fragment_events(p.started, calls_in(d));
        let c = p.endings(chunk);
        let e = crate::wire::chat::usage_events(chunk);
        lemma_begun_texts(a, !p.created, p.response_id, string_in(Some(chunk), "model"@), d);
        lemma_fragments_are_silent(p.started, calls_in(d));
        lemma_silent(c);
        lemma_silent(e);
        lemma_texts_add(a, b);
        lemma_texts_add(a + b, c);
        lemma_texts_add(a + b + c, e);
        let t = string_in(d, "content"@);
        let r = reasoning_in(d);
        assert(t + Seq::<char>::empty() + Seq::<char>::empty() + Seq::<char>::empty() =~= t);
        assert(r + Seq::<char>::empty() + Seq::<char>::empty() + Seq::<char>::empty() =~= r);
    }
}

/// What an upstream says in a list of chunks is what the events say: the texts of the chunks,
/// in a row, are the texts of the events, in a row; and so is the reasoning.
pub proof fn texts_are_read_whole(p: ParserView, chunks: Seq<Json>)
    ensures
        crate::canonical::said(crate::wire::parser_laws::all_events(p, chunks)) == contents(chunks),
        crate::canonical::reasoned(crate::wire::parser_laws::all_events(p, chunks)) == reasonings(
            chunks,
        ),
    decreases chunks.len(),
{
    if chunks.len() > 0 {
        let init = chunks.drop_last();
        texts_are_read_whole(p, init);
        let q = crate::wire::parser_laws::after_all(p, init);
        chunk_texts_are_heard(q, chunks.last());
        lemma_texts_add(
            crate::wire::parser_laws::all_events(p, init),
            q.events(chunks.last()),
        );
    }
}

/// A whole answer gives its creation, with its model and the identifier given for it; the
/// reasoning and the text of its first choice; its tool calls; its usage; and the completion.
pub proof fn whole_answers_are_read(resp: Json, response_id: Seq<char>) -> (a: Seq<EventView>)
    ensures
        ({
            let m = in_choice(resp, "message"@);
            let b = crate::wire::chat::whole_calls_events(calls_in(m));
            let c = crate::wire::chat::usage_events(resp);
            &&& crate::wire::chat::completion_events(resp, response_id) == a + b + c + seq![
                EventView::Completed,
            ]
            &&& begins_with(a, true, response_id, string_in(Some(resp), "model"@), m)
            &&& counts(c, resp)
        }),
{
    let m = in_choice(resp, "message"@);
    let created = seq![
        EventView::Created { response_id, model: string_in(Some(resp), "model"@) },
    ];
    let a = match m {
        Some(x) => created + crate::wire::chat::text_events(x),
        None => created,
    };
    if let Some(u) = resp.get("usage"@) {
        counts_are_read(u);
    }
    let b = crate::wire::chat::whole_calls_events(calls_in(m));
    if m is None {
        assert(b.len() == 0);
    }
    assert(crate::wire::chat::completion_events(resp, response_id) =~= a + b
        + crate::wire::chat::usage_events(resp) + seq![EventView::Completed]);
    a
}

/// A call of a whole answer starts, with its identifier and its function's name, gives its
/// arguments where it has them, and ends; its index is its place. Calls are read one after
/// the other.
pub proof fn whole_calls_are_read(tcs: Seq<Json>, tc: Json)
    requires
        tcs.len() < 0x1_0000_0000,
    ensures
        crate::wire::chat::whole_calls_events(Seq::empty()).len() == 0,
        ({
            let before = crate::wire::chat::whole_calls_events(tcs);
            let after = crate::wire::chat::whole_calls_events(tcs.push(tc));
            let args = string_in(tc.get("function"@), "arguments"@);
            let n = before.len() as int;
            &&& after.len() == n + if args.len() > 0 {
                3int
            } else {
                2int
            }
            &&& after.take(n) == before
            &&& after[n] matches EventView::ToolCallStart { index, call_id, name } && index
                == tcs.len() && call_id == string_in(Some(tc), "id"@) && name == string_in(
                tc.get("function"@),
                "name"@,
            )
            &&& args.len() > 0 ==> (after[n + 1] matches EventView::ToolCallArgsDelta {
                index,
                delta,
            } && index == tcs.len() && delta == args)
            &&& after.last() matches EventView::ToolCallDone { index } && index == tcs.len()
        }),
{
    assert(tcs.push(tc).drop_last() =~= tcs);
    let before = crate::wire::chat::whole_calls_events(tcs);
    let after = crate::wire::chat::whole_calls_events(tcs.push(tc));
    assert(after.take(before.len() as int) =~= before);
}

} // verus!
