//! The wire formats, and what they share.

pub mod anthropic;
pub mod anthropic_laws;
pub mod block_laws;
pub mod body_laws;
pub mod chat;
pub mod chat_laws;
pub mod chunk_laws;
pub mod delta_laws;
pub mod emitter_laws;
pub mod frame_laws;
pub mod item_laws;
pub mod ledger;
pub mod message_frame_laws;
pub mod parser_laws;
pub mod reading_laws;
pub mod responses;
pub mod responses_laws;
pub mod schema;
pub mod slots;

use vstd::prelude::*;
use vstd::string::*;

use crate::canonical::{CanonicalEvent, EventView};
use crate::json::{Json, JsonValue};
use crate::text::low32;

verus! {

/// One SSE frame: an event name and a JSON payload.
#[derive(Debug, PartialEq)]
pub struct SseFrame {
    pub event: String,
    pub data: JsonValue,
}

/// The model of an `SseFrame`.
pub struct FrameView {
    pub event: Seq<char>,
    pub data: Json,
}

impl View for SseFrame {
    type V = FrameView;

    open spec fn view(&self) -> FrameView {
        FrameView { event: self.event@, data: self.data@ }
    }
}

pub fn frame(event: &str, data: JsonValue) -> (r: SseFrame)
    ensures
        r@ == (FrameView { event: event@, data: data@ }),
{
    SseFrame { event: event.to_owned(), data }
}

pub open spec fn is_lower_hex(c: char) -> bool {
    '0' <= c <= '9' || 'a' <= c <= 'f'
}

/// `uuid::Uuid::new_v4`, in the form that `simple` gives it: thirty-two lower-case
/// hexadecimal digits. Which ones they are is left to chance.
#[verifier::external_body]
fn random_uuid() -> (r: String)
    ensures
        r@.len() == 32,
        forall|i: int| 0 <= i < 32 ==> is_lower_hex(#[trigger] r@[i]),
{
    uuid::Uuid::new_v4().simple().to_string()
}

/// Whether `id` is an identifier made for `prefix`: the prefix, an underscore and
/// thirty-two hexadecimal digits.
pub open spec fn is_id(prefix: Seq<char>, id: Seq<char>) -> bool {
    &&& id.len() == prefix.len() + 33
    &&& id.take(prefix.len() as int + 1) == prefix + "_"@
    &&& forall|i: int| prefix.len() < i < id.len() ==> is_lower_hex(#[trigger] id[i])
}

/// A fresh identifier for `prefix`.
pub fn new_id(prefix: &str) -> (r: String)
    ensures
        is_id(prefix@, r@),
{
    let uuid = random_uuid();
    let mut s = prefix.to_owned();
    s.append("_");
    let ghost head = s@;
    s.append(uuid.as_str());
    proof {
        reveal_strlit("_");
        assert(s@.take(prefix@.len() as int + 1) =~= head);
        assert forall|i: int| prefix@.len() < i < s@.len() implies is_lower_hex(
            #[trigger] s@[i],
        ) by {
            assert(s@[i] == uuid@[i - prefix@.len() - 1]);
        }
    }
    s
}

// What the request parsers read.

/// The entries of an optional array.
pub open spec fn items_of(v: Option<Json>) -> Seq<Json> {
    match v {
        Some(Json::Arr(a)) => a,
        _ => Seq::empty(),
    }
}

/// The number under `key`, as it stands.
pub open spec fn number_under(j: Json, key: Seq<char>) -> Option<Json> {
    match j.get(key) {
        Some(Json::Number(n)) => Some(Json::Number(n)),
        _ => None,
    }
}

/// The unsigned integer under `key`, cut to thirty-two bits.
pub open spec fn u32_under(j: Json, key: Seq<char>) -> Option<u32> {
    match j.get_u64(key) {
        Some(n) => Some((n % 0x1_0000_0000) as u32),
        None => None,
    }
}

/// The flag under `key`; unset is false.
pub open spec fn flag_under(j: Json, key: Seq<char>) -> bool {
    match j.get_bool(key) {
        Some(b) => b,
        None => false,
    }
}

/// The number under `key`, as it stands.
pub fn number_member(j: &JsonValue, key: &str) -> (r: Option<JsonValue>)
    ensures
        crate::text::opt_view(r) == number_under(j@, key@),
{
    match j.get(key) {
        Some(v) => match v {
            JsonValue::Number(n) => Some(JsonValue::Number(n.clone())),
            _ => None,
        },
        None => None,
    }
}

/// The unsigned integer under `key`, cut to thirty-two bits.
pub fn u32_member(j: &JsonValue, key: &str) -> (r: Option<u32>)
    ensures
        r == u32_under(j@, key@),
{
    match j.get_u64(key) {
        Some(n) => Some(low32(n)),
        None => None,
    }
}

/// The flag under `key`; unset is false.
pub fn flag_member(j: &JsonValue, key: &str) -> (r: bool)
    ensures
        r == flag_under(j@, key@),
{
    match j.get_bool(key) {
        Some(b) => b,
        None => false,
    }
}

/// The string under `key`, owned.
pub fn string_member(j: &JsonValue, key: &str) -> (r: Option<String>)
    ensures
        crate::text::opt_view(r) == j@.get_str(key@),
{
    match j.get_str(key) {
        Some(s) => Some(s.to_owned()),
        None => None,
    }
}

/// The texts of a list of content parts, one after the other.
pub open spec fn joined_texts(parts: Seq<Json>) -> Seq<char>
    decreases parts.len(),
{
    if parts.len() == 0 {
        Seq::empty()
    } else {
        joined_texts(parts.drop_last()) + parts.last().str_or_empty("text"@)
    }
}

/// The texts of a list of content parts, one after the other.
pub fn join_texts(parts: &Vec<JsonValue>) -> (r: String)
    ensures
        r@ == joined_texts(crate::json::values_view(parts@)),
{
    let ghost view = crate::json::values_view(parts@);
    let mut out = String::new();
    let mut i: usize = 0;
    assert(view.take(0) =~= Seq::empty());
    while i < parts.len()
        invariant
            i <= parts@.len(),
            view == crate::json::values_view(parts@),
            out@ == joined_texts(view.take(i as int)),
        decreases parts@.len() - i,
    {
        assert(view.take(i as int + 1).drop_last() =~= view.take(i as int));
        assert(view.take(i as int + 1).last() == view[i as int]);
        let t = parts[i].str_or_empty("text");
        out.append(t.as_str());
        i = i + 1;
    }
    assert(view.take(i as int) =~= view);
    out
}

/// The token counts of an answer.
#[derive(Debug, Clone, Copy, PartialEq, Eq, Structural)]
pub struct UsageCounts {
    pub input: u32,
    pub output: u32,
    pub total: u32,
    pub cached: u32,
    pub reasoning: u32,
}

/// The counts that are known, or none of anything.
pub open spec fn counts_or_zero(u: Option<UsageCounts>) -> UsageCounts {
    match u {
        Some(u) => u,
        None => UsageCounts { input: 0, output: 0, total: 0, cached: 0, reasoning: 0 },
    }
}

/// The counts that are known, or none of anything.
pub fn usage_or_zero(u: Option<UsageCounts>) -> (r: UsageCounts)
    ensures
        r == counts_or_zero(u),
{
    match u {
        Some(u) => u,
        None => UsageCounts { input: 0, output: 0, total: 0, cached: 0, reasoning: 0 },
    }
}

/// A wire-format emitter: turns the canonical event stream into the SSE frames
/// of a specific client dialect (Responses, Anthropic Messages, ...).
pub trait CanonicalEmitter: Sized {
    /// Whether the emitter's counters leave room for one more event.
    spec fn has_room(self) -> bool;

    /// What the emitter may become, and which frames it may give, on an event.
    spec fn emits(self, ev: EventView, after: Self, frames: Seq<FrameView>) -> bool;

    /// Whether the emitter's counters leave room for one more event.
    fn has_space(&self) -> (r: bool)
        ensures
            r == self.has_room(),
    ;

    fn emit(&mut self, ev: &CanonicalEvent) -> (r: Vec<SseFrame>)
        requires
            old(self).has_room(),
        ensures
            old(self).emits(ev@, *final(self), crate::text::seq_view(r@)),
    ;
}

/// Frames in a row.
pub open spec fn in_a_row(parts: Seq<Seq<FrameView>>) -> Seq<FrameView>
    decreases parts.len(),
{
    if parts.len() == 0 {
        Seq::empty()
    } else {
        in_a_row(parts.drop_last()) + parts.last()
    }
}

/// Whether an emitter can go through `states`, giving `parts`, on a list of events.
pub open spec fn passes<E: CanonicalEmitter>(
    evs: Seq<EventView>,
    states: Seq<E>,
    parts: Seq<Seq<FrameView>>,
) -> bool {
    &&& states.len() == evs.len() + 1
    &&& parts.len() == evs.len()
    &&& forall|i: int|
        0 <= i < evs.len() ==> (#[trigger] states[i]).emits(evs[i], states[i + 1], parts[i])
}

/// What the emitter may become, and which frames it may give, on a list of events.
pub open spec fn emits_all<E: CanonicalEmitter>(
    before: E,
    evs: Seq<EventView>,
    after: E,
    frames: Seq<FrameView>,
) -> bool {
    exists|states: Seq<E>, parts: Seq<Seq<FrameView>>| #[trigger]
        passes(evs, states, parts) && states[0] == before && states.last() == after && frames
            == in_a_row(parts)
}

/// The frames of a list of events, as far as the emitter's counters went.
#[derive(Debug, PartialEq)]
pub struct Emission {
    pub frames: Vec<SseFrame>,
    /// How many of the events the frames are for.
    pub taken: usize,
}

/// The frames of a list of events, in their order. Events are left out only where the
/// emitter's counters have come to their end.
pub fn emit_all<E: CanonicalEmitter>(emitter: &mut E, events: &Vec<CanonicalEvent>) -> (r: Emission)
    ensures
        r.taken <= events@.len(),
        emits_all(
            *old(emitter),
            crate::text::seq_view(events@).take(r.taken as int),
            *final(emitter),
            crate::text::seq_view(r.frames@),
        ),
        r.taken < events@.len() ==> !final(emitter).has_room(),
{
    broadcast use crate::text::group_views;

    let ghost view = crate::text::seq_view(events@);
    let ghost mut states: Seq<E> = seq![*emitter];
    let ghost mut parts: Seq<Seq<FrameView>> = Seq::empty();
    let mut frames: Vec<SseFrame> = Vec::new();
    let mut i: usize = 0;
    assert(view.take(0) =~= Seq::empty());
    while i < events.len()
        invariant
            i <= events@.len(),
            view == crate::text::seq_view(events@),
            passes(view.take(i as int), states, parts),
            states[0] == *old(emitter),
            states.last() == *emitter,
            crate::text::seq_view(frames@) == in_a_row(parts),
        decreases events@.len() - i,
    {
        broadcast use crate::text::group_views;

        if !emitter.has_space() {
            return Emission { frames, taken: i };
        }
        let ghost head = crate::text::seq_view(frames@);
        let mut more = emitter.emit(&events[i]);
        let ghost tail = crate::text::seq_view(more@);
        proof {
            let next = view.take(i as int + 1);
            let states2 = states.push(*emitter);
            let parts2 = parts.push(tail);
            assert forall|k: int| 0 <= k < next.len() implies (#[trigger] states2[k]).emits(
                next[k],
                states2[k + 1],
                parts2[k],
            ) by {
                if k < i {
                    assert(states[k].emits(view.take(i as int)[k], states[k + 1], parts[k]));
                }
            }
            assert(parts2.drop_last() =~= parts);
            states = states2;
            parts = parts2;
        }
        frames.append(&mut more);
        assert(crate::text::seq_view(frames@) =~= head + tail);
        i = i + 1;
    }
    Emission { frames, taken: i }
}

} // verus!
