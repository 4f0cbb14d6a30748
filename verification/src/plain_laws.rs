//! What holds of texts, of documents and of names.

use vstd::prelude::*;

use crate::canonical::{EventView, ReasoningEffort};
use crate::json::Json;
use crate::wire::responses::ResponsesEmitter;
use crate::wire::{CanonicalEmitter, FrameView};

verus! {

/// White space is the space, what moves to a tab stop, a line or a page, and the spaces and
/// separators of other scripts; what can be seen is none.
pub proof fn white_space_is_not_seen(c: char)
    ensures
        crate::text::is_space(' '),
        crate::text::is_space('\t'),
        crate::text::is_space('\n'),
        crate::text::is_space('\r'),
        crate::text::is_space('\u{b}'),
        crate::text::is_space('\u{c}'),
        crate::text::is_space('\u{85}'),
        crate::text::is_space('\u{a0}'),
        crate::text::is_space('\u{1680}'),
        '\u{2000}' <= c <= '\u{200a}' ==> crate::text::is_space(c),
        crate::text::is_space('\u{2028}'),
        crate::text::is_space('\u{2029}'),
        crate::text::is_space('\u{202f}'),
        crate::text::is_space('\u{205f}'),
        crate::text::is_space('\u{3000}'),
        '!' <= c <= '~' ==> !crate::text::is_space(c),
        '\u{a1}' <= c <= '\u{167f}' ==> !crate::text::is_space(c),
        c > '\u{3000}' ==> !crate::text::is_space(c),
        '\u{200b}' <= c <= '\u{2027}' ==> !crate::text::is_space(c),
{
}

proof fn lemma_start(s: Seq<char>) -> (i: int)
    ensures
        0 <= i <= s.len(),
        crate::text::trimmed_start(s) == s.skip(i),
        forall|k: int| 0 <= k < i ==> crate::text::is_space(#[trigger] s[k]),
        i < s.len() ==> !crate::text::is_space(s[i]),
    decreases s.len(),
{
    if s.len() > 0 && crate::text::is_space(s.first()) {
        let t = s.drop_first();
        let i = lemma_start(t);
        assert(t.skip(i) =~= s.skip(i + 1));
        assert forall|k: int| 0 <= k < i + 1 implies crate::text::is_space(#[trigger] s[k]) by {
            if k > 0 {
                assert(t[k - 1] == s[k]);
            }
        }
        if i < t.len() {
            assert(t[i] == s[i + 1]);
        }
        i + 1
    } else {
        assert(s.skip(0) =~= s);
        0
    }
}

proof fn lemma_end(s: Seq<char>) -> (j: int)
    ensures
        0 <= j <= s.len(),
        crate::text::trimmed_end(s) == s.take(j),
        forall|k: int| j <= k < s.len() ==> crate::text::is_space(#[trigger] s[k]),
        j > 0 ==> !crate::text::is_space(s[j - 1]),
    decreases s.len(),
{
    if s.len() > 0 && crate::text::is_space(s.last()) {
        let t = s.drop_last();
        let j = lemma_end(t);
        assert(t.take(j) =~= s.take(j));
        assert forall|k: int| j <= k < s.len() implies crate::text::is_space(#[trigger] s[k]) by {
            if k < t.len() {
                assert(t[k] == s[k]);
            }
        }
        j
    } else {
        assert(s.take(s.len() as int) =~= s);
        s.len() as int
    }
}

/// A text is trimmed of the white space around it and of nothing else.
pub proof fn trimming_takes_white_space_only(s: Seq<char>) -> (ij: (int, int))
    ensures
        ({
            let (i, j) = ij;
            let t = crate::text::trimmed(s);
            &&& 0 <= i <= j <= s.len()
            &&& t == s.subrange(i, j)
            &&& forall|k: int| 0 <= k < i ==> crate::text::is_space(#[trigger] s[k])
            &&& forall|k: int| j <= k < s.len() ==> crate::text::is_space(#[trigger] s[k])
            &&& t.len() > 0 ==> !crate::text::is_space(t[0]) && !crate::text::is_space(t.last())
        }),
{
    let i = lemma_start(s);
    let t = s.skip(i);
    let n = lemma_end(t);
    let j = i + n;
    assert(t.take(n) =~= s.subrange(i, j));
    assert forall|k: int| j <= k < s.len() implies crate::text::is_space(#[trigger] s[k]) by {
        assert(t[k - i] == s[k]);
    }
    if n > 0 {
        assert(t[0] == s[i]);
        assert(t[n - 1] == s[j - 1]);
    }
    (i, j)
}

/// A prefix is taken off a text that begins with it, and off no other.
pub proof fn prefixes_are_taken_off(s: Seq<char>, p: Seq<char>)
    ensures
        crate::text::without_prefix(p + s, p) == Some(s),
        crate::text::without_prefix(s, p) matches Some(r) ==> s == p + r,
        crate::text::without_prefix(s, p) is None ==> forall|r: Seq<char>| #[trigger] (p + r) != s,
{
    assert((p + s).take(p.len() as int) =~= p);
    assert((p + s).skip(p.len() as int) =~= s);
    if crate::text::starts_with(s, p) {
        assert(s =~= s.take(p.len() as int) + s.skip(p.len() as int));
    } else {
        assert forall|r: Seq<char>| #[trigger] (p + r) != s by {
            assert((p + r).take(p.len() as int) =~= p);
        }
    }
}

/// The number that decimal digits stand for.
pub open spec fn value_of(s: Seq<char>) -> int
    decreases s.len(),
{
    if s.len() == 0 {
        0
    } else {
        10 * value_of(s.drop_last()) + (s.last() as int - '0' as int)
    }
}

/// A number is written with decimal digits that stand for it, and without a zero in front.
pub proof fn numbers_are_written_in_decimal(n: nat)
    ensures
        value_of(crate::text::decimal(n)) == n,
        crate::text::decimal(n).len() > 0,
        forall|i: int|
            0 <= i < crate::text::decimal(n).len() ==> '0' <= #[trigger] crate::text::decimal(n)[i]
                <= '9',
        n > 0 ==> crate::text::decimal(n)[0] != '0',
    decreases n,
{
    let s = crate::text::decimal(n);
    if n < 10 {
        assert(s.drop_last() =~= Seq::empty());
        assert(s.last() == crate::text::digit_char(n));
        assert(value_of(Seq::<char>::empty()) == 0);
    } else {
        let t = crate::text::decimal(n / 10);
        numbers_are_written_in_decimal(n / 10);
        assert(s.drop_last() =~= t);
        assert forall|i: int| 0 <= i < s.len() implies '0' <= #[trigger] s[i] <= '9' by {
            if i < t.len() {
                assert(s[i] == t[i]);
            }
        }
        assert(s[0] == t[0]);
    }
}

proof fn lemma_bytes_order(a: Seq<u8>, b: Seq<u8>, k: int)
    requires
        0 <= k <= a.len(),
        k < b.len(),
        forall|i: int| 0 <= i < k ==> #[trigger] a[i] == b[i],
        k < a.len() ==> a[k] < b[k],
    ensures
        crate::dict::bytes_lt(a, b),
    decreases k,
{
    if k > 0 {
        let x = a.skip(1);
        let y = b.skip(1);
        assert(a[0] == b[0]);
        assert forall|i: int| 0 <= i < k - 1 implies #[trigger] x[i] == y[i] by {
            assert(x[i] == a[i + 1] && y[i] == b[i + 1]);
        }
        lemma_bytes_order(x, y, k - 1);
    }
}

/// Texts are in the order of their bytes: at the first place where they differ the smaller
/// byte decides, and a text comes before what it is the beginning of.
pub proof fn texts_are_in_the_order_of_their_bytes(a: Seq<char>, b: Seq<char>, k: int)
    requires
        ({
            let x = vstd::utf8::encode_utf8(a);
            let y = vstd::utf8::encode_utf8(b);
            &&& 0 <= k <= x.len()
            &&& k < y.len()
            &&& forall|i: int| 0 <= i < k ==> #[trigger] x[i] == y[i]
            &&& k < x.len() ==> x[k] < y[k]
        }),
    ensures
        crate::dict::str_lt(a, b),
        !crate::dict::str_lt(b, a),
{
    lemma_bytes_order(vstd::utf8::encode_utf8(a), vstd::utf8::encode_utf8(b), k);
    crate::dict::str_order_is_total(a, b, a);
}

/// A member is found under its name, and has its type or none; what is no object has no
/// members.
pub proof fn members_are_found_by_name(j: Json, k: Seq<char>, outer: Seq<char>)
    ensures
        !(j is Obj) ==> j.get(k) is None,
        j matches Json::Obj(m) ==> (m.dom().contains(k) ==> j.get(k) == Some(m[k])) && (
        !m.dom().contains(k) ==> j.get(k) is None),
        j.get_str(k) == match j.get(k) {
            Some(Json::Str(s)) => Some(s),
            _ => None,
        },
        j.get_array(k) == match j.get(k) {
            Some(Json::Arr(a)) => Some(a),
            _ => None,
        },
        j.get_bool(k) == match j.get(k) {
            Some(Json::Bool(b)) => Some(b),
            _ => None,
        },
        j.get_u64(k) == match j.get(k) {
            Some(Json::Number(n)) => crate::json::number_as_u64(n),
            _ => None,
        },
        j.str_or_empty(k) == match j.get(k) {
            Some(Json::Str(s)) => s,
            _ => Seq::empty(),
        },
        j.get(outer) is None ==> j.get2(outer, k) is None,
        j.get(outer) matches Some(v) ==> j.get2(outer, k) == v.get(k),
{
}

/// A member that is set is found, and the others stay as they are.
pub proof fn set_members_are_found(j: Json, k: Seq<char>, v: Json, other: Seq<char>)
    ensures
        j.with(k, v).get(k) == Some(v),
        other != k ==> j.with(k, v).get(other) == j.get(other),
        j.with_opt(k, Some(v)) == j.with(k, v),
        j.with_opt(k, None) == j,
        Json::obj() is Obj && Json::obj().get(k) is None,
{
}

/// The efforts go by their names, and no other name is one.
pub proof fn efforts_go_by_their_names(e: ReasoningEffort, s: Seq<char>)
    ensures
        crate::canonical::effort_name(ReasoningEffort::Minimal) == "minimal"@,
        crate::canonical::effort_name(ReasoningEffort::Low) == "low"@,
        crate::canonical::effort_name(ReasoningEffort::Medium) == "medium"@,
        crate::canonical::effort_name(ReasoningEffort::High) == "high"@,
        crate::canonical::effort_name(ReasoningEffort::XHigh) == "xhigh"@,
        crate::canonical::effort_named(s) == Some(e) <==> s == crate::canonical::effort_name(e),
{
    reveal_strlit("minimal");
    reveal_strlit("low");
    reveal_strlit("medium");
    reveal_strlit("high");
    reveal_strlit("xhigh");
    assert("minimal"@.len() == 7 && "low"@.len() == 3 && "medium"@.len() == 6);
    assert("high"@.len() == 4 && "xhigh"@.len() == 5);
}

/// What is new in a Responses stream gets a name of its own: a reasoning item, a message or
/// a call one with their prefix, and thirty-two hexadecimal digits behind it.
pub proof fn new_items_get_names(
    e: ResponsesEmitter,
    ev: EventView,
    after: ResponsesEmitter,
    frames: Seq<FrameView>,
) -> (id: Seq<char>)
    requires
        e.emits(ev, after, frames),
    ensures
        frames == e@.frames(ev, id),
        after@ == e@.after(ev, id),
        ({
            let prefix = match ev {
                EventView::ReasoningDelta { .. } => "rs_"@,
                EventView::TextDelta { .. } => "msg_"@,
                _ => "fc_"@,
            };
            let opens = match ev {
                EventView::ReasoningDelta { .. } => e@.reasoning_item is None,
                EventView::TextDelta { .. } => e@.message_item is None,
                EventView::ToolCallStart { .. } => true,
                _ => false,
            };
            opens ==> {
                &&& id.len() == prefix.len() + 32
                &&& id.take(prefix.len() as int) == prefix
                &&& forall|i: int|
                    prefix.len() <= i < id.len() ==> ('0' <= #[trigger] id[i] <= '9' || 'a' <= id[i]
                        <= 'f')
            }
        }),
{
    reveal_strlit("rs");
    reveal_strlit("msg");
    reveal_strlit("fc");
    reveal_strlit("_");
    reveal_strlit("rs_");
    reveal_strlit("msg_");
    reveal_strlit("fc_");
    assert("rs"@ + "_"@ =~= "rs_"@);
    assert("msg"@ + "_"@ =~= "msg_"@);
    assert("fc"@ + "_"@ =~= "fc_"@);
    let id = choose|id: Seq<char>|
        (crate::wire::responses::opens_item(e@, ev) ==> crate::wire::is_id(
            crate::wire::responses::item_prefix(ev),
            id,
        )) && after@ == #[trigger] e@.after(ev, id) && frames == e@.frames(ev, id);
    id
}

} // verus!
