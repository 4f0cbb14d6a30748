//! A ledger of the parts of a stream: where each is opened, and where it is closed.

use vstd::prelude::*;

use crate::json::Json;
use crate::wire::FrameView;

verus! {

/// How the frames of a stream speak of its parts: the names of the frames that open and
/// close a part, the member that says which part it is, and the names of the frames that
/// carry a piece of a part.
pub struct Marks {
    pub open: Seq<char>,
    pub close: Seq<char>,
    pub key: Seq<char>,
    pub pieces: Set<Seq<char>>,
}

/// Where the parts of a stream are opened, and where they are closed.
pub struct Ledger {
    pub opens: Seq<int>,
    pub closes: Map<int, int>,
}

/// The number of a part, as the frames give it.
pub open spec fn place(k: int) -> Option<Json> {
    Some(Json::num(k as u64))
}

/// Whether the part `k` is open at frame `p`: it was opened before, and is closed after,
/// if at all.
pub open spec fn open_at(l: Ledger, k: int, p: int) -> bool {
    &&& 0 <= k < l.opens.len()
    &&& l.opens[k] < p
    &&& l.closes.dom().contains(k) ==> p < l.closes[k]
}

/// The frames that open a part are those that the ledger names, and they number the parts
/// from zero on, in order.
pub open spec fn opened_in_order(m: Marks, frames: Seq<FrameView>, l: Ledger) -> bool {
    &&& forall|k: int|
        0 <= k < l.opens.len() ==> 0 <= #[trigger] l.opens[k] < frames.len()
            && frames[l.opens[k]].event == m.open && frames[l.opens[k]].data.get(m.key) == place(k)
    &&& forall|j: int, k: int|
        0 <= j < k < l.opens.len() ==> #[trigger] l.opens[j] < #[trigger] l.opens[k]
    &&& forall|p: int|
        0 <= p < frames.len() && (#[trigger] frames[p]).event == m.open ==> l.opens.contains(p)
}

/// The frames that close a part are those that the ledger names; each closes a part of its
/// own, that was opened before.
pub open spec fn closed_once(m: Marks, frames: Seq<FrameView>, l: Ledger) -> bool {
    &&& forall|k: int| #[trigger]
        l.closes.dom().contains(k) ==> 0 <= k < l.opens.len() && l.opens[k] < l.closes[k]
            < frames.len() && frames[l.closes[k]].event == m.close && frames[l.closes[k]].data.get(
            m.key,
        ) == place(k)
    &&& forall|j: int, k: int| #[trigger]
        l.closes.dom().contains(j) && #[trigger] l.closes.dom().contains(k) && j != k
            ==> l.closes[j] != l.closes[k]
    &&& forall|p: int|
        0 <= p < frames.len() && (#[trigger] frames[p]).event == m.close ==> exists|k: int| #[trigger]
            l.closes.dom().contains(k) && l.closes[k] == p
}

/// A frame with a piece of a part comes while that part is open.
pub open spec fn pieces_within(m: Marks, frames: Seq<FrameView>, l: Ledger) -> bool {
    forall|p: int|
        0 <= p < frames.len() && m.pieces.contains((#[trigger] frames[p]).event) ==> exists|k: int|
            #[trigger] open_at(l, k, p) && frames[p].data.get(m.key) == place(k)
}

/// The type that a frame's data states is the frame's event name.
pub open spec fn types_agree(frames: Seq<FrameView>) -> bool {
    forall|p: int|
        0 <= p < frames.len() ==> (#[trigger] frames[p]).data.get("type"@) == Some(
            Json::Str(frames[p].event),
        )
}

/// Whether the ledger accounts for the frames, when `n` parts have been opened and the
/// parts `live` have not been closed.
pub open spec fn tallies(
    m: Marks,
    frames: Seq<FrameView>,
    n: int,
    live: Set<int>,
    l: Ledger,
) -> bool {
    &&& l.opens.len() == n
    &&& opened_in_order(m, frames, l)
    &&& closed_once(m, frames, l)
    &&& pieces_within(m, frames, l)
    &&& types_agree(frames)
    &&& forall|k: int| #[trigger] live.contains(k) ==> 0 <= k < n
    &&& forall|k: int| #[trigger]
        l.closes.dom().contains(k) <==> 0 <= k < n && !live.contains(k)
}

/// The marks can be told apart.
pub open spec fn distinct_marks(m: Marks) -> bool {
    m.open != m.close && !m.pieces.contains(m.open) && !m.pieces.contains(m.close)
}

/// A frame that is about no part.
pub open spec fn aside(m: Marks, f: FrameView) -> bool {
    f.event != m.open && f.event != m.close && !m.pieces.contains(f.event)
}

pub open spec fn well_typed(f: FrameView) -> bool {
    f.data.get("type"@) == Some(Json::Str(f.event))
}

pub proof fn lemma_nothing_yet(m: Marks, l: Ledger)
    requires
        l.opens.len() == 0,
        l.closes == Map::<int, int>::empty(),
    ensures
        tallies(m, Seq::empty(), 0, Set::empty(), l),
{
}

pub proof fn lemma_aside(
    m: Marks,
    frames: Seq<FrameView>,
    f: FrameView,
    n: int,
    live: Set<int>,
    l: Ledger,
)
    requires
        tallies(m, frames, n, live, l),
        aside(m, f),
        well_typed(f),
    ensures
        tallies(m, frames.push(f), n, live, l),
{
    let all = frames.push(f);
    lemma_same_start(m, frames, f, n, live, l);
    assert(pieces_within(m, all, l)) by {
        assert forall|p: int|
            0 <= p < all.len() && m.pieces.contains((#[trigger] all[p]).event) implies exists|k: int|
            #[trigger] open_at(l, k, p) && all[p].data.get(m.key) == place(k) by {
            assert(all[p] == frames[p]);
        }
    }
    assert(opened_in_order(m, all, l)) by {
        assert forall|p: int|
            0 <= p < all.len() && (#[trigger] all[p]).event == m.open implies l.opens.contains(p) by {
            assert(all[p] == frames[p]);
        }
    }
    assert(closed_once(m, all, l)) by {
        assert forall|p: int|
            0 <= p < all.len() && (#[trigger] all[p]).event == m.close implies exists|k: int|
            #[trigger] l.closes.dom().contains(k) && l.closes[k] == p by {
            assert(all[p] == frames[p]);
        }
    }
}

/// What the ledger says of the earlier frames holds with one frame more.
proof fn lemma_same_start(
    m: Marks,
    frames: Seq<FrameView>,
    f: FrameView,
    n: int,
    live: Set<int>,
    l: Ledger,
)
    requires
        tallies(m, frames, n, live, l),
        well_typed(f),
    ensures
        types_agree(frames.push(f)),
        forall|k: int|
            0 <= k < n ==> frames.push(f)[#[trigger] l.opens[k]] == frames[l.opens[k]],
        forall|k: int| #[trigger]
            l.closes.dom().contains(k) ==> frames.push(f)[l.closes[k]] == frames[l.closes[k]],
{
    let all = frames.push(f);
    assert forall|p: int| 0 <= p < all.len() implies (#[trigger] all[p]).data.get("type"@) == Some(
        Json::Str(all[p].event),
    ) by {
        if p < frames.len() {
            assert(all[p] == frames[p]);
        }
    }
}

/// A frame that opens the next part.
pub proof fn lemma_open(
    m: Marks,
    frames: Seq<FrameView>,
    f: FrameView,
    n: int,
    live: Set<int>,
    l: Ledger,
) -> (r: Ledger)
    requires
        distinct_marks(m),
        tallies(m, frames, n, live, l),
        f.event == m.open,
        f.data.get(m.key) == place(n),
        well_typed(f),
    ensures
        tallies(m, frames.push(f), n + 1, live.insert(n), r),
{
    let all = frames.push(f);
    let r = Ledger { opens: l.opens.push(frames.len() as int), closes: l.closes };
    lemma_same_start(m, frames, f, n, live, l);
    assert(!live.contains(n));
    assert forall|p: int|
        0 <= p < all.len() && (#[trigger] all[p]).event == m.open implies r.opens.contains(p) by {
        if p < frames.len() {
            assert(all[p] == frames[p]);
            let k = choose|k: int| 0 <= k < l.opens.len() && l.opens[k] == p;
            assert(r.opens[k] == p);
        } else {
            assert(r.opens[n] == p);
        }
    }
    assert(opened_in_order(m, all, r)) by {
        assert forall|k: int| 0 <= k < r.opens.len() implies 0 <= #[trigger] r.opens[k] < all.len()
            && all[r.opens[k]].event == m.open && all[r.opens[k]].data.get(m.key) == place(k) by {
            if k < n {
                assert(r.opens[k] == l.opens[k]);
            }
        }
        assert forall|j: int, k: int| 0 <= j < k < r.opens.len() implies #[trigger] r.opens[j]
            < #[trigger] r.opens[k] by {
            assert(r.opens[j] == l.opens[j]);
            if k < n {
                assert(r.opens[k] == l.opens[k]);
            }
        }
    }
    assert(closed_once(m, all, r)) by {
        assert forall|k: int| #[trigger] r.closes.dom().contains(k) implies 0 <= k < r.opens.len()
            && r.opens[k] < r.closes[k] < all.len() && all[r.closes[k]].event == m.close
            && all[r.closes[k]].data.get(m.key) == place(k) by {
            assert(r.opens[k] == l.opens[k]);
        }
        assert forall|p: int|
            0 <= p < all.len() && (#[trigger] all[p]).event == m.close implies exists|k: int|
            #[trigger] r.closes.dom().contains(k) && r.closes[k] == p by {
            assert(all[p] == frames[p]);
        }
    }
    assert(pieces_within(m, all, r)) by {
        assert forall|p: int|
            0 <= p < all.len() && m.pieces.contains((#[trigger] all[p]).event) implies exists|k: int|
            #[trigger] open_at(r, k, p) && all[p].data.get(m.key) == place(k) by {
            assert(all[p] == frames[p]);
            let k = choose|k: int| #[trigger]
                open_at(l, k, p) && frames[p].data.get(m.key) == place(k);
            assert(r.opens[k] == l.opens[k]);
            assert(open_at(r, k, p));
        }
    }
    r
}

/// A frame with a piece of an open part.
pub proof fn lemma_piece(
    m: Marks,
    frames: Seq<FrameView>,
    f: FrameView,
    n: int,
    live: Set<int>,
    k: int,
    l: Ledger,
)
    requires
        distinct_marks(m),
        tallies(m, frames, n, live, l),
        live.contains(k),
        m.pieces.contains(f.event),
        f.data.get(m.key) == place(k),
        well_typed(f),
    ensures
        tallies(m, frames.push(f), n, live, l),
{
    let all = frames.push(f);
    lemma_same_start(m, frames, f, n, live, l);
    assert(pieces_within(m, all, l)) by {
        assert forall|p: int|
            0 <= p < all.len() && m.pieces.contains((#[trigger] all[p]).event) implies exists|q: int|
            #[trigger] open_at(l, q, p) && all[p].data.get(m.key) == place(q) by {
            if p < frames.len() {
                assert(all[p] == frames[p]);
            } else {
                assert(l.opens[k] < p);
                assert(open_at(l, k, p));
            }
        }
    }
    assert(opened_in_order(m, all, l)) by {
        assert forall|p: int|
            0 <= p < all.len() && (#[trigger] all[p]).event == m.open implies l.opens.contains(p) by {
            assert(all[p] == frames[p]);
        }
    }
    assert(closed_once(m, all, l)) by {
        assert forall|p: int|
            0 <= p < all.len() && (#[trigger] all[p]).event == m.close implies exists|q: int|
            #[trigger] l.closes.dom().contains(q) && l.closes[q] == p by {
            assert(all[p] == frames[p]);
        }
    }
}

/// A frame that closes an open part.
pub proof fn lemma_close(
    m: Marks,
    frames: Seq<FrameView>,
    f: FrameView,
    n: int,
    live: Set<int>,
    k: int,
    l: Ledger,
) -> (r: Ledger)
    requires
        distinct_marks(m),
        tallies(m, frames, n, live, l),
        live.contains(k),
        f.event == m.close,
        f.data.get(m.key) == place(k),
        well_typed(f),
    ensures
        tallies(m, frames.push(f), n, live.remove(k), r),
{
    let all = frames.push(f);
    let r = Ledger { opens: l.opens, closes: l.closes.insert(k, frames.len() as int) };
    lemma_same_start(m, frames, f, n, live, l);
    assert(!l.closes.dom().contains(k));
    assert(pieces_within(m, all, r)) by {
        assert forall|p: int|
            0 <= p < all.len() && m.pieces.contains((#[trigger] all[p]).event) implies exists|q: int|
            #[trigger] open_at(r, q, p) && all[p].data.get(m.key) == place(q) by {
            assert(all[p] == frames[p]);
            let q = choose|q: int| #[trigger]
                open_at(l, q, p) && frames[p].data.get(m.key) == place(q);
            assert(open_at(r, q, p));
        }
    }
    assert(opened_in_order(m, all, r)) by {
        assert forall|p: int|
            0 <= p < all.len() && (#[trigger] all[p]).event == m.open implies r.opens.contains(p) by {
            assert(all[p] == frames[p]);
        }
    }
    assert(closed_once(m, all, r)) by {
        assert forall|q: int| #[trigger] r.closes.dom().contains(q) implies 0 <= q < r.opens.len()
            && r.opens[q] < r.closes[q] < all.len() && all[r.closes[q]].event == m.close
            && all[r.closes[q]].data.get(m.key) == place(q) by {
            if q != k {
                assert(l.closes.dom().contains(q));
            }
        }
        assert forall|i: int, j: int| #[trigger]
            r.closes.dom().contains(i) && #[trigger] r.closes.dom().contains(j) && i
                != j implies r.closes[i] != r.closes[j] by {
            if i != k {
                assert(l.closes.dom().contains(i));
            }
            if j != k {
                assert(l.closes.dom().contains(j));
            }
        }
        assert forall|p: int|
            0 <= p < all.len() && (#[trigger] all[p]).event == m.close implies exists|q: int|
            #[trigger] r.closes.dom().contains(q) && r.closes[q] == p by {
            if p < frames.len() {
                assert(all[p] == frames[p]);
                let q = choose|q: int| #[trigger] l.closes.dom().contains(q) && l.closes[q] == p;
                assert(r.closes.dom().contains(q) && r.closes[q] == p);
            } else {
                assert(r.closes.dom().contains(k) && r.closes[k] == p);
            }
        }
    }
    assert forall|q: int| #[trigger] r.closes.dom().contains(q) <==> 0 <= q < n && !live.remove(
        k,
    ).contains(q) by {
        assert(l.closes.dom().contains(q) <==> 0 <= q < n && !live.contains(q));
    }
    r
}

/// The ledger reads nothing of a frame but its name, its type and its part.
pub proof fn lemma_alike(
    m: Marks,
    a: Seq<FrameView>,
    b: Seq<FrameView>,
    n: int,
    live: Set<int>,
    l: Ledger,
)
    requires
        tallies(m, a, n, live, l),
        a.len() == b.len(),
        forall|p: int|
            0 <= p < a.len() ==> (#[trigger] b[p]).event == a[p].event && b[p].data.get(m.key)
                == a[p].data.get(m.key) && b[p].data.get("type"@) == a[p].data.get("type"@),
    ensures
        tallies(m, b, n, live, l),
{
    assert(types_agree(b)) by {
        assert forall|p: int| 0 <= p < b.len() implies (#[trigger] b[p]).data.get("type"@) == Some(
            Json::Str(b[p].event),
        ) by {
            assert(a[p].data.get("type"@) == Some(Json::Str(a[p].event)));
        }
    }
    assert(opened_in_order(m, b, l)) by {
        assert forall|p: int|
            0 <= p < b.len() && (#[trigger] b[p]).event == m.open implies l.opens.contains(p) by {
            assert(a[p].event == m.open);
        }
    }
    assert(closed_once(m, b, l)) by {
        assert forall|p: int|
            0 <= p < b.len() && (#[trigger] b[p]).event == m.close implies exists|k: int| #[trigger]
            l.closes.dom().contains(k) && l.closes[k] == p by {
            assert(a[p].event == m.close);
        }
    }
    assert(pieces_within(m, b, l)) by {
        assert forall|p: int|
            0 <= p < b.len() && m.pieces.contains((#[trigger] b[p]).event) implies exists|k: int|
            #[trigger] open_at(l, k, p) && b[p].data.get(m.key) == place(k) by {
            assert(m.pieces.contains(a[p].event));
        }
    }
}

} // verus!
