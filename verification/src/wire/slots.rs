//! The open tool calls of a stream, by index.

use vstd::prelude::*;

verus! {

/// Values under numbered slots, in ascending order of the numbers.
pub struct Slots<T> {
    entries: Vec<(u32, T)>,
}

/// What `s` holds in slot `k`.
pub open spec fn slot_get<V>(s: Seq<(u32, V)>, k: u32) -> Option<V>
    decreases s.len(),
{
    if s.len() == 0 {
        None
    } else if s.last().0 == k {
        Some(s.last().1)
    } else {
        slot_get(s.drop_last(), k)
    }
}

/// `s` with `v` in slot `k`.
pub open spec fn slot_set<V>(s: Seq<(u32, V)>, k: u32, v: V) -> Seq<(u32, V)>
    decreases s.len(),
{
    if s.len() == 0 || s.last().0 < k {
        s.push((k, v))
    } else if s.last().0 == k {
        s.drop_last().push((k, v))
    } else {
        slot_set(s.drop_last(), k, v).push(s.last())
    }
}

/// `s` with slot `k` emptied.
pub open spec fn slot_remove<V>(s: Seq<(u32, V)>, k: u32) -> Seq<(u32, V)>
    decreases s.len(),
{
    if s.len() == 0 {
        s
    } else if s.last().0 == k {
        s.drop_last()
    } else {
        slot_remove(s.drop_last(), k).push(s.last())
    }
}

/// Slots in strictly ascending order.
pub open spec fn slots_ascending<V>(s: Seq<(u32, V)>) -> bool {
    forall|i: int, j: int| 0 <= i < j < s.len() ==> (#[trigger] s[i]).0 < (#[trigger] s[j]).0
}

/// Filling and emptying slots keeps them in ascending order; a filled slot gives
/// back what it was filled with, an emptied one nothing, and no other slot
/// changes.
pub proof fn slots_are_a_map<V>(s: Seq<(u32, V)>, k: u32, v: V, other: u32)
    requires
        slots_ascending(s),
    ensures
        slots_ascending(slot_set(s, k, v)),
        slots_ascending(slot_remove(s, k)),
        slot_get(slot_set(s, k, v), k) == Some(v),
        slot_get(slot_remove(s, k), k) is None,
        other != k ==> slot_get(slot_set(s, k, v), other) == slot_get(s, other),
        other != k ==> slot_get(slot_remove(s, k), other) == slot_get(s, other),
{
    lemma_set(s, k, v, other);
    lemma_remove(s, k, other);
}

spec fn all_below<V>(s: Seq<(u32, V)>, b: u32) -> bool {
    forall|i: int| 0 <= i < s.len() ==> (#[trigger] s[i]).0 < b
}

proof fn lemma_get_absent<V>(s: Seq<(u32, V)>, k: u32)
    requires
        forall|i: int| 0 <= i < s.len() ==> (#[trigger] s[i]).0 != k,
    ensures
        slot_get(s, k) is None,
    decreases s.len(),
{
    if s.len() > 0 {
        assert(s.last() == s[s.len() - 1]);
        let t = s.drop_last();
        assert forall|i: int| 0 <= i < t.len() implies (#[trigger] t[i]).0 != k by {
            assert(t[i] == s[i]);
        }
        lemma_get_absent(t, k);
    }
}

proof fn lemma_set<V>(s: Seq<(u32, V)>, k: u32, v: V, other: u32)
    requires
        slots_ascending(s),
    ensures
        slots_ascending(slot_set(s, k, v)),
        slot_get(slot_set(s, k, v), k) == Some(v),
        other != k ==> slot_get(slot_set(s, k, v), other) == slot_get(s, other),
        forall|b: u32| b > k && #[trigger] all_below(s, b) ==> all_below(slot_set(s, k, v), b),
    decreases s.len(),
{
    let t = slot_set(s, k, v);
    assert(t.len() > 0);
    if s.len() == 0 || s.last().0 < k {
        assert(t.drop_last() =~= s);
        if s.len() > 0 {
            assert(s.last() == s[s.len() - 1]);
        }
    } else if s.last().0 == k {
        let u = s.drop_last();
        assert(t.drop_last() =~= u);
        assert(s.last() == s[s.len() - 1]);
        assert forall|i: int, j: int| 0 <= i < j < t.len() implies (#[trigger] t[i]).0 < (
        #[trigger] t[j]).0 by {
            assert(s[i].0 < s[j].0);
        }
    } else {
        let u = s.drop_last();
        assert(s.last() == s[s.len() - 1]);
        lemma_set(u, k, v, other);
        let w = slot_set(u, k, v);
        assert(t.drop_last() =~= w);
        let b = s.last().0;
        assert(all_below(u, b));
        assert forall|c: u32| c > k && #[trigger] all_below(s, c) implies all_below(t, c) by {
            assert(s[s.len() - 1].0 < c);
            assert(all_below(u, c));
            assert(all_below(w, c));
        }
    }
}

proof fn lemma_remove<V>(s: Seq<(u32, V)>, k: u32, other: u32)
    requires
        slots_ascending(s),
    ensures
        slots_ascending(slot_remove(s, k)),
        slot_get(slot_remove(s, k), k) is None,
        other != k ==> slot_get(slot_remove(s, k), other) == slot_get(s, other),
        forall|b: u32| #[trigger] all_below(s, b) ==> all_below(slot_remove(s, k), b),
    decreases s.len(),
{
    if s.len() > 0 {
        let t = slot_remove(s, k);
        let u = s.drop_last();
        assert(s.last() == s[s.len() - 1]);
        if s.last().0 == k {
            assert forall|i: int| 0 <= i < u.len() implies (#[trigger] u[i]).0 != k by {
                assert(s[i].0 < s[s.len() - 1].0);
            }
            lemma_get_absent(u, k);
        } else {
            lemma_remove(u, k, other);
            let w = slot_remove(u, k);
            assert(t.drop_last() =~= w);
            let b = s.last().0;
            assert(all_below(u, b));
            assert forall|c: u32| #[trigger] all_below(s, c) implies all_below(t, c) by {
                assert(s[s.len() - 1].0 < c);
                assert(all_below(u, c));
                assert(all_below(w, c));
            }
        }
    }
}

/// What every slot holds after one is filled or emptied.
pub proof fn lemma_every_slot<V>(s: Seq<(u32, V)>, k: u32, v: V)
    requires
        slots_ascending(s),
    ensures
        slots_ascending(slot_set(s, k, v)),
        slots_ascending(slot_remove(s, k)),
        forall|o: u32| #[trigger]
            slot_get(slot_set(s, k, v), o) == if o == k {
                Some(v)
            } else {
                slot_get(s, o)
            },
        forall|o: u32| #[trigger]
            slot_get(slot_remove(s, k), o) == if o == k {
                None
            } else {
                slot_get(s, o)
            },
{
    slots_are_a_map(s, k, v, k);
    assert forall|o: u32| #[trigger] slot_get(slot_set(s, k, v), o) == if o == k {
        Some(v)
    } else {
        slot_get(s, o)
    } by {
        slots_are_a_map(s, k, v, o);
    }
    assert forall|o: u32| #[trigger] slot_get(slot_remove(s, k), o) == if o == k {
        None
    } else {
        slot_get(s, o)
    } by {
        slots_are_a_map(s, k, v, o);
    }
}

/// Each slot holds its own entry.
pub proof fn lemma_slot_at<V>(s: Seq<(u32, V)>, i: int)
    requires
        slots_ascending(s),
        0 <= i < s.len(),
    ensures
        slot_get(s, s[i].0) == Some(s[i].1),
    decreases s.len(),
{
    if i < s.len() - 1 {
        let t = s.drop_last();
        assert(t[i] == s[i]);
        assert(s.last() == s[s.len() - 1]);
        assert(slots_ascending(t)) by {
            assert forall|a: int, b: int| 0 <= a < b < t.len() implies (#[trigger] t[a]).0
                < (#[trigger] t[b]).0 by {
                assert(t[a] == s[a] && t[b] == s[b]);
            }
        }
        lemma_slot_at(t, i);
    }
}

/// What a slot holds is an entry.
pub proof fn lemma_slot_found<V>(s: Seq<(u32, V)>, k: u32) -> (i: int)
    requires
        slot_get(s, k) is Some,
    ensures
        0 <= i < s.len(),
        s[i].0 == k,
        Some(s[i].1) == slot_get(s, k),
    decreases s.len(),
{
    if s.last().0 == k {
        s.len() - 1
    } else {
        let i = lemma_slot_found(s.drop_last(), k);
        assert(s.drop_last()[i] == s[i]);
        i
    }
}

/// Filling a slot adds at most one, and emptying one adds none.
pub proof fn lemma_slot_counts<V>(s: Seq<(u32, V)>, k: u32, v: V)
    ensures
        slot_set(s, k, v).len() <= s.len() + 1,
        slot_remove(s, k).len() <= s.len(),
    decreases s.len(),
{
    if s.len() > 0 {
        lemma_slot_counts(s.drop_last(), k, v);
    }
}

/// Emptying a filled slot and filling it again is filling it.
pub proof fn lemma_refill<V>(s: Seq<(u32, V)>, k: u32, v: V)
    requires
        slots_ascending(s),
        slot_get(s, k) is Some,
    ensures
        slot_set(slot_remove(s, k), k, v) == slot_set(s, k, v),
    decreases s.len(),
{
    let init = s.drop_last();
    let last = s.last();
    assert(last == s[s.len() - 1]);
    if last.0 == k {
        if init.len() > 0 {
            assert(init.last() == s[s.len() - 2]);
        }
    } else if last.0 < k {
        lemma_get_absent(s, k);
    } else {
        lemma_refill(init, k, v);
        let r = slot_remove(s, k);
        assert(r.drop_last() =~= slot_remove(init, k));
    }
}

/// Emptying an empty slot changes nothing.
pub proof fn lemma_remove_absent<V>(s: Seq<(u32, V)>, k: u32)
    requires
        slot_get(s, k) is None,
    ensures
        slot_remove(s, k) == s,
    decreases s.len(),
{
    if s.len() > 0 {
        lemma_remove_absent(s.drop_last(), k);
        assert(s.drop_last().push(s.last()) =~= s);
    }
}

proof fn lemma_entries_ascending<T: View>(s: Seq<(u32, T)>)
    ensures
        slots_ascending(s) <==> slots_ascending(s.map_values(|e: (u32, T)| (e.0, e.1@))),
{
    let t = s.map_values(|e: (u32, T)| (e.0, e.1@));
    if slots_ascending(t) {
        assert forall|i: int, j: int| 0 <= i < j < s.len() implies (#[trigger] s[i]).0 < (
        #[trigger] s[j]).0 by {
            assert(t[i].0 < t[j].0);
        }
    }
}

impl<T> Slots<T> {
    #[verifier::type_invariant]
    spec fn inv(self) -> bool {
        slots_ascending(self.entries@)
    }
}

impl<T: View> View for Slots<T> {
    type V = Seq<(u32, T::V)>;

    closed spec fn view(&self) -> Seq<(u32, T::V)> {
        self.entries@.map_values(|e: (u32, T)| (e.0, e.1@))
    }
}

impl<T: View> Slots<T> {
    pub fn new() -> (r: Self)
        ensures
            r@ == Seq::<(u32, T::V)>::empty(),
    {
        let r = Slots { entries: Vec::new() };
        assert(r@ =~= Seq::<(u32, T::V)>::empty());
        r
    }

    pub fn len(&self) -> (r: usize)
        ensures
            r == self@.len(),
            slots_ascending(self@),
    {
        proof {
            use_type_invariant(self);
            lemma_entries_ascending(self.entries@);
        }
        self.entries.len()
    }

    /// Fills slot `k` with `v`.
    pub fn set(&mut self, k: u32, v: T)
        ensures
            final(self)@ == slot_set(old(self)@, k, v@),
    {
        let ghost s = self@;
        proof {
            use_type_invariant(&*self);
            lemma_entries_ascending(self.entries@);
            lemma_set(s, k, v@, k);
        }
        let mut entries: Vec<(u32, T)> = Vec::new();
        std::mem::swap(&mut entries, &mut self.entries);
        let mut i: usize = entries.len();
        assert(s.take(i as int) =~= s);
        assert(s.skip(i as int) =~= Seq::empty());
        assert(slot_set(s, k, v@) =~= slot_set(s.take(i as int), k, v@) + s.skip(i as int));
        while i > 0 && entries[i - 1].0 > k
            invariant
                i <= s.len(),
                s == entries@.map_values(|e: (u32, T)| (e.0, e.1@)),
                slot_set(s, k, v@) == slot_set(s.take(i as int), k, v@) + s.skip(i as int),
            decreases i,
        {
            proof {
                let t = s.take(i as int);
                assert(t.drop_last() =~= s.take(i - 1));
                assert(t.last() == s[i - 1]);
                let a = slot_set(s.take(i - 1), k, v@);
                assert(a.push(s[i - 1]) + s.skip(i as int) =~= a + s.skip(i - 1));
            }
            i = i - 1;
        }
        let ghost t = s.take(i as int);
        if i > 0 && entries[i - 1].0 == k {
            assert(t.last() == s[i - 1]);
            entries.set(i - 1, (k, v));
            assert(entries@.map_values(|e: (u32, T)| (e.0, e.1@)) =~= t.drop_last().push((k, v@))
                + s.skip(i as int));
        } else {
            proof {
                if i > 0 {
                    assert(t.last() == s[i - 1]);
                }
            }
            entries.insert(i, (k, v));
            assert(entries@.map_values(|e: (u32, T)| (e.0, e.1@)) =~= t.push((k, v@)) + s.skip(
                i as int,
            ));
        }
        proof {
            lemma_entries_ascending(entries@);
        }
        self.entries = entries;
    }

    /// Takes out what is in slot `k`.
    pub fn remove(&mut self, k: u32) -> (r: Option<T>)
        ensures
            crate::text::opt_view(r) == slot_get(old(self)@, k),
            final(self)@ == slot_remove(old(self)@, k),
    {
        let ghost s = self@;
        proof {
            use_type_invariant(&*self);
            lemma_entries_ascending(self.entries@);
            lemma_remove(s, k, k);
        }
        let mut entries: Vec<(u32, T)> = Vec::new();
        std::mem::swap(&mut entries, &mut self.entries);
        let mut i: usize = entries.len();
        assert(s.take(i as int) =~= s);
        assert(slot_remove(s, k) =~= slot_remove(s.take(i as int), k) + s.skip(i as int));
        while i > 0
            invariant
                i <= s.len(),
                s == old(self)@,
                slots_ascending(slot_remove(s, k)),
                s == entries@.map_values(|e: (u32, T)| (e.0, e.1@)),
                slot_get(s, k) == slot_get(s.take(i as int), k),
                slot_remove(s, k) == slot_remove(s.take(i as int), k) + s.skip(i as int),
            decreases i,
        {
            let ghost t = s.take(i as int);
            assert(t.drop_last() =~= s.take(i - 1));
            assert(t.last() == s[i - 1]);
            if entries[i - 1].0 == k {
                let e = entries.remove(i - 1);
                assert(entries@.map_values(|e: (u32, T)| (e.0, e.1@)) =~= s.take(i - 1) + s.skip(
                    i as int,
                ));
                proof {
                    lemma_entries_ascending(entries@);
                }
                self.entries = entries;
                return Some(e.1);
            }
            proof {
                let a = slot_remove(s.take(i - 1), k);
                assert(a.push(s[i - 1]) + s.skip(i as int) =~= a + s.skip(i - 1));
            }
            i = i - 1;
        }
        assert(s =~= s.take(0) + s.skip(0));
        proof {
            lemma_entries_ascending(entries@);
        }
        self.entries = entries;
        None
    }

    /// Takes out the lowest slot.
    pub fn remove_first(&mut self) -> (r: Option<T>)
        ensures
            match r {
                Some(t) => old(self)@.len() > 0 && t@ == old(self)@[0].1 && final(self)@ == old(
                    self,
                )@.skip(1),
                None => old(self)@.len() == 0 && final(self)@ == old(self)@,
            },
    {
        if self.entries.len() == 0 {
            None
        } else {
            let ghost s = self@;
            proof {
                use_type_invariant(&*self);
            }
            let mut entries: Vec<(u32, T)> = Vec::new();
            std::mem::swap(&mut entries, &mut self.entries);
            let e = entries.remove(0);
            self.entries = entries;
            assert(self@ =~= s.skip(1));
            Some(e.1)
        }
    }
}

} // verus!
