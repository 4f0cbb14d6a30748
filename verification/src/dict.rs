//! A map from strings, kept in the order of its keys.

use vstd::prelude::*;

use crate::text::str_eq;

verus! {

/// Byte strings in lexicographic order.
pub open spec fn bytes_lt(a: Seq<u8>, b: Seq<u8>) -> bool
    decreases a.len(),
{
    &&& b.len() > 0
    &&& (a.len() == 0 || a[0] < b[0] || (a[0] == b[0] && bytes_lt(a.skip(1), b.skip(1))))
}

/// Strings in the order of their UTF-8 bytes.
pub open spec fn str_lt(a: Seq<char>, b: Seq<char>) -> bool {
    bytes_lt(vstd::utf8::encode_utf8(a), vstd::utf8::encode_utf8(b))
}

proof fn lemma_bytes_lt_irreflexive(a: Seq<u8>)
    ensures
        !bytes_lt(a, a),
    decreases a.len(),
{
    if a.len() > 0 {
        lemma_bytes_lt_irreflexive(a.skip(1));
    }
}

proof fn lemma_bytes_lt_transitive(a: Seq<u8>, b: Seq<u8>, c: Seq<u8>)
    requires
        bytes_lt(a, b),
        bytes_lt(b, c),
    ensures
        bytes_lt(a, c),
    decreases a.len(),
{
    if a.len() > 0 && a[0] == b[0] && b[0] == c[0] {
        lemma_bytes_lt_transitive(a.skip(1), b.skip(1), c.skip(1));
    }
}

proof fn lemma_bytes_lt_total(a: Seq<u8>, b: Seq<u8>)
    ensures
        a == b || bytes_lt(a, b) || bytes_lt(b, a),
    decreases a.len(),
{
    if a.len() > 0 && b.len() > 0 {
        lemma_bytes_lt_total(a.skip(1), b.skip(1));
        if a[0] == b[0] && a.skip(1) == b.skip(1) {
            assert(a =~= seq![a[0]] + a.skip(1));
            assert(b =~= seq![b[0]] + b.skip(1));
        }
    } else if a.len() == 0 && b.len() == 0 {
        assert(a =~= b);
    }
}

/// The order of strings is a strict total order.
pub proof fn str_order_is_total(a: Seq<char>, b: Seq<char>, c: Seq<char>)
    ensures
        !str_lt(a, a),
        str_lt(a, b) && str_lt(b, c) ==> str_lt(a, c),
        a == b || str_lt(a, b) || str_lt(b, a),
{
    let x = vstd::utf8::encode_utf8(a);
    let y = vstd::utf8::encode_utf8(b);
    let z = vstd::utf8::encode_utf8(c);
    lemma_bytes_lt_irreflexive(x);
    if bytes_lt(x, y) && bytes_lt(y, z) {
        lemma_bytes_lt_transitive(x, y, z);
    }
    lemma_bytes_lt_total(x, y);
    if x == y {
        crate::text::lemma_utf8_injective(a, b);
    }
}

/// Whether `a` comes before `b`.
pub fn str_less(a: &str, b: &str) -> (r: bool)
    ensures
        r == str_lt(a@, b@),
{
    let x = a.as_bytes();
    let y = b.as_bytes();
    let mut i: usize = 0;
    assert(x@.skip(0) =~= x@);
    assert(y@.skip(0) =~= y@);
    while i < x.len() && i < y.len()
        invariant
            i <= x@.len(),
            i <= y@.len(),
            x@ == vstd::utf8::encode_utf8(a@),
            y@ == vstd::utf8::encode_utf8(b@),
            bytes_lt(x@, y@) == bytes_lt(x@.skip(i as int), y@.skip(i as int)),
        decreases x@.len() - i,
    {
        assert(x@.skip(i as int)[0] == x@[i as int]);
        assert(y@.skip(i as int)[0] == y@[i as int]);
        if x[i] < y[i] {
            return true;
        }
        if y[i] < x[i] {
            return false;
        }
        assert(x@.skip(i as int).skip(1) =~= x@.skip(i as int + 1));
        assert(y@.skip(i as int).skip(1) =~= y@.skip(i as int + 1));
        i = i + 1;
    }
    i < y.len()
}

/// What `m` holds under `k`.
pub open spec fn lookup<V>(m: Map<Seq<char>, V>, k: Seq<char>) -> Option<V> {
    if m.dom().contains(k) {
        Some(m[k])
    } else {
        None
    }
}

/// Keys in strictly ascending order.
pub open spec fn ascending<V>(s: Seq<(Seq<char>, V)>) -> bool {
    forall|i: int, j: int|
        0 <= i < j < s.len() ==> str_lt((#[trigger] s[i]).0, (#[trigger] s[j]).0)
}

/// The map that a list of pairs stands for.
pub open spec fn pairs_map<V>(s: Seq<(Seq<char>, V)>) -> Map<Seq<char>, V> {
    Map::new(|k: Seq<char>| has_key(s, k), |k: Seq<char>| s[position(s, k)].1)
}

pub open spec fn has_key<V>(s: Seq<(Seq<char>, V)>, k: Seq<char>) -> bool {
    exists|i: int| 0 <= i < s.len() && (#[trigger] s[i]).0 == k
}

pub open spec fn position<V>(s: Seq<(Seq<char>, V)>, k: Seq<char>) -> int {
    choose|i: int| 0 <= i < s.len() && (#[trigger] s[i]).0 == k
}

/// In an ascending list a key stands at one place only.
pub proof fn lemma_position<V>(s: Seq<(Seq<char>, V)>, i: int)
    requires
        ascending(s),
        0 <= i < s.len(),
    ensures
        has_key(s, s[i].0),
        position(s, s[i].0) == i,
        pairs_map(s).dom().contains(s[i].0),
        pairs_map(s)[s[i].0] == s[i].1,
{
    let p = position(s, s[i].0);
    str_order_is_total(s[i].0, s[p].0, s[i].0);
    if p < i {
        assert(str_lt(s[p].0, s[i].0));
    } else if i < p {
        assert(str_lt(s[i].0, s[p].0));
    }
}

/// Two ascending lists that stand for the same map are the same list.
pub proof fn pairs_are_canonical<V>(s: Seq<(Seq<char>, V)>, t: Seq<(Seq<char>, V)>)
    requires
        ascending(s),
        ascending(t),
        pairs_map(s) == pairs_map(t),
    ensures
        s == t,
    decreases s.len(),
{
    if s.len() == 0 {
        if t.len() > 0 {
            lemma_position(t, 0);
            assert(has_key(s, t[0].0));
        }
        assert(s =~= t);
    } else {
        let n = s.len() - 1;
        lemma_position(s, n);
        assert(has_key(t, s[n].0));
        let m = t.len() - 1;
        lemma_position(t, m);
        assert(has_key(s, t[m].0));
        let a = position(s, t[m].0);
        let b = position(t, s[n].0);
        str_order_is_total(s[n].0, t[m].0, s[n].0);
        if a < n {
            assert(str_lt(s[a].0, s[n].0));
        }
        if b < m {
            assert(str_lt(t[b].0, t[m].0));
        }
        assert(s[n].0 == t[m].0);
        let s2 = s.drop_last();
        let t2 = t.drop_last();
        assert(pairs_map(s2) =~= pairs_map(s).remove(s[n].0)) by {
            lemma_map_drop_last(s);
        }
        assert(pairs_map(t2) =~= pairs_map(t).remove(t[m].0)) by {
            lemma_map_drop_last(t);
        }
        pairs_are_canonical(s2, t2);
        assert(s =~= s2.push(s[n]));
        assert(t =~= t2.push(t[m]));
    }
}

proof fn lemma_map_drop_last<V>(s: Seq<(Seq<char>, V)>)
    requires
        ascending(s),
        s.len() > 0,
    ensures
        pairs_map(s.drop_last()) == pairs_map(s).remove(s.last().0),
{
    let t = s.drop_last();
    let last = s.last().0;
    assert forall|k: Seq<char>| #[trigger]
        pairs_map(t).dom().contains(k) <==> pairs_map(s).remove(last).dom().contains(k) by {
        if has_key(t, k) {
            let i = position(t, k);
            assert(s[i].0 == k);
            lemma_position(s, i);
            lemma_position(s, s.len() - 1);
        }
        if has_key(s, k) && k != last {
            let i = position(s, k);
            assert(t[i].0 == k);
        }
    }
    assert forall|k: Seq<char>| #[trigger] pairs_map(t).dom().contains(k) implies pairs_map(t)[k]
        == pairs_map(s).remove(last)[k] by {
        let i = position(t, k);
        lemma_position(t, i);
        assert(s[i].0 == k);
        lemma_position(s, i);
        lemma_position(s, s.len() - 1);
    }
    assert(pairs_map(t) =~= pairs_map(s).remove(last));
}

/// The pairs of a map in the order of their keys.
pub open spec fn in_key_order<V>(m: Map<Seq<char>, V>) -> Seq<(Seq<char>, V)> {
    choose|s: Seq<(Seq<char>, V)>| ascending(s) && #[trigger] pairs_map(s) == m
}

/// There is one way to put the pairs of a map in the order of their keys.
pub proof fn key_order_is_unique<V>(s: Seq<(Seq<char>, V)>)
    requires
        ascending(s),
    ensures
        in_key_order(pairs_map(s)) == s,
{
    let t = in_key_order(pairs_map(s));
    assert(ascending(t) && pairs_map(t) == pairs_map(s));
    pairs_are_canonical(s, t);
}

/// What one more pair adds to the map.
pub proof fn lemma_pairs_take<V>(s: Seq<(Seq<char>, V)>, i: int)
    requires
        ascending(s),
        0 <= i < s.len(),
    ensures
        pairs_map(s.take(0)) == Map::<Seq<char>, V>::empty(),
        s.take(s.len() as int) == s,
        ascending(s.take(i)),
        !pairs_map(s.take(i)).dom().contains(s[i].0),
        pairs_map(s.take(i + 1)) == pairs_map(s.take(i)).insert(s[i].0, s[i].1),
{
    let t = s.take(i + 1);
    assert(t.drop_last() =~= s.take(i));
    assert(t.last() == s[i]);
    assert(ascending(t));
    lemma_map_drop_last(t);
    lemma_position(t, i);
    assert(pairs_map(t).remove(s[i].0).insert(s[i].0, s[i].1) =~= pairs_map(t));
    assert(pairs_map(s.take(0)) =~= Map::<Seq<char>, V>::empty());
    assert(s.take(s.len() as int) =~= s);
}

/// A map from strings to `T`.
#[derive(Debug, PartialEq)]
pub struct Dict<T> {
    entries: Vec<(String, T)>,
}

/// The pairs that a list of entries holds.
pub open spec fn entry_pairs<T: View>(s: Seq<(String, T)>) -> Seq<(Seq<char>, T::V)> {
    s.map_values(|e: (String, T)| (e.0@, e.1@))
}

pub open spec fn entries_ascending<T>(s: Seq<(String, T)>) -> bool {
    forall|i: int, j: int|
        0 <= i < j < s.len() ==> str_lt((#[trigger] s[i]).0@, (#[trigger] s[j]).0@)
}

impl<T> Dict<T> {
    #[verifier::type_invariant]
    spec fn inv(self) -> bool {
        entries_ascending(self.entries@)
    }
}

impl<T: View> View for Dict<T> {
    type V = Map<Seq<char>, T::V>;

    open spec fn view(&self) -> Map<Seq<char>, T::V> {
        pairs_map(self.pairs())
    }
}

impl<T: View> Dict<T> {
    /// The pairs of the map, in the order of their keys.
    pub closed spec fn pairs(&self) -> Seq<(Seq<char>, T::V)> {
        entry_pairs(self.entries@)
    }

    pub fn new() -> (r: Self)
        ensures
            r@ == Map::<Seq<char>, T::V>::empty(),
            r.pairs().len() == 0,
    {
        let r = Dict { entries: Vec::new() };
        assert(r@ =~= Map::<Seq<char>, T::V>::empty());
        r
    }

    /// How many keys there are.
    pub fn len(&self) -> (r: usize)
        ensures
            r == self.pairs().len(),
            ascending(self.pairs()),
            self.pairs() == in_key_order(self@),
    {
        proof {
            use_type_invariant(self);
            key_order_is_unique(self.pairs());
        }
        self.entries.len()
    }

    /// The key at place `i` in the order of keys.
    pub fn key(&self, i: usize) -> (r: &String)
        requires
            i < self.pairs().len(),
        ensures
            r@ == self.pairs()[i as int].0,
    {
        &self.entries[i].0
    }

    /// The value at place `i` in the order of keys.
    pub fn value(&self, i: usize) -> (r: &T)
        requires
            i < self.pairs().len(),
        ensures
            r@ == self.pairs()[i as int].1,
    {
        &self.entries[i].1
    }

    /// Whether the map is empty.
    pub fn is_empty(&self) -> (r: bool)
        ensures
            r == (self@ == Map::<Seq<char>, T::V>::empty()),
    {
        proof {
            use_type_invariant(self);
            if self.entries@.len() > 0 {
                lemma_position(self.pairs(), 0);
                assert(self@.dom().contains(self.pairs()[0].0));
            } else {
                assert(self@ =~= Map::<Seq<char>, T::V>::empty());
            }
        }
        self.entries.len() == 0
    }

    /// What the map holds under `key`.
    pub fn get(&self, key: &str) -> (r: Option<&T>)
        ensures
            crate::text::opt_view(r) == lookup(self@, key@),
    {
        proof {
            use_type_invariant(self);
        }
        let mut i: usize = 0;
        while i < self.entries.len()
            invariant
                i <= self.entries@.len(),
                entries_ascending(self.entries@),
                forall|j: int| 0 <= j < i ==> (#[trigger] self.pairs()[j]).0 != key@,
            decreases self.entries@.len() - i,
        {
            if str_eq(self.entries[i].0.as_str(), key) {
                proof {
                    lemma_position(self.pairs(), i as int);
                }
                return Some(&self.entries[i].1);
            }
            i = i + 1;
        }
        None
    }

    pub fn contains_key(&self, key: &str) -> (r: bool)
        ensures
            r == self@.dom().contains(key@),
    {
        self.get(key).is_some()
    }

    /// Sets `key` to `value`.
    pub fn insert(&mut self, key: &str, value: T)
        ensures
            final(self)@ == old(self)@.insert(key@, value@),
    {
        proof {
            use_type_invariant(&*self);
        }
        let mut v: Vec<(String, T)> = Vec::new();
        std::mem::swap(&mut v, &mut self.entries);
        let ghost before = v@;
        let mut i: usize = 0;
        while i < v.len() && str_less(v[i].0.as_str(), key)
            invariant
                i <= v@.len(),
                forall|j: int| 0 <= j < i ==> str_lt((#[trigger] v@[j]).0@, key@),
            decreases v@.len() - i,
        {
            i = i + 1;
        }
        let name = key.to_owned();
        if i < v.len() && str_eq(v[i].0.as_str(), key) {
            v.set(i, (name, value));
            proof {
                lemma_replaced(before, i as int, (name, value));
            }
        } else {
            proof {
                if i < before.len() {
                    str_order_is_total(before[i as int].0@, key@, key@);
                }
                lemma_inserted(before, i as int, (name, value));
            }
            v.insert(i, (name, value));
        }
        self.entries = v;
    }
}

impl<T: View> Dict<T> {
    /// Takes out what the map holds under `key`.
    pub fn remove(&mut self, key: &str) -> (r: Option<T>)
        ensures
            crate::text::opt_view(r) == lookup(old(self)@, key@),
            final(self)@ == old(self)@.remove(key@),
    {
        proof {
            use_type_invariant(&*self);
        }
        let mut v: Vec<(String, T)> = Vec::new();
        std::mem::swap(&mut v, &mut self.entries);
        let ghost before = v@;
        let mut i: usize = 0;
        while i < v.len()
            invariant
                i <= v@.len(),
                v@ == before,
                old(self).entries@ == before,
                entries_ascending(before),
                forall|j: int| 0 <= j < i ==> (#[trigger] before[j]).0@ != key@,
            decreases v@.len() - i,
        {
            if str_eq(v[i].0.as_str(), key) {
                proof {
                    lemma_removed(before, i as int);
                    lemma_position(entry_pairs(before), i as int);
                }
                let e = v.remove(i);
                self.entries = v;
                return Some(e.1);
            }
            i = i + 1;
        }
        proof {
            let p = entry_pairs(before);
            if has_key(p, key@) {
                let a = position(p, key@);
                assert(before[a].0@ == key@);
            }
            assert(pairs_map(p).remove(key@) =~= pairs_map(p));
        }
        self.entries = v;
        None
    }
}

proof fn lemma_removed<T: View>(s: Seq<(String, T)>, i: int)
    requires
        entries_ascending(s),
        0 <= i < s.len(),
    ensures
        entries_ascending(s.remove(i)),
        pairs_map(entry_pairs(s.remove(i))) == pairs_map(entry_pairs(s)).remove(s[i].0@),
{
    let t = s.remove(i);
    let p = entry_pairs(s);
    let q = entry_pairs(t);
    let k0 = s[i].0@;
    assert(ascending(p));
    assert forall|a: int, b: int| 0 <= a < b < t.len() implies str_lt(
        (#[trigger] t[a]).0@,
        (#[trigger] t[b]).0@,
    ) by {
        let a2 = if a < i {
            a
        } else {
            a + 1
        };
        let b2 = if b < i {
            b
        } else {
            b + 1
        };
        assert(str_lt(s[a2].0@, s[b2].0@));
    }
    assert(ascending(q));
    let less = pairs_map(p).remove(k0);
    assert forall|k: Seq<char>| #[trigger]
        pairs_map(q).dom().contains(k) <==> less.dom().contains(k) by {
        if has_key(q, k) {
            let a = position(q, k);
            let a2 = if a < i {
                a
            } else {
                a + 1
            };
            assert(p[a2].0 == k);
            lemma_position(p, a2);
            lemma_position(p, i);
        }
        if has_key(p, k) && k != k0 {
            let a = position(p, k);
            let a2 = if a < i {
                a
            } else {
                a - 1
            };
            assert(q[a2].0 == k);
        }
    }
    assert forall|k: Seq<char>| #[trigger] pairs_map(q).dom().contains(k) implies pairs_map(q)[k]
        == less[k] by {
        let a = position(q, k);
        lemma_position(q, a);
        let a2 = if a < i {
            a
        } else {
            a + 1
        };
        assert(p[a2].0 == k);
        lemma_position(p, a2);
        lemma_position(p, i);
    }
    assert(pairs_map(q) =~= less);
}

impl<T: View + Clone> Dict<T> {
    /// A copy of the map.
    pub fn copy(&self) -> (r: Self)
        requires
            crate::text::clones_faithfully::<T>(),
        ensures
            r@ == self@,
            r.pairs() == self.pairs(),
    {
        proof {
            use_type_invariant(self);
        }
        let mut out: Vec<(String, T)> = Vec::new();
        let mut i: usize = 0;
        while i < self.entries.len()
            invariant
                i <= self.entries@.len(),
                out@.len() == i,
                crate::text::clones_faithfully::<T>(),
                forall|j: int|
                    0 <= j < i ==> (#[trigger] out@[j]).0@ == self.entries@[j].0@ && out@[j].1@
                        == self.entries@[j].1@,
            decreases self.entries@.len() - i,
        {
            let t = self.entries[i].1.clone();
            assert(cloned::<T>(self.entries@[i as int].1, t));
            out.push((self.entries[i].0.clone(), t));
            i = i + 1;
        }
        assert forall|a: int, b: int| 0 <= a < b < out@.len() implies str_lt(
            (#[trigger] out@[a]).0@,
            (#[trigger] out@[b]).0@,
        ) by {
            assert(str_lt(self.entries@[a].0@, self.entries@[b].0@));
        }
        let r = Dict { entries: out };
        assert(r.pairs() =~= self.pairs());
        r
    }
}

proof fn lemma_replaced<T: View>(s: Seq<(String, T)>, i: int, e: (String, T))
    requires
        entries_ascending(s),
        0 <= i < s.len(),
        s[i].0@ == e.0@,
    ensures
        entries_ascending(s.update(i, e)),
        pairs_map(entry_pairs(s.update(i, e))) == pairs_map(entry_pairs(s)).insert(e.0@, e.1@),
{
    let t = s.update(i, e);
    let p = entry_pairs(s);
    let q = entry_pairs(t);
    assert(ascending(p));
    assert forall|a: int, b: int| 0 <= a < b < t.len() implies str_lt(
        (#[trigger] t[a]).0@,
        (#[trigger] t[b]).0@,
    ) by {
        assert(str_lt(s[a].0@, s[b].0@));
    }
    assert(ascending(q));
    lemma_position(q, i);
    let old_map = pairs_map(p).insert(e.0@, e.1@);
    assert forall|k: Seq<char>| #[trigger]
        pairs_map(q).dom().contains(k) <==> old_map.dom().contains(k) by {
        if has_key(q, k) {
            let a = position(q, k);
            assert(p[a].0 == k);
        }
        if has_key(p, k) {
            let a = position(p, k);
            assert(q[a].0 == k);
        }
    }
    assert forall|k: Seq<char>| #[trigger] pairs_map(q).dom().contains(k) implies pairs_map(q)[k]
        == old_map[k] by {
        let a = position(q, k);
        lemma_position(q, a);
        lemma_position(p, a);
        assert(p[a].0 == k);
    }
    assert(pairs_map(q) =~= old_map);
}

proof fn lemma_inserted<T: View>(s: Seq<(String, T)>, i: int, e: (String, T))
    requires
        entries_ascending(s),
        0 <= i <= s.len(),
        forall|j: int| 0 <= j < i ==> str_lt((#[trigger] s[j]).0@, e.0@),
        i < s.len() ==> str_lt(e.0@, s[i].0@),
    ensures
        entries_ascending(s.insert(i, e)),
        pairs_map(entry_pairs(s.insert(i, e))) == pairs_map(entry_pairs(s)).insert(e.0@, e.1@),
{
    let t = s.insert(i, e);
    let p = entry_pairs(s);
    let q = entry_pairs(t);
    assert(ascending(p));
    assert forall|a: int, b: int| 0 <= a < b < t.len() implies str_lt(
        (#[trigger] t[a]).0@,
        (#[trigger] t[b]).0@,
    ) by {
        if a < i && b < i {
            assert(str_lt(s[a].0@, s[b].0@));
        } else if a < i && b > i {
            assert(str_lt(s[a].0@, s[b - 1].0@));
        } else if a == i {
            if b - 1 > i {
                assert(str_lt(s[i].0@, s[b - 1].0@));
                str_order_is_total(e.0@, s[i].0@, s[b - 1].0@);
            }
        } else if a > i {
            assert(str_lt(s[a - 1].0@, s[b - 1].0@));
        }
    }
    assert(ascending(q));
    lemma_position(q, i);
    let new_map = pairs_map(p).insert(e.0@, e.1@);
    assert forall|k: Seq<char>| #[trigger]
        pairs_map(q).dom().contains(k) <==> new_map.dom().contains(k) by {
        if has_key(q, k) {
            let a = position(q, k);
            if a < i {
                assert(p[a].0 == k);
            } else if a > i {
                assert(p[a - 1].0 == k);
            }
        }
        if has_key(p, k) {
            let a = position(p, k);
            if a < i {
                assert(q[a].0 == k);
            } else {
                assert(q[a + 1].0 == k);
            }
        }
    }
    assert forall|k: Seq<char>| #[trigger] pairs_map(q).dom().contains(k) implies pairs_map(q)[k]
        == new_map[k] by {
        let a = position(q, k);
        lemma_position(q, a);
        if a < i {
            assert(p[a].0 == k);
            lemma_position(p, a);
            assert(str_lt(q[a].0, q[i].0));
            str_order_is_total(k, e.0@, k);
        } else if a > i {
            assert(p[a - 1].0 == k);
            lemma_position(p, a - 1);
            assert(str_lt(q[i].0, q[a].0));
            str_order_is_total(k, e.0@, k);
        }
    }
    assert(pairs_map(q) =~= new_map);
}

} // verus!
