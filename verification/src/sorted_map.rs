//! A map kept as a vector that is sorted by key.

use vstd::prelude::*;

verus! {

/// A key with a rank: keys of the same rank are the same key.
pub trait MapKey: Copy + Sized {
    /// The rank by which keys are ordered.
    spec fn rank(self) -> int;

    /// Computes the rank.
    fn rank_of(&self) -> (r: u128)
        ensures
            r == self.rank(),
    ;

    /// The rank tells keys apart.
    proof fn rank_distinct(a: Self, b: Self)
        requires
            a.rank() == b.rank(),
        ensures
            a == b,
    ;
}

impl MapKey for i32 {
    open spec fn rank(self) -> int {
        self + 0x8000_0000
    }

    fn rank_of(&self) -> (r: u128) {
        (*self as i64 + 0x8000_0000) as u128
    }

    proof fn rank_distinct(a: i32, b: i32) {
    }
}

impl MapKey for u32 {
    open spec fn rank(self) -> int {
        self as int
    }

    fn rank_of(&self) -> (r: u128) {
        *self as u128
    }

    proof fn rank_distinct(a: u32, b: u32) {
    }
}

/// Whether the keys stand in strictly ascending order.
pub open spec fn ascending<K: MapKey, V>(s: Seq<(K, V)>) -> bool {
    forall|i: int, j: int| 0 <= i < j < s.len() ==> (#[trigger] s[i]).0.rank() < (#[trigger] s[j]).0.rank()
}

/// Whether `k` stands at position `i`.
pub open spec fn key_at<K: MapKey, V>(s: Seq<(K, V)>, k: K, i: int) -> bool {
    0 <= i < s.len() && s[i].0 == k
}

/// Whether `k` is one of the keys.
pub open spec fn has_key<K: MapKey, V>(s: Seq<(K, V)>, k: K) -> bool {
    exists|i: int| key_at(s, k, i)
}

/// The map that the pairs make up.
pub open spec fn map_of<K: MapKey, V>(s: Seq<(K, V)>) -> Map<K, V> {
    Map::new(|k: K| has_key(s, k), |k: K| s[choose|i: int| key_at(s, k, i)].1)
}

/// The pairs of a map in ascending order of the keys.
pub open spec fn sorted_pairs<K: MapKey, V>(m: Map<K, V>) -> Seq<(K, V)> {
    choose|s: Seq<(K, V)>| #[trigger] ascending(s) && map_of(s) == m
}

/// Whether the pairs of a map can be listed, as those of every `SortedMap` can.
pub open spec fn listable<K: MapKey, V>(m: Map<K, V>) -> bool {
    ascending(sorted_pairs(m)) && map_of(sorted_pairs(m)) == m
}

/// Only one ascending sequence makes up a map.
pub proof fn lemma_sorted_pairs<K: MapKey, V>(s: Seq<(K, V)>)
    requires
        ascending(s),
    ensures
        sorted_pairs(map_of(s)) == s,
{
    let t = sorted_pairs(map_of(s));
    assert(ascending(t) && map_of(t) == map_of(s));
    lemma_ascending_unique(s, t);
}

proof fn lemma_ascending_unique<K: MapKey, V>(a: Seq<(K, V)>, b: Seq<(K, V)>)
    requires
        ascending(a),
        ascending(b),
        map_of(a) == map_of(b),
    ensures
        a == b,
    decreases a.len(),
{
    if a.len() == 0 {
        if b.len() > 0 {
            lemma_key_at(b, 0);
            let j = choose|j: int| key_at(a, b[0].0, j);
            assert(has_key(a, b[0].0));
        }
        assert(a =~= b);
    } else {
        let n = a.len() - 1;
        lemma_key_at(a, n);
        assert(has_key(b, a[n].0));
        let m = b.len() - 1;
        let i = choose|i: int| key_at(b, a[n].0, i);
        assert(b.len() > 0);
        lemma_key_at(b, m);
        assert(has_key(a, b[m].0));
        let j = choose|j: int| key_at(a, b[m].0, j);
        if i < m {
            assert(b[i].0.rank() < b[m].0.rank());
        }
        if j < n {
            assert(a[j].0.rank() < a[n].0.rank());
        }
        assert(a[n].0 == b[m].0);
        lemma_key_at(b, m);
        assert(a[n].1 == b[m].1);
        lemma_removed(a, n);
        lemma_removed(b, m);
        assert(a.remove(n) =~= a.drop_last());
        assert(b.remove(m) =~= b.drop_last());
        lemma_ascending_unique(a.drop_last(), b.drop_last());
        assert(a =~= a.drop_last().push(a[n]));
        assert(b =~= b.drop_last().push(b[m]));
    }
}

/// In an ascending sequence a key stands at one position only.
pub proof fn lemma_key_at<K: MapKey, V>(s: Seq<(K, V)>, i: int)
    requires
        ascending(s),
        0 <= i < s.len(),
    ensures
        map_of(s).contains_key(s[i].0),
        map_of(s)[s[i].0] == s[i].1,
{
    let k = s[i].0;
    assert(key_at(s, k, i));
    let j = choose|j: int| key_at(s, k, j);
    if j < i {
        assert(s[j].0.rank() < s[i].0.rank());
    } else if i < j {
        assert(s[i].0.rank() < s[j].0.rank());
    }
}

/// The map with each value replaced by its view.
pub open spec fn viewed<K, V: View>(m: Map<K, V>) -> Map<K, V::V> {
    Map::new(|k: K| m.contains_key(k), |k: K| m[k]@)
}

/// The pairs with each value replaced by its view.
pub open spec fn viewed_pairs<K, V: View>(s: Seq<(K, V)>) -> Seq<(K, V::V)> {
    Seq::new(s.len(), |i: int| (s[i].0, s[i].1@))
}

/// The order of the pairs does not depend on whether the values are viewed.
pub proof fn lemma_viewed_pairs<K: MapKey, V: View>(s: Seq<(K, V)>)
    requires
        ascending(s),
    ensures
        ascending(viewed_pairs(s)),
        map_of(viewed_pairs(s)) == viewed(map_of(s)),
        sorted_pairs(viewed(map_of(s))) == viewed_pairs(s),
{
    let t = viewed_pairs(s);
    assert forall|i: int, j: int| 0 <= i < j < t.len() implies (#[trigger] t[i]).0.rank() < (
    #[trigger] t[j]).0.rank() by {
        assert(s[i].0.rank() < s[j].0.rank());
    }
    assert forall|k: K| has_key(t, k) == has_key(s, k) by {
        if has_key(t, k) {
            let i = choose|i: int| key_at(t, k, i);
            assert(key_at(s, k, i));
        }
        if has_key(s, k) {
            let i = choose|i: int| key_at(s, k, i);
            assert(key_at(t, k, i));
        }
    }
    assert forall|k: K| has_key(t, k) implies map_of(t)[k] == viewed(map_of(s))[k] by {
        let i = choose|i: int| key_at(t, k, i);
        lemma_key_at(t, i);
        lemma_key_at(s, i);
    }
    assert(map_of(t) =~= viewed(map_of(s)));
    lemma_sorted_pairs(t);
}

/// The pairs of a map whose keys rank below `n`.
spec fn pairs_below<V>(m: Map<i32, V>, n: int) -> Seq<(i32, V)>
    decreases n,
{
    if n <= 0 {
        Seq::empty()
    } else {
        let k = (n - 1 - 0x8000_0000) as i32;
        if m.contains_key(k) {
            pairs_below(m, n - 1).push((k, m[k]))
        } else {
            pairs_below(m, n - 1)
        }
    }
}

proof fn lemma_pairs_below<V>(m: Map<i32, V>, n: int)
    requires
        0 <= n <= 0x1_0000_0000,
    ensures
        ascending(pairs_below(m, n)),
        forall|i: int|
            0 <= i < pairs_below(m, n).len() ==> {
                let pair = #[trigger] pairs_below(m, n)[i];
                pair.0.rank() < n && m.contains_key(pair.0) && pair.1 == m[pair.0]
            },
        forall|k: i32|
            m.contains_key(k) && k.rank() < n ==> #[trigger] has_key(pairs_below(m, n), k),
    decreases n,
{
    if n > 0 {
        lemma_pairs_below(m, n - 1);
        let before = pairs_below(m, n - 1);
        let all = pairs_below(m, n);
        let last = (n - 1 - 0x8000_0000) as i32;
        assert forall|k: i32| m.contains_key(k) && k.rank() < n implies #[trigger] has_key(
            all,
            k,
        ) by {
            if k == last {
                assert(key_at(all, k, all.len() - 1));
            } else {
                assert(has_key(before, k));
                let i = choose|i: int| key_at(before, k, i);
                assert(key_at(all, k, i));
            }
        }
        assert forall|i: int| 0 <= i < all.len() implies {
            let pair = #[trigger] all[i];
            pair.0.rank() < n && m.contains_key(pair.0) && pair.1 == m[pair.0]
        } by {
            if i < before.len() {
                assert(all[i] == before[i]);
            }
        }
        assert forall|i: int, j: int| 0 <= i < j < all.len() implies (
        #[trigger] all[i]).0.rank() < (#[trigger] all[j]).0.rank() by {
            assert(all[i] == before[i]);
            if j < before.len() {
                assert(all[j] == before[j]);
            }
        }
    }
}

/// The pairs of every map with `i32` keys can be listed.
pub proof fn lemma_listable<V>(m: Map<i32, V>)
    ensures
        listable(m),
{
    let s = pairs_below(m, 0x1_0000_0000);
    lemma_pairs_below(m, 0x1_0000_0000);
    assert forall|k: i32| has_key(s, k) == m.contains_key(k) by {
        if has_key(s, k) {
            let i = choose|i: int| key_at(s, k, i);
            assert(m.contains_key(s[i].0));
        }
    }
    assert forall|k: i32| has_key(s, k) implies map_of(s)[k] == m[k] by {
        let i = choose|i: int| key_at(s, k, i);
        lemma_key_at(s, i);
    }
    assert(map_of(s) =~= m);
    lemma_sorted_pairs(s);
}

/// A map with at most one value per key, kept in ascending order of the keys.
pub struct SortedMap<K: MapKey, V> {
    entries: Vec<(K, V)>,
}

impl<K: MapKey, V> View for SortedMap<K, V> {
    type V = Map<K, V>;

    closed spec fn view(&self) -> Map<K, V> {
        map_of(self.entries@)
    }
}

impl<K: MapKey, V> SortedMap<K, V> {
    #[verifier::type_invariant]
    closed spec fn inv(&self) -> bool {
        ascending(self.entries@)
    }

    /// The empty map.
    pub fn new() -> (r: Self)
        ensures
            r@ == Map::<K, V>::empty(),
    {
        let r = SortedMap { entries: Vec::new() };
        proof {
            assert(map_of(r.entries@) =~= Map::<K, V>::empty());
        }
        r
    }

    /// How many pairs there are.
    pub fn len(&self) -> (r: usize)
        ensures
            r == sorted_pairs(self@).len(),
    {
        self.entries().len()
    }

    /// Whether there is no pair.
    pub fn is_empty(&self) -> (r: bool)
        ensures
            r == (self@ == Map::<K, V>::empty()),
    {
        proof {
            if self.entries@.len() == 0 {
                assert(self@ =~= Map::<K, V>::empty());
            } else {
                assert(key_at(self.entries@, self.entries@[0].0, 0));
                assert(self@.contains_key(self.entries@[0].0));
            }
        }
        self.entries.len() == 0
    }

    /// The pairs in ascending order.
    pub fn entries(&self) -> (r: &Vec<(K, V)>)
        ensures
            r@ == sorted_pairs(self@),
            ascending(r@),
            map_of(r@) == self@,
    {
        proof {
            use_type_invariant(self);
            lemma_sorted_pairs(self.entries@);
        }
        &self.entries
    }

    /// The first position whose key does not rank below `k`.
    fn lower_bound(entries: &Vec<(K, V)>, k: &K) -> (r: usize)
        requires
            ascending(entries@),
        ensures
            r <= entries.len(),
            forall|i: int| 0 <= i < r ==> (#[trigger] entries@[i]).0.rank() < k.rank(),
            forall|i: int| r <= i < entries.len() ==> (#[trigger] entries@[i]).0.rank() >= k.rank(),
    {
        let rank: u128 = k.rank_of();
        let mut lo: usize = 0;
        let mut hi: usize = entries.len();
        while lo < hi
            invariant
                lo <= hi <= entries.len(),
                rank == k.rank(),
                ascending(entries@),
                forall|i: int| 0 <= i < lo ==> (#[trigger] entries@[i]).0.rank() < rank,
                forall|i: int| hi <= i < entries.len() ==> (#[trigger] entries@[i]).0.rank() >= rank,
            decreases hi - lo,
        {
            let mid: usize = lo + (hi - lo) / 2;
            if entries[mid].0.rank_of() < rank {
                lo = mid + 1;
            } else {
                hi = mid;
            }
        }
        lo
    }

    /// Whether the key at the lower bound is `k` itself.
    fn hit(entries: &Vec<(K, V)>, at: usize, k: &K) -> (r: bool)
        requires
            ascending(entries@),
            at <= entries.len(),
            forall|i: int| 0 <= i < at ==> (#[trigger] entries@[i]).0.rank() < k.rank(),
            forall|i: int| at <= i < entries.len() ==> (#[trigger] entries@[i]).0.rank() >= k.rank(),
        ensures
            r == has_key(entries@, *k),
            r ==> at < entries.len() && entries@[at as int].0 == *k,
    {
        let r: bool = at < entries.len() && entries[at].0.rank_of() == k.rank_of();
        proof {
            if r {
                K::rank_distinct(entries@[at as int].0, *k);
                assert(key_at(entries@, *k, at as int));
            } else if has_key(entries@, *k) {
                let i = choose|i: int| key_at(entries@, *k, i);
                if i > at {
                    assert(entries@[at as int].0.rank() < entries@[i].0.rank());
                }
                assert(false);
            }
        }
        r
    }

    /// The value of a key.
    pub fn get(&self, k: &K) -> (r: Option<&V>)
        ensures
            match r {
                Some(v) => self@.contains_key(*k) && self@[*k] == *v,
                None => !self@.contains_key(*k),
            },
    {
        proof {
            use_type_invariant(self);
        }
        let at: usize = Self::lower_bound(&self.entries, k);
        if Self::hit(&self.entries, at, k) {
            proof {
                lemma_key_at(self.entries@, at as int);
            }
            Some(&self.entries[at].1)
        } else {
            None
        }
    }

    /// Whether there is a value for the key.
    pub fn contains_key(&self, k: &K) -> (r: bool)
        ensures
            r == self@.contains_key(*k),
    {
        self.get(k).is_some()
    }

    /// Sets the value of a key.
    pub fn insert(&mut self, k: K, v: V)
        ensures
            final(self)@ == old(self)@.insert(k, v),
    {
        proof {
            use_type_invariant(&*self);
        }
        let ghost before = self.entries@;
        let mut entries: Vec<(K, V)> = Vec::new();
        std::mem::swap(&mut entries, &mut self.entries);
        let at: usize = Self::lower_bound(&entries, &k);
        if Self::hit(&entries, at, &k) {
            entries.set(at, (k, v));
            proof {
                lemma_replaced(before, at as int, v);
                assert(entries@ =~= before.update(at as int, (k, v)));
            }
        } else {
            entries.insert(at, (k, v));
            proof {
                lemma_inserted(before, at as int, k, v);
            }
        }
        self.entries = entries;
    }

    /// Takes the value of a key out of the map.
    pub fn remove(&mut self, k: &K) -> (r: Option<V>)
        ensures
            final(self)@ == old(self)@.remove(*k),
            match r {
                Some(v) => old(self)@.contains_key(*k) && old(self)@[*k] == v,
                None => !old(self)@.contains_key(*k),
            },
    {
        proof {
            use_type_invariant(&*self);
        }
        let ghost before = self.entries@;
        let mut entries: Vec<(K, V)> = Vec::new();
        std::mem::swap(&mut entries, &mut self.entries);
        let at: usize = Self::lower_bound(&entries, k);
        if Self::hit(&entries, at, k) {
            let pair: (K, V) = entries.remove(at);
            proof {
                lemma_key_at(before, at as int);
                lemma_removed(before, at as int);
            }
            self.entries = entries;
            Some(pair.1)
        } else {
            self.entries = entries;
            proof {
                assert(map_of(before) =~= map_of(before).remove(*k));
            }
            None
        }
    }
}

impl<K: MapKey, V> SortedMap<K, V> {
    /// Drops every pair whose key is not among `keys`.
    pub fn retain_keys(&mut self, keys: &SortedMap<K, ()>)
        ensures
            final(self)@ == old(self)@.restrict(keys@.dom()),
    {
        proof {
            use_type_invariant(&*self);
        }
        let ghost before = self.entries@;
        let mut entries: Vec<(K, V)> = Vec::new();
        std::mem::swap(&mut entries, &mut self.entries);
        let mut i: usize = entries.len();
        proof {
            assert(entries@.take(i as int) =~= before.take(i as int));
        }
        while i > 0
            invariant
                i <= entries.len(),
                i <= before.len(),
                ascending(entries@),
                ascending(before),
                entries@.take(i as int) == before.take(i as int),
                forall|k: K| #[trigger]
                    map_of(entries@).contains_key(k) ==> map_of(before).contains_key(k)
                        && map_of(entries@)[k] == map_of(before)[k],
                forall|k: K|
                    map_of(before).contains_key(k) && keys@.contains_key(k) ==> #[trigger] map_of(
                        entries@,
                    ).contains_key(k),
                forall|j: int|
                    i <= j < entries.len() ==> keys@.contains_key((#[trigger] entries@[j]).0),
            decreases i,
        {
            let ghost mid = entries@;
            i -= 1;
            proof {
                assert(entries@.take(i as int) =~= entries@.take(i + 1).take(i as int));
                assert(before.take(i as int) =~= before.take(i + 1).take(i as int));
            }
            if !keys.contains_key(&entries[i].0) {
                let _ = entries.remove(i);
                proof {
                    lemma_removed(mid, i as int);
                    assert(entries@ =~= mid.remove(i as int));
                    assert(entries@.take(i as int) =~= mid.take(i as int));
                    assert forall|j: int| i <= j < entries.len() implies keys@.contains_key(
                        (#[trigger] entries@[j]).0,
                    ) by {
                        assert(entries@[j] == mid[j + 1]);
                    }
                }
            }
        }
        proof {
            let m = map_of(entries@);
            let r = map_of(before).restrict(keys@.dom());
            assert forall|k: K| m.contains_key(k) == r.contains_key(k) by {
                if m.contains_key(k) {
                    let j = choose|j: int| key_at(entries@, k, j);
                    assert(keys@.contains_key(entries@[j].0));
                }
            }
            assert(m =~= r);
        }
        self.entries = entries;
    }
}

impl<K: MapKey, V: Copy> SortedMap<K, V> {
    /// A copy of the map.
    pub fn copy(&self) -> (r: Self)
        ensures
            r@ == self@,
    {
        proof {
            use_type_invariant(self);
        }
        let mut entries: Vec<(K, V)> = Vec::new();
        let mut i: usize = 0;
        while i < self.entries.len()
            invariant
                i <= self.entries.len(),
                entries@ == self.entries@.take(i as int),
            decreases self.entries.len() - i,
        {
            let pair: (K, V) = self.entries[i];
            entries.push(pair);
            i += 1;
            proof {
                assert(self.entries@.take(i as int) =~= self.entries@.take(i - 1).push(
                    self.entries@[i - 1],
                ));
            }
        }
        proof {
            assert(entries@ =~= self.entries@);
        }
        SortedMap { entries }
    }

    /// Takes in the pairs of another map, whose values count before those that
    /// were there.
    pub fn extend(&mut self, other: &Self)
        ensures
            final(self)@ == old(self)@.union_prefer_right(other@),
    {
        let entries: &Vec<(K, V)> = other.entries();
        let ghost before = self@;
        let mut i: usize = 0;
        proof {
            assert(before.union_prefer_right(map_of(entries@.take(0))) =~= before);
        }
        while i < entries.len()
            invariant
                i <= entries.len(),
                ascending(entries@),
                self@ == before.union_prefer_right(map_of(entries@.take(i as int))),
            decreases entries.len() - i,
        {
            let (k, v): (K, V) = entries[i];
            proof {
                lemma_prefix_grows(entries@, i as int);
            }
            self.insert(k, v);
            i += 1;
            proof {
                assert(self@ =~= before.union_prefer_right(map_of(entries@.take(i as int))));
            }
        }
        proof {
            assert(entries@.take(i as int) =~= entries@);
        }
    }
}

/// One more pair of an ascending sequence adds its key to the map.
proof fn lemma_prefix_grows<K: MapKey, V>(s: Seq<(K, V)>, i: int)
    requires
        ascending(s),
        0 <= i < s.len(),
    ensures
        map_of(s.take(i + 1)) == map_of(s.take(i)).insert(s[i].0, s[i].1),
{
    let a = s.take(i);
    let k = s[i].0;
    assert(ascending(a)) by {
        assert forall|x: int, y: int| 0 <= x < y < a.len() implies (#[trigger] a[x]).0.rank() < (
        #[trigger] a[y]).0.rank() by {
            assert(s[x].0.rank() < s[y].0.rank());
        }
    }
    assert(!has_key(a, k)) by {
        if has_key(a, k) {
            let j = choose|j: int| key_at(a, k, j);
            assert(s[j].0.rank() < s[i].0.rank());
        }
    }
    assert forall|j: int| 0 <= j < i implies (#[trigger] a[j]).0.rank() < k.rank() by {
        assert(s[j].0.rank() < s[i].0.rank());
    }
    lemma_inserted(a, i, k, s[i].1);
    assert(a.insert(i, (k, s[i].1)) =~= s.take(i + 1));
}

proof fn lemma_replaced<K: MapKey, V>(s: Seq<(K, V)>, at: int, v: V)
    requires
        ascending(s),
        0 <= at < s.len(),
    ensures
        ascending(s.update(at, (s[at].0, v))),
        map_of(s.update(at, (s[at].0, v))) == map_of(s).insert(s[at].0, v),
{
    let k = s[at].0;
    let t = s.update(at, (k, v));
    assert(ascending(t)) by {
        assert forall|i: int, j: int| 0 <= i < j < t.len() implies (#[trigger] t[i]).0.rank() < (
        #[trigger] t[j]).0.rank() by {
            assert(s[i].0.rank() < s[j].0.rank());
        }
    }
    assert forall|x: K| has_key(t, x) == has_key(s, x) by {
        if has_key(t, x) {
            let i = choose|i: int| key_at(t, x, i);
            assert(key_at(s, x, i));
        }
        if has_key(s, x) {
            let i = choose|i: int| key_at(s, x, i);
            assert(key_at(t, x, i));
        }
    }
    assert(key_at(s, k, at));
    assert(has_key(s, k));
    assert forall|x: K| has_key(t, x) implies map_of(t)[x] == map_of(s).insert(k, v)[x] by {
        let i = choose|i: int| key_at(t, x, i);
        lemma_key_at(t, i);
        lemma_key_at(s, i);
        lemma_key_at(t, at);
    }
    assert(map_of(t) =~= map_of(s).insert(k, v));
}

proof fn lemma_inserted<K: MapKey, V>(s: Seq<(K, V)>, at: int, k: K, v: V)
    requires
        ascending(s),
        0 <= at <= s.len(),
        !has_key(s, k),
        forall|i: int| 0 <= i < at ==> (#[trigger] s[i]).0.rank() < k.rank(),
        forall|i: int| at <= i < s.len() ==> (#[trigger] s[i]).0.rank() >= k.rank(),
    ensures
        ascending(s.insert(at, (k, v))),
        map_of(s.insert(at, (k, v))) == map_of(s).insert(k, v),
{
    let t = s.insert(at, (k, v));
    assert forall|i: int| at <= i < s.len() implies (#[trigger] s[i]).0.rank() > k.rank() by {
        if s[i].0.rank() == k.rank() {
            K::rank_distinct(s[i].0, k);
            assert(key_at(s, k, i));
        }
    }
    assert(ascending(t)) by {
        assert forall|i: int, j: int| 0 <= i < j < t.len() implies (#[trigger] t[i]).0.rank() < (
        #[trigger] t[j]).0.rank() by {
            let a = if i < at {
                i
            } else {
                i - 1
            };
            let b = if j < at {
                j
            } else {
                j - 1
            };
            if i != at {
                assert(t[i] == s[a]);
            }
            if j != at {
                assert(t[j] == s[b]);
            }
        }
    }
    assert(t[at] == (k, v));
    assert(key_at(t, k, at));
    assert forall|x: K| has_key(t, x) == (has_key(s, x) || x == k) by {
        if has_key(t, x) {
            let i = choose|i: int| key_at(t, x, i);
            if i < at {
                assert(key_at(s, x, i));
            } else if i > at {
                assert(key_at(s, x, i - 1));
            }
        }
        if has_key(s, x) {
            let i = choose|i: int| key_at(s, x, i);
            if i < at {
                assert(key_at(t, x, i));
            } else {
                assert(key_at(t, x, i + 1));
            }
        }
    }
    assert forall|x: K| has_key(t, x) implies map_of(t)[x] == map_of(s).insert(k, v)[x] by {
        lemma_key_at(t, at);
        if x != k {
            let i = choose|i: int| key_at(s, x, i);
            lemma_key_at(s, i);
            if i < at {
                lemma_key_at(t, i);
            } else {
                lemma_key_at(t, i + 1);
            }
        }
    }
    assert(map_of(t) =~= map_of(s).insert(k, v));
}

proof fn lemma_removed<K: MapKey, V>(s: Seq<(K, V)>, at: int)
    requires
        ascending(s),
        0 <= at < s.len(),
    ensures
        ascending(s.remove(at)),
        map_of(s.remove(at)) == map_of(s).remove(s[at].0),
{
    let k = s[at].0;
    let t = s.remove(at);
    assert(ascending(t)) by {
        assert forall|i: int, j: int| 0 <= i < j < t.len() implies (#[trigger] t[i]).0.rank() < (
        #[trigger] t[j]).0.rank() by {
            let a = if i < at {
                i
            } else {
                i + 1
            };
            let b = if j < at {
                j
            } else {
                j + 1
            };
            assert(t[i] == s[a] && t[j] == s[b]);
        }
    }
    assert forall|x: K| has_key(t, x) == (has_key(s, x) && x != k) by {
        if has_key(t, x) {
            let i = choose|i: int| key_at(t, x, i);
            let a = if i < at {
                i
            } else {
                i + 1
            };
            assert(key_at(s, x, a));
            if x == k {
                if a < at {
                    assert(s[a].0.rank() < s[at].0.rank());
                } else {
                    assert(s[at].0.rank() < s[a].0.rank());
                }
            }
        }
        if has_key(s, x) && x != k {
            let i = choose|i: int| key_at(s, x, i);
            if i < at {
                assert(key_at(t, x, i));
            } else {
                assert(key_at(t, x, i - 1));
            }
        }
    }
    assert forall|x: K| has_key(t, x) implies map_of(t)[x] == map_of(s).remove(k)[x] by {
        let i = choose|i: int| key_at(s, x, i);
        lemma_key_at(s, i);
        if i < at {
            lemma_key_at(t, i);
        } else {
            lemma_key_at(t, i - 1);
        }
    }
    assert(map_of(t) =~= map_of(s).remove(k));
}

/// Where a key belongs among ascending pairs: behind those that rank below it.
spec fn place_for<K: MapKey, V>(s: Seq<(K, V)>, k: K) -> int
    decreases s.len(),
{
    if s.len() == 0 || s.last().0.rank() < k.rank() {
        s.len() as int
    } else {
        place_for(s.drop_last(), k)
    }
}

proof fn lemma_place_for<K: MapKey, V>(s: Seq<(K, V)>, k: K)
    requires
        ascending(s),
    ensures
        0 <= place_for(s, k) <= s.len(),
        forall|i: int| 0 <= i < place_for(s, k) ==> (#[trigger] s[i]).0.rank() < k.rank(),
        forall|i: int| place_for(s, k) <= i < s.len() ==> (#[trigger] s[i]).0.rank() >= k.rank(),
    decreases s.len(),
{
    if s.len() > 0 {
        let head = s.drop_last();
        assert(s[s.len() - 1] == s.last());
        if s.last().0.rank() < k.rank() {
            assert forall|i: int| 0 <= i < s.len() implies (#[trigger] s[i]).0.rank()
                < k.rank() by {
                if i < s.len() - 1 {
                    assert(s[i].0.rank() < s[s.len() - 1].0.rank());
                }
            }
        } else {
            assert forall|i: int, j: int| 0 <= i < j < head.len() implies (
            #[trigger] head[i]).0.rank() < (#[trigger] head[j]).0.rank() by {
                assert(s[i].0.rank() < s[j].0.rank());
            }
            lemma_place_for(head, k);
            assert forall|i: int| 0 <= i < place_for(s, k) implies (#[trigger] s[i]).0.rank()
                < k.rank() by {
                assert(head[i] == s[i]);
            }
            assert forall|i: int| place_for(s, k) <= i < s.len() implies (
            #[trigger] s[i]).0.rank() >= k.rank() by {
                if i < head.len() {
                    assert(head[i] == s[i]);
                }
            }
        }
    }
}

/// The pairs of every finite map can be listed: each key stands in the list once, with its
/// value, and no other one does.
pub proof fn finite_map_is_listed<K: MapKey, V>(m: Map<K, V>)
    requires
        m.dom().finite(),
    ensures
        listable(m),
        sorted_pairs(m).len() == m.dom().len(),
        forall|k: K| #[trigger] m.contains_key(k) ==> sorted_pairs(m).contains((k, m[k])),
        forall|i: int|
            0 <= i < sorted_pairs(m).len() ==> m.contains_key((#[trigger] sorted_pairs(m)[i]).0)
                && m[sorted_pairs(m)[i].0] == sorted_pairs(m)[i].1,
    decreases m.dom().len(),
{
    if m.dom().len() == 0 {
        let s = Seq::<(K, V)>::empty();
        assert(m.dom() =~= Set::<K>::empty());
        assert(map_of(s) =~= m);
        lemma_sorted_pairs(s);
    } else {
        let k = m.dom().choose();
        let rest = m.remove(k);
        assert(rest.dom() =~= m.dom().remove(k));
        finite_map_is_listed(rest);
        let s = sorted_pairs(rest);
        assert(!has_key(s, k)) by {
            if has_key(s, k) {
                assert(map_of(s).contains_key(k));
            }
        }
        lemma_place_for(s, k);
        let at = place_for(s, k);
        lemma_inserted(s, at, k, m[k]);
        let t = s.insert(at, (k, m[k]));
        assert(map_of(t) =~= m);
        lemma_sorted_pairs(t);
    }
    let t = sorted_pairs(m);
    assert forall|i: int| 0 <= i < t.len() implies m.contains_key((#[trigger] t[i]).0)
        && m[t[i].0] == t[i].1 by {
        lemma_key_at(t, i);
    }
    assert forall|k: K| #[trigger] m.contains_key(k) implies t.contains((k, m[k])) by {
        assert(has_key(t, k));
        let i = choose|i: int| key_at(t, k, i);
        lemma_key_at(t, i);
        assert(t[i] == (k, m[k]));
    }
}

/// A map of one pair is listed as that pair.
pub proof fn one_pair_is_listed<K: MapKey, V>(k: K, v: V)
    ensures
        sorted_pairs(Map::<K, V>::empty().insert(k, v)) == seq![(k, v)],
{
    let s = seq![(k, v)];
    assert(key_at(s, k, 0));
    assert(map_of(s) =~= Map::<K, V>::empty().insert(k, v)) by {
        assert forall|x: K| has_key(s, x) implies x == k by {
            let i = choose|i: int| key_at(s, x, i);
        }
        lemma_key_at(s, 0);
    }
    lemma_sorted_pairs(s);
}

} // verus!
