//! Small collections, and the mathematics that their contracts are written in.
use vstd::prelude::*;

verus! {

/// A value that a map can be keyed by.
pub trait Key: Copy {
    /// Whether the two keys are the same.
    fn same(&self, other: &Self) -> (r: bool)
        ensures
            r == (*self == *other),
    ;
}

/// Whether `i` is the place of the first pair of `s` that has the key `k`.
pub open spec fn is_first<K, V>(s: Seq<(K, V)>, k: K, i: int) -> bool {
    &&& 0 <= i < s.len()
    &&& s[i].0 == k
    &&& forall|j: int| 0 <= j < i ==> (#[trigger] s[j]).0 != k
}

/// Whether some pair of `s` has the key `k`.
pub open spec fn has_key<K, V>(s: Seq<(K, V)>, k: K) -> bool {
    exists|i: int| is_first(s, k, i)
}

/// The place of the first pair that has the key `k`.
pub open spec fn key_index<K, V>(s: Seq<(K, V)>, k: K) -> int {
    choose|i: int| is_first(s, k, i)
}

/// The value that `s` gives to the key `k`.
pub open spec fn lookup<K, V>(s: Seq<(K, V)>, k: K) -> Option<V> {
    if has_key(s, k) {
        Some(s[key_index(s, k)].1)
    } else {
        None
    }
}

/// The pairs of `s` with `v` given to `k`: in the place of the old value, or at the end.
pub open spec fn assign<K, V>(s: Seq<(K, V)>, k: K, v: V) -> Seq<(K, V)> {
    if has_key(s, k) {
        s.update(key_index(s, k), (k, v))
    } else {
        s.push((k, v))
    }
}

/// The pairs of `s` without the first one that has the key `k`.
pub open spec fn without<K, V>(s: Seq<(K, V)>, k: K) -> Seq<(K, V)> {
    if has_key(s, k) {
        s.remove(key_index(s, k))
    } else {
        s
    }
}

/// Whether no two pairs have the same key.
pub open spec fn unique_keys<K, V>(s: Seq<(K, V)>) -> bool {
    forall|i: int, j: int| 0 <= i < j < s.len() ==> (#[trigger] s[i]).0 != (#[trigger] s[j]).0
}

/// No pair of `s` has the key `k` exactly when `k` has no first pair.
pub proof fn lemma_no_key<K, V>(s: Seq<(K, V)>, k: K)
    ensures
        has_key(s, k) <==> exists|i: int| 0 <= i < s.len() && (#[trigger] s[i]).0 == k,
    decreases s.len(),
{
    if exists|i: int| 0 <= i < s.len() && (#[trigger] s[i]).0 == k {
        let i = choose|i: int| 0 <= i < s.len() && (#[trigger] s[i]).0 == k;
        lemma_first_up_to(s, k, i);
    }
}

proof fn lemma_first_up_to<K, V>(s: Seq<(K, V)>, k: K, i: int)
    requires
        0 <= i < s.len(),
        s[i].0 == k,
    ensures
        has_key(s, k),
    decreases i,
{
    if !is_first(s, k, i) {
        let j = choose|j: int| 0 <= j < i && (#[trigger] s[j]).0 == k;
        lemma_first_up_to(s, k, j);
    }
}

/// There is one first pair.
pub proof fn lemma_first_unique<K, V>(s: Seq<(K, V)>, k: K, i: int)
    requires
        is_first(s, k, i),
    ensures
        has_key(s, k),
        key_index(s, k) == i,
{
    let j = key_index(s, k);
    assert(is_first(s, k, j));
    if j < i {
        assert(s[j].0 != k);
    } else if i < j {
        assert(s[i].0 != k);
    }
}

/// What was assigned is looked up, and the other keys keep what they had.
pub proof fn lemma_lookup_assign<K, V>(s: Seq<(K, V)>, k: K, v: V)
    ensures
        lookup(assign(s, k, v), k) == Some(v),
        forall|other: K| other != k ==> #[trigger] lookup(assign(s, k, v), other) == lookup(s, other),
{
    let t = assign(s, k, v);
    lemma_no_key(s, k);
    let at: int = if has_key(s, k) {
        key_index(s, k)
    } else {
        s.len() as int
    };
    assert(is_first(t, k, at)) by {
        if has_key(s, k) {
            assert(is_first(s, k, at));
            assert forall|j: int| 0 <= j < at implies (#[trigger] t[j]).0 != k by {
                assert(t[j] == s[j]);
            }
        } else {
            assert forall|j: int| 0 <= j < at implies (#[trigger] t[j]).0 != k by {
                assert(t[j] == s[j]);
            }
        }
    }
    lemma_first_unique(t, k, at);
    assert forall|other: K| other != k implies #[trigger] lookup(t, other) == lookup(s, other) by {
        lemma_no_key(s, other);
        lemma_no_key(t, other);
        if has_key(s, other) {
            let i = key_index(s, other);
            assert(is_first(s, other, i));
            assert(t[i] == s[i]);
            assert forall|j: int| 0 <= j < i implies (#[trigger] t[j]).0 != other by {
                assert(s[j].0 != other);
            }
            assert(is_first(t, other, i));
            lemma_first_unique(t, other, i);
        } else if has_key(t, other) {
            let i = key_index(t, other);
            assert(is_first(t, other, i));
            assert(i != at);
            assert(s[i].0 == other);
        }
    }
}

/// What was taken out is not there any more, where no two pairs have its key, and the other keys
/// keep what they had.
pub proof fn lemma_lookup_without<K, V>(s: Seq<(K, V)>, k: K)
    ensures
        unique_keys(s) ==> lookup(without(s, k), k) is None,
        forall|other: K| other != k ==> #[trigger] lookup(without(s, k), other) == lookup(s, other),
{
    let t = without(s, k);
    if has_key(s, k) {
        let at = key_index(s, k);
        assert(is_first(s, k, at));
        assert(forall|i: int| 0 <= i < at ==> #[trigger] t[i] == s[i]);
        assert(forall|i: int| at <= i < t.len() ==> #[trigger] t[i] == s[i + 1]);
        if unique_keys(s) && has_key(t, k) {
            let i = key_index(t, k);
            assert(is_first(t, k, i));
            if i < at {
                assert(s[i].0 == k);
            } else {
                assert(s[i + 1].0 == k);
                assert(s[at].0 != s[i + 1].0);
            }
        }
        assert forall|other: K| other != k implies #[trigger] lookup(t, other) == lookup(
            s,
            other,
        ) by {
            lemma_no_key(s, other);
            lemma_no_key(t, other);
            if has_key(s, other) {
                let i = key_index(s, other);
                assert(is_first(s, other, i));
                let j: int = if i < at {
                    i
                } else {
                    i - 1
                };
                assert(t[j] == s[i]);
                assert forall|m: int| 0 <= m < j implies (#[trigger] t[m]).0 != other by {
                    if m < at {
                        assert(s[m].0 != other);
                    } else {
                        assert(s[m + 1].0 != other);
                    }
                }
                assert(is_first(t, other, j));
                lemma_first_unique(t, other, j);
            } else if has_key(t, other) {
                let j = key_index(t, other);
                assert(is_first(t, other, j));
                let i: int = if j < at {
                    j
                } else {
                    j + 1
                };
                assert(s[i].0 == other);
            }
        }
    }
}

/// A key has the value of the pair that it is in, where no two pairs have the same key.
pub proof fn lemma_lookup_pair<K, V>(s: Seq<(K, V)>, k: K, v: V)
    requires
        unique_keys(s),
    ensures
        lookup(s, k) == Some(v) <==> s.contains((k, v)),
{
    lemma_no_key(s, k);
    if has_key(s, k) {
        let i = key_index(s, k);
        assert(is_first(s, k, i));
        if s.contains((k, v)) {
            let j = choose|j: int| 0 <= j < s.len() && s[j] == (k, v);
            assert(s[j].0 == k);
            if i < j {
                assert(s[i].0 != s[j].0);
            } else if j < i {
                assert(s[j].0 != s[i].0);
            }
        }
        if s[i].1 == v {
            assert(s[i] == (k, v));
        }
    } else if s.contains((k, v)) {
        let j = choose|j: int| 0 <= j < s.len() && s[j] == (k, v);
        assert(s[j].0 == k);
    }
}

/// Assigning and taking out keep every key unique.
pub proof fn lemma_unique_keys<K, V>(s: Seq<(K, V)>, k: K, v: V)
    requires
        unique_keys(s),
    ensures
        unique_keys(assign(s, k, v)),
        unique_keys(without(s, k)),
{
    lemma_no_key(s, k);
    if has_key(s, k) {
        let at = key_index(s, k);
        assert(is_first(s, k, at));
        let t = assign(s, k, v);
        assert forall|i: int, j: int| 0 <= i < j < t.len() implies (#[trigger] t[i]).0
            != (#[trigger] t[j]).0 by {
            assert(s[i].0 != s[j].0);
        }
        let u = without(s, k);
        assert forall|i: int, j: int| 0 <= i < j < u.len() implies (#[trigger] u[i]).0
            != (#[trigger] u[j]).0 by {
            let i1 = if i < at {
                i
            } else {
                i + 1
            };
            let j1 = if j < at {
                j
            } else {
                j + 1
            };
            assert(s[i1].0 != s[j1].0);
        }
    } else {
        let t = assign(s, k, v);
        assert forall|i: int, j: int| 0 <= i < j < t.len() implies (#[trigger] t[i]).0
            != (#[trigger] t[j]).0 by {
            assert(t[i] == s[i]);
            if j < s.len() {
                assert(s[i].0 != s[j].0);
            }
        }
    }
}

/// The elements of a longer beginning that pass a test.
pub proof fn lemma_filter_take<T>(s: Seq<T>, test: spec_fn(T) -> bool, i: int)
    requires
        0 <= i < s.len(),
    ensures
        s.take(i + 1).filter(test) == if test(s[i]) {
            s.take(i).filter(test).push(s[i])
        } else {
            s.take(i).filter(test)
        },
{
    reveal(Seq::filter);
    assert(s.take(i + 1).drop_last() =~= s.take(i));
}

/// What passes a test is there, and passes it.
pub proof fn lemma_filter_member<T>(s: Seq<T>, test: spec_fn(T) -> bool, i: int)
    requires
        0 <= i < s.filter(test).len(),
    ensures
        test(s.filter(test)[i]),
        s.contains(s.filter(test)[i]),
    decreases s.len(),
{
    reveal(Seq::filter);
    let t = s.drop_last();
    let f = t.filter(test);
    if i < f.len() {
        lemma_filter_member(t, test, i);
        let j = choose|j: int| 0 <= j < t.len() && t[j] == f[i];
        assert(s[j] == f[i]);
    } else {
        assert(s[s.len() - 1] == s.last());
    }
}

/// A map that keeps its pairs in the order in which the keys were first assigned. Every step from
/// the empty map on keeps the keys unique.
#[derive(Clone, Debug, PartialEq, Eq)]
pub struct OrderedMap<K, V> {
    pub entries: Vec<(K, V)>,
}

impl<K, V> View for OrderedMap<K, V> {
    type V = Seq<(K, V)>;

    open spec fn view(&self) -> Seq<(K, V)> {
        self.entries@
    }
}

impl<K: Key, V: Copy> OrderedMap<K, V> {
    /// A map without pairs.
    pub fn new() -> (r: Self)
        ensures
            r@ == Seq::<(K, V)>::empty(),
            unique_keys(r@),
    {
        OrderedMap { entries: Vec::new() }
    }

    /// The place of the first pair with the key.
    pub fn position(&self, k: K) -> (r: Option<usize>)
        ensures
            match r {
                Some(i) => is_first(self@, k, i as int) && has_key(self@, k) && key_index(self@, k)
                    == i,
                None => !has_key(self@, k),
            },
    {
        let mut i: usize = 0;
        while i < self.entries.len()
            invariant
                i <= self@.len(),
                forall|j: int| 0 <= j < i ==> (#[trigger] self@[j]).0 != k,
            decreases self@.len() - i,
        {
            if self.entries[i].0.same(&k) {
                proof {
                    assert(is_first(self@, k, i as int));
                    lemma_first_unique(self@, k, i as int);
                }
                return Some(i);
            }
            i += 1;
        }
        None
    }

    /// The value of the key.
    pub fn get(&self, k: K) -> (r: Option<V>)
        ensures
            r == lookup(self@, k),
    {
        match self.position(k) {
            Some(i) => Some(self.entries[i].1),
            None => None,
        }
    }

    /// Gives the value to the key.
    pub fn put(&mut self, k: K, v: V)
        ensures
            final(self)@ == assign(old(self)@, k, v),
            unique_keys(old(self)@) ==> unique_keys(final(self)@),
    {
        proof {
            if unique_keys(self@) {
                lemma_unique_keys(self@, k, v);
            }
        }
        match self.position(k) {
            Some(i) => {
                self.entries.set(i, (k, v));
            },
            None => {
                self.entries.push((k, v));
            },
        }
    }

    /// Takes the first pair with the key out.
    pub fn remove(&mut self, k: K) -> (r: Option<V>)
        ensures
            r == lookup(old(self)@, k),
            final(self)@ == without(old(self)@, k),
            unique_keys(old(self)@) ==> unique_keys(final(self)@),
    {
        proof {
            if unique_keys(self@) && has_key(self@, k) {
                lemma_unique_keys(self@, k, self@[0].1);
            }
        }
        match self.position(k) {
            Some(i) => {
                let pair = self.entries.remove(i);
                Some(pair.1)
            },
            None => None,
        }
    }

    /// A map with the same pairs.
    pub fn copied(&self) -> (r: Self)
        ensures
            r@ == self@,
    {
        OrderedMap { entries: copy_vec(&self.entries) }
    }
}

/// Whether `short` is the beginning of `long`.
pub open spec fn begins<T>(short: Seq<T>, long: Seq<T>) -> bool {
    &&& short.len() <= long.len()
    &&& forall|i: int| 0 <= i < short.len() ==> #[trigger] long[i] == short[i]
}

/// The keys of pairs.
pub open spec fn keys<K, V>(s: Seq<(K, V)>) -> Seq<K> {
    s.map_values(|p: (K, V)| p.0)
}

/// A vector with the same elements.
pub fn copy_vec<T: Copy>(v: &Vec<T>) -> (r: Vec<T>)
    ensures
        r@ == v@,
{
    let mut r: Vec<T> = Vec::new();
    let mut i: usize = 0;
    while i < v.len()
        invariant
            i <= v@.len(),
            r@ == v@.take(i as int),
        decreases v@.len() - i,
    {
        r.push(v[i]);
        i += 1;
        assert(v@.take(i as int) =~= v@.take(i - 1).push(v@[i - 1]));
    }
    assert(v@.take(i as int) =~= v@);
    r
}

/// Puts copies of the elements of `from` behind those of `to`.
pub fn extend_copies<T: Copy>(to: &mut Vec<T>, from: &Vec<T>)
    ensures
        final(to)@ == old(to)@ + from@,
{
    let mut more = copy_vec(from);
    to.append(&mut more);
}

/// Whether the two vectors have the same keys in the same order.
pub fn same_keys<K: Key>(a: &Vec<K>, b: &Vec<K>) -> (r: bool)
    ensures
        r == (a@ == b@),
{
    if a.len() != b.len() {
        return false;
    }
    let mut i: usize = 0;
    while i < a.len()
        invariant
            i <= a@.len(),
            a@.len() == b@.len(),
            forall|j: int| 0 <= j < i ==> a@[j] == b@[j],
        decreases a@.len() - i,
    {
        if !a[i].same(&b[i]) {
            assert(a@[i as int] != b@[i as int]);
            return false;
        }
        i += 1;
    }
    assert(a@ =~= b@);
    true
}

/// Whether the vector holds the key.
pub fn contains_key<K: Key>(v: &Vec<K>, k: K) -> (r: bool)
    ensures
        r == v@.contains(k),
{
    let mut i: usize = 0;
    while i < v.len()
        invariant
            i <= v@.len(),
            forall|j: int| 0 <= j < i ==> v@[j] != k,
        decreases v@.len() - i,
    {
        if v[i].same(&k) {
            assert(v@[i as int] == k);
            return true;
        }
        i += 1;
    }
    false
}

} // verus!
