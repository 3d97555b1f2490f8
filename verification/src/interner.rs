//! Tables that give each long identifier a short one.
use crate::collections::begins;
use vstd::prelude::*;

verus! {

/// A value that a table can hold: two are the same when their views are.
pub trait LongId: View + Sized {
    /// Whether the two long identifiers are the same.
    fn same(&self, other: &Self) -> (r: bool)
        ensures
            r == (self@ == other@),
    ;
}

/// Whether `i` is the first place of `s` that holds `t`.
pub open spec fn first_place<T>(s: Seq<T>, t: T, i: int) -> bool {
    &&& 0 <= i < s.len()
    &&& s[i] == t
    &&& forall|j: int| 0 <= j < i ==> #[trigger] s[j] != t
}

/// Whether `s` holds `t`.
pub open spec fn holds<T>(s: Seq<T>, t: T) -> bool {
    exists|i: int| first_place(s, t, i)
}

/// The table after `t` was interned.
pub open spec fn interned<T>(s: Seq<T>, t: T) -> Seq<T> {
    if holds(s, t) {
        s
    } else {
        s.push(t)
    }
}

/// The short identifier of `t`.
pub open spec fn short_id<T>(s: Seq<T>, t: T) -> int {
    if holds(s, t) {
        choose|i: int| first_place(s, t, i)
    } else {
        s.len() as int
    }
}

/// There is one first place.
pub proof fn lemma_first_place<T>(s: Seq<T>, t: T, i: int)
    requires
        first_place(s, t, i),
    ensures
        holds(s, t),
        short_id(s, t) == i,
{
    let j = short_id(s, t);
    assert(first_place(s, t, j));
    if j < i {
        assert(s[j] != t);
    } else if i < j {
        assert(s[i] != t);
    }
}

/// What is anywhere in the table has a first place in it.
pub proof fn lemma_holds<T>(s: Seq<T>, t: T, i: int)
    requires
        0 <= i < s.len(),
        s[i] == t,
    ensures
        holds(s, t),
        short_id(s, t) <= i,
    decreases i,
{
    if first_place(s, t, i) {
        lemma_first_place(s, t, i);
    } else {
        let j = choose|j: int| 0 <= j < i && #[trigger] s[j] == t;
        lemma_holds(s, t, j);
    }
}

/// Interning keeps every earlier short identifier, and the new one leads back to what was
/// interned.
pub proof fn interning_is_stable<T>(s: Seq<T>, t: T)
    ensures
        s.len() <= interned(s, t).len(),
        interned(s, t).take(s.len() as int) == s,
        0 <= short_id(s, t) < interned(s, t).len(),
        interned(s, t)[short_id(s, t)] == t,
{
    if holds(s, t) {
        assert(first_place(s, t, short_id(s, t)));
    }
    assert(interned(s, t).take(s.len() as int) =~= s);
}

/// Interning the same long identifier again changes nothing and gives the same short one.
pub proof fn interning_is_idempotent<T>(s: Seq<T>, t: T)
    ensures
        interned(interned(s, t), t) == interned(s, t),
        short_id(interned(s, t), t) == short_id(s, t),
{
    let u = interned(s, t);
    if !holds(s, t) {
        assert forall|j: int| 0 <= j < s.len() implies #[trigger] u[j] != t by {
            assert(u[j] == s[j]);
            if s[j] == t {
                lemma_holds(s, t, j);
            }
        }
        assert(first_place(u, t, s.len() as int));
        lemma_first_place(u, t, s.len() as int);
    }
}

/// Different long identifiers have different short ones.
pub proof fn interning_is_injective<T>(s: Seq<T>, a: T, b: T)
    requires
        short_id(interned(s, a), b) == short_id(s, a),
    ensures
        a == b,
{
    let u = interned(s, a);
    interning_is_stable(s, a);
    interning_is_stable(u, b);
    if holds(u, b) {
        assert(first_place(u, b, short_id(u, b)));
    }
}

/// What was interned keeps its short identifier in every later table.
pub proof fn a_short_id_stays<T>(s: Seq<T>, t: T, u: Seq<T>)
    requires
        begins(interned(s, t), u),
    ensures
        interned(u, t) == u,
        short_id(u, t) == short_id(s, t),
        0 <= short_id(u, t) < u.len(),
        u[short_id(u, t)] == t,
{
    interning_is_idempotent(s, t);
    interning_is_stable(s, t);
    let v = interned(s, t);
    let i = short_id(s, t);
    lemma_holds(v, t, i);
    assert(first_place(v, t, i));
    assert forall|j: int| 0 <= j < i implies #[trigger] u[j] != t by {
        assert(u[j] == v[j]);
        assert(v[j] != t);
    }
    assert(u[i] == v[i]);
    assert(first_place(u, t, i));
    lemma_first_place(u, t, i);
}

/// A table of long identifiers.
#[derive(Debug)]
pub struct Interner<T> {
    pub items: Vec<T>,
}

impl<T: View> View for Interner<T> {
    type V = Seq<T::V>;

    open spec fn view(&self) -> Seq<T::V> {
        self.items@.map_values(|t: T| t@)
    }
}

impl<T: LongId> Interner<T> {
    /// An empty table.
    pub fn new() -> (r: Self)
        ensures
            r@ == Seq::<T::V>::empty(),
    {
        let r = Interner { items: Vec::new() };
        assert(r@ =~= Seq::<T::V>::empty());
        r
    }

    /// Gives the long identifier its short one: the place where it is, or a new place at the end.
    pub fn intern(&mut self, t: T) -> (id: usize)
        ensures
            final(self)@ == interned(old(self)@, t@),
            id == short_id(old(self)@, t@),
            id < final(self)@.len(),
    {
        let mut i: usize = 0;
        while i < self.items.len()
            invariant
                i <= self@.len(),
                self@.len() == self.items@.len(),
                *self == *old(self),
                forall|j: int| 0 <= j < i ==> #[trigger] self@[j] != t@,
            decreases self@.len() - i,
        {
            if self.items[i].same(&t) {
                proof {
                    assert(first_place(self@, t@, i as int));
                    lemma_first_place(self@, t@, i as int);
                }
                return i;
            }
            i += 1;
        }
        self.items.push(t);
        assert(self@ =~= old(self)@.push(t@));
        i
    }

    /// The long identifier behind the short one.
    pub fn lookup(&self, id: usize) -> (r: Option<&T>)
        ensures
            match r {
                Some(t) => id < self@.len() && t@ == self@[id as int],
                None => id >= self@.len(),
            },
    {
        if id < self.items.len() {
            Some(&self.items[id])
        } else {
            None
        }
    }
}

} // verus!
