//! The listener set of one connection: which callbacks a value change on a
//! characteristic reaches, in the order they subscribed.
use vstd::prelude::*;

verus! {

/// A callback registered for one characteristic.
pub struct Listener<L> {
    pub charac: u128,
    pub callback: L,
}

/// The positions, ascending, of the listeners in `s` registered for `c`.
pub open spec fn matches_of<L>(s: Seq<(u128, L)>, c: u128) -> Seq<usize>
    decreases s.len(),
{
    if s.len() == 0 {
        Seq::empty()
    } else if s.last().0 == c {
        matches_of(s.drop_last(), c).push((s.len() - 1) as usize)
    } else {
        matches_of(s.drop_last(), c)
    }
}

/// The listeners of one connection, in the order they subscribed. Several
/// listeners may share a characteristic; each of them is reached.
pub struct ListenerSet<L> {
    listeners: Vec<Listener<L>>,
}

impl<L> ListenerSet<L> {
    /// Each listener's characteristic and callback, in subscription order.
    pub closed spec fn view(&self) -> Seq<(u128, L)> {
        self.listeners@.map_values(|l: Listener<L>| (l.charac, l.callback))
    }

    /// A set with no listener.
    pub fn new() -> (r: Self)
        ensures
            r.view() == Seq::<(u128, L)>::empty(),
    {
        let r = ListenerSet { listeners: Vec::new() };
        assert(r.view() =~= Seq::<(u128, L)>::empty());
        r
    }

    /// The number of listeners.
    pub fn len(&self) -> (r: usize)
        ensures
            r == self.view().len(),
    {
        self.listeners.len()
    }

    /// Registers `callback` for value changes of `charac`, after every
    /// listener already there.
    pub fn add(&mut self, charac: u128, callback: L)
        ensures
            final(self).view() == old(self).view().push((charac, callback)),
    {
        self.listeners.push(Listener { charac, callback });
        assert(self.view() =~= old(self).view().push((charac, callback)));
    }

    /// The positions of the listeners that a value change of `charac`
    /// reaches, in subscription order.
    pub fn matching(&self, charac: u128) -> (r: Vec<usize>)
        ensures
            r@ == matches_of(self.view(), charac),
    {
        let mut r: Vec<usize> = Vec::new();
        let mut i: usize = 0;
        while i < self.listeners.len()
            invariant
                i <= self.listeners@.len(),
                r@ == matches_of(self.view().subrange(0, i as int), charac),
            decreases self.listeners@.len() - i,
        {
            let ghost s = self.view().subrange(0, i + 1);
            assert(s.drop_last() =~= self.view().subrange(0, i as int));
            if self.listeners[i].charac == charac {
                r.push(i);
            }
            i = i + 1;
        }
        assert(self.view().subrange(0, self.listeners@.len() as int) =~= self.view());
        r
    }

    /// The callback at position `i`.
    pub fn callback(&self, i: usize) -> (r: &L)
        requires
            i < self.view().len(),
        ensures
            *r == self.view()[i as int].1,
    {
        &self.listeners[i].callback
    }
}

/// Fan-out: two listeners that subscribe to one characteristic, one after
/// the other, are both reached by each later value change on it, the first
/// before the second; the listeners already there are reached as before, and
/// a value change on another characteristic reaches neither.
pub proof fn lemma_fan_out<L>(s: Seq<(u128, L)>, c: u128, first: L, second: L, other: u128)
    requires
        s.len() + 2 <= usize::MAX,
        other != c,
    ensures
        matches_of(s.push((c, first)).push((c, second)), c) == matches_of(s, c).push(
            s.len() as usize,
        ).push((s.len() + 1) as usize),
        matches_of(s.push((c, first)).push((c, second)), other) == matches_of(s, other),
{
    let s1 = s.push((c, first));
    let s2 = s1.push((c, second));
    assert(s2.drop_last() =~= s1);
    assert(s1.drop_last() =~= s);
    assert(s2.last() == (c, second));
    assert(s1.last() == (c, first));
    assert(matches_of(s1, c) == matches_of(s, c).push(s.len() as usize));
    assert(matches_of(s2, c) == matches_of(s1, c).push((s.len() + 1) as usize));
    assert(matches_of(s1, other) == matches_of(s, other));
    assert(matches_of(s2, other) == matches_of(s1, other));
}

} // verus!
