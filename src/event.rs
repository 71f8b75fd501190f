//! Events and the bookkeeping of their listeners.
use vstd::prelude::*;

verus! {

/// An event, named by a string literal.
#[derive(Debug, Copy, Clone, PartialEq, Eq, Hash)]
pub struct Event(pub &'static str);

/// The items of `s` whose flag in `alive` is set, in order.
pub open spec fn kept_items<L>(s: Seq<L>, alive: Seq<bool>) -> Seq<L>
    decreases s.len(),
{
    if s.len() == 0 {
        Seq::empty()
    } else {
        let rest = kept_items(s.drop_last(), alive);
        if alive[s.len() - 1] {
            rest.push(s.last())
        } else {
            rest
        }
    }
}

/// The listeners of one event, in the order in which they subscribed.
pub struct ListenerList<L> {
    items: Vec<L>,
}

impl<L> ListenerList<L> {
    /// The listeners, in subscription order.
    pub closed spec fn items(&self) -> Seq<L> {
        self.items@
    }

    pub fn new() -> (r: ListenerList<L>)
        ensures
            r.items().len() == 0,
    {
        ListenerList { items: Vec::new() }
    }

    pub fn len(&self) -> (r: usize)
        ensures
            r == self.items().len(),
    {
        self.items.len()
    }

    /// The listener at position `i`.
    pub fn get(&self, i: usize) -> (r: &L)
        requires
            i < self.items().len(),
        ensures
            *r == self.items()[i as int],
    {
        &self.items[i]
    }

    /// Subscribes a listener after the others.
    pub fn on(&mut self, listener: L)
        ensures
            final(self).items() == old(self).items().push(listener),
    {
        self.items.push(listener);
    }

    /// Drops the listeners whose flag in `alive` is clear, keeping the order of
    /// the others.
    pub fn retain_alive(&mut self, alive: &Vec<bool>)
        requires
            alive@.len() == old(self).items().len(),
        ensures
            final(self).items() == kept_items(old(self).items(), alive@),
    {
        let ghost old_items = self.items@;
        let n = self.items.len();
        let mut rest: Vec<L> = Vec::new();
        core::mem::swap(&mut rest, &mut self.items);
        let mut i: usize = 0;
        while i < n
            invariant
                n == old_items.len() == alive@.len(),
                i <= n,
                rest@ == old_items.subrange(i as int, n as int),
                self.items@ == kept_items(old_items.subrange(0, i as int), alive@),
            decreases n - i,
        {
            let e = rest.remove(0);
            proof {
                assert(old_items.subrange(0, i as int + 1).drop_last() =~= old_items.subrange(0, i as int));
                assert(old_items.subrange(0, i as int + 1).last() == e);
                assert(rest@ =~= old_items.subrange(i as int + 1, n as int));
            }
            if alive[i] {
                self.items.push(e);
            }
            i += 1;
        }
        proof {
            assert(old_items.subrange(0, n as int) =~= old_items);
        }
    }
}

} // verus!
