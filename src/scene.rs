//! The render queue of a scene: items kept in order of drawing priority.
use vstd::prelude::*;

verus! {

/// Priorities never decrease along the queue.
pub open spec fn by_priority<T>(s: Seq<(u32, T)>) -> bool {
    forall|i: int, j: int| 0 <= i < j < s.len() ==> #[trigger] s[i].0 <= #[trigger] s[j].0
}

/// The entries of `s` whose flag in `alive` is set, in order.
pub open spec fn kept<T>(s: Seq<(u32, T)>, alive: Seq<bool>) -> Seq<(u32, T)>
    decreases s.len(),
{
    if s.len() == 0 {
        Seq::empty()
    } else {
        let rest = kept(s.drop_last(), alive);
        if alive[s.len() - 1] {
            rest.push(s.last())
        } else {
            rest
        }
    }
}

proof fn lemma_kept_sorted<T>(s: Seq<(u32, T)>, alive: Seq<bool>)
    requires
        by_priority(s),
    ensures
        by_priority(kept(s, alive)),
        forall|i: int| 0 <= i < kept(s, alive).len() ==> exists|j: int| 0 <= j < s.len() && #[trigger] kept(s, alive)[i] == s[j],
    decreases s.len(),
{
    if s.len() > 0 {
        let rest = s.drop_last();
        assert(by_priority(rest));
        lemma_kept_sorted(rest, alive);
        let k = kept(rest, alive);
        assert forall|i: int| 0 <= i < kept(s, alive).len() implies exists|j: int| 0 <= j < s.len() && #[trigger] kept(s, alive)[i] == s[j] by {
            if i < k.len() {
                let j = choose|j: int| 0 <= j < rest.len() && #[trigger] k[i] == rest[j];
                assert(kept(s, alive)[i] == s[j]);
            } else {
                assert(kept(s, alive)[i] == s[s.len() - 1]);
            }
        }
        if alive[s.len() - 1] {
            assert forall|i: int, j: int| 0 <= i < j < kept(s, alive).len() implies #[trigger] kept(s, alive)[i].0
                <= #[trigger] kept(s, alive)[j].0 by {
                if j == k.len() {
                    let m = choose|m: int| 0 <= m < rest.len() && #[trigger] k[i] == rest[m];
                    assert(s[m].0 <= s[s.len() - 1].0);
                } else {
                    assert(k[i].0 <= k[j].0);
                }
            }
        }
    }
}

/// Items to draw, lowest priority first; among equal priorities, the earlier
/// added is drawn first.
pub struct RenderQueue<T> {
    entries: Vec<(u32, T)>,
}

impl<T> RenderQueue<T> {
    /// The entries, with their priorities, in drawing order.
    pub closed spec fn entries(&self) -> Seq<(u32, T)> {
        self.entries@
    }

    pub open spec fn wf(&self) -> bool {
        by_priority(self.entries())
    }

    pub fn new() -> (r: RenderQueue<T>)
        ensures
            r.wf(),
            r.entries().len() == 0,
    {
        RenderQueue { entries: Vec::new() }
    }

    pub fn len(&self) -> (r: usize)
        ensures
            r == self.entries().len(),
    {
        self.entries.len()
    }

    /// The item at position `i` of the drawing order.
    pub fn get(&self, i: usize) -> (r: &T)
        requires
            i < self.entries().len(),
        ensures
            *r == self.entries()[i as int].1,
    {
        &self.entries[i].1
    }

    /// Adds an item after every entry of the same or a lower priority, and before
    /// every entry of a higher one.
    pub fn add(&mut self, priority: u32, item: T)
        requires
            old(self).wf(),
        ensures
            final(self).wf(),
            exists|pos: int|
                0 <= pos <= old(self).entries().len() && final(self).entries() == old(self).entries().insert(
                    pos,
                    (priority, item),
                ) && (forall|i: int| 0 <= i < pos ==> #[trigger] old(self).entries()[i].0 <= priority)
                    && (forall|i: int|
                    pos <= i < old(self).entries().len() ==> #[trigger] old(self).entries()[i].0 > priority),
    {
        let ghost old_entries = self.entries@;
        let mut pos: usize = 0;
        while pos < self.entries.len() && self.entries[pos].0 <= priority
            invariant
                self.entries@ == old_entries,
                by_priority(old_entries),
                pos <= old_entries.len(),
                forall|i: int| 0 <= i < pos ==> #[trigger] old_entries[i].0 <= priority,
            decreases old_entries.len() - pos,
        {
            pos += 1;
        }
        proof {
            assert forall|i: int| pos <= i < old_entries.len() implies #[trigger] old_entries[i].0 > priority by {
                assert(old_entries[pos as int].0 <= old_entries[i].0);
            }
        }
        self.entries.insert(pos, (priority, item));
        proof {
            let s = self.entries@;
            assert forall|i: int, j: int| 0 <= i < j < s.len() implies #[trigger] s[i].0 <= #[trigger] s[j].0 by {
                if j < pos {
                    assert(s[i] == old_entries[i] && s[j] == old_entries[j]);
                } else if j == pos {
                    assert(s[i] == old_entries[i]);
                } else if i == pos {
                    assert(s[j] == old_entries[j - 1]);
                } else if i < pos {
                    assert(s[i] == old_entries[i] && s[j] == old_entries[j - 1]);
                } else {
                    assert(s[i] == old_entries[i - 1] && s[j] == old_entries[j - 1]);
                }
            }
        }
    }

    /// Drops the entries whose flag in `alive` is clear, keeping the order of the
    /// others.
    pub fn retain_alive(&mut self, alive: &Vec<bool>)
        requires
            old(self).wf(),
            alive@.len() == old(self).entries().len(),
        ensures
            final(self).wf(),
            final(self).entries() == kept(old(self).entries(), alive@),
    {
        let ghost old_entries = self.entries@;
        let n = self.entries.len();
        let mut rest: Vec<(u32, T)> = Vec::new();
        core::mem::swap(&mut rest, &mut self.entries);
        let mut i: usize = 0;
        while i < n
            invariant
                n == old_entries.len() == alive@.len(),
                i <= n,
                rest@ == old_entries.subrange(i as int, n as int),
                self.entries@ == kept(old_entries.subrange(0, i as int), alive@),
            decreases n - i,
        {
            let e = rest.remove(0);
            proof {
                assert(old_entries.subrange(0, i as int + 1).drop_last() =~= old_entries.subrange(0, i as int));
                assert(old_entries.subrange(0, i as int + 1).last() == e);
                assert(rest@ =~= old_entries.subrange(i as int + 1, n as int));
            }
            if alive[i] {
                self.entries.push(e);
            }
            i += 1;
        }
        proof {
            assert(old_entries.subrange(0, n as int) =~= old_entries);
            lemma_kept_sorted(old_entries, alive@);
        }
    }
}

} // verus!
