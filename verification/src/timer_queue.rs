//! The queue of timers of a node: a collection that always hands out the
//! timer that is due first.

use vstd::prelude::*;
use vstd::multiset::Multiset;
use crate::timer::{Timer, TimerView, ranks_above, ranks_at_least, lemma_timer_order_antisymmetric, lemma_timer_order_transitive, lemma_timer_order_equal, lemma_earlier_due_ranks_above};

verus! {

broadcast use vstd::seq_lib::group_to_multiset_ensures;

/// `t` ranks at least as high as every timer in `m`.
pub open spec fn is_greatest(t: TimerView, m: Multiset<TimerView>) -> bool {
    forall|u: TimerView| m.contains(u) ==> ranks_at_least(t, u)
}

/// No timer of `m` is due before `t`.
pub open spec fn is_earliest(t: TimerView, m: Multiset<TimerView>) -> bool {
    forall|u: TimerView| m.contains(u) ==> t.next_event <= u.next_event
}

/// A timer that ranks highest in `m` is due no later than any timer of `m`:
/// the queue serves timers in the order of their due times.
pub proof fn lemma_greatest_is_earliest(t: TimerView, m: Multiset<TimerView>)
    requires
        is_greatest(t, m),
    ensures
        is_earliest(t, m),
{
    assert forall|u: TimerView| m.contains(u) implies t.next_event <= u.next_event by {
        if u.next_event < t.next_event {
            lemma_earlier_due_ranks_above(u, t);
        }
    }
}

/// A priority queue of timers: `peek` and `pop` give a timer of `contents`
/// that ranks highest by `timer_order`, the one due first.
pub struct TimerQueue {
    timers: Vec<Timer>,
}

impl TimerQueue {
    /// The views of the stored timers, in storage order.
    closed spec fn views(&self) -> Seq<TimerView> {
        self.timers@.map_values(|t: Timer| t@)
    }

    /// The timers in the queue.
    pub closed spec fn contents(&self) -> Multiset<TimerView> {
        self.views().to_multiset()
    }

    /// An empty queue.
    pub fn new() -> (q: TimerQueue)
        ensures
            q.contents() =~= Multiset::empty(),
    {
        let q = TimerQueue { timers: Vec::new() };
        assert(q.views() =~= Seq::empty());
        q
    }

    /// The number of timers in the queue.
    pub fn len(&self) -> (r: usize)
        ensures
            r == self.contents().len(),
    {
        self.timers.len()
    }

    /// Whether the queue holds no timer.
    pub fn is_empty(&self) -> (r: bool)
        ensures
            r <==> self.contents().len() == 0,
    {
        self.timers.len() == 0
    }

    /// Adds a timer.
    pub fn push(&mut self, t: Timer)
        ensures
            final(self).contents() =~= old(self).contents().insert(t@),
    {
        self.timers.push(t);
        assert(self.views() =~= old(self).views().push(t@));
    }

    /// The index of a timer that ranks highest.
    fn top_index(&self) -> (i: usize)
        requires
            self.timers@.len() > 0,
        ensures
            i < self.timers@.len(),
            forall|k: int| 0 <= k < self.timers@.len() ==> ranks_at_least(self.timers@[i as int]@, #[trigger] self.timers@[k]@),
    {
        let mut best: usize = 0;
        let mut j: usize = 1;
        proof {
            lemma_timer_order_equal(self.timers@[0]@, self.timers@[0]@);
        }
        while j < self.timers.len()
            invariant
                best < j <= self.timers@.len(),
                forall|k: int| 0 <= k < j ==> ranks_at_least(self.timers@[best as int]@, #[trigger] self.timers@[k]@),
            decreases self.timers@.len() - j,
        {
            if self.timers[j].ranks_above(&self.timers[best]) {
                proof {
                    let (nb, ob) = (self.timers@[j as int]@, self.timers@[best as int]@);
                    assert forall|k: int| 0 <= k < j + 1 implies ranks_at_least(nb, #[trigger] self.timers@[k]@) by {
                        if k < j {
                            lemma_timer_order_transitive(nb, ob, self.timers@[k]@);
                        } else {
                            lemma_timer_order_equal(nb, nb);
                        }
                    }
                }
                best = j;
            } else {
                proof {
                    lemma_timer_order_antisymmetric(self.timers@[j as int]@, self.timers@[best as int]@);
                }
            }
            j = j + 1;
        }
        best
    }

    /// Relates a top index of the storage to the contents.
    proof fn lemma_top_is_greatest(&self, i: int)
        requires
            0 <= i < self.timers@.len(),
            forall|k: int| 0 <= k < self.timers@.len() ==> ranks_at_least(self.timers@[i]@, #[trigger] self.timers@[k]@),
        ensures
            self.contents().contains(self.timers@[i]@),
            is_greatest(self.timers@[i]@, self.contents()),
    {
        let v = self.views();
        assert(v[i] == self.timers@[i]@);
        assert(v.contains(v[i]));
        assert forall|u: TimerView| self.contents().contains(u) implies ranks_at_least(self.timers@[i]@, u) by {
            assert(v.contains(u));
            let k = choose|k: int| 0 <= k < v.len() && v[k] == u;
            assert(self.timers@[k]@ == u);
        }
    }

    /// A timer that ranks highest, or `None` when the queue is empty.
    pub fn peek(&self) -> (r: Option<&Timer>)
        ensures
            r is None <==> self.contents().len() == 0,
            r matches Some(t) ==> self.contents().contains(t@) && is_greatest(t@, self.contents()),
            r matches Some(t) ==> is_earliest(t@, self.contents()),
    {
        if self.timers.len() == 0 {
            None
        } else {
            let i = self.top_index();
            proof {
                self.lemma_top_is_greatest(i as int);
                lemma_greatest_is_earliest(self.timers@[i as int]@, self.contents());
            }
            Some(&self.timers[i])
        }
    }

    /// Removes and returns a timer that ranks highest, or returns `None` and
    /// leaves the queue as it was when it is empty.
    pub fn pop(&mut self) -> (r: Option<Timer>)
        ensures
            r is None <==> old(self).contents().len() == 0,
            r is None ==> final(self).contents() == old(self).contents(),
            r matches Some(t) ==> {
                &&& old(self).contents().contains(t@)
                &&& is_greatest(t@, old(self).contents())
                &&& is_earliest(t@, old(self).contents())
                &&& final(self).contents() =~= old(self).contents().remove(t@)
            },
    {
        if self.timers.len() == 0 {
            None
        } else {
            let i = self.top_index();
            proof {
                self.lemma_top_is_greatest(i as int);
                lemma_greatest_is_earliest(self.timers@[i as int]@, self.contents());
            }
            let ghost before = self.views();
            let t = self.timers.remove(i);
            assert(self.views() =~= before.remove(i as int));
            Some(t)
        }
    }
}

} // verus!
