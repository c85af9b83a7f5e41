//! The decisions of a node's timer thread: collect timers, then repeatedly
//! either fire the timer that is due first or sleep until it is due.

use vstd::prelude::*;
use vstd::multiset::Multiset;
use crate::message::Message;
use crate::timer::{Timer, TimerView, ranks_at_least, lemma_timer_order_equal};
use crate::timer_queue::{TimerQueue, is_greatest, is_earliest, lemma_greatest_is_earliest};

verus! {

/// The timer that is served next from `m`: one that ranks highest.  All
/// such timers are the same timer (`lemma_greatest_unique`).
pub open spec fn next_due(m: Multiset<TimerView>) -> TimerView {
    choose|t: TimerView| m.contains(t) && is_greatest(t, m)
}

/// A timer of `m` that ranks highest is `next_due(m)`.
pub proof fn lemma_greatest_unique(t: TimerView, m: Multiset<TimerView>)
    requires
        m.contains(t),
        is_greatest(t, m),
    ensures
        next_due(m) == t,
{
    let u = next_due(m);
    assert(m.contains(u) && is_greatest(u, m));
    assert(ranks_at_least(t, u));
    assert(ranks_at_least(u, t));
    lemma_timer_order_equal(t, u);
}

/// The timer served next is due no later than any other timer: no timer
/// of `m` is due before `next_due(m)`.
pub proof fn lemma_next_due_is_earliest(m: Multiset<TimerView>)
    requires
        exists|t: TimerView| m.contains(t) && is_greatest(t, m),
    ensures
        m.contains(next_due(m)),
        is_earliest(next_due(m), m),
{
    lemma_greatest_is_earliest(next_due(m), m);
}

/// `t` moved one interval later.
pub open spec fn advanced(t: TimerView) -> TimerView {
    TimerView { next_event: (t.next_event + t.interval) as u64, ..t }
}

/// What the timer thread does next.
#[derive(PartialEq, Eq, Debug)]
pub enum TimerStep {
    /// Send this message: a timer fired.
    Fire(Message),
    /// Sleep this many nanoseconds: the next timer is not due yet.
    Sleep(u64),
}

/// The state of a node's timer thread: the node's name, which every timer
/// message carries as its origin, and the queue of timers.
pub struct TimerSchedule {
    origin: String,
    queue: TimerQueue,
}

impl TimerSchedule {
    /// A schedule with no timers for the node named `origin`.
    pub fn new(origin: &str) -> (s: TimerSchedule)
        ensures
            s.origin_view() == origin@,
            s.timers() =~= Multiset::empty(),
    {
        TimerSchedule { origin: origin.to_owned(), queue: TimerQueue::new() }
    }

    /// The name of the node whose timers these are.
    pub closed spec fn origin_view(&self) -> Seq<char> {
        self.origin@
    }

    /// The timers of the schedule.
    pub closed spec fn timers(&self) -> Multiset<TimerView> {
        self.queue.contents()
    }

    /// The number of timers.
    pub fn len(&self) -> (r: usize)
        ensures
            r == self.timers().len(),
    {
        self.queue.len()
    }

    /// The timer that is served next, or `None` when there is none.
    pub fn next_timer(&self) -> (r: Option<&Timer>)
        ensures
            r is None <==> self.timers().len() == 0,
            r matches Some(t) ==> t@ == next_due(self.timers()),
    {
        let r = self.queue.peek();
        proof {
            if let Some(t) = r {
                lemma_greatest_unique(t@, self.queue.contents());
            }
        }
        r
    }

    /// Adds a timer while the thread collects timers.
    pub fn register(&mut self, t: Timer)
        ensures
            final(self).timers() =~= old(self).timers().insert(t@),
            final(self).origin_view() == old(self).origin_view(),
    {
        self.queue.push(t);
    }

    /// One round of the running timer thread at time `now_nanos`.  When the
    /// next timer is due, it fires: it moves one interval later and a topic
    /// message on its name is sent.  Otherwise the thread sleeps until it is
    /// due and nothing changes.
    pub fn step(&mut self, now_nanos: u64) -> (r: TimerStep)
        requires
            old(self).timers().len() > 0,
            next_due(old(self).timers()).next_event <= now_nanos
                ==> next_due(old(self).timers()).next_event + next_due(old(self).timers()).interval <= u64::MAX,
        ensures
            final(self).origin_view() == old(self).origin_view(),
            is_earliest(next_due(old(self).timers()), old(self).timers()),
            (r is Fire) <==> exists|u: TimerView| old(self).timers().contains(u) && u.next_event <= now_nanos,
            r matches TimerStep::Sleep(d) ==> forall|u: TimerView| old(self).timers().contains(u) ==> now_nanos + d <= u.next_event,
            ({
                let t = next_due(old(self).timers());
                if t.next_event <= now_nanos {
                    &&& final(self).timers() =~= old(self).timers().remove(t).insert(advanced(t))
                    &&& r matches TimerStep::Fire(Message::Topic { topic, origin: Some(o) })
                    &&& topic@ == t.name
                    &&& o@ == old(self).origin_view()
                } else {
                    &&& final(self).timers() == old(self).timers()
                    &&& r == TimerStep::Sleep((t.next_event - now_nanos) as u64)
                }
            }),
    {
        let next_event = match self.queue.peek() {
            Some(t) => {
                proof {
                    lemma_greatest_unique(t@, self.queue.contents());
                    lemma_next_due_is_earliest(self.queue.contents());
                }
                t.next_event_nanos()
            },
            None => unreached(),
        };
        if next_event <= now_nanos {
            let mut t = match self.queue.pop() {
                Some(t) => t,
                None => unreached(),
            };
            proof {
                lemma_greatest_unique(t@, old(self).queue.contents());
            }
            t.advance();
            let topic = t.name().to_owned();
            self.queue.push(t);
            TimerStep::Fire(Message::Topic { topic, origin: Some(self.origin.clone()) })
        } else {
            TimerStep::Sleep(next_event - now_nanos)
        }
    }
}

} // verus!
