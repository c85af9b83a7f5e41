//! A named, repeating timer and the order in which due timers are served.

use std::cmp::Ordering;
use vstd::prelude::*;
use vstd::utf8::encode_utf8;
use crate::lexical::{bytes_less, bytes_lt, lemma_bytes_lt_irreflexive, lemma_bytes_lt_transitive, lemma_bytes_lt_trichotomy};

verus! {

/// What a timer is, as plain values: its name (the topic it fires on), the
/// interval between firings and the time of its next firing, both in
/// nanoseconds of a monotonic clock.
pub struct TimerView {
    pub name: Seq<char>,
    pub interval: u64,
    pub next_event: u64,
}

/// A timer that fires on topic `name` every `interval_nanos`, next at
/// `next_event_nanos`.
#[derive(Clone, PartialEq, Eq, Debug)]
pub struct Timer {
    name: String,
    interval_nanos: u64,
    next_event_nanos: u64,
}

impl View for Timer {
    type V = TimerView;

    closed spec fn view(&self) -> TimerView {
        TimerView { name: self.name@, interval: self.interval_nanos, next_event: self.next_event_nanos }
    }
}

/// The order of timers in the queue: the timer due first is the greatest;
/// among timers due at the same moment the longer interval is greater, and
/// then the name that sorts later byte by byte.
pub open spec fn timer_order(a: TimerView, b: TimerView) -> Ordering {
    if a.next_event < b.next_event {
        Ordering::Greater
    } else if b.next_event < a.next_event {
        Ordering::Less
    } else if a.interval < b.interval {
        Ordering::Less
    } else if b.interval < a.interval {
        Ordering::Greater
    } else if bytes_lt(encode_utf8(a.name), encode_utf8(b.name)) {
        Ordering::Less
    } else if bytes_lt(encode_utf8(b.name), encode_utf8(a.name)) {
        Ordering::Greater
    } else {
        Ordering::Equal
    }
}

/// `a` is served strictly before `b`.
pub open spec fn ranks_above(a: TimerView, b: TimerView) -> bool {
    timer_order(a, b) == Ordering::Greater
}

/// `b` is not served strictly before `a`.
pub open spec fn ranks_at_least(a: TimerView, b: TimerView) -> bool {
    timer_order(a, b) != Ordering::Less
}

impl Timer {
    /// A timer named `name` that fires every `interval_nanos`, first at
    /// `now_nanos + interval_nanos`.
    pub fn new(name: &str, interval_nanos: u64, now_nanos: u64) -> (t: Timer)
        requires
            now_nanos + interval_nanos <= u64::MAX,
        ensures
            t@ == (TimerView { name: name@, interval: interval_nanos, next_event: (now_nanos + interval_nanos) as u64 }),
    {
        Timer { name: name.to_owned(), interval_nanos, next_event_nanos: now_nanos + interval_nanos }
    }

    /// The timer's name, which is also the topic it fires on.
    pub fn name(&self) -> (r: &str)
        ensures
            r@ == self@.name,
    {
        self.name.as_str()
    }

    /// Nanoseconds between two firings.
    pub fn interval_nanos(&self) -> (r: u64)
        ensures
            r == self@.interval,
    {
        self.interval_nanos
    }

    /// When the timer fires next, in nanoseconds.
    pub fn next_event_nanos(&self) -> (r: u64)
        ensures
            r == self@.next_event,
    {
        self.next_event_nanos
    }

    /// Moves the next firing one interval later.
    pub fn advance(&mut self)
        requires
            old(self)@.next_event + old(self)@.interval <= u64::MAX,
        ensures
            final(self)@ == (TimerView { next_event: (old(self)@.next_event + old(self)@.interval) as u64, ..old(self)@ }),
    {
        self.next_event_nanos = self.next_event_nanos + self.interval_nanos;
    }

    /// Compares two timers by `timer_order`.
    pub fn cmp(&self, other: &Timer) -> (o: Ordering)
        ensures
            o == timer_order(self@, other@),
    {
        if self.next_event_nanos < other.next_event_nanos {
            Ordering::Greater
        } else if other.next_event_nanos < self.next_event_nanos {
            Ordering::Less
        } else if self.interval_nanos < other.interval_nanos {
            Ordering::Less
        } else if other.interval_nanos < self.interval_nanos {
            Ordering::Greater
        } else if bytes_less(self.name.as_str().as_bytes(), other.name.as_str().as_bytes()) {
            Ordering::Less
        } else if bytes_less(other.name.as_str().as_bytes(), self.name.as_str().as_bytes()) {
            Ordering::Greater
        } else {
            Ordering::Equal
        }
    }

    /// Whether this timer is served strictly before `other`.
    pub fn ranks_above(&self, other: &Timer) -> (r: bool)
        ensures
            r == ranks_above(self@, other@),
    {
        match self.cmp(other) {
            Ordering::Greater => true,
            _ => false,
        }
    }

    /// The same comparison as `cmp`, wrapped in `Some`: timers are totally
    /// ordered.
    pub fn partial_cmp(&self, other: &Timer) -> (o: Option<Ordering>)
        ensures
            o == Some(timer_order(self@, other@)),
    {
        Some(self.cmp(other))
    }
}

/// A timer due earlier ranks strictly higher, whatever the intervals and
/// names: timers are served in the order of their due times.
pub proof fn lemma_earlier_due_ranks_above(a: TimerView, b: TimerView)
    requires
        a.next_event < b.next_event,
    ensures
        ranks_above(a, b),
        !ranks_at_least(b, a),
{
}

/// Of two timers due at the same moment, the one with the longer interval
/// ranks strictly higher.
pub proof fn lemma_longer_interval_ranks_above(a: TimerView, b: TimerView)
    requires
        a.next_event == b.next_event,
        a.interval > b.interval,
    ensures
        ranks_above(a, b),
        !ranks_at_least(b, a),
{
}

/// `timer_order` reverses when its arguments swap: `a` ranks strictly above
/// `b` exactly when `b` does not rank at least as high as `a`.
pub proof fn lemma_timer_order_antisymmetric(a: TimerView, b: TimerView)
    ensures
        ranks_above(a, b) <==> !ranks_at_least(b, a),
{
    lemma_bytes_lt_trichotomy(encode_utf8(a.name), encode_utf8(b.name));
}

/// Two timers tie in `timer_order` (each ranks at least as high as the
/// other) exactly when they are the same timer.
pub proof fn lemma_timer_order_equal(a: TimerView, b: TimerView)
    ensures
        (ranks_at_least(a, b) && ranks_at_least(b, a)) <==> a == b,
{
    lemma_bytes_lt_trichotomy(encode_utf8(a.name), encode_utf8(b.name));
    lemma_bytes_lt_irreflexive(encode_utf8(a.name));
    if encode_utf8(a.name) == encode_utf8(b.name) {
        vstd::utf8::encode_utf8_decode_utf8(a.name);
        vstd::utf8::encode_utf8_decode_utf8(b.name);
    }
}

/// `timer_order` is transitive: if `a` ranks at least as high as `b` and `b`
/// at least as high as `c`, then `a` ranks at least as high as `c`, and
/// strictly higher when either step is strict.
pub proof fn lemma_timer_order_transitive(a: TimerView, b: TimerView, c: TimerView)
    requires
        ranks_at_least(a, b),
        ranks_at_least(b, c),
    ensures
        ranks_at_least(a, c),
        (ranks_above(a, b) || ranks_above(b, c)) ==> ranks_above(a, c),
{
    let (x, y, z) = (encode_utf8(a.name), encode_utf8(b.name), encode_utf8(c.name));
    lemma_bytes_lt_trichotomy(x, y);
    lemma_bytes_lt_trichotomy(y, z);
    lemma_bytes_lt_trichotomy(x, z);
    lemma_bytes_lt_irreflexive(x);
    if bytes_lt(z, y) && bytes_lt(y, x) {
        lemma_bytes_lt_transitive(z, y, x);
    }
    lemma_timer_order_equal(a, b);
    lemma_timer_order_equal(b, c);
}

} // verus!
