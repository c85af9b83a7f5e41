use std::cmp::Ordering;
use min_mq::lexical::bytes_less;
use min_mq::message::Message;
use min_mq::scheduler::{TimerSchedule, TimerStep};
use min_mq::timer::Timer;
use min_mq::timer_queue::TimerQueue;

#[test]
fn new_timer_is_due_one_interval_later() {
    let t = Timer::new("tick", 1_000, 500);
    assert_eq!(t.name(), "tick");
    assert_eq!(t.interval_nanos(), 1_000);
    assert_eq!(t.next_event_nanos(), 1_500);
}

#[test]
fn advance_moves_one_interval() {
    let mut t = Timer::new("tick", 250, 0);
    t.advance();
    assert_eq!(t.next_event_nanos(), 500);
    assert_eq!(t.interval_nanos(), 250);
    assert_eq!(t.name(), "tick");
}

#[test]
fn earlier_timer_ranks_higher() {
    let early = Timer::new("b", 10, 0);
    let late = Timer::new("a", 10, 5);
    assert_eq!(early.cmp(&late), Ordering::Greater);
    assert_eq!(late.cmp(&early), Ordering::Less);
    assert!(early.ranks_above(&late));
    assert!(!late.ranks_above(&early));
}

#[test]
fn tie_on_time_goes_to_longer_interval() {
    let short = Timer::new("z", 10, 20);
    let long = Timer::new("a", 20, 10);
    assert_eq!(short.next_event_nanos(), long.next_event_nanos());
    assert_eq!(long.cmp(&short), Ordering::Greater);
    assert_eq!(short.cmp(&long), Ordering::Less);
}

#[test]
fn tie_on_time_and_interval_goes_to_later_name() {
    let a = Timer::new("alpha", 10, 0);
    let b = Timer::new("beta", 10, 0);
    assert_eq!(b.cmp(&a), Ordering::Greater);
    assert_eq!(a.cmp(&b), Ordering::Less);
    let prefix = Timer::new("alp", 10, 0);
    assert_eq!(prefix.cmp(&a), Ordering::Less);
}

#[test]
fn identical_timers_are_equal() {
    let a = Timer::new("same", 7, 3);
    let b = Timer::new("same", 7, 3);
    assert_eq!(a.cmp(&b), Ordering::Equal);
    assert_eq!(a, b);
}

#[test]
fn partial_cmp_agrees_with_cmp() {
    let a = Timer::new("a", 1, 0);
    let b = Timer::new("b", 2, 0);
    assert_eq!(a.partial_cmp(&b), Some(a.cmp(&b)));
    // `a` is due at 1, `b` at 2: `a` is served first.
    assert_eq!(b.partial_cmp(&a), Some(Ordering::Less));
}

#[test]
fn name_order_is_byte_order() {
    assert!(bytes_less(b"abc", b"abd"));
    assert!(bytes_less(b"ab", b"abc"));
    assert!(!bytes_less(b"abc", b"abc"));
    assert!(!bytes_less(b"b", b"abc"));
    assert!(bytes_less(b"", b"a"));
    assert!(!bytes_less(b"", b""));
    assert!(bytes_less("Z".as_bytes(), "a".as_bytes()));
}

#[test]
fn queue_serves_earliest_first() {
    let mut q = TimerQueue::new();
    assert!(q.is_empty());
    assert!(q.peek().is_none());
    assert!(q.pop().is_none());
    q.push(Timer::new("slow", 300, 0));
    q.push(Timer::new("fast", 100, 0));
    q.push(Timer::new("mid", 200, 0));
    assert_eq!(q.len(), 3);
    assert_eq!(q.peek().unwrap().name(), "fast");
    assert_eq!(q.pop().unwrap().name(), "fast");
    assert_eq!(q.pop().unwrap().name(), "mid");
    assert_eq!(q.pop().unwrap().name(), "slow");
    assert!(q.pop().is_none());
    assert_eq!(q.len(), 0);
}

#[test]
fn schedule_sleeps_until_the_next_timer() {
    let mut s = TimerSchedule::new("node");
    s.register(Timer::new("a", 100, 0));
    s.register(Timer::new("b", 30, 0));
    assert_eq!(s.len(), 2);
    assert_eq!(s.step(10), TimerStep::Sleep(20));
    assert_eq!(s.len(), 2);
}

#[test]
fn schedule_fires_due_timer_and_reschedules_it() {
    let mut s = TimerSchedule::new("node");
    s.register(Timer::new("a", 100, 0));
    s.register(Timer::new("b", 30, 0));
    assert_eq!(
        s.step(30),
        TimerStep::Fire(Message::Topic { topic: "b".to_string(), origin: Some("node".to_string()) })
    );
    // "b" is next due at 60 now; "a" at 100.
    assert_eq!(s.step(30), TimerStep::Sleep(30));
    assert_eq!(
        s.step(65),
        TimerStep::Fire(Message::Topic { topic: "b".to_string(), origin: Some("node".to_string()) })
    );
    // "b" is next due at 90 now; "a" at 100.
    assert_eq!(s.step(65), TimerStep::Sleep(25));
    assert_eq!(
        s.step(100),
        TimerStep::Fire(Message::Topic { topic: "b".to_string(), origin: Some("node".to_string()) })
    );
    assert_eq!(
        s.step(100),
        TimerStep::Fire(Message::Topic { topic: "a".to_string(), origin: Some("node".to_string()) })
    );
    assert_eq!(s.step(100), TimerStep::Sleep(20));
    assert_eq!(s.len(), 2);
}

#[test]
fn late_schedule_fires_one_timer_per_step() {
    let mut s = TimerSchedule::new("n");
    s.register(Timer::new("x", 10, 0));
    s.register(Timer::new("y", 10, 0));
    // Both are due at 10; the one whose name sorts later goes first.
    assert_eq!(s.step(1000), TimerStep::Fire(Message::Topic { topic: "y".to_string(), origin: Some("n".to_string()) }));
    assert_eq!(s.step(1000), TimerStep::Fire(Message::Topic { topic: "x".to_string(), origin: Some("n".to_string()) }));
    assert_eq!(s.step(1000), TimerStep::Fire(Message::Topic { topic: "y".to_string(), origin: Some("n".to_string()) }));
}
