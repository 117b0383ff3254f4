use js_runtime::handles::{AsyncHandle, HandleTable};
use js_runtime::runtime::JsRuntime;
use js_runtime::timers::{TimerEntry, TimerQueue, Timeout};

type Runtime = JsRuntime<u32, u32, u32, &'static str, &'static str>;

fn runtime() -> Runtime {
    JsRuntime::new(7, Vec::new())
}

fn handles_of(due: &[TimerEntry]) -> Vec<usize> {
    due.iter().map(|e| e.timeout.handle).collect()
}

#[test]
fn new_queue_is_empty() {
    let q = TimerQueue::new();
    assert!(q.is_empty());
    assert_eq!(q.len(), 0);
}

#[test]
fn two_timeouts_fire_in_one_turn_shorter_first() {
    let mut rt = runtime();
    rt.ev_enroll_timeout(0, Timeout { delay: 0, handle: 100 });
    rt.ev_enroll_timeout(0, Timeout { delay: 10, handle: 200 });
    let due = rt.ev_run_timers(15);
    assert_eq!(handles_of(&due), vec![100, 200]);
    assert_eq!(due[0].fire_time, 0);
    assert_eq!(due[1].fire_time, 10);
    assert!(rt.ev_is_idle());
}

#[test]
fn longer_timeout_enrolled_first_still_fires_second() {
    let mut rt = runtime();
    rt.ev_enroll_timeout(0, Timeout { delay: 10, handle: 200 });
    rt.ev_enroll_timeout(0, Timeout { delay: 0, handle: 100 });
    let due = rt.ev_run_timers(15);
    assert_eq!(handles_of(&due), vec![100, 200]);
}

#[test]
fn ties_fire_in_enrolment_order() {
    let mut q = TimerQueue::new();
    q.enroll(0, Timeout { delay: 30, handle: 3 });
    q.enroll(0, Timeout { delay: 20, handle: 2 });
    q.enroll(0, Timeout { delay: 10, handle: 1 });
    q.enroll(5, Timeout { delay: 15, handle: 22 });
    assert_eq!(q.len(), 4);
    let due = q.take_due(1000);
    assert_eq!(handles_of(&due), vec![1, 2, 22, 3]);
    assert_eq!(
        due.iter().map(|e| e.fire_time).collect::<Vec<u64>>(),
        vec![10, 20, 20, 30]
    );
    assert_eq!(due.iter().map(|e| e.seq).collect::<Vec<u64>>(), vec![2, 1, 3, 0]);
    assert!(q.is_empty());
}

#[test]
fn equal_fire_times_are_all_kept() {
    let mut q = TimerQueue::new();
    q.enroll(7, Timeout { delay: 3, handle: 1 });
    q.enroll(7, Timeout { delay: 3, handle: 2 });
    q.enroll(7, Timeout { delay: 3, handle: 3 });
    assert_eq!(q.len(), 3);
    assert_eq!(handles_of(&q.take_due(10)), vec![1, 2, 3]);
}

#[test]
fn timer_fires_at_its_fire_time_and_not_before() {
    let mut q = TimerQueue::new();
    q.enroll(100, Timeout { delay: 50, handle: 1 });
    assert!(q.take_due(149).is_empty());
    assert_eq!(q.len(), 1);
    let due = q.take_due(150);
    assert_eq!(
        due,
        vec![TimerEntry { fire_time: 150, seq: 0, timeout: Timeout { delay: 50, handle: 1 } }]
    );
    assert!(q.is_empty());
}

#[test]
fn later_timers_stay_pending() {
    let mut q = TimerQueue::new();
    q.enroll(0, Timeout { delay: 5, handle: 1 });
    q.enroll(0, Timeout { delay: 50, handle: 2 });
    q.enroll(0, Timeout { delay: 500, handle: 3 });
    assert_eq!(handles_of(&q.take_due(50)), vec![1, 2]);
    assert_eq!(q.len(), 1);
    assert!(q.take_due(499).is_empty());
    assert_eq!(handles_of(&q.take_due(500)), vec![3]);
}

#[test]
fn enrolment_numbers_go_on_while_timers_are_pending() {
    let mut q = TimerQueue::new();
    q.enroll(0, Timeout { delay: 1, handle: 1 });
    q.enroll(0, Timeout { delay: 9, handle: 2 });
    q.take_due(1);
    q.enroll(2, Timeout { delay: 1, handle: 3 });
    let due = q.take_due(9);
    assert_eq!(due.iter().map(|e| e.seq).collect::<Vec<u64>>(), vec![2, 1]);
}

#[test]
fn enrolment_numbers_start_again_when_the_queue_is_empty() {
    let mut q = TimerQueue::new();
    q.enroll(0, Timeout { delay: 1, handle: 1 });
    q.enroll(0, Timeout { delay: 1, handle: 2 });
    assert_eq!(q.take_due(1).len(), 2);
    q.enroll(2, Timeout { delay: 1, handle: 3 });
    let due = q.take_due(3);
    assert_eq!(due[0].seq, 0);
}

#[test]
fn fire_time_that_overflows_is_not_enrolled() {
    let mut rt = runtime();
    let t = Timeout { delay: 1, handle: 0 };
    assert!(!rt.state.timers.can_enroll(u64::MAX, &t));
    assert!(!rt.ev_try_enroll_timeout(u64::MAX, t));
    assert!(rt.ev_is_idle());
    assert!(rt.ev_try_enroll_timeout(u64::MAX - 1, t));
    assert_eq!(rt.state.timers.len(), 1);
    assert_eq!(rt.ev_run_timers(u64::MAX)[0].fire_time, u64::MAX);
}

#[test]
fn handle_keys_count_up_from_zero() {
    let mut rt = runtime();
    assert_eq!(rt.ev_enroll_async_handle(AsyncHandle::Promise("first")), 0);
    assert_eq!(rt.ev_enroll_async_handle(AsyncHandle::Callback("second")), 1);
    assert_eq!(rt.ev_try_enroll_async_handle(AsyncHandle::Promise("third")), Some(2));
    assert_eq!(rt.state.async_handles.len(), 3);
    assert!(!rt.ev_is_idle());
}

#[test]
fn taken_handle_is_what_was_enrolled() {
    let mut t: HandleTable<&str, &str> = HandleTable::new();
    let a = t.enroll(AsyncHandle::Promise("resolver"));
    let b = t.enroll(AsyncHandle::Callback("function"));
    assert!(t.contains(a));
    match t.take(b) {
        Some(AsyncHandle::Callback(f)) => assert_eq!(f, "function"),
        _ => panic!("a callback was enrolled under this key"),
    }
    match t.take(a) {
        Some(AsyncHandle::Promise(p)) => assert_eq!(p, "resolver"),
        _ => panic!("a promise was enrolled under this key"),
    }
    assert!(t.is_empty());
    assert!(t.take(a).is_none());
}

#[test]
fn key_of_a_delivered_handle_is_not_used_again() {
    let mut rt = runtime();
    let a = rt.ev_enroll_async_handle(AsyncHandle::Promise("a"));
    let b = rt.ev_enroll_async_handle(AsyncHandle::Promise("b"));
    assert!(rt.ev_take_async_handle(a).is_some());
    let c = rt.ev_enroll_async_handle(AsyncHandle::Promise("c"));
    assert_eq!((a, b, c), (0, 1, 2));
    assert!(rt.state.async_handles.contains(b));
    assert!(rt.state.async_handles.contains(c));
    assert!(!rt.state.async_handles.contains(a));
}

#[test]
fn unknown_key_takes_nothing() {
    let mut rt = runtime();
    rt.ev_enroll_async_handle(AsyncHandle::Callback("f"));
    assert!(rt.ev_take_async_handle(5).is_none());
    assert_eq!(rt.state.async_handles.len(), 1);
}

#[test]
fn new_runtime_has_nothing_pending() {
    let rt = runtime();
    assert!(rt.ev_is_idle());
    assert_eq!(*rt.context(), 7);
    assert_eq!(rt.get_state().modules.len(), 0);
    assert_eq!(Runtime::state(&rt).timers.len(), 0);
    assert!(rt.state.async_handles.can_enroll());
}

fn name_of(handle: &Option<AsyncHandle<&'static str, &'static str>>) -> &'static str {
    match handle {
        Some(AsyncHandle::Promise(p)) => p,
        Some(AsyncHandle::Callback(f)) => f,
        None => "",
    }
}

#[test]
fn turn_delivers_completions_in_firing_order() {
    let mut rt = runtime();
    let slow = rt.ev_enroll_async_handle(AsyncHandle::Promise("slow"));
    let fast = rt.ev_enroll_async_handle(AsyncHandle::Callback("fast"));
    let late = rt.ev_enroll_async_handle(AsyncHandle::Callback("late"));
    rt.ev_enroll_timeout(0, Timeout { delay: 10, handle: slow });
    rt.ev_enroll_timeout(0, Timeout { delay: 0, handle: fast });
    rt.ev_enroll_timeout(0, Timeout { delay: 100, handle: late });
    let fired = rt.ev_run_turn(15);
    assert_eq!(fired.len(), 2);
    assert_eq!(fired[0].0.fire_time, 0);
    assert_eq!(fired[1].0.fire_time, 10);
    assert!(matches!(fired[0].1, Some(AsyncHandle::Callback("fast"))));
    assert!(matches!(fired[1].1, Some(AsyncHandle::Promise("slow"))));
    assert_eq!(rt.state.timers.len(), 1);
    assert_eq!(rt.state.async_handles.len(), 1);
    assert!(rt.state.async_handles.contains(late));
    assert!(rt.ev_run_turn(99).is_empty());
    let fired = rt.ev_run_turn(100);
    assert_eq!(name_of(&fired[0].1), "late");
    assert!(rt.ev_is_idle());
}

#[test]
fn turn_with_ties_delivers_in_enrolment_order() {
    let mut rt = runtime();
    for name in ["c", "b", "a", "b2"] {
        rt.ev_enroll_async_handle(AsyncHandle::Promise(name));
    }
    rt.ev_enroll_timeout(0, Timeout { delay: 30, handle: 0 });
    rt.ev_enroll_timeout(0, Timeout { delay: 20, handle: 1 });
    rt.ev_enroll_timeout(0, Timeout { delay: 10, handle: 2 });
    rt.ev_enroll_timeout(10, Timeout { delay: 10, handle: 3 });
    let fired = rt.ev_run_turn(30);
    let names: Vec<&str> = fired.iter().map(|f| name_of(&f.1)).collect();
    assert_eq!(names, vec!["a", "b", "b2", "c"]);
}

#[test]
fn timer_without_pending_completion_delivers_nothing() {
    let mut rt = runtime();
    let key = rt.ev_enroll_async_handle(AsyncHandle::Promise("once"));
    rt.ev_enroll_timeout(0, Timeout { delay: 1, handle: key });
    rt.ev_enroll_timeout(0, Timeout { delay: 2, handle: key });
    rt.ev_enroll_timeout(0, Timeout { delay: 3, handle: 77 });
    let fired = rt.ev_run_turn(5);
    assert_eq!(fired.len(), 3);
    assert_eq!(name_of(&fired[0].1), "once");
    assert!(fired[1].1.is_none());
    assert!(fired[2].1.is_none());
    assert!(rt.ev_is_idle());
}
