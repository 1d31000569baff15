use mini_runtime::executor::SharedState;
use mini_runtime::futures::sleep::SleepFuture;
use mini_runtime::task::{Completion, Computation, Task};
use mini_runtime::waker::{drop_waker, noop_waker, ref_count, task_waker, wake_waker, Context};

#[test]
fn pending_first_poll() {
    let mut sleep_f = SleepFuture::new(50);

    let mut queue = SharedState::new();
    let waker = noop_waker();
    let mut cx = Context::from_waker(&waker, &mut queue);

    let poll = sleep_f.poll(&mut cx);
    assert_eq!(
        poll,
        Completion::Pending,
        "The first poll always need to return a Poll::Pending"
    );
}

#[test]
fn wait_time() {
    let mut sleep_f = SleepFuture::new(50);

    let mut queue = SharedState::new();
    let waker = noop_waker();

    let mut cx = Context::from_waker(&waker, &mut queue);
    let _ = sleep_f.poll(&mut cx);
    queue.set_now(100);

    let mut cx = Context::from_waker(&waker, &mut queue);
    let poll = sleep_f.poll(&mut cx);
    assert_eq!(poll, Completion::Ready, "The thread should finished");
}

#[test]
fn sleep_is_pending_until_the_deadline() {
    let mut sleep_f = SleepFuture::new(100);
    let mut queue = SharedState::new();
    let waker = noop_waker();
    queue.set_now(7);
    for now in [7u64, 8, 50, 106] {
        queue.set_now(now);
        let mut cx = Context::from_waker(&waker, &mut queue);
        assert_eq!(sleep_f.poll(&mut cx), Completion::Pending, "at {}", now);
    }
    queue.set_now(107);
    let mut cx = Context::from_waker(&waker, &mut queue);
    assert_eq!(sleep_f.poll(&mut cx), Completion::Ready);
    assert!(sleep_f.is_completed());
}

#[test]
fn sleep_of_zero_is_pending_once() {
    let mut sleep_f = SleepFuture::new(0);
    let mut queue = SharedState::new();
    let waker = noop_waker();
    let mut cx = Context::from_waker(&waker, &mut queue);
    assert_eq!(sleep_f.poll(&mut cx), Completion::Pending);
    let mut cx = Context::from_waker(&waker, &mut queue);
    assert_eq!(sleep_f.poll(&mut cx), Completion::Ready);
}

#[test]
fn sleep_stays_ready() {
    let mut sleep_f = SleepFuture::new(10);
    let mut queue = SharedState::new();
    let waker = noop_waker();
    let mut cx = Context::from_waker(&waker, &mut queue);
    assert_eq!(sleep_f.poll(&mut cx), Completion::Pending);
    queue.set_now(10);
    let mut cx = Context::from_waker(&waker, &mut queue);
    assert_eq!(sleep_f.poll(&mut cx), Completion::Ready);
    queue.set_now(0);
    let mut cx = Context::from_waker(&waker, &mut queue);
    assert_eq!(sleep_f.poll(&mut cx), Completion::Ready);
}

#[test]
fn sleep_with_unreachable_deadline_waits_for_the_timer() {
    let mut sleep_f = SleepFuture::new(u64::MAX);
    let mut queue = SharedState::new();
    let waker = noop_waker();
    queue.set_now(1);
    let mut cx = Context::from_waker(&waker, &mut queue);
    assert_eq!(sleep_f.poll(&mut cx), Completion::Pending);
    queue.set_now(u64::MAX);
    let mut cx = Context::from_waker(&waker, &mut queue);
    assert_eq!(sleep_f.poll(&mut cx), Completion::Pending);
    let kept = sleep_f.fire();
    assert!(kept.is_some());
    drop_waker(kept.unwrap(), &mut queue);
    let mut cx = Context::from_waker(&waker, &mut queue);
    assert_eq!(sleep_f.poll(&mut cx), Completion::Ready);
}

#[test]
fn fire_completes_and_hands_out_the_stored_handle() {
    let mut queue = SharedState::new();
    let task = Task::spawn(SleepFuture::new(1000), &mut queue);
    let mut sleep_f = SleepFuture::new(1000);
    assert!(!sleep_f.is_started());
    assert_eq!(sleep_f.duration_ms(), 1000);

    let waker = task_waker(&task, &mut queue);
    let mut cx = Context::from_waker(&waker, &mut queue);
    assert_eq!(sleep_f.poll(&mut cx), Completion::Pending);
    assert!(sleep_f.is_started());
    assert!(!sleep_f.is_completed());
    assert_eq!(ref_count(&waker, &queue), 2);

    let kept = sleep_f.fire().expect("a handle was stored");
    assert!(sleep_f.is_completed());
    assert!(sleep_f.fire().is_none());
    assert_eq!(queue.len(), 0);
    wake_waker(kept, &mut queue);
    assert_eq!(queue.len(), 1);
    assert!(queue.is_queued(0));
    assert_eq!(ref_count(&waker, &queue), 1);

    let mut cx = Context::from_waker(&waker, &mut queue);
    assert_eq!(sleep_f.poll(&mut cx), Completion::Ready);
    drop_waker(waker, &mut queue);
    assert_eq!(queue.live_wakers(), 0);
}

#[test]
fn each_pending_poll_replaces_the_stored_handle() {
    let mut queue = SharedState::new();
    let task = Task::spawn(SleepFuture::new(10), &mut queue);
    let mut sleep_f = SleepFuture::new(10);

    let first = task_waker(&task, &mut queue);
    let mut cx = Context::from_waker(&first, &mut queue);
    assert_eq!(sleep_f.poll(&mut cx), Completion::Pending);
    assert_eq!(ref_count(&first, &queue), 2);

    let second = task_waker(&task, &mut queue);
    let mut cx = Context::from_waker(&second, &mut queue);
    assert_eq!(sleep_f.poll(&mut cx), Completion::Pending);
    assert_eq!(ref_count(&first, &queue), 1);
    assert_eq!(ref_count(&second, &queue), 2);
    assert_eq!(queue.len(), 0);

    drop_waker(first, &mut queue);
    assert_eq!(queue.live_wakers(), 1);
    queue.set_now(10);
    let mut cx = Context::from_waker(&second, &mut queue);
    assert_eq!(sleep_f.poll(&mut cx), Completion::Ready);
    assert_eq!(ref_count(&second, &queue), 1);
    drop_waker(second, &mut queue);
    assert_eq!(queue.live_wakers(), 0);
}
