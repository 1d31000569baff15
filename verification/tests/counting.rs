use mini_runtime::executor::SharedState;
use mini_runtime::futures::test::TestFuture;
use mini_runtime::task::{Completion, Computation, Task};
use mini_runtime::waker::{drop_waker, noop_waker, task_waker, Context};

#[test]
fn counting_future_keeps_what_it_was_given() {
    let future = TestFuture::new(4, 9);
    assert_eq!(future.steps_left(), 4);
    assert_eq!(future.label(), 9);
}

#[test]
fn counting_future_counts_down_to_ready() {
    let mut future = TestFuture::new(2, 0);
    let mut queue = SharedState::new();
    let waker = noop_waker();
    let mut cx = Context::from_waker(&waker, &mut queue);
    assert_eq!(future.poll(&mut cx), Completion::Pending);
    assert_eq!(future.steps_left(), 1);
    assert_eq!(future.poll(&mut cx), Completion::Pending);
    assert_eq!(future.steps_left(), 0);
    assert_eq!(future.poll(&mut cx), Completion::Ready);
    assert_eq!(future.poll(&mut cx), Completion::Ready);
    assert_eq!(future.steps_left(), 0);
}

#[test]
fn counting_future_wakes_its_task_on_pending() {
    let mut queue = SharedState::new();
    let task = Task::spawn(TestFuture::new(0, 0), &mut queue);
    let mut future = TestFuture::new(1, 0);
    let waker = task_waker(&task, &mut queue);
    let mut cx = Context::from_waker(&waker, &mut queue);
    assert_eq!(future.poll(&mut cx), Completion::Pending);
    assert_eq!(queue.len(), 1);
    assert_eq!(queue.pop(), Some(0));
    task.clear_queued(&mut queue);
    let mut cx = Context::from_waker(&waker, &mut queue);
    assert_eq!(future.poll(&mut cx), Completion::Ready);
    assert_eq!(queue.len(), 0);
    drop_waker(waker, &mut queue);
}

#[test]
fn task_drops_its_computation_on_ready() {
    let mut queue = SharedState::new();
    let mut task = Task::spawn(TestFuture::new(1, 0), &mut queue);
    let waker = task_waker(&task, &mut queue);
    let mut cx = Context::from_waker(&waker, &mut queue);
    assert_eq!(task.poll(&mut cx), Completion::Pending);
    assert!(!task.finished());
    assert_eq!(queue.pop(), Some(0));
    task.clear_queued(&mut queue);

    let mut cx = Context::from_waker(&waker, &mut queue);
    assert_eq!(task.poll(&mut cx), Completion::Ready);
    assert!(task.finished());

    let mut cx = Context::from_waker(&waker, &mut queue);
    assert_eq!(task.poll(&mut cx), Completion::Ready);
    assert!(task.finished());
    assert_eq!(queue.len(), 0);
    drop_waker(waker, &mut queue);
}

#[test]
fn settle_keeps_a_pending_computation() {
    let mut queue = SharedState::new();
    let mut task = Task::spawn(TestFuture::new(1, 0), &mut queue);
    assert_eq!(task.settle(Completion::Pending), Completion::Pending);
    assert!(!task.finished());
    assert_eq!(task.settle(Completion::Ready), Completion::Ready);
    assert!(task.finished());
}

#[test]
fn context_hands_out_its_waker_and_the_time() {
    let mut queue = SharedState::new();
    let task = Task::spawn(TestFuture::new(0, 0), &mut queue);
    queue.set_now(42);
    let waker = task_waker(&task, &mut queue);
    let cx = Context::from_waker(&waker, &mut queue);
    assert_eq!(cx.now(), 42);
    assert!(!cx.waker().is_noop());
    drop_waker(waker, &mut queue);
}
