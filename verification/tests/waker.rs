use mini_runtime::executor::SharedState;
use mini_runtime::futures::test::TestFuture;
use mini_runtime::task::Task;
use mini_runtime::waker::{
    clone_waker, drop_waker, noop_waker, ref_count, task_waker, wake_by_ref_waker, wake_waker,
};

fn queue_with_tasks(count: usize) -> (SharedState, Vec<Task<TestFuture>>) {
    let mut queue = SharedState::new();
    let mut tasks = Vec::new();
    for _ in 0..count {
        tasks.push(Task::spawn(TestFuture::new(0, 0), &mut queue));
    }
    (queue, tasks)
}

#[test]
fn task_ids_count_up_from_zero() {
    let (queue, tasks) = queue_with_tasks(3);
    assert_eq!(queue.task_count(), 3);
    assert_eq!(tasks[0].task_id(), 0);
    assert_eq!(tasks[1].task_id(), 1);
    assert_eq!(tasks[2].task_id(), 2);
    assert!(!tasks[0].finished());
    assert!(!queue.is_queued(0));
    assert!(!queue.is_queued(7));
}

#[test]
fn mark_queued_succeeds_once() {
    let (mut queue, tasks) = queue_with_tasks(1);
    assert!(tasks[0].mark_queued(&mut queue));
    assert!(queue.is_queued(0));
    assert!(!tasks[0].mark_queued(&mut queue));
    assert!(!tasks[0].mark_queued(&mut queue));
    assert!(queue.is_queued(0));
    assert_eq!(queue.len(), 0);
}

#[test]
fn clear_queued_reopens_the_window() {
    let (mut queue, tasks) = queue_with_tasks(1);
    assert!(tasks[0].mark_queued(&mut queue));
    queue.add_task(0);
    assert_eq!(queue.pop(), Some(0));
    assert!(queue.is_queued(0));
    tasks[0].clear_queued(&mut queue);
    assert!(!queue.is_queued(0));
    assert!(tasks[0].mark_queued(&mut queue));
}

#[test]
fn queue_is_first_in_first_out() {
    let (mut queue, tasks) = queue_with_tasks(3);
    for id in [2usize, 0, 1] {
        assert!(tasks[id].mark_queued(&mut queue));
        queue.add_task(id);
    }
    assert_eq!(queue.len(), 3);
    assert_eq!(queue.pop(), Some(2));
    assert_eq!(queue.pop(), Some(0));
    assert_eq!(queue.pop(), Some(1));
    assert_eq!(queue.pop(), None);
    assert_eq!(queue.len(), 0);
}

#[test]
fn alive_count_goes_up_and_down() {
    let mut queue = SharedState::new();
    assert_eq!(queue.alive(), 0);
    queue.add_alive(3);
    queue.add_alive(0);
    assert_eq!(queue.alive(), 3);
    queue.sub_alive();
    assert_eq!(queue.alive(), 2);
}

#[test]
fn many_wakes_make_one_queue_entry() {
    let (mut queue, tasks) = queue_with_tasks(2);
    let waker = task_waker(&tasks[1], &mut queue);
    wake_by_ref_waker(&waker, &mut queue);
    wake_by_ref_waker(&waker, &mut queue);
    let copy = clone_waker(&waker, &mut queue);
    wake_waker(copy, &mut queue);
    let other = task_waker(&tasks[1], &mut queue);
    wake_waker(other, &mut queue);
    wake_waker(waker, &mut queue);
    assert_eq!(queue.len(), 1);
    assert!(queue.is_queued(1));
    assert!(!queue.is_queued(0));
    assert_eq!(queue.pop(), Some(1));
    assert_eq!(queue.pop(), None);
}

#[test]
fn wake_after_clear_enqueues_again() {
    let (mut queue, tasks) = queue_with_tasks(1);
    let waker = task_waker(&tasks[0], &mut queue);
    wake_by_ref_waker(&waker, &mut queue);
    assert_eq!(queue.pop(), Some(0));
    wake_by_ref_waker(&waker, &mut queue);
    assert_eq!(queue.len(), 0, "the flag is still set, so the wake pushes nothing");
    tasks[0].clear_queued(&mut queue);
    wake_by_ref_waker(&waker, &mut queue);
    assert_eq!(queue.len(), 1);
    drop_waker(waker, &mut queue);
}

#[test]
fn reference_count_follows_the_handles() {
    let (mut queue, tasks) = queue_with_tasks(1);
    assert_eq!(queue.live_wakers(), 0);
    let first = task_waker(&tasks[0], &mut queue);
    assert_eq!(ref_count(&first, &queue), 1);
    assert_eq!(queue.live_wakers(), 1);

    let second = clone_waker(&first, &mut queue);
    let third = clone_waker(&second, &mut queue);
    assert_eq!(ref_count(&first, &queue), 3);
    assert_eq!(queue.live_wakers(), 1);

    wake_by_ref_waker(&third, &mut queue);
    assert_eq!(ref_count(&first, &queue), 3);

    wake_waker(second, &mut queue);
    assert_eq!(ref_count(&first, &queue), 2);

    drop_waker(third, &mut queue);
    assert_eq!(ref_count(&first, &queue), 1);
    assert_eq!(queue.live_wakers(), 1);

    drop_waker(first, &mut queue);
    assert_eq!(queue.live_wakers(), 0);
}

#[test]
fn consuming_wake_frees_the_last_reference() {
    let (mut queue, tasks) = queue_with_tasks(1);
    let waker = task_waker(&tasks[0], &mut queue);
    wake_waker(waker, &mut queue);
    assert_eq!(queue.live_wakers(), 0);
    assert_eq!(queue.len(), 1);
}

#[test]
fn freed_slot_is_used_again() {
    let (mut queue, tasks) = queue_with_tasks(2);
    let first = task_waker(&tasks[0], &mut queue);
    let second = task_waker(&tasks[1], &mut queue);
    assert_eq!(queue.live_wakers(), 2);
    drop_waker(first, &mut queue);
    assert_eq!(queue.live_wakers(), 1);
    let third = task_waker(&tasks[1], &mut queue);
    assert_eq!(queue.live_wakers(), 2);
    assert_eq!(ref_count(&third, &queue), 1);
    assert_eq!(ref_count(&second, &queue), 1);
    wake_waker(third, &mut queue);
    assert_eq!(queue.pop(), Some(1));
    drop_waker(second, &mut queue);
    assert_eq!(queue.live_wakers(), 0);
}

#[test]
fn noop_waker_wakes_nothing_and_counts_nothing() {
    let (mut queue, _tasks) = queue_with_tasks(1);
    let waker = noop_waker();
    assert!(waker.is_noop());
    assert_eq!(ref_count(&waker, &queue), 0);
    let copy = clone_waker(&waker, &mut queue);
    assert!(copy.is_noop());
    wake_by_ref_waker(&waker, &mut queue);
    wake_waker(copy, &mut queue);
    drop_waker(waker, &mut queue);
    assert_eq!(queue.len(), 0);
    assert_eq!(queue.live_wakers(), 0);
}

#[test]
fn clock_is_what_it_was_told() {
    let mut queue = SharedState::new();
    assert_eq!(queue.now(), 0);
    queue.set_now(1234);
    assert_eq!(queue.now(), 1234);
}
