use labkit::sync::barrier::{Arrival, CiclicBarrier};
use labkit::sync::channel::{MpMcChannel, RecvStep, SendStep};
use labkit::sync::delayed_queue::{DelayedQueue, Poll};

#[test]
fn barrier_opens_for_the_thread_that_fills_the_round() {
    let mut b = CiclicBarrier::new(3);
    assert!(!b.is_open());
    assert_eq!(b.arrive(), Arrival::Waiting);
    assert_eq!(b.arrive(), Arrival::Waiting);
    assert_eq!(b.arrive(), Arrival::Opened);
    assert!(b.is_open());
    assert_eq!(b.arrive(), Arrival::Blocked);
    assert!(!b.leave());
    assert!(!b.leave());
    assert_eq!(b.arrive(), Arrival::Blocked);
    assert!(b.leave());
    assert!(!b.is_open());
    assert_eq!(b.arrive(), Arrival::Waiting);
}

#[test]
fn barrier_for_one_opens_at_once() {
    let mut b = CiclicBarrier::new(1);
    assert_eq!(b.arrive(), Arrival::Opened);
    assert!(b.leave());
    assert_eq!(b.arrive(), Arrival::Opened);
}

#[test]
fn channel_hands_items_on_in_their_order() {
    let mut c: MpMcChannel<i32> = MpMcChannel::new(3);
    assert!(matches!(c.send(1), SendStep::Sent));
    assert!(matches!(c.recv(), RecvStep::Got(1)));
    assert!(matches!(c.send(2), SendStep::Sent));
    assert!(matches!(c.send(3), SendStep::Sent));
    assert!(matches!(c.send(4), SendStep::Sent));
    assert!(matches!(c.recv(), RecvStep::Got(2)));
    assert!(matches!(c.send(5), SendStep::Sent));
    assert!(matches!(c.recv(), RecvStep::Got(3)));
    assert_eq!(c.shutdown(), Some(()));
    assert!(matches!(c.send(6), SendStep::Refused(6)));
    assert!(matches!(c.recv(), RecvStep::Got(4)));
    assert!(matches!(c.recv(), RecvStep::Got(5)));
    assert!(matches!(c.recv(), RecvStep::Finished));
    assert_eq!(c.take(), None);
}

#[test]
fn channel_makes_senders_and_receivers_wait() {
    let mut c: MpMcChannel<i32> = MpMcChannel::new(1);
    assert!(matches!(c.recv(), RecvStep::MustWait));
    assert!(matches!(c.send(1), SendStep::Sent));
    assert!(matches!(c.send(2), SendStep::MustWait(2)));
    c.force(2);
    assert_eq!(c.take(), Some(1));
    assert_eq!(c.take(), Some(2));
    assert_eq!(c.take(), None);
    let mut none: MpMcChannel<i32> = MpMcChannel::new(0);
    assert!(matches!(none.send(1), SendStep::MustWait(1)));
}

#[test]
fn delayed_queue_gives_what_is_due_first() {
    let mut q: DelayedQueue<i32> = DelayedQueue::new();
    assert!(matches!(q.poll(0), Poll::Empty));
    q.offer(1, 20);
    q.offer(2, 10);
    q.offer(3, 30);
    q.offer(4, 0);
    assert_eq!(q.size(), 4);
    assert!(matches!(q.poll(11), Poll::Ready(4)));
    assert!(matches!(q.poll(11), Poll::Ready(2)));
    assert!(matches!(q.poll(11), Poll::WaitFor(9)));
    assert_eq!(q.size(), 2);
    assert!(matches!(q.poll(20), Poll::WaitFor(0)));
    assert!(matches!(q.poll(21), Poll::Ready(1)));
    assert!(matches!(q.poll(31), Poll::Ready(3)));
    assert!(matches!(q.poll(31), Poll::Empty));
}

#[test]
fn delayed_queue_keeps_the_order_of_items_due_together() {
    let mut q: DelayedQueue<&str> = DelayedQueue::new();
    q.offer("a", 5);
    q.offer("b", 5);
    q.offer("c", 4);
    assert!(matches!(q.poll(9), Poll::Ready("c")));
    assert!(matches!(q.poll(9), Poll::Ready("a")));
    assert!(matches!(q.poll(9), Poll::Ready("b")));
}
