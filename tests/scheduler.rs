use hyperion::{Error, Scheduler};
use std::time::Duration;

#[test]
fn test_enqueue_dequeue() {
    let mut sched = Scheduler::new();
    let job_id = sched.enqueue("email", "Send welcome email");
    assert_eq!(job_id, 1);
    assert_eq!(sched.depth(), 1);

    let job = sched.dequeue("email", Duration::from_secs(5)).unwrap();
    assert_eq!(job.id, job_id);
    assert_eq!(job.payload, "Send welcome email");
    assert_eq!(sched.depth(), 0);
    assert_eq!(sched.leased_count(), 1);
}

#[test]
fn test_complete() {
    let mut sched = Scheduler::new();
    let job_id = sched.enqueue("email", "Send welcome email");
    let job = sched.dequeue("email", Duration::from_secs(5)).unwrap();
    assert_eq!(job.id, job_id);

    sched.complete(job_id).unwrap();
    assert_eq!(sched.leased_count(), 0);
    assert_eq!(sched.done_count(), 1);
}

#[test]
fn test_fail_and_reenqueue() {
    let mut sched = Scheduler::new();
    let job_id = sched.enqueue("email", "Send welcome email");
    let job = sched.dequeue("email", Duration::from_secs(1)).unwrap();
    assert_eq!(job.id, job_id);

    sched.fail(job_id).unwrap();
    assert_eq!(sched.leased_count(), 0);
    assert_eq!(sched.failed_count(), 1);
    assert_eq!(sched.depth(), 1);

    let job2 = sched.dequeue("email", Duration::from_secs(1)).unwrap();
    assert_eq!(job2.id, job_id);
    assert_eq!(job2.attempts, 2);
}

#[test]
fn test_reclaim_expired() {
    let mut sched = Scheduler::new();
    let job_id = sched.enqueue("email", "Send welcome email");
    let t0: u128 = 1_000;
    let lease = Duration::from_millis(50).as_nanos();
    let job = sched.dequeue_at("email", lease, t0).unwrap();
    assert_eq!(job.id, job_id);

    // 70 ms later the 50 ms lease has expired
    let later = t0 + Duration::from_millis(70).as_nanos();
    sched.reclaim_expired_at(later);
    assert_eq!(sched.leased_count(), 0);
    assert_eq!(sched.depth(), 1);

    let job2 = sched.dequeue_at("email", Duration::from_secs(1).as_nanos(), later).unwrap();
    assert_eq!(job2.id, job_id);
    assert_eq!(job2.attempts, 2);
}

#[test]
fn fifo_per_kind_with_increasing_ids() {
    let mut sched = Scheduler::new();
    let a = sched.enqueue("email", "A");
    let b = sched.enqueue("email", "B");
    assert!(a < b);
    let job = sched.dequeue("email", Duration::from_secs(5)).unwrap();
    assert_eq!(job.id, a);
    assert_eq!(job.payload, "A");
    assert_eq!(job.kind, "email");
    assert_eq!(job.attempts, 1);
    assert_eq!(sched.depth(), 1);
    assert_eq!(sched.leased_count(), 1);
}

#[test]
fn kinds_are_separate_queues() {
    let mut sched = Scheduler::new();
    let a = sched.enqueue("email", "A");
    let b = sched.enqueue("sms", "B");
    let c = sched.enqueue("email", "C");
    assert_eq!(sched.dequeue("sms", Duration::from_secs(5)).unwrap().id, b);
    assert_eq!(sched.dequeue("email", Duration::from_secs(5)).unwrap().id, a);
    assert_eq!(sched.dequeue("email", Duration::from_secs(5)).unwrap().id, c);
    assert!(sched.dequeue("email", Duration::from_secs(5)).is_none());
    assert_eq!(sched.depth(), 0);
    assert_eq!(sched.leased_count(), 3);
}

#[test]
fn dequeue_of_unknown_kind_is_none() {
    let mut sched = Scheduler::new();
    sched.enqueue("email", "A");
    assert!(sched.dequeue("push", Duration::from_secs(5)).is_none());
    assert_eq!(sched.depth(), 1);
    assert_eq!(sched.leased_count(), 0);
}

#[test]
fn depth_counts_enqueued_minus_dequeued() {
    let mut sched = Scheduler::new();
    for i in 0..5u32 {
        sched.enqueue(if i % 2 == 0 { "a" } else { "b" }, "p");
    }
    assert_eq!(sched.depth(), 5);
    sched.dequeue("a", Duration::from_secs(5)).unwrap();
    sched.dequeue("b", Duration::from_secs(5)).unwrap();
    assert_eq!(sched.depth(), 3);
}

#[test]
fn second_complete_or_fail_is_not_leased() {
    let mut sched = Scheduler::new();
    let id = sched.enqueue("email", "A");
    sched.dequeue("email", Duration::from_secs(5)).unwrap();
    assert_eq!(sched.complete(id), Ok(()));
    assert_eq!(sched.complete(id), Err(Error::NotLeased(id)));
    assert_eq!(sched.fail(id), Err(Error::NotLeased(id)));
    assert_eq!(sched.done_count(), 1);
    assert_eq!(sched.failed_count(), 0);
}

#[test]
fn complete_of_queued_job_is_not_leased() {
    let mut sched = Scheduler::new();
    let id = sched.enqueue("email", "A");
    assert_eq!(sched.complete(id), Err(Error::NotLeased(id)));
    assert_eq!(sched.fail(42), Err(Error::NotLeased(42)));
    assert_eq!(sched.depth(), 1);
}

#[test]
fn fail_goes_to_tail_of_its_kind() {
    let mut sched = Scheduler::new();
    let a = sched.enqueue("email", "A");
    let b = sched.enqueue("email", "B");
    sched.dequeue("email", Duration::from_secs(5)).unwrap();
    sched.fail(a).unwrap();
    assert_eq!(sched.dequeue("email", Duration::from_secs(5)).unwrap().id, b);
    let again = sched.dequeue("email", Duration::from_secs(5)).unwrap();
    assert_eq!(again.id, a);
    assert_eq!(again.attempts, 2);
}

#[test]
fn reclaim_keeps_leases_not_yet_due() {
    let mut sched = Scheduler::new();
    let id = sched.enqueue("email", "A");
    sched.dequeue_at("email", 50, 1_000).unwrap();
    sched.reclaim_expired_at(1_049);
    assert_eq!(sched.leased_count(), 1);
    assert_eq!(sched.depth(), 0);
    // due exactly at the deadline
    sched.reclaim_expired_at(1_050);
    assert_eq!(sched.leased_count(), 0);
    assert_eq!(sched.depth(), 1);
    assert_eq!(sched.failed_count(), 0);
    let job = sched.dequeue_at("email", 50, 2_000).unwrap();
    assert_eq!(job.id, id);
    assert_eq!(job.attempts, 2);
}

#[test]
fn reclaim_with_clock_leaves_long_lease() {
    let mut sched = Scheduler::new();
    sched.enqueue("email", "A");
    sched.dequeue("email", Duration::from_secs(3600)).unwrap();
    sched.reclaim_expired();
    assert_eq!(sched.leased_count(), 1);
    assert_eq!(sched.depth(), 0);
}

#[test]
fn reclaim_with_clock_returns_zero_lease() {
    let mut sched = Scheduler::new();
    let id = sched.enqueue("email", "A");
    sched.dequeue("email", Duration::from_millis(0)).unwrap();
    sched.reclaim_expired();
    assert_eq!(sched.leased_count(), 0);
    assert_eq!(sched.dequeue("email", Duration::from_secs(1)).unwrap().id, id);
}

#[test]
fn enqueue_default_uses_default_kind() {
    let mut sched = Scheduler::new();
    let id = sched.enqueue_default("payload");
    let job = sched.dequeue("default", Duration::from_secs(5)).unwrap();
    assert_eq!(job.id, id);
    assert_eq!(job.kind, "default");
    assert_eq!(job.payload, "payload");
}

#[test]
fn job_clone_is_equal() {
    let mut sched = Scheduler::new();
    sched.enqueue("email", "A");
    let job = sched.dequeue("email", Duration::from_secs(5)).unwrap();
    assert_eq!(job.clone(), job);
}

#[test]
fn fresh_scheduler_can_enqueue() {
    let mut sched = Scheduler::new();
    assert!(sched.can_enqueue());
    assert_eq!(sched.enqueue("a", "x"), 1);
    assert_eq!(sched.enqueue("a", "y"), 2);
    assert!(sched.can_enqueue());
}

#[test]
fn sub_millisecond_lease_is_kept_until_due() {
    let mut sched = Scheduler::new();
    sched.enqueue("email", "A");
    sched.dequeue_at("email", 500, 10_000).unwrap();
    sched.reclaim_expired_at(10_000);
    assert_eq!(sched.leased_count(), 1);
    sched.reclaim_expired_at(10_499);
    assert_eq!(sched.leased_count(), 1);
    sched.reclaim_expired_at(10_500);
    assert_eq!(sched.leased_count(), 0);
}
