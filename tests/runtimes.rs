use simple_http_server::pool::{ConfigError, HandlingRuntime, SubmitError, Take, WorkerPool};
use simple_http_server::tasks::{Phase, TaskTracker, Wait};

fn job_of(t: Take<&'static str>) -> (u64, &'static str) {
    match t {
        Take::Job(ticket, job) => (ticket, job),
        Take::Wait => panic!("expected a job, got wait"),
        Take::Finished => panic!("expected a job, got finished"),
    }
}

#[test]
fn zero_workers_is_a_config_error() {
    assert!(matches!(WorkerPool::<u8>::new(0), Err(ConfigError::ZeroWorkers)));
    assert!(matches!(TaskTracker::new(0), Err(ConfigError::ZeroWorkers)));
}

#[test]
fn jobs_come_out_in_submission_order() {
    let mut pool = WorkerPool::new(1).unwrap();
    assert_eq!(pool.submit("a"), Ok(0));
    assert_eq!(pool.submit("b"), Ok(1));
    assert_eq!(pool.pending(), 2);
    assert_eq!(job_of(pool.take(0)), (0, "a"));
    assert_eq!(pool.finish(0), 0);
    assert_eq!(job_of(pool.take(0)), (1, "b"));
    assert_eq!(pool.finish(0), 1);
    assert!(matches!(pool.take(0), Take::Wait));
}

#[test]
fn every_job_runs_once_and_workers_exit_after_shutdown() {
    let mut pool = WorkerPool::new(3).unwrap();
    assert_eq!(pool.worker_count(), 3);
    for _ in 0..7 {
        pool.submit("job").unwrap();
    }
    pool.close();
    let mut runs = vec![0u32; 7];
    let mut exited = 0;
    while exited < 3 {
        for w in 0..3 {
            if !pool.is_idle(w) {
                continue;
            }
            match pool.take(w) {
                Take::Job(t, _) => {
                    runs[t as usize] += 1;
                    assert_eq!(pool.finish(w), t);
                }
                Take::Wait => panic!("a closed queue never asks to wait"),
                Take::Finished => exited += 1,
            }
        }
    }
    assert!(pool.every_worker_exited());
    assert_eq!(pool.pending(), 0);
    assert_eq!(pool.submitted(), 7);
    assert_eq!(runs, vec![1; 7]);
}

#[test]
fn submit_after_close_fails() {
    let mut pool = WorkerPool::new(2).unwrap();
    pool.submit(1u8).unwrap();
    pool.close();
    assert!(pool.closed());
    assert_eq!(pool.submit(2u8), Err(SubmitError::Closed));
    assert_eq!(pool.execute(3u8), Err(SubmitError::Closed));
    assert_eq!(pool.pending(), 1);
    assert_eq!(pool.submitted(), 1);
}

#[test]
fn execute_accepts_while_open() {
    let mut pool = WorkerPool::new(2).unwrap();
    assert_eq!(pool.execute(5u8), Ok(()));
    assert_eq!(pool.execute(6u8), Ok(()));
    assert_eq!(pool.pending(), 2);
    assert!(matches!(pool.take(1), Take::Job(0, 5)));
    assert!(matches!(pool.take(0), Take::Job(1, 6)));
}

#[test]
fn queued_jobs_still_run_after_close() {
    let mut pool = WorkerPool::new(1).unwrap();
    pool.submit("late").unwrap();
    pool.close();
    assert_eq!(job_of(pool.take(0)), (0, "late"));
    pool.finish(0);
    assert!(matches!(pool.take(0), Take::Finished));
    assert!(pool.every_worker_exited());
}

#[test]
fn busy_long_job_leaves_other_workers_free() {
    let mut pool = WorkerPool::new(4).unwrap();
    for job in ["long", "short 1", "short 2", "short 3"] {
        assert_eq!(pool.execute(job), Ok(()));
    }
    assert_eq!(pool.pending(), 4);
    assert_eq!(job_of(pool.take(0)), (0, "long"));
    let mut finished = Vec::new();
    for w in 1..4 {
        let (t, _) = job_of(pool.take(w));
        finished.push(pool.finish(w));
        assert_eq!(finished.last(), Some(&t));
    }
    assert!(!pool.is_idle(0));
    finished.push(pool.finish(0));
    assert_eq!(finished, vec![1, 2, 3, 0]);
}

#[test]
fn shutdown_waits_for_the_slow_connection() {
    let mut tracker = TaskTracker::new(8).unwrap();
    assert_eq!(tracker.next_wait(), Wait::ConnectionOrShutdown);
    let slow = tracker.spawn().unwrap();
    tracker.shutdown();
    assert_eq!(tracker.current_phase(), Phase::Draining);
    assert_eq!(tracker.next_wait(), Wait::TaskCompletion);
    assert!(!tracker.is_stopped());
    assert_eq!(tracker.spawn(), Err(SubmitError::Closed));
    tracker.reap(slow);
    assert!(tracker.is_stopped());
    assert_eq!(tracker.next_wait(), Wait::Done);
}

#[test]
fn shutdown_with_nothing_outstanding_stops_at_once() {
    let mut tracker = TaskTracker::new(1).unwrap();
    tracker.shutdown();
    assert_eq!(tracker.current_phase(), Phase::Stopped);
    assert_eq!(tracker.spawn(), Err(SubmitError::Closed));
}

#[test]
fn cap_makes_the_loop_reap_before_accepting() {
    let mut tracker = TaskTracker::new(2).unwrap();
    let a = tracker.spawn().unwrap();
    let _b = tracker.spawn().unwrap();
    assert_eq!(tracker.next_wait(), Wait::TaskCompletion);
    assert_eq!(tracker.spawn(), Err(SubmitError::AtCapacity));
    tracker.reap(a);
    assert_eq!(tracker.in_flight(), 1);
    assert_eq!(tracker.next_wait(), Wait::ConnectionOrShutdown);
    assert_eq!(tracker.spawn(), Ok(2));
}

#[test]
fn ten_thousand_tasks_are_all_joined() {
    let n: u64 = 10000;
    let mut tracker = TaskTracker::new(n as usize).unwrap();
    let mut tickets = Vec::new();
    for _ in 0..n {
        tickets.push(tracker.spawn().unwrap());
    }
    tracker.shutdown();
    assert_eq!(tracker.current_phase(), Phase::Draining);
    let mut joined = vec![false; n as usize];
    for t in tickets.into_iter().rev() {
        assert!(!joined[t as usize]);
        joined[t as usize] = true;
        tracker.reap(t);
    }
    assert!(tracker.is_stopped());
    assert_eq!(tracker.spawned_count(), n);
    assert_eq!(tracker.in_flight(), 0);
    assert!(joined.iter().all(|j| *j));
}
