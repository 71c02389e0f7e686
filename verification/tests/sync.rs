use weecord::sync::{
    await_reply, deliver, job_notice, on_main, on_main_blocking, run_job, wait_bound, Completion,
    Delivery, DispatchQueue, Job, JobEnd, MainThreadToken, RoundTrip, RoundTripError, TokenError,
    MAX_WAIT_MILLIS,
};

#[derive(Debug, PartialEq, Clone)]
struct Answer {
    label: String,
    value: (u32, Vec<u8>),
}

#[test]
fn main_thread_is_recorded_once() {
    let mut token = MainThreadToken::new();
    assert!(!token.is_main_thread(1));
    assert_eq!(token.record_main_thread(1), Ok(()));
    assert!(token.is_main_thread(1));
    assert!(!token.is_main_thread(2));
    assert_eq!(token.record_main_thread(2), Err(TokenError::AlreadyRecorded));
    assert!(token.is_main_thread(1));
    assert!(!token.is_main_thread(2));
}

#[test]
fn jobs_run_in_the_order_of_submission() {
    let mut queue: DispatchQueue<u32> = DispatchQueue::new();
    assert!(queue.is_empty());
    assert_eq!(queue.drain_one_tick(), None);
    queue.submit(1);
    on_main(&mut queue, 2);
    assert_eq!(queue.len(), 2);
    assert_eq!(queue.drain_one_tick(), Some(1));
    queue.submit(3);
    assert_eq!(queue.drain_one_tick(), Some(2));
    assert_eq!(queue.drain_one_tick(), Some(3));
    assert_eq!(queue.drain_one_tick(), None);
    assert!(queue.is_empty());
}

#[test]
fn one_job_per_tick() {
    let mut queue: DispatchQueue<u32> = DispatchQueue::new();
    for i in 0..5 {
        queue.submit(i);
    }
    assert_eq!(queue.drain_one_tick(), Some(0));
    assert_eq!(queue.len(), 4);
}

#[test]
fn closures_run_in_the_order_of_submission() {
    let log = std::cell::RefCell::new(Vec::new());
    let mut queue: DispatchQueue<Box<dyn FnOnce(&std::cell::RefCell<Vec<u32>>)>> =
        DispatchQueue::new();
    for i in 0..10u32 {
        queue.submit(Box::new(move |log: &std::cell::RefCell<Vec<u32>>| log.borrow_mut().push(i)));
    }
    while let Some(job) = queue.drain_one_tick() {
        let done: Completion<(), ()> =
            run_job(Job::<_, fn(&std::cell::RefCell<Vec<u32>>), ()>::Nonblocking(job), &log);
        assert!(matches!(done, Completion::Nothing));
    }
    assert_eq!(*log.borrow(), (0..10).collect::<Vec<u32>>());
}

#[test]
fn round_trip_on_the_main_thread_needs_no_tick() {
    let ctx = 20u32;
    let out = on_main_blocking(Some(&ctx), |c: &u32| Answer {
        label: "main".to_string(),
        value: (*c + 1, vec![1, 2]),
    });
    match out {
        RoundTrip::Done(answer) => {
            assert_eq!(answer, Answer { label: "main".to_string(), value: (21, vec![1, 2]) })
        },
        RoundTrip::Deferred(_) => panic!("ran off the main thread"),
    }
}

#[test]
fn round_trip_from_another_thread_is_answered_by_a_tick() {
    let ctx = 20u32;
    let mut queue = DispatchQueue::new();
    let (tx, rx) = crossbeam_channel::unbounded::<Answer>();
    let cb = |c: &u32| Answer { label: "worker".to_string(), value: (*c * 2, vec![9]) };
    match on_main_blocking(None::<&u32>, cb) {
        RoundTrip::Done(_) => panic!("ran without the main thread"),
        RoundTrip::Deferred(f) => queue.submit(Job::<fn(&u32), _, _>::Blocking(f, tx)),
    }
    assert!(rx.try_recv().is_err());
    let job = queue.drain_one_tick().unwrap();
    match run_job(job, &ctx) {
        Completion::Reply { to, value } => to.send(value).unwrap(),
        Completion::Nothing => panic!("no reply"),
    }
    assert_eq!(rx.recv().unwrap(), Answer { label: "worker".to_string(), value: (40, vec![9]) });
}

#[test]
fn submit_blocking_on_the_main_thread_runs_at_once() {
    let ctx = 7u32;
    let queued = std::cell::Cell::new(0u32);
    let res = weecord::sync::submit_blocking(
        Some(&ctx),
        |c: &u32| Answer { label: "now".to_string(), value: (*c, vec![]) },
        |_job: Job<fn(&u32), _, _>| queued.set(queued.get() + 1),
        0,
    );
    assert_eq!(res, Ok(Answer { label: "now".to_string(), value: (7, vec![]) }));
    assert_eq!(queued.get(), 0);
}

#[test]
fn submit_blocking_off_the_main_thread_waits_for_the_reply() {
    let ctx = 7u32;
    let res = weecord::sync::submit_blocking(
        None::<&u32>,
        |c: &u32| Answer { label: "later".to_string(), value: (*c + 1, vec![3]) },
        |job: Job<fn(&u32), _, _>| {
            assert_eq!(weecord::sync::deliver(run_job(job, &ctx)), weecord::sync::Delivery::Sent);
        },
        1000,
    );
    assert_eq!(res, Ok(Answer { label: "later".to_string(), value: (8, vec![3]) }));
}

#[test]
fn submit_blocking_gives_up_after_the_timeout() {
    let mut queue = DispatchQueue::new();
    let res: Result<u32, _> = weecord::sync::submit_blocking(
        None::<&u32>,
        |c: &u32| *c,
        |job: Job<fn(&u32), _, _>| queue.submit(job),
        20,
    );
    assert_eq!(res, Err(weecord::sync::RoundTripError::Timeout));
    assert_eq!(queue.len(), 1);
}

#[test]
fn submit_blocking_reports_a_dropped_job() {
    let res: Result<u32, _> = weecord::sync::submit_blocking(
        None::<&u32>,
        |c: &u32| *c,
        |job: Job<fn(&u32), _, _>| drop(job),
        1000,
    );
    assert_eq!(res, Err(weecord::sync::RoundTripError::Disconnected));
}

#[test]
fn replies_are_delivered_or_accounted_for() {
    let (tx, rx) = crossbeam_channel::unbounded::<u32>();
    assert_eq!(deliver(Completion::<u32, crossbeam_channel::Sender<u32>>::Nothing), Delivery::Nothing);
    assert_eq!(deliver(Completion::Reply { to: tx.clone(), value: 5 }), Delivery::Sent);
    assert_eq!(await_reply(&rx, 0), Ok(5));
    assert_eq!(await_reply(&rx, 10), Err(RoundTripError::Timeout));
    drop(rx);
    assert_eq!(deliver(Completion::Reply { to: tx, value: 6 }), Delivery::Disconnected);
    let (tx, rx) = crossbeam_channel::bounded::<u32>(1);
    assert_eq!(deliver(Completion::Reply { to: tx.clone(), value: 1 }), Delivery::Sent);
    assert_eq!(deliver(Completion::Reply { to: tx.clone(), value: 2 }), Delivery::Full);
    drop(tx);
    assert_eq!(await_reply(&rx, u64::MAX), Ok(1));
    assert_eq!(await_reply(&rx, u64::MAX), Err(RoundTripError::Disconnected));
}

#[test]
fn a_failing_job_does_not_stop_the_queue() {
    let log = std::cell::RefCell::new(Vec::new());
    let mut queue: DispatchQueue<Box<dyn FnOnce(&std::cell::RefCell<Vec<&'static str>>) -> Result<(), String>>> =
        DispatchQueue::new();
    queue.submit(Box::new(|log: &std::cell::RefCell<Vec<&'static str>>| {
        log.borrow_mut().push("ok1");
        Ok(())
    }));
    queue.submit(Box::new(|_log: &std::cell::RefCell<Vec<&'static str>>| Err("job failed".to_string())));
    queue.submit(Box::new(|log: &std::cell::RefCell<Vec<&'static str>>| {
        log.borrow_mut().push("ok2");
        Ok(())
    }));
    let mut ticks = 0;
    let mut failed = 0;
    while let Some(job) = queue.drain_one_tick() {
        ticks += 1;
        let pending = queue.len();
        let done = run_job(Job::<fn(&std::cell::RefCell<Vec<&'static str>>), _, ()>::Blocking(job, ()), &log);
        if let Completion::Reply { value: Err(_), .. } = done {
            failed += 1;
        }
        assert_eq!(queue.len(), pending);
    }
    assert_eq!(ticks, 3);
    assert_eq!(failed, 1);
    assert_eq!(*log.borrow(), vec!["ok1", "ok2"]);
}

#[test]
fn what_is_reported_of_a_job() {
    assert_eq!(job_notice(JobEnd::Finished(Delivery::Nothing)), None);
    assert_eq!(job_notice(JobEnd::Finished(Delivery::Sent)), None);
    assert_eq!(job_notice(JobEnd::Finished(Delivery::Full)), Some("a caller stopped waiting for its answer"));
    assert_eq!(
        job_notice(JobEnd::Finished(Delivery::Disconnected)),
        Some("a caller stopped waiting for its answer")
    );
    assert_eq!(job_notice(JobEnd::Panicked), Some("a job failed on the main thread"));
}

#[test]
fn waits_are_bounded() {
    assert_eq!(MAX_WAIT_MILLIS, 3_600_000);
    assert_eq!(wait_bound(0), 0);
    assert_eq!(wait_bound(25), 25);
    assert_eq!(wait_bound(3_600_000), 3_600_000);
    assert_eq!(wait_bound(3_600_001), 3_600_000);
    assert_eq!(wait_bound(u64::MAX), 3_600_000);
}

#[test]
fn submit_blocking_off_the_main_thread_hands_the_job_over_once() {
    let handed = std::cell::Cell::new(0u32);
    let res: Result<u32, _> = weecord::sync::submit_blocking(
        None::<&u32>,
        |c: &u32| *c,
        |job: Job<fn(&u32), _, _>| {
            assert!(matches!(job, Job::Blocking(_, _)));
            handed.set(handed.get() + 1);
        },
        1000,
    );
    assert_eq!(handed.get(), 1);
    assert_eq!(res, Err(RoundTripError::Disconnected));
}
