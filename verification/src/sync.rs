//! Serialising work onto the main thread.
//!
//! The host runtime may only be touched from the thread that runs its event
//! loop. Other threads hand their work over as jobs: a job is appended to a
//! `DispatchQueue`, and a recurring timer on the main thread takes one job per
//! tick from the front and runs it. A caller that needs the result of its job
//! uses a blocking round trip: on the main thread the job runs at once; on any
//! other thread it is queued together with the sending half of a reply channel,
//! and the caller waits on the receiving half.
//!
//! Locks, timers and the guard that contains a panicking job belong to the
//! embedding program. This module decides what happens to a job and in which
//! order jobs run, and carries replies over channels of `crossbeam_channel`.

use crossbeam_channel::{Receiver, Sender};
use std::collections::VecDeque;
use vstd::prelude::*;

verus! {

/// Identity of the thread that owns the host runtime, recorded once at
/// start-up. Threads are named by a number that the embedding program assigns.
pub struct MainThreadToken {
    owner: Option<u64>,
}

/// Why `MainThreadToken::record_main_thread` refused.
#[derive(Clone, Copy, Debug, PartialEq, Eq, Structural)]
pub enum TokenError {
    /// A main thread has been recorded before.
    AlreadyRecorded,
}

/// Why a call that belongs to the main thread was refused.
#[derive(Clone, Copy, Debug, PartialEq, Eq, Structural)]
pub enum AffinityError {
    /// The caller does not run on the recorded main thread.
    NotMainThread,
}

/// Evidence that its holder runs on the main thread. It is handed out by
/// `MainThreadToken::on_main` only; what may be touched from the main thread
/// alone asks for it.
#[derive(Debug)]
pub struct OnMain {
    thread: u64,
}

impl OnMain {
    /// The thread that the evidence speaks of.
    pub closed spec fn thread(&self) -> u64 {
        self.thread
    }
}

impl MainThreadToken {
    /// Admits the thread `current` to what belongs to the main thread, or
    /// refuses: evidence is had on the recorded main thread and nowhere else.
    pub fn on_main(&self, current: u64) -> (res: Result<OnMain, AffinityError>)
        ensures
            self.owner() == Some(current) ==> res is Ok && res->Ok_0.thread() == current,
            self.owner() != Some(current) ==> res == Err::<OnMain, AffinityError>(
                AffinityError::NotMainThread,
            ),
    {
        if self.is_main_thread(current) {
            Ok(OnMain { thread: current })
        } else {
            Err(AffinityError::NotMainThread)
        }
    }

    /// The recorded thread, if any.
    pub closed spec fn owner(&self) -> Option<u64> {
        self.owner
    }

    /// A token with no thread recorded.
    pub fn new() -> (token: Self)
        ensures
            token.owner() is None,
    {
        MainThreadToken { owner: None }
    }

    /// Records `current` as the main thread. A second call changes nothing and
    /// reports `AlreadyRecorded`.
    pub fn record_main_thread(&mut self, current: u64) -> (res: Result<(), TokenError>)
        ensures
            old(self).owner() is None ==> res is Ok && final(self).owner() == Some(current),
            old(self).owner() is Some ==> res == Err::<(), TokenError>(TokenError::AlreadyRecorded)
                && final(self).owner() == old(self).owner(),
    {
        match self.owner {
            None => {
                self.owner = Some(current);
                Ok(())
            },
            Some(_) => Err(TokenError::AlreadyRecorded),
        }
    }

    /// Whether `current` is the recorded main thread. Before any thread has
    /// been recorded no thread is the main thread.
    pub fn is_main_thread(&self, current: u64) -> (b: bool)
        ensures
            b == (self.owner() == Some(current)),
    {
        match self.owner {
            None => false,
            Some(id) => id == current,
        }
    }
}

/// A unit of deferred work. `N` is a fire-and-forget closure, `B` a closure
/// whose result is owed to a waiting caller, `T` the handle on which that
/// caller waits.
pub enum Job<N, B, T> {
    Nonblocking(N),
    Blocking(B, T),
}

/// What is left to do once a job has run.
pub enum Completion<R, T> {
    /// Nothing: the job was fire-and-forget.
    Nothing,
    /// Send `value` to the caller that waits on `to`.
    Reply { to: T, value: R },
}

/// Runs `job` against the runtime context `ctx`.
///
/// A blocking job yields the one reply it owes: the value that its closure
/// returned, addressed to the handle that was queued with it.
pub fn run_job<C, R, N: FnOnce(&C), B: FnOnce(&C) -> R, T>(job: Job<N, B, T>, ctx: &C) -> (done:
    Completion<R, T>)
    requires
        job matches Job::Nonblocking(n) ==> call_requires(n, (ctx,)),
        job matches Job::Blocking(b, _) ==> call_requires(b, (ctx,)),
    ensures
        job matches Job::Nonblocking(n) ==> done is Nothing && call_ensures(n, (ctx,), ()),
        job matches Job::Blocking(b, t) ==> (done matches Completion::Reply { to, value } && to == t
            && call_ensures(b, (ctx,), value)),
{
    match job {
        Job::Nonblocking(n) => {
            n(ctx);
            Completion::Nothing
        },
        Job::Blocking(b, t) => {
            let value = b(ctx);
            Completion::Reply { to: t, value }
        },
    }
}

/// How a blocking round trip went at the moment of the call.
pub enum RoundTrip<R, F> {
    /// The caller is the main thread: the closure has run and this is its
    /// result.
    Done(R),
    /// The caller is another thread: the closure is handed back untouched, to
    /// be queued with a reply handle.
    Deferred(F),
}

/// Starts a blocking round trip for `cb`.
///
/// On the main thread `cb` runs immediately and its result is returned; no
/// queue is involved, so the main thread never waits for its own timer. Off the
/// main thread `cb` is not run.
pub fn on_main_blocking<C, R, F: FnOnce(&C) -> R>(main: Option<&C>, cb: F) -> (out: RoundTrip<R, F>)
    requires
        main matches Some(ctx) ==> call_requires(cb, (ctx,)),
    ensures
        main matches Some(ctx) ==> (out matches RoundTrip::Done(r) && call_ensures(cb, (ctx,), r)),
        main is None ==> (out matches RoundTrip::Deferred(f) && f == cb),
{
    match main {
        Some(ctx) => RoundTrip::Done(cb(ctx)),
        None => RoundTrip::Deferred(cb),
    }
}

/// Pending jobs, oldest first.
pub struct DispatchQueue<J> {
    jobs: VecDeque<J>,
}

impl<J> View for DispatchQueue<J> {
    type V = Seq<J>;

    closed spec fn view(&self) -> Seq<J> {
        self.jobs@
    }
}

impl<J> DispatchQueue<J> {
    /// An empty queue.
    pub fn new() -> (queue: Self)
        ensures
            queue@ == Seq::<J>::empty(),
    {
        DispatchQueue { jobs: VecDeque::new() }
    }

    /// Number of pending jobs.
    pub fn len(&self) -> (n: usize)
        ensures
            n == self@.len(),
    {
        self.jobs.len()
    }

    /// Whether no job is pending.
    pub fn is_empty(&self) -> (b: bool)
        ensures
            b == (self@.len() == 0),
    {
        self.jobs.len() == 0
    }

    /// Appends `job` behind every job that is already pending. This is all a
    /// submission does, whichever thread makes it: a job submitted from the
    /// main thread also waits for its tick.
    pub fn submit(&mut self, job: J)
        ensures
            final(self)@ == submitted(old(self)@, job),
    {
        self.jobs.push_back(job);
    }

    /// The work of one timer tick: takes the oldest pending job, if there is
    /// one, and hands it out to be run. Never more than one job per tick.
    pub fn drain_one_tick(&mut self) -> (job: Option<J>)
        ensures
            job == next_job(old(self)@),
            final(self)@ == ticked(old(self)@),
    {
        self.jobs.pop_front()
    }
}

/// Queues a fire-and-forget job for the main thread.
pub fn on_main<J>(queue: &mut DispatchQueue<J>, job: J)
    ensures
        final(queue)@ == submitted(old(queue)@, job),
{
    queue.submit(job);
}

/// The pending jobs after `job` has been submitted.
pub open spec fn submitted<J>(pending: Seq<J>, job: J) -> Seq<J> {
    pending.push(job)
}

/// The job that the next tick hands out.
pub open spec fn next_job<J>(pending: Seq<J>) -> Option<J> {
    if pending.len() == 0 {
        None
    } else {
        Some(pending[0])
    }
}

/// The pending jobs after one tick.
pub open spec fn ticked<J>(pending: Seq<J>) -> Seq<J> {
    if pending.len() == 0 {
        pending
    } else {
        pending.drop_first()
    }
}

/// One step in the life of a queue.
pub enum QueueOp<J> {
    Submit(J),
    Tick,
}

/// The jobs that `ops` submits, in the order of their submission.
pub open spec fn submissions<J>(ops: Seq<QueueOp<J>>) -> Seq<J>
    decreases ops.len(),
{
    if ops.len() == 0 {
        Seq::empty()
    } else {
        let before = submissions(ops.drop_last());
        match ops.last() {
            QueueOp::Submit(job) => before.push(job),
            QueueOp::Tick => before,
        }
    }
}

/// The number of ticks among `ops`.
pub open spec fn ticks<J>(ops: Seq<QueueOp<J>>) -> nat
    decreases ops.len(),
{
    if ops.len() == 0 {
        0
    } else {
        let before = ticks(ops.drop_last());
        match ops.last() {
            QueueOp::Submit(_) => before,
            QueueOp::Tick => before + 1,
        }
    }
}

/// The jobs still pending after `ops` have been applied, in order, to a queue
/// that held `start`.
pub open spec fn pending_after<J>(start: Seq<J>, ops: Seq<QueueOp<J>>) -> Seq<J>
    decreases ops.len(),
{
    if ops.len() == 0 {
        start
    } else {
        let before = pending_after(start, ops.drop_last());
        match ops.last() {
            QueueOp::Submit(job) => submitted(before, job),
            QueueOp::Tick => ticked(before),
        }
    }
}

/// The jobs that the ticks among `ops` have handed out, in the order in which
/// they were handed out.
pub open spec fn executed_after<J>(start: Seq<J>, ops: Seq<QueueOp<J>>) -> Seq<J>
    decreases ops.len(),
{
    if ops.len() == 0 {
        Seq::empty()
    } else {
        let done = executed_after(start, ops.drop_last());
        match ops.last() {
            QueueOp::Submit(_) => done,
            QueueOp::Tick => match next_job(pending_after(start, ops.drop_last())) {
                Some(job) => done.push(job),
                None => done,
            },
        }
    }
}

/// First in, first out. Whatever the interleaving of submissions and ticks,
/// the jobs handed out so far followed by the jobs still pending are exactly
/// the initial jobs followed by the submitted jobs, in the order of
/// submission: no job is lost, repeated or overtaken.
pub proof fn lemma_fifo<J>(start: Seq<J>, ops: Seq<QueueOp<J>>)
    ensures
        executed_after(start, ops) + pending_after(start, ops) == start + submissions(ops),
    decreases ops.len(),
{
    if ops.len() == 0 {
        assert(executed_after(start, ops) + pending_after(start, ops) =~= start + submissions(ops));
    } else {
        let init = ops.drop_last();
        lemma_fifo(start, init);
        let done = executed_after(start, init);
        let rest = pending_after(start, init);
        match ops.last() {
            QueueOp::Submit(job) => {
                assert(done + rest.push(job) =~= (done + rest).push(job));
                assert((start + submissions(init)).push(job) =~= start + submissions(init).push(job));
            },
            QueueOp::Tick => {
                if rest.len() > 0 {
                    assert(done.push(rest[0]) + rest.drop_first() =~= done + rest);
                }
            },
        }
    }
}

/// Bounded work per tick: the ticks among `ops` have handed out at most one
/// job each.
pub proof fn lemma_one_job_per_tick<J>(start: Seq<J>, ops: Seq<QueueOp<J>>)
    ensures
        executed_after(start, ops).len() <= ticks(ops),
    decreases ops.len(),
{
    if ops.len() > 0 {
        lemma_one_job_per_tick(start, ops.drop_last());
    }
}

/// Jobs run in the order of their submission: the jobs handed out by the ticks
/// among `ops` are a prefix of the initial jobs followed by the submitted ones.
pub proof fn lemma_execution_order<J>(start: Seq<J>, ops: Seq<QueueOp<J>>)
    ensures
        executed_after(start, ops).len() <= (start + submissions(ops)).len(),
        executed_after(start, ops) == (start + submissions(ops)).take(
            executed_after(start, ops).len() as int,
        ),
{
    lemma_fifo(start, ops);
    let done = executed_after(start, ops);
    let rest = pending_after(start, ops);
    assert((done + rest).take(done.len() as int) =~= done);
}

/// `crossbeam_channel::Sender`: the sending half of a channel.
#[verifier::external_type_specification]
#[verifier::external_body]
#[verifier::reject_recursive_types(T)]
pub struct ExSender<T>(Sender<T>);

/// `crossbeam_channel::Receiver`: the receiving half of a channel.
#[verifier::external_type_specification]
#[verifier::external_body]
#[verifier::reject_recursive_types(T)]
pub struct ExReceiver<T>(Receiver<T>);

/// Why a blocking round trip brought no result.
#[derive(Clone, Copy, Debug, PartialEq, Eq, Structural)]
pub enum RoundTripError {
    /// The main thread did not answer in time.
    Timeout,
    /// The job was dropped without an answer.
    Disconnected,
}

/// What became of the reply that a job owed.
#[derive(Clone, Copy, Debug, PartialEq, Eq, Structural)]
pub enum Delivery {
    /// The job owed no reply.
    Nothing,
    /// The reply is on its way to the caller.
    Sent,
    /// The channel of the caller took no more messages.
    Full,
    /// The caller waits no longer.
    Disconnected,
}

/// How the run of a job ended.
#[derive(Clone, Copy, Debug, PartialEq, Eq, Structural)]
pub enum JobEnd {
    /// The job ran to its end, and this became of its reply.
    Finished(Delivery),
    /// The job panicked, and the guard around it caught the panic.
    Panicked,
}

/// What is reported of a job once it has ended: nothing where all went well;
/// else a line for the user. Whatever it was, the job is done with: the queue
/// has let go of it before it ran, and the next tick takes the next job.
pub fn job_notice(end: JobEnd) -> (notice: Option<&'static str>)
    ensures
        match end {
            JobEnd::Finished(Delivery::Nothing) | JobEnd::Finished(Delivery::Sent) => notice is None,
            JobEnd::Finished(Delivery::Full) | JobEnd::Finished(Delivery::Disconnected) => notice
                is Some && notice->0@ == "a caller stopped waiting for its answer"@,
            JobEnd::Panicked => notice is Some && notice->0@ == "a job failed on the main thread"@,
        },
{
    match end {
        JobEnd::Finished(Delivery::Nothing) => None,
        JobEnd::Finished(Delivery::Sent) => None,
        JobEnd::Finished(Delivery::Full) => Some("a caller stopped waiting for its answer"),
        JobEnd::Finished(Delivery::Disconnected) => Some("a caller stopped waiting for its answer"),
        JobEnd::Panicked => Some("a job failed on the main thread"),
    }
}

/// The longest that a caller waits for the main thread, in milliseconds.
pub const MAX_WAIT_MILLIS: u64 = 3_600_000;

/// `crossbeam_channel::unbounded`: a new channel that holds any number of
/// messages.
#[verifier::external_body]
fn unbounded<T>() -> (ends: (Sender<T>, Receiver<T>)) {
    crossbeam_channel::unbounded()
}

/// `crossbeam_channel::Sender::try_send`: hands `value` to the channel
/// without waiting. How it ends depends on the other half of the channel.
#[verifier::external_body]
fn try_send<T>(to: &Sender<T>, value: T) -> (sent: Delivery)
    ensures
        !(sent is Nothing),
{
    match to.try_send(value) {
        Ok(()) => Delivery::Sent,
        Err(crossbeam_channel::TrySendError::Full(_)) => Delivery::Full,
        Err(crossbeam_channel::TrySendError::Disconnected(_)) => Delivery::Disconnected,
    }
}

/// `crossbeam_channel::Receiver::recv_timeout`: waits for a message, but no
/// longer than `millis` milliseconds. A wait too long to be added to the
/// clock would never end and is excluded.
#[verifier::external_body]
fn recv_timeout<T>(from: &Receiver<T>, millis: u64) -> (got: Result<T, RoundTripError>)
    requires
        millis <= MAX_WAIT_MILLIS,
{
    match from.recv_timeout(std::time::Duration::from_millis(millis)) {
        Ok(value) => Ok(value),
        Err(crossbeam_channel::RecvTimeoutError::Timeout) => Err(RoundTripError::Timeout),
        Err(crossbeam_channel::RecvTimeoutError::Disconnected) => Err(RoundTripError::Disconnected),
    }
}

/// Sends the reply that a job owed, if it owed one, without waiting.
pub fn deliver<R>(done: Completion<R, Sender<R>>) -> (delivery: Delivery)
    ensures
        delivery is Nothing <==> done is Nothing,
{
    match done {
        Completion::Nothing => Delivery::Nothing,
        Completion::Reply { to, value } => try_send(&to, value),
    }
}

/// The wait that is made for a wish of `millis` milliseconds: the wish, cut
/// down to `MAX_WAIT_MILLIS`.
pub open spec fn bounded_wait(millis: u64) -> u64 {
    if millis > MAX_WAIT_MILLIS {
        MAX_WAIT_MILLIS
    } else {
        millis
    }
}

/// The milliseconds that a caller who wishes to wait `millis` milliseconds
/// does wait at most.
pub fn wait_bound(millis: u64) -> (bounded: u64)
    ensures
        bounded == bounded_wait(millis),
        bounded <= MAX_WAIT_MILLIS,
{
    if millis > MAX_WAIT_MILLIS {
        MAX_WAIT_MILLIS
    } else {
        millis
    }
}

/// Waits for the reply to a job, for `wait_bound(millis)` milliseconds at
/// most. What comes of the wait is decided on the other side of the channel.
pub fn await_reply<R>(from: &Receiver<R>, millis: u64) -> (reply: Result<R, RoundTripError>) {
    recv_timeout(from, wait_bound(millis))
}

/// Whether `enqueue` has been called on the blocking job that is made of `cb`
/// and of the sending half `tx`, and has returned.
pub open spec fn handed_over<R, N, F, Q: FnOnce(Job<N, F, Sender<R>>)>(
    enqueue: Q,
    cb: F,
    tx: Sender<R>,
) -> bool {
    call_ensures(enqueue, (Job::<N, F, Sender<R>>::Blocking(cb, tx),), ())
}

/// A blocking round trip: has `cb` run on the main thread and returns its
/// result.
///
/// On the main thread, where `main` is the runtime context, `cb` runs at once
/// and nothing is queued. On another thread `cb` is handed to `enqueue`
/// together with the sending half of a new channel, as a blocking job, and
/// the caller waits on the other half for `wait_bound(millis)` milliseconds
/// at most; a wait that ends without a result is reported, not prolonged.
pub fn submit_blocking<C, R, N, F: FnOnce(&C) -> R, Q: FnOnce(Job<N, F, Sender<R>>)>(
    main: Option<&C>,
    cb: F,
    enqueue: Q,
    millis: u64,
) -> (res: Result<R, RoundTripError>)
    requires
        main matches Some(ctx) ==> call_requires(cb, (ctx,)),
        main is None ==> forall|job: Job<N, F, Sender<R>>|
            job matches Job::Blocking(f, _) && f == cb ==> call_requires(enqueue, (job,)),
    ensures
        main matches Some(ctx) ==> (res matches Ok(r) && call_ensures(cb, (ctx,), r)),
        main is None ==> exists|tx: Sender<R>| #[trigger] handed_over::<R, N, F, Q>(enqueue, cb, tx),
{
    match on_main_blocking(main, cb) {
        RoundTrip::Done(r) => Ok(r),
        RoundTrip::Deferred(f) => {
            let (tx, rx) = unbounded::<R>();
            let ghost sent = tx;
            enqueue(Job::Blocking(f, tx));
            assert(handed_over::<R, N, F, Q>(enqueue, cb, sent));
            await_reply(&rx, millis)
        },
    }
}

} // verus!
