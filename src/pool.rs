//! The worker pool's shared queue and lifecycle.
//!
//! A [`PoolCore`] owns the FIFO queue that carries jobs and stop signals from
//! submitters to workers. Every transition is a method whose contract is
//! stated over a [`PoolModel`]: the size of the pool, its lifecycle state,
//! every message ever enqueued (`sent`) and how many of them workers have
//! taken (`taken`). Messages at positions below `taken` have been handed to
//! exactly one worker; the rest are still queued.
use std::collections::VecDeque;
use vstd::prelude::*;

verus! {

/// What travels through the queue: work for one worker, or an order for one
/// worker to leave its loop.
pub enum Message<J> {
    NewJob(J),
    Terminate,
}

/// Lifecycle of a pool. It only moves forward:
/// `Active` to `ShuttingDown` to `Terminated`.
#[derive(Clone, Copy, Debug, PartialEq, Eq, Structural)]
pub enum PoolState {
    Active,
    ShuttingDown,
    Terminated,
}

/// Failures that the pool reports to its callers.
#[derive(Clone, Copy, Debug, PartialEq, Eq, Structural)]
pub enum PoolError {
    /// A pool of zero workers was asked for.
    InvalidConfiguration,
    /// A job was submitted after shutdown had begun.
    PoolUnavailable,
    /// Some worker threads ended abnormally; `failed` counts them.
    WorkerJoinFailure { failed: usize },
}

/// What a worker does with the message it took.
pub enum WorkerStep<J> {
    Run(J),
    Exit,
}

/// The abstract state of a pool.
pub struct PoolModel<J> {
    pub size: nat,
    pub state: PoolState,
    pub sent: Seq<Message<J>>,
    pub taken: nat,
}

/// The jobs carried by a sequence of messages, in order.
pub open spec fn jobs_of<J>(s: Seq<Message<J>>) -> Seq<J>
    decreases s.len(),
{
    if s.len() == 0 {
        Seq::empty()
    } else {
        let rest = jobs_of(s.drop_last());
        match s.last() {
            Message::NewJob(j) => rest.push(j),
            Message::Terminate => rest,
        }
    }
}

/// How many stop signals a sequence of messages holds.
pub open spec fn terminate_count<J>(s: Seq<Message<J>>) -> nat
    decreases s.len(),
{
    if s.len() == 0 {
        0
    } else {
        let rest = terminate_count(s.drop_last());
        match s.last() {
            Message::NewJob(_) => rest,
            Message::Terminate => rest + 1,
        }
    }
}

/// `n` stop signals.
pub open spec fn stop_signals<J>(n: nat) -> Seq<Message<J>> {
    Seq::new(n, |i: int| Message::Terminate)
}

/// The messages already handed to workers, in the order they were taken.
pub open spec fn delivered<J>(m: PoolModel<J>) -> Seq<Message<J>> {
    m.sent.take(m.taken as int)
}

/// The messages still waiting in the queue, in the order they will be taken.
pub open spec fn pending<J>(m: PoolModel<J>) -> Seq<Message<J>> {
    m.sent.skip(m.taken as int)
}

/// A freshly created pool of `size` workers.
pub open spec fn initial<J>(size: nat) -> PoolModel<J> {
    PoolModel { size, state: PoolState::Active, sent: Seq::empty(), taken: 0 }
}

/// The states a pool can be in. While active, only jobs have been sent; once
/// shutdown has begun, the jobs are followed by exactly one stop signal per
/// worker and nothing else.
pub open spec fn well_formed<J>(m: PoolModel<J>) -> bool {
    &&& m.size >= 1
    &&& m.taken <= m.sent.len()
    &&& m.state == PoolState::Active ==> terminate_count(m.sent) == 0
    &&& m.state != PoolState::Active ==> {
        &&& m.sent.len() >= m.size
        &&& terminate_count(m.sent.take(m.sent.len() - m.size)) == 0
        &&& m.sent.skip(m.sent.len() - m.size) == stop_signals::<J>(m.size)
    }
}

/// Submitting a job: enqueued while active, refused otherwise.
pub open spec fn after_submit<J>(m: PoolModel<J>, job: J) -> PoolModel<J> {
    if m.state == PoolState::Active {
        PoolModel { sent: m.sent.push(Message::NewJob(job)), ..m }
    } else {
        m
    }
}

/// Asking the pool to stop: one stop signal per worker, sent once.
pub open spec fn after_stop_request<J>(m: PoolModel<J>) -> PoolModel<J> {
    if m.state == PoolState::Active {
        PoolModel {
            state: PoolState::ShuttingDown,
            sent: m.sent + stop_signals::<J>(m.size),
            ..m
        }
    } else {
        m
    }
}

/// A worker taking the oldest queued message, if there is one.
pub open spec fn after_take<J>(m: PoolModel<J>) -> PoolModel<J> {
    if m.taken < m.sent.len() {
        PoolModel { taken: m.taken + 1, ..m }
    } else {
        m
    }
}

/// All worker threads joined: the pool is released.
pub open spec fn after_joins<J>(m: PoolModel<J>) -> PoolModel<J> {
    if m.state == PoolState::ShuttingDown {
        PoolModel { state: PoolState::Terminated, ..m }
    } else {
        m
    }
}

/// Submitting `jobs` one after another.
pub open spec fn submit_all<J>(m: PoolModel<J>, jobs: Seq<J>) -> PoolModel<J>
    decreases jobs.len(),
{
    if jobs.len() == 0 {
        m
    } else {
        after_submit(submit_all(m, jobs.drop_last()), jobs.last())
    }
}

/// Workers taking `n` messages one after another.
pub open spec fn take_n<J>(m: PoolModel<J>, n: nat) -> PoolModel<J>
    decreases n,
{
    if n == 0 {
        m
    } else {
        after_take(take_n(m, (n - 1) as nat))
    }
}

/// How many join outcomes report an abnormal end.
pub open spec fn failures(outcomes: Seq<bool>) -> nat
    decreases outcomes.len(),
{
    if outcomes.len() == 0 {
        0
    } else {
        failures(outcomes.drop_last()) + if outcomes.last() {
            0nat
        } else {
            1nat
        }
    }
}

/// The report of a shutdown whose joins ended with `outcomes`.
pub open spec fn join_report_of(outcomes: Seq<bool>) -> Result<(), PoolError> {
    if failures(outcomes) == 0 {
        Ok(())
    } else {
        Err(PoolError::WorkerJoinFailure { failed: failures(outcomes) as usize })
    }
}

/// What a worker does with a message.
pub open spec fn step_of<J>(msg: Message<J>) -> WorkerStep<J> {
    match msg {
        Message::NewJob(j) => WorkerStep::Run(j),
        Message::Terminate => WorkerStep::Exit,
    }
}

proof fn lemma_concat<J>(a: Seq<Message<J>>, b: Seq<Message<J>>)
    ensures
        jobs_of(a + b) == jobs_of(a) + jobs_of(b),
        terminate_count(a + b) == terminate_count(a) + terminate_count(b),
    decreases b.len(),
{
    if b.len() == 0 {
        assert(a + b =~= a);
        assert(jobs_of(a) + jobs_of(b) =~= jobs_of(a));
    } else {
        lemma_concat(a, b.drop_last());
        assert((a + b).drop_last() =~= a + b.drop_last());
        assert((a + b).last() == b.last());
        match b.last() {
            Message::NewJob(j) => {
                assert(jobs_of(a) + jobs_of(b.drop_last()).push(j) =~= (jobs_of(a) + jobs_of(
                    b.drop_last(),
                )).push(j));
            },
            Message::Terminate => {},
        }
    }
}

proof fn lemma_split<J>(s: Seq<Message<J>>, k: int)
    requires
        0 <= k <= s.len(),
    ensures
        jobs_of(s) == jobs_of(s.take(k)) + jobs_of(s.skip(k)),
        terminate_count(s) == terminate_count(s.take(k)) + terminate_count(s.skip(k)),
{
    assert(s =~= s.take(k) + s.skip(k));
    lemma_concat(s.take(k), s.skip(k));
}

proof fn lemma_stop_signals<J>(n: nat)
    ensures
        jobs_of(stop_signals::<J>(n)) == Seq::<J>::empty(),
        terminate_count(stop_signals::<J>(n)) == n,
    decreases n,
{
    if n > 0 {
        assert(stop_signals::<J>(n).drop_last() =~= stop_signals::<J>((n - 1) as nat));
        lemma_stop_signals::<J>((n - 1) as nat);
    }
}

proof fn lemma_push_job<J>(s: Seq<Message<J>>, job: J)
    ensures
        jobs_of(s.push(Message::NewJob(job))) == jobs_of(s).push(job),
        terminate_count(s.push(Message::NewJob(job))) == terminate_count(s),
{
    assert(s.push(Message::NewJob(job)).drop_last() =~= s);
}

/// Every transition keeps a pool well formed.
pub proof fn lemma_transitions_preserve_well_formed<J>(m: PoolModel<J>, job: J)
    requires
        well_formed(m),
    ensures
        well_formed(after_submit(m, job)),
        well_formed(after_stop_request(m)),
        well_formed(after_take(m)),
        well_formed(after_joins(m)),
{
    lemma_push_job(m.sent, job);
    if m.state == PoolState::Active {
        let s2 = m.sent + stop_signals::<J>(m.size);
        assert(s2.take(s2.len() - m.size) =~= m.sent);
        assert(s2.skip(s2.len() - m.size) =~= stop_signals::<J>(m.size));
    }
}

/// Every job submitted to an active pool is enqueued exactly once and in
/// submission order, whatever the number of jobs: submissions from several
/// callers, taken one at a time, add each accepted job once.
pub proof fn lemma_submissions_enqueued_once<J>(m: PoolModel<J>, jobs: Seq<J>)
    requires
        well_formed(m),
        m.state == PoolState::Active,
    ensures
        well_formed(submit_all(m, jobs)),
        submit_all(m, jobs).state == PoolState::Active,
        submit_all(m, jobs).size == m.size,
        submit_all(m, jobs).taken == m.taken,
        jobs_of(submit_all(m, jobs).sent) == jobs_of(m.sent) + jobs,
        submit_all(m, jobs).sent.len() == m.sent.len() + jobs.len(),
    decreases jobs.len(),
{
    if jobs.len() == 0 {
        assert(jobs_of(m.sent) + jobs =~= jobs_of(m.sent));
    } else {
        lemma_submissions_enqueued_once(m, jobs.drop_last());
        let prev = submit_all(m, jobs.drop_last());
        lemma_transitions_preserve_well_formed(prev, jobs.last());
        lemma_push_job(prev.sent, jobs.last());
        assert(jobs_of(m.sent) + jobs.drop_last().push(jobs.last()) =~= (jobs_of(m.sent)
            + jobs.drop_last()).push(jobs.last()));
        assert(jobs.drop_last().push(jobs.last()) =~= jobs);
    }
}

/// Taking messages only advances the count of taken messages, one at a time,
/// until the queue is empty.
pub proof fn lemma_take_n<J>(m: PoolModel<J>, n: nat)
    requires
        well_formed(m),
    ensures
        well_formed(take_n(m, n)),
        take_n(m, n) == (PoolModel {
            taken: if m.taken + n <= m.sent.len() {
                m.taken + n
            } else {
                m.sent.len()
            },
            ..m
        }),
    decreases n,
{
    if n > 0 {
        lemma_take_n(m, (n - 1) as nat);
        let prev = take_n(m, (n - 1) as nat);
        lemma_transitions_preserve_well_formed(prev, arbitrary());
    }
}

/// Once shutdown has begun, every worker that has taken its stop signal has
/// left only after every job was taken: when all stop signals have been
/// delivered, the queue is empty and each job sent was delivered exactly
/// once, in the order it was sent.
pub proof fn lemma_stopped_workers_drain_queue<J>(m: PoolModel<J>)
    requires
        well_formed(m),
        m.state != PoolState::Active,
        terminate_count(delivered(m)) == m.size,
    ensures
        m.taken == m.sent.len(),
        pending(m).len() == 0,
        delivered(m) == m.sent,
        jobs_of(delivered(m)) == jobs_of(m.sent),
{
    let k = m.sent.len() - m.size;
    let jobs_part = m.sent.take(k);
    lemma_stop_signals::<J>(m.size);
    if m.taken < m.sent.len() {
        if m.taken <= k {
            lemma_split(jobs_part, m.taken as int);
            assert(jobs_part.take(m.taken as int) =~= delivered(m));
        } else {
            let d = delivered(m);
            lemma_split(d, k);
            assert(d.take(k) =~= jobs_part);
            let tail = d.skip(k);
            let signals = m.sent.skip(k);
            assert forall|i: int| 0 <= i < tail.len() implies tail[i] == signals[i] by {
                assert(tail[i] == m.sent[k + i]);
                assert(signals[i] == m.sent[k + i]);
            }
            assert(tail =~= stop_signals::<J>((m.taken - k) as nat));
            lemma_stop_signals::<J>((m.taken - k) as nat);
        }
        assert(false);
    }
    assert(delivered(m) =~= m.sent);
    assert(pending(m) =~= Seq::<Message<J>>::empty());
}

/// A pool of `size >= 1` workers that accepts `jobs` and is then shut down
/// runs each job exactly once: whatever the number of jobs relative to the
/// number of workers, once every worker has taken its stop signal the jobs
/// handed to workers are exactly the jobs submitted, each once, in order.
/// Taking every queued message (the jobs, then one stop signal per worker)
/// reaches that point.
pub proof fn lemma_every_job_runs_once<J>(size: nat, jobs: Seq<J>, n: nat)
    requires
        size >= 1,
    ensures
        terminate_count(
            delivered(
                take_n(
                    after_stop_request(submit_all(initial::<J>(size), jobs)),
                    jobs.len() + size,
                ),
            ),
        ) == size,
        terminate_count(
            delivered(take_n(after_stop_request(submit_all(initial::<J>(size), jobs)), n)),
        ) == size ==> {
            &&& jobs_of(
                delivered(take_n(after_stop_request(submit_all(initial::<J>(size), jobs)), n)),
            ) == jobs
            &&& pending(
                take_n(after_stop_request(submit_all(initial::<J>(size), jobs)), n),
            ).len() == 0
        },
{
    let m0 = initial::<J>(size);
    assert(jobs_of(m0.sent) =~= Seq::<J>::empty());
    lemma_submissions_enqueued_once(m0, jobs);
    let m1 = submit_all(m0, jobs);
    assert(Seq::<J>::empty() + jobs =~= jobs);
    lemma_transitions_preserve_well_formed(m1, arbitrary());
    let m2 = after_stop_request(m1);
    lemma_concat(m1.sent, stop_signals::<J>(size));
    lemma_stop_signals::<J>(size);
    assert(jobs + Seq::<J>::empty() =~= jobs);
    lemma_take_n(m2, jobs.len() + size);
    assert(delivered(take_n(m2, jobs.len() + size)) =~= m2.sent);
    lemma_take_n(m2, n);
    if terminate_count(delivered(take_n(m2, n))) == size {
        lemma_stopped_workers_drain_queue(take_n(m2, n));
    }
}

/// Shutting down twice is safe: once the first shutdown has completed, a
/// second one sends no stop signal and joins nothing, and a submission is
/// refused without enqueuing anything.
pub proof fn lemma_second_shutdown_is_noop<J>(m: PoolModel<J>, job: J)
    requires
        well_formed(m),
    ensures
        ({
            let done = after_joins(after_stop_request(m));
            &&& done.state == PoolState::Terminated
            &&& after_stop_request(done) == done
            &&& after_joins(done) == done
            &&& after_submit(done, job) == done
        }),
{
}

/// The decision a worker makes on the message it took: run the job it
/// carries, or leave its loop on a stop signal.
pub fn next_step<J>(msg: Message<J>) -> (r: WorkerStep<J>)
    ensures
        r == step_of(msg),
{
    match msg {
        Message::NewJob(job) => WorkerStep::Run(job),
        Message::Terminate => WorkerStep::Exit,
    }
}

/// Collects the outcome of joining each worker (`true` for a clean exit)
/// into one report: every outcome is looked at, and the failures are counted
/// rather than cut short at the first one.
pub fn join_report(outcomes: &Vec<bool>) -> (r: Result<(), PoolError>)
    ensures
        r == join_report_of(outcomes@),
{
    let mut failed: usize = 0;
    let mut i: usize = 0;
    while i < outcomes.len()
        invariant
            i <= outcomes@.len(),
            failed == failures(outcomes@.take(i as int)),
            failed <= i,
        decreases outcomes@.len() - i,
    {
        assert(outcomes@.take(i + 1).drop_last() =~= outcomes@.take(i as int));
        if !outcomes[i] {
            failed = failed + 1;
        }
        i = i + 1;
    }
    assert(outcomes@.take(i as int) =~= outcomes@);
    if failed == 0 {
        Ok(())
    } else {
        Err(PoolError::WorkerJoinFailure { failed })
    }
}

/// The queue and lifecycle of a pool of worker threads.
///
/// Whoever runs the threads calls [`PoolCore::take`] under mutual exclusion
/// from each worker, and [`PoolCore::submit`], [`PoolCore::request_stop`] and
/// [`PoolCore::record_joins`] from the owning side.
pub struct PoolCore<J> {
    size: usize,
    state: PoolState,
    queue: VecDeque<Message<J>>,
    sent: Ghost<Seq<Message<J>>>,
    taken: Ghost<nat>,
}

impl<J> View for PoolCore<J> {
    type V = PoolModel<J>;

    closed spec fn view(&self) -> PoolModel<J> {
        PoolModel {
            size: self.size as nat,
            state: self.state,
            sent: self.sent@,
            taken: self.taken@,
        }
    }
}

impl<J> PoolCore<J> {
    /// The pool is well formed, and its queue holds exactly the messages that
    /// were sent and not yet taken.
    pub closed spec fn inv(&self) -> bool {
        &&& well_formed(self@)
        &&& self.queue@ == pending(self@)
    }

    /// A pool of `size` workers with an empty queue. Zero workers is a
    /// configuration error, reported before anything else happens.
    pub fn create(size: usize) -> (r: Result<PoolCore<J>, PoolError>)
        ensures
            size == 0 <==> r is Err,
            r is Err ==> r->Err_0 == PoolError::InvalidConfiguration,
            r is Ok ==> r->Ok_0.inv() && r->Ok_0@ == initial::<J>(size as nat),
    {
        if size == 0 {
            return Err(PoolError::InvalidConfiguration);
        }
        let r = PoolCore {
            size,
            state: PoolState::Active,
            queue: VecDeque::new(),
            sent: Ghost(Seq::empty()),
            taken: Ghost(0),
        };
        assert(r.queue@ =~= pending(r@));
        Ok(r)
    }

    /// Number of workers the pool was created with.
    pub fn size(&self) -> (r: usize)
        ensures
            r as nat == self@.size,
    {
        self.size
    }

    /// Current lifecycle state.
    pub fn state(&self) -> (r: PoolState)
        ensures
            r == self@.state,
    {
        self.state
    }

    /// Number of messages waiting to be taken.
    pub fn pending_len(&self) -> (r: usize)
        requires
            self.inv(),
        ensures
            r as nat == pending(self@).len(),
    {
        self.queue.len()
    }

    /// Hands `job` to the queue while the pool is active; refuses it with
    /// `PoolUnavailable`, enqueuing nothing, once shutdown has begun.
    pub fn submit(&mut self, job: J) -> (r: Result<(), PoolError>)
        requires
            old(self).inv(),
        ensures
            final(self).inv(),
            final(self)@ == after_submit(old(self)@, job),
            old(self)@.state == PoolState::Active <==> r is Ok,
            r is Err ==> r->Err_0 == PoolError::PoolUnavailable,
    {
        proof {
            lemma_transitions_preserve_well_formed(self@, job);
        }
        if self.state != PoolState::Active {
            return Err(PoolError::PoolUnavailable);
        }
        let ghost job_g = job;
        self.queue.push_back(Message::NewJob(job));
        self.sent = Ghost(self.sent@.push(Message::NewJob(job_g)));
        assert(self.queue@ =~= pending(self@));
        Ok(())
    }

    /// Begins shutdown: sends exactly one stop signal per worker and refuses
    /// submissions from then on. Returns how many signals were sent; a pool
    /// whose shutdown has already begun sends none.
    pub fn request_stop(&mut self) -> (signals: usize)
        requires
            old(self).inv(),
        ensures
            final(self).inv(),
            final(self)@ == after_stop_request(old(self)@),
            signals == if old(self)@.state == PoolState::Active {
                old(self)@.size
            } else {
                0
            },
    {
        proof {
            lemma_transitions_preserve_well_formed(self@, arbitrary());
        }
        if self.state != PoolState::Active {
            return 0;
        }
        let mut i: usize = 0;
        while i < self.size
            invariant
                i <= self.size,
                self.size == old(self).size,
                self.state == old(self).state,
                self.sent == old(self).sent,
                self.taken == old(self).taken,
                self.queue@ == pending(old(self)@) + stop_signals::<J>(i as nat),
            decreases self.size - i,
        {
            self.queue.push_back(Message::Terminate);
            i = i + 1;
            assert(self.queue@ =~= pending(old(self)@) + stop_signals::<J>(i as nat));
        }
        self.state = PoolState::ShuttingDown;
        self.sent = Ghost(self.sent@ + stop_signals::<J>(self.size as nat));
        assert(self.queue@ =~= pending(self@));
        self.size
    }

    /// A worker taking the oldest queued message. Each message is handed out
    /// once, in the order it was sent; `None` when the queue is empty.
    pub fn take(&mut self) -> (r: Option<Message<J>>)
        requires
            old(self).inv(),
        ensures
            final(self).inv(),
            final(self)@ == after_take(old(self)@),
            old(self)@.taken < old(self)@.sent.len() ==> r == Some(
                old(self)@.sent[old(self)@.taken as int],
            ),
            old(self)@.taken == old(self)@.sent.len() ==> r is None,
    {
        proof {
            lemma_transitions_preserve_well_formed(self@, arbitrary());
        }
        let r = self.queue.pop_front();
        if r.is_some() {
            self.taken = Ghost(self.taken@ + 1);
        }
        assert(self.queue@ =~= pending(self@));
        r
    }

    /// Completes shutdown once every worker thread has been joined;
    /// `outcomes` holds one entry per worker, `false` where the thread ended
    /// abnormally. The pool is released whatever the outcomes, and the
    /// failures are reported together. On a pool already released this does
    /// nothing and succeeds.
    pub fn record_joins(&mut self, outcomes: &Vec<bool>) -> (r: Result<(), PoolError>)
        requires
            old(self).inv(),
            old(self)@.state != PoolState::Active,
            old(self)@.state == PoolState::ShuttingDown ==> outcomes@.len() == old(self)@.size,
        ensures
            final(self).inv(),
            final(self)@ == after_joins(old(self)@),
            final(self)@.state == PoolState::Terminated,
            r == if old(self)@.state == PoolState::ShuttingDown {
                join_report_of(outcomes@)
            } else {
                Ok(())
            },
    {
        proof {
            lemma_transitions_preserve_well_formed(self@, arbitrary());
        }
        if self.state == PoolState::Terminated {
            return Ok(());
        }
        self.state = PoolState::Terminated;
        join_report(outcomes)
    }
}

} // verus!
