//! The work of a device worker: draining its queue, running a batch and handing
//! every result to the job that asked for it; and the table of workers.

use std::collections::HashMap;

use vstd::pervasive::unreached;
use vstd::prelude::*;

use crate::backend::{commands_of, outcome, outcomes, Backend};
use crate::job::{Command, Job};
use crate::queue::JobQueue;
use crate::scalar::Scalar;

verus! {

/// Caps how many jobs a single batch can cover, bounding memory and launch
/// sizes under a flood of jobs.
pub const MAX_BATCH_SIZE: usize = 256;

/// The jobs among what polling gave, in order.
pub open spec fn given<J>(polls: Seq<Option<J>>) -> Seq<J>
    decreases polls.len(),
{
    if polls.len() == 0 {
        Seq::empty()
    } else {
        match polls.last() {
            Some(job) => given(polls.drop_last()).push(job),
            None => given(polls.drop_last()),
        }
    }
}

/// All jobs that a worker has at hand after polling: the one that it started
/// from, then every job that a poll gave, in order.
pub open spec fn received<J>(first: J, polls: Seq<Option<J>>) -> Seq<J> {
    seq![first] + given(polls)
}

/// A worker that has one job at hand polls this often for up to `cap` jobs in
/// all: until a poll gives nothing or the cap is reached, and no further.
pub open spec fn polled_out<J>(polls: Seq<Option<J>>, cap: nat) -> bool {
    &&& forall|i: int| 0 <= i < polls.len() - 1 ==> (#[trigger] polls[i]) is Some
    &&& polls.len() > 0 ==> polls.len() < cap
    &&& 1 + given(polls).len() < cap ==> polls.len() > 0 && polls.last() is None
}

/// What polling gave on the way from one state of a queue to a later one.
pub open spec fn polls_since<J>(later: JobQueue<J>, earlier: JobQueue<J>) -> Seq<Option<J>> {
    later.polls().skip(earlier.polls().len() as int)
}

/// Where every poll gave a job, these are the jobs.
pub proof fn lemma_given<J>(polls: Seq<Option<J>>)
    requires
        forall|i: int| 0 <= i < polls.len() ==> (#[trigger] polls[i]) is Some,
    ensures
        given(polls).len() == polls.len(),
        forall|i: int| 0 <= i < polls.len() ==> #[trigger] given(polls)[i] == polls[i]->0,
    decreases polls.len(),
{
    if polls.len() > 0 {
        let less = polls.drop_last();
        assert forall|i: int| 0 <= i < less.len() implies (#[trigger] less[i]) is Some by {
            assert(polls[i] is Some);
        }
        lemma_given(less);
        assert(polls[polls.len() - 1] is Some);
        assert forall|i: int| 0 <= i < polls.len() implies #[trigger] given(polls)[i]
            == polls[i]->0 by {
            if i < less.len() {
                assert(given(less)[i] == less[i]->0);
            }
        }
    }
}

/// Polling gives at most one job each time.
pub proof fn lemma_given_at_most<J>(polls: Seq<Option<J>>)
    ensures
        given(polls).len() <= polls.len(),
    decreases polls.len(),
{
    if polls.len() > 0 {
        lemma_given_at_most(polls.drop_last());
    }
}

/// Adds what a poll gave to a batch, and tells whether to poll again: not if
/// there was nothing, and not if the batch has reached `cap` jobs.
pub fn take_polled<J>(batch: &mut Vec<J>, polled: Option<J>, cap: usize) -> (more: bool)
    ensures
        match polled {
            Some(job) => {
                &&& final(batch)@ == old(batch)@.push(job)
                &&& more == (final(batch)@.len() < cap)
            },
            None => final(batch)@ == old(batch)@ && !more,
        },
{
    match polled {
        Some(job) => {
            batch.push(job);
            batch.len() < cap
        },
        None => false,
    }
}

/// Given a job that has been received already, takes any further jobs that are
/// queued right now, up to `cap` jobs in all.
pub fn drain_batch<J>(queue: &mut JobQueue<J>, first: J, cap: usize) -> (batch: Vec<J>)
    ensures
        final(queue).channel() == old(queue).channel(),
        old(queue).polls().is_prefix_of(final(queue).polls()),
        batch@ == received(first, polls_since(*final(queue), *old(queue))),
        polled_out(polls_since(*final(queue), *old(queue)), cap as nat),
{
    let mut batch: Vec<J> = Vec::new();
    batch.push(first);
    let mut more = batch.len() < cap;
    let ghost start = *queue;
    assert(polls_since(*queue, start) =~= Seq::empty());
    assert(batch@ =~= received(first, polls_since(*queue, start)));
    while more
        invariant
            start == *old(queue),
            queue.channel() == start.channel(),
            start.polls().is_prefix_of(queue.polls()),
            batch@ == received(first, polls_since(*queue, start)),
            more ==> batch@.len() < cap && batch@.len() == polls_since(*queue, start).len() + 1
                && forall|i: int|
                0 <= i < polls_since(*queue, start).len() ==> (#[trigger] polls_since(
                    *queue,
                    start,
                )[i]) is Some,
            !more ==> polled_out(polls_since(*queue, start), cap as nat),
        decreases cap - polls_since(*queue, start).len(),
    {
        let ghost before = polls_since(*queue, start);
        let polled = queue.poll();
        more = take_polled(&mut batch, polled, cap);
        proof {
            let polls = polls_since(*queue, start);
            assert(polls =~= before.push(polled));
            assert(polls.drop_last() =~= before);
            assert(batch@ =~= received(first, polls));
            lemma_given(before);
        }
    }
    batch
}

/// A queue that gives its jobs out in the order they were sent is drained from
/// the front: under the cap entirely, else up to the cap, with the remainder
/// left behind in order. No job is lost, doubled or moved.
pub proof fn draining_takes_the_front_of_the_queue<J>(
    first: J,
    queued: Seq<J>,
    polls: Seq<Option<J>>,
    cap: nat,
)
    requires
        polled_out(polls, cap),
        forall|i: int|
            0 <= i < polls.len() ==> #[trigger] polls[i] == (if i < queued.len() {
                Some(queued[i])
            } else {
                None
            }),
    ensures
        cap > queued.len() ==> received(first, polls) == seq![first] + queued,
        0 < cap <= queued.len() ==> received(first, polls) == seq![first] + queued.take(cap - 1),
        cap == 0 ==> received(first, polls) == seq![first],
        given(polls).len() <= queued.len(),
        received(first, polls) + queued.skip(given(polls).len() as int) == seq![first] + queued,
{
    let jobs = given(polls);
    if polls.len() > 0 && polls.last() is None {
        let less = polls.drop_last();
        assert forall|i: int| 0 <= i < less.len() implies (#[trigger] less[i]) is Some by {
            assert(polls[i] is Some);
        }
        lemma_given(less);
        assert(polls[polls.len() - 1] is None);
        if less.len() > 0 {
            assert(polls[less.len() - 1] is Some);
        }
        assert(less.len() == queued.len());
        assert forall|i: int| 0 <= i < jobs.len() implies jobs[i] == queued[i] by {
            assert(given(less)[i] == polls[i]->0);
        }
        assert(jobs =~= queued);
    } else {
        assert forall|i: int| 0 <= i < polls.len() implies (#[trigger] polls[i]) is Some by {
            assert(i < polls.len() - 1 || polls[i] == polls.last());
        }
        lemma_given(polls);
        if polls.len() > 0 {
            assert(polls[polls.len() - 1] is Some);
        }
        assert forall|i: int| 0 <= i < jobs.len() implies jobs[i] == queued[i] by {
            assert(jobs[i] == polls[i]->0);
        }
        assert(jobs =~= queued.take(polls.len() as int));
    }
    assert(queued =~= jobs + queued.skip(jobs.len() as int));
    assert(received(first, polls) + queued.skip(jobs.len() as int) =~= seq![first] + queued);
    if cap > queued.len() {
        assert(jobs =~= queued);
    } else if cap > 0 {
        assert(jobs =~= queued.take(cap - 1));
    } else {
        assert(jobs =~= Seq::<J>::empty());
        assert(received(first, polls) =~= seq![first]);
    }
}

/// A job's result, on its way to the process that waits for it.
pub struct Delivery<T, P> {
    pub pid: P,
    pub id: u64,
    pub result: Result<Vec<T>, String>,
}

/// The commands of a batch of jobs.
pub open spec fn commands_in<T, P>(batch: Seq<Job<T, P>>) -> Seq<Command<T>> {
    batch.map_values(|job: Job<T, P>| job.command)
}

/// The results in a run of deliveries.
pub open spec fn results_in<T, P>(deliveries: Seq<Delivery<T, P>>) -> Seq<
    Result<Vec<T>, String>,
> {
    deliveries.map_values(|delivery: Delivery<T, P>| delivery.result)
}

/// Delivery `i` goes to the process of job `i`, under that job's number.
pub open spec fn addressed<T, P>(batch: Seq<Job<T, P>>, deliveries: Seq<Delivery<T, P>>) -> bool {
    forall|i: int|
        0 <= i < deliveries.len() ==> (#[trigger] deliveries[i]).pid == batch[i].pid
            && deliveries[i].id == batch[i].id
}

fn reversed<X>(items: Vec<X>) -> (result: Vec<X>)
    ensures
        result@ == items@.reverse(),
{
    let mut rest = items;
    let mut result: Vec<X> = Vec::new();
    while rest.len() > 0
        invariant
            result@.len() + rest@.len() == items@.len(),
            rest@ == items@.take(rest@.len() as int),
            forall|i: int|
                0 <= i < result@.len() ==> #[trigger] result@[i] == items@[items@.len() - 1 - i],
        decreases rest@.len(),
    {
        if let Some(item) = rest.pop() {
            result.push(item);
        }
    }
    assert(result@ =~= items@.reverse());
    result
}

/// Pairs jobs with results by position, as far as both reach.
pub fn pair_up<T, P>(batch: Vec<Job<T, P>>, results: Vec<Result<Vec<T>, String>>) -> (deliveries:
    Vec<Delivery<T, P>>)
    ensures
        deliveries@.len() == (if batch@.len() <= results@.len() {
            batch@.len()
        } else {
            results@.len()
        }),
        addressed(batch@, deliveries@),
        results_in(deliveries@) == results@.take(deliveries@.len() as int),
        forall|i: int|
            0 <= i < deliveries@.len() ==> (#[trigger] deliveries@[i]).result == results@[i]
                && deliveries@[i].id == batch@[i].id && deliveries@[i].pid == batch@[i].pid,
{
    let ghost (jobs_in, given) = (batch@, results@);
    let mut jobs = reversed(batch);
    let mut rest = reversed(results);
    let mut deliveries: Vec<Delivery<T, P>> = Vec::new();
    assert(jobs_in.skip(0) =~= jobs_in);
    assert(given.skip(0) =~= given);
    while jobs.len() > 0 && rest.len() > 0
        invariant
            jobs@.len() + deliveries@.len() == jobs_in.len(),
            rest@.len() + deliveries@.len() == given.len(),
            jobs@ == jobs_in.skip(deliveries@.len() as int).reverse(),
            rest@ == given.skip(deliveries@.len() as int).reverse(),
            addressed(jobs_in, deliveries@),
            forall|i: int|
                0 <= i < deliveries@.len() ==> (#[trigger] deliveries@[i]).result == given[i],
        decreases jobs@.len(),
    {
        let ghost n = deliveries@.len() as int;
        let ghost (jobs_before, rest_before) = (jobs@, rest@);
        if let (Some(job), Some(result)) = (jobs.pop(), rest.pop()) {
            deliveries.push(Delivery { pid: job.pid, id: job.id, result });
        }
        assert(jobs_before.last() == jobs_in[n]);
        assert(rest_before.last() == given[n]);
        assert(jobs@ =~= jobs_in.skip(n + 1).reverse());
        assert(rest@ =~= given.skip(n + 1).reverse());
    }
    assert(results_in(deliveries@) =~= given.take(deliveries@.len() as int));
    deliveries
}

/// Every command of a batch may be run.
pub open spec fn all_fit<T: Scalar, P>(batch: Seq<Job<T, P>>) -> bool {
    forall|i: int| 0 <= i < batch.len() ==> (#[trigger] batch[i]).command.fits()
}

/// A batch was run on a backend, as one batch, and each result was addressed to
/// the job at its position.
pub open spec fn served<T: Scalar, P, B: Backend<T>>(
    pre: B,
    batch: Seq<Job<T, P>>,
    post: B,
    deliveries: Seq<Delivery<T, P>>,
) -> bool {
    &&& deliveries.len() == batch.len()
    &&& addressed(batch, deliveries)
    &&& B::ran_batch(pre, commands_in(batch), post, outcomes(results_in(deliveries)))
}

/// Tells whether every command of a batch may be run.
pub fn batch_fits<T: Scalar, P>(batch: &Vec<Job<T, P>>) -> (result: bool)
    ensures
        result == all_fit(batch@),
{
    let mut i: usize = 0;
    while i < batch.len()
        invariant
            i <= batch@.len(),
            forall|j: int| 0 <= j < i ==> (#[trigger] batch@[j]).command.fits(),
        decreases batch@.len() - i,
    {
        if !batch[i].command.sizes_fit() {
            assert(!batch@[i as int].command.fits());
            return false;
        }
        i += 1;
    }
    true
}

/// Runs a batch on a backend and addresses one result to every job, in order.
pub fn run_jobs<T: Scalar, P, B: Backend<T>>(backend: &mut B, batch: Vec<Job<T, P>>) -> (deliveries:
    Vec<Delivery<T, P>>)
    requires
        all_fit(batch@),
    ensures
        served(*old(backend), batch@, *final(backend), deliveries@),
        deliveries@.len() == batch@.len(),
        forall|i: int|
            0 <= i < batch@.len() ==> (#[trigger] deliveries@[i]).id == batch@[i].id
                && deliveries@[i].pid == batch@[i].pid,
        B::ran_batch(
            *old(backend),
            Seq::new(batch@.len(), |i: int| batch@[i].command),
            *final(backend),
            Seq::new(batch@.len(), |i: int| outcome(deliveries@[i].result)),
        ),
{
    let mut commands: Vec<&Command<T>> = Vec::new();
    let mut i: usize = 0;
    while i < batch.len()
        invariant
            i <= batch@.len(),
            commands@.len() == i,
            forall|j: int| 0 <= j < i ==> *(#[trigger] commands@[j]) == batch@[j].command,
        decreases batch@.len() - i,
    {
        commands.push(&batch[i].command);
        i += 1;
    }
    assert(commands_of(commands@) =~= commands_in(batch@));
    let results = backend.run_batch(commands.as_slice());
    let deliveries = pair_up(batch, results);
    assert(results@.take(deliveries@.len() as int) =~= results@);
    assert(Seq::new(batch@.len(), |i: int| batch@[i].command) =~= commands_in(batch@));
    assert(Seq::new(batch@.len(), |i: int| outcome(deliveries@[i].result)) =~= outcomes(
        results_in(deliveries@),
    ));
    deliveries
}

/// One turn of a worker: with a received job, drains what else is queued, runs
/// the batch and addresses one result to every job, in order. A batch with a
/// command that may not be run is not run at all.
pub fn serve<T: Scalar, P, B: Backend<T>>(
    backend: &mut B,
    queue: &mut JobQueue<Job<T, P>>,
    first: Job<T, P>,
) -> (deliveries: Option<Vec<Delivery<T, P>>>)
    ensures
        final(queue).channel() == old(queue).channel(),
        old(queue).polls().is_prefix_of(final(queue).polls()),
        polled_out(polls_since(*final(queue), *old(queue)), MAX_BATCH_SIZE as nat),
        match deliveries {
            Some(deliveries) => {
                let batch = received(first, polls_since(*final(queue), *old(queue)));
                &&& all_fit(batch)
                &&& served(*old(backend), batch, *final(backend), deliveries@)
                &&& deliveries@.len() == batch.len()
                &&& forall|i: int|
                    0 <= i < batch.len() ==> (#[trigger] deliveries@[i]).id == batch[i].id
                        && deliveries@[i].pid == batch[i].pid
                &&& B::ran_batch(
                    *old(backend),
                    Seq::new(batch.len(), |i: int| batch[i].command),
                    *final(backend),
                    Seq::new(batch.len(), |i: int| outcome(deliveries@[i].result)),
                )
            },
            None => {
                &&& !all_fit(received(first, polls_since(*final(queue), *old(queue))))
                &&& *final(backend) == *old(backend)
            },
        },
{
    let batch = drain_batch(queue, first, MAX_BATCH_SIZE);
    if !batch_fits(&batch) {
        return None;
    }
    Some(run_jobs(backend, batch))
}

/// One turn of a worker: the job it received, what polling gave, the state of the
/// backend before and after, and what was delivered.
pub struct Turn<T, P, B> {
    pub first: Job<T, P>,
    pub polls: Seq<Option<Job<T, P>>>,
    pub pre: B,
    pub post: B,
    pub deliveries: Seq<Delivery<T, P>>,
}

impl<T: Scalar, P, B: Backend<T>> Turn<T, P, B> {
    /// The jobs that the turn took off the channel.
    pub open spec fn batch(self) -> Seq<Job<T, P>> {
        received(self.first, self.polls)
    }

    /// The turn is one that [`serve`] takes.
    pub open spec fn taken(self) -> bool {
        &&& polled_out(self.polls, MAX_BATCH_SIZE as nat)
        &&& served(self.pre, self.batch(), self.post, self.deliveries)
    }
}

/// The jobs that were taken off the channel over several turns.
pub open spec fn batches<T: Scalar, P, B: Backend<T>>(turns: Seq<Turn<T, P, B>>) -> Seq<
    Seq<Job<T, P>>,
> {
    turns.map_values(|turn: Turn<T, P, B>| turn.batch())
}

/// The commands that were handed to the backend over several turns, one batch run
/// per turn.
pub open spec fn batch_runs<T: Scalar, P, B: Backend<T>>(turns: Seq<Turn<T, P, B>>) -> Seq<
    Seq<Command<T>>,
> {
    turns.map_values(|turn: Turn<T, P, B>| commands_in(turn.batch()))
}

/// What was delivered over several turns.
pub open spec fn delivered<T: Scalar, P, B: Backend<T>>(turns: Seq<Turn<T, P, B>>) -> Seq<
    Seq<Delivery<T, P>>,
> {
    turns.map_values(|turn: Turn<T, P, B>| turn.deliveries)
}

/// Over the turns of a worker whose channel hands the jobs out in the order they
/// were sent, every job is run and answered exactly once and in that order, and
/// every turn puts between one job and a full batch of them into one batch run,
/// whose results are the ones that the turn's jobs are answered with.
pub proof fn every_job_is_run_and_answered_once<T: Scalar, P, B: Backend<T>>(
    turns: Seq<Turn<T, P, B>>,
    sent: Seq<Job<T, P>>,
)
    requires
        forall|i: int| 0 <= i < turns.len() ==> (#[trigger] turns[i]).taken(),
        batches(turns).flatten() == sent,
    ensures
        forall|i: int|
            0 <= i < turns.len() ==> {
                let turn = #[trigger] turns[i];
                &&& 1 <= turn.batch().len() <= MAX_BATCH_SIZE
                &&& B::ran_batch(
                    turn.pre,
                    commands_in(turn.batch()),
                    turn.post,
                    outcomes(results_in(turn.deliveries)),
                )
            },
        batch_runs(turns).flatten() == commands_in(sent),
        delivered(turns).flatten().len() == sent.len(),
        addressed(sent, delivered(turns).flatten()),
    decreases turns.len(),
{
    assert forall|i: int| 0 <= i < turns.len() implies 1 <= (
    #[trigger] turns[i]).batch().len() <= MAX_BATCH_SIZE by {
        assert(turns[i].taken());
        lemma_given_at_most(turns[i].polls);
    }
    if turns.len() > 0 {
        let rest = turns.drop_first();
        assert forall|i: int| 0 <= i < rest.len() implies (#[trigger] rest[i]).taken() by {
            assert(turns[i + 1].taken());
        }
        every_job_is_run_and_answered_once(rest, batches(rest).flatten());
        assert(turns[0].taken());
        assert(batches(turns).drop_first() =~= batches(rest));
        assert(batch_runs(turns).drop_first() =~= batch_runs(rest));
        assert(delivered(turns).drop_first() =~= delivered(rest));
    }
    assert(batch_runs(turns).flatten() =~= commands_in(sent));
}

/// The senders of the workers that are running, by device.
pub struct WorkerTable<S> {
    senders: HashMap<u32, S>,
}

/// The table after a worker for `device` was offered: the first one stays.
pub open spec fn adopted<S>(table: Map<u32, S>, device: u32, sender: S) -> Map<u32, S> {
    if table.dom().contains(device) {
        table
    } else {
        table.insert(device, sender)
    }
}

impl<S> View for WorkerTable<S> {
    type V = Map<u32, S>;

    closed spec fn view(&self) -> Map<u32, S> {
        self.senders@
    }
}

impl<S> WorkerTable<S> {
    /// A table without workers.
    pub fn new() -> (table: Self)
        ensures
            table@ == Map::<u32, S>::empty(),
    {
        WorkerTable { senders: HashMap::new() }
    }

    /// The sender of the worker for `device`, if there is one already. If there
    /// is none, spawn a worker without holding on to the table, and offer its
    /// sender to [`WorkerTable::adopt`].
    pub fn lookup(&self, device: u32) -> (sender: Option<&S>)
        ensures
            sender is Some <==> self@.dom().contains(device),
            sender matches Some(s) ==> *s == self@[device],
    {
        broadcast use vstd::std_specs::hash::group_hash_axioms;

        self.senders.get(&device)
    }

    /// Takes a new worker's sender on, unless another worker for the device got
    /// there first, and returns the sender that counts.
    pub fn adopt(&mut self, device: u32, sender: S) -> (kept: &S)
        ensures
            final(self)@ == adopted(old(self)@, device, sender),
            *kept == final(self)@[device],
    {
        broadcast use vstd::std_specs::hash::group_hash_axioms;

        if !self.senders.contains_key(&device) {
            self.senders.insert(device, sender);
        }
        match self.senders.get(&device) {
            Some(kept) => kept,
            None => unreached(),
        }
    }
}

/// Whichever worker for a device is adopted first is the one that every later
/// lookup finds, and no later offer replaces it.
pub proof fn first_worker_stays<S>(table: Map<u32, S>, device: u32, first: S, second: S)
    requires
        !table.dom().contains(device),
    ensures
        adopted(table, device, first).dom().contains(device),
        adopted(table, device, first)[device] == first,
        adopted(adopted(table, device, first), device, second) == adopted(table, device, first),
{
}

/// The table after several workers, each for a device, were offered in turn.
pub open spec fn all_adopted<S>(table: Map<u32, S>, offers: Seq<(u32, S)>) -> Map<u32, S>
    decreases offers.len(),
{
    if offers.len() == 0 {
        table
    } else {
        adopted(all_adopted(table, offers.drop_last()), offers.last().0, offers.last().1)
    }
}

/// However many callers offer workers, whoever asks for a device gets the first
/// one that was offered for it: offer `i` is the first for its device, and the
/// table holds that worker after every number of offers from there on.
pub proof fn callers_share_the_first_worker<S>(
    table: Map<u32, S>,
    offers: Seq<(u32, S)>,
    i: int,
)
    requires
        0 <= i < offers.len(),
        !table.dom().contains(offers[i].0),
        forall|j: int| 0 <= j < i ==> (#[trigger] offers[j]).0 != offers[i].0,
    ensures
        forall|n: int|
            i < n <= offers.len() ==> {
                let later = #[trigger] all_adopted(table, offers.take(n));
                later.dom().contains(offers[i].0) && later[offers[i].0] == offers[i].1
            },
{
    assert forall|n: int| i < n <= offers.len() implies {
        let later = #[trigger] all_adopted(table, offers.take(n));
        later.dom().contains(offers[i].0) && later[offers[i].0] == offers[i].1
    } by {
        lemma_first_worker(table, offers, i, n);
    }
}

proof fn lemma_first_worker<S>(table: Map<u32, S>, offers: Seq<(u32, S)>, i: int, n: int)
    requires
        0 <= i < offers.len(),
        0 <= n <= offers.len(),
        !table.dom().contains(offers[i].0),
        forall|j: int| 0 <= j < i ==> (#[trigger] offers[j]).0 != offers[i].0,
    ensures
        ({
            let later = all_adopted(table, offers.take(n));
            if n <= i {
                !later.dom().contains(offers[i].0)
            } else {
                later.dom().contains(offers[i].0) && later[offers[i].0] == offers[i].1
            }
        }),
    decreases n,
{
    if n > 0 {
        lemma_first_worker(table, offers, i, n - 1);
        assert(offers.take(n).drop_last() =~= offers.take(n - 1));
        assert(offers.take(n).last() == offers[n - 1]);
    }
}

/// Adopting a worker for one device changes nothing for any other.
pub proof fn devices_are_independent<S>(
    table: Map<u32, S>,
    device: u32,
    sender: S,
    other: u32,
)
    requires
        other != device,
    ensures
        adopted(table, device, sender).dom().contains(other) <==> table.dom().contains(other),
        adopted(table, device, sender)[other] == table[other],
{
}

/// Overrides the stack size of the next worker thread while it is set. Without
/// an override a worker gets the default stack.
pub struct StackSizeOverride {
    pub size: Option<usize>,
}

/// Stands for an override that is in force.
pub struct StackSizeOverrideGuard;

impl StackSizeOverrideGuard {
    /// Puts an override in force.
    pub fn set(cell: &mut StackSizeOverride, size: usize) -> (guard: Self)
        ensures
            final(cell).size == Some(size),
    {
        cell.size = Some(size);
        StackSizeOverrideGuard
    }

    /// Lifts the override again.
    pub fn reset(self, cell: &mut StackSizeOverride)
        ensures
            final(cell).size is None,
    {
        cell.size = None;
    }
}

} // verus!
