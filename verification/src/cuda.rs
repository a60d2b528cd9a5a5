//! How the CUDA backend turns commands into launches and replies into results.
//!
//! A command that needs no device is settled at once. A batch made up of vector
//! additions alone is coalesced into one launch; any other batch is run one
//! command at a time. The device itself is outside: [`CudaBatch`] names the
//! launch it waits for and is resumed with what the device replied.

use vstd::pervasive::unreached;
use vstd::prelude::*;

use crate::backend::{
    answer, check_length, check_matmul_dims, commands_of, outcome, outcomes, size_error, Outcome,
};
use crate::coalesce::{batch_work, can_coalesce, coalesced, coalesces, VectorAddBatch};
use crate::device::{Launch, Work};
use crate::grid::{matmul_blocks, matmul_grid, reduce_blocks, reduce_grid};
use crate::job::Command;
use crate::scalar::{sum, sum_of, Scalar};

verus! {

/// The outcome of a command that needs no device: its size error, or the result
/// of a command on empty vectors or for an empty matrix.
pub open spec fn settled<T: Scalar>(command: Command<T>) -> Option<Outcome<T>> {
    match size_error(command) {
        Some(reason) => Some(Err(reason)),
        None => match command {
            Command::VectorAdd { a, b } if a@.len() == 0 => Some(Ok(Seq::<T>::empty())),
            Command::Reduce { a } if a@.len() == 0 => Some(Ok(seq![T::zero_spec()])),
            Command::DotProduct { a, b } if a@.len() == 0 => Some(Ok(seq![T::zero_spec()])),
            Command::MatMul { a, b, m, n, k } if m == 0 || n == 0 => Some(Ok(Seq::<T>::empty())),
            _ => None,
        },
    }
}

/// The launch that a command needs if it is not settled without one.
pub open spec fn work<T: Scalar>(command: Command<T>) -> Work<T> {
    match command {
        Command::VectorAdd { a, b } => Work::VectorAdd { a: a@, b: b@ },
        Command::Reduce { a } => Work::ReduceSum { a: a@, grid_size: reduce_blocks(a@.len()) },
        Command::DotProduct { a, b } => Work::DotProduct {
            a: a@,
            b: b@,
            grid_size: reduce_blocks(a@.len()),
        },
        Command::MatMul { a, b, m, n, k } => Work::MatMul {
            a: a@,
            b: b@,
            m: m as nat,
            n: n as nat,
            k: k as nat,
            grid_x: matmul_blocks(n as nat),
            grid_y: matmul_blocks(m as nat),
        },
    }
}

/// What a command comes to after the device's reply: partial sums are added up
/// on the host, other buffers are the result, and a failure is passed on.
pub open spec fn concluded<T: Scalar>(command: Command<T>, reply: Outcome<T>) -> Outcome<T> {
    match reply {
        Err(reason) => Err(reason),
        Ok(out) => match command {
            Command::Reduce { .. } | Command::DotProduct { .. } => Ok(seq![sum(out)]),
            _ => Ok(out),
        },
    }
}

/// What a command comes to on the CUDA backend, given the device's reply if
/// there was a launch.
pub open spec fn cuda_outcome<T: Scalar>(
    command: Command<T>,
    reply: Option<Outcome<T>>,
) -> Outcome<T> {
    match settled(command) {
        Some(known) => known,
        None => concluded(command, reply->0),
    }
}

/// A device answers a vector addition with an error or with one sum per pair.
pub open spec fn answers<T>(work: Work<T>, reply: Outcome<T>) -> bool {
    work is VectorAdd ==> (reply matches Ok(out) ==> out.len() == work.out_len())
}

/// What to do about a command.
pub enum Step<'c, T> {
    /// It needs no device.
    Settled(Result<Vec<T>, String>),
    /// It needs this launch.
    Launch(Launch<'c, T>),
}

/// Decides whether a command needs the device, and for what.
pub fn plan<'c, T: Scalar>(command: &'c Command<T>) -> (step: Step<'c, T>)
    requires
        command.fits(),
    ensures
        match step {
            Step::Settled(result) => settled(*command) == Some(outcome(result)),
            Step::Launch(launch) => {
                &&& settled(*command) is None
                &&& launch@ == work(*command)
                &&& launch@.well_formed()
            },
        },
{
    match command {
        Command::VectorAdd { a, b } => {
            match check_length(a.as_slice(), b.as_slice()) {
                Err(reason) => Step::Settled(Err(reason)),
                Ok(()) => {
                    if a.len() == 0 {
                        let none: Vec<T> = Vec::new();
                        Step::Settled(Ok(none))
                    } else {
                        Step::Launch(Launch::VectorAdd { a: a.as_slice(), b: b.as_slice() })
                    }
                },
            }
        },
        Command::Reduce { a } => {
            if a.len() == 0 {
                let zero = vec![T::zero()];
                assert(zero@ =~= seq![T::zero_spec()]);
                Step::Settled(Ok(zero))
            } else {
                let grid_size = reduce_grid(a.len());
                Step::Launch(Launch::ReduceSum { a: a.as_slice(), grid_size })
            }
        },
        Command::DotProduct { a, b } => {
            match check_length(a.as_slice(), b.as_slice()) {
                Err(reason) => Step::Settled(Err(reason)),
                Ok(()) => {
                    if a.len() == 0 {
                        let zero = vec![T::zero()];
                        assert(zero@ =~= seq![T::zero_spec()]);
                        Step::Settled(Ok(zero))
                    } else {
                        let grid_size = reduce_grid(a.len());
                        Step::Launch(
                            Launch::DotProduct { a: a.as_slice(), b: b.as_slice(), grid_size },
                        )
                    }
                },
            }
        },
        Command::MatMul { a, b, m, n, k } => {
            match check_matmul_dims(a.as_slice(), b.as_slice(), *m, *n, *k) {
                Err(reason) => Step::Settled(Err(reason)),
                Ok(()) => {
                    if *m == 0 || *n == 0 {
                        let none: Vec<T> = Vec::new();
                        Step::Settled(Ok(none))
                    } else {
                        let grid_x = matmul_grid(*n);
                        let grid_y = matmul_grid(*m);
                        assert(a.len() == *m * *k && b.len() == *k * *n);
                        Step::Launch(
                            Launch::MatMul {
                                a: a.as_slice(),
                                b: b.as_slice(),
                                m: *m,
                                n: *n,
                                k: *k,
                                grid_x,
                                grid_y,
                            },
                        )
                    }
                },
            }
        },
    }
}

/// Turns the device's reply into the result of a command.
pub fn conclude<T: Scalar>(command: &Command<T>, reply: Result<Vec<T>, String>) -> (result: Result<
    Vec<T>,
    String,
>)
    ensures
        outcome(result) == concluded(*command, outcome(reply)),
        reply is Err ==> result == reply,
        command is VectorAdd || command is MatMul ==> result == reply,
        (command is Reduce || command is DotProduct) && reply is Ok ==> (result matches Ok(out)
            && out@ == seq![sum(reply->Ok_0@)]),
{
    match reply {
        Err(reason) => Err(reason),
        Ok(out) => match command {
            Command::Reduce { .. } | Command::DotProduct { .. } => {
                let total = vec![sum_of(out.as_slice())];
                assert(total@ =~= seq![sum(out@)]);
                Ok(total)
            },
            _ => Ok(out),
        },
    }
}

/// The launch that a single command needs, if any.
pub open spec fn command_work<T: Scalar>(command: Command<T>) -> Option<Work<T>> {
    if settled(command) is None {
        Some(work(command))
    } else {
        None
    }
}

/// The launch that a batch waits for after it was resumed `resumed` times.
pub open spec fn next_work<T: Scalar>(commands: Seq<Command<T>>, resumed: nat) -> Option<Work<T>> {
    if coalesces(commands) {
        if resumed == 0 {
            batch_work(commands)
        } else {
            None
        }
    } else if resumed < commands.len() {
        command_work(commands[resumed as int])
    } else {
        None
    }
}

/// The results of a batch that was resumed with `replies`: a batch of vector
/// additions all at once, any other batch one command per reply.
pub open spec fn batch_outcomes<T: Scalar>(
    commands: Seq<Command<T>>,
    replies: Seq<Option<Outcome<T>>>,
) -> Seq<Outcome<T>> {
    if coalesces(commands) && replies.len() > 0 {
        coalesced(commands, replies[0])
    } else {
        Seq::new(replies.len(), |i: int| cuda_outcome(commands[i], replies[i]))
    }
}

/// A batch of vector additions takes at most one launch.
pub proof fn additions_share_one_launch<T: Scalar>(commands: Seq<Command<T>>, resumed: nat)
    requires
        coalesces(commands),
        resumed > 0,
    ensures
        next_work(commands, resumed) is None,
{
}

/// Any other batch is run one command at a time, in order: each command waits
/// for its own launch and gets its own outcome.
pub proof fn other_batches_run_one_by_one<T: Scalar>(
    commands: Seq<Command<T>>,
    replies: Seq<Option<Outcome<T>>>,
    i: int,
)
    requires
        !coalesces(commands),
        replies.len() == commands.len(),
        0 <= i < commands.len(),
    ensures
        next_work(commands, i as nat) == command_work(commands[i]),
        batch_outcomes(commands, replies)[i] == cuda_outcome(commands[i], replies[i]),
{
}

/// A batch of commands on its way through the CUDA backend.
///
/// While the batch is not done, carry out the launch that [`CudaBatch::pending`]
/// names, if it names one, and hand the reply to [`CudaBatch::resume`].
pub struct CudaBatch<'c, T> {
    commands: &'c [&'c Command<T>],
    joined: Option<VectorAddBatch<T>>,
    results: Vec<Result<Vec<T>, String>>,
    replies: Ghost<Seq<Option<Outcome<T>>>>,
}

impl<'c, T: Scalar> CudaBatch<'c, T> {
    /// The commands of the batch.
    pub closed spec fn commands(self) -> Seq<Command<T>> {
        commands_of(self.commands@)
    }

    /// The replies the batch was resumed with so far.
    pub closed spec fn replies(self) -> Seq<Option<Outcome<T>>> {
        self.replies@
    }

    /// The results so far.
    pub open spec fn results(self) -> Seq<Outcome<T>> {
        batch_outcomes(self.commands(), self.replies())
    }

    /// Every command has its result.
    pub open spec fn done(self) -> bool {
        self.results().len() == self.commands().len()
    }

    /// The batch holds the results that its replies lead to.
    pub closed spec fn well_formed(self) -> bool {
        let commands = commands_of(self.commands@);
        &&& forall|i: int| 0 <= i < commands.len() ==> (#[trigger] commands[i]).fits()
        &&& outcomes(self.results@) == batch_outcomes(commands, self.replies@)
        &&& self.results@.len() <= commands.len()
        &&& self.joined is Some <==> coalesces(commands) && self.replies@.len() == 0
        &&& self.joined matches Some(batch) ==> batch.well_formed() && batch.commands()
            == commands
    }

    /// Takes a batch on.
    pub fn start(commands: &'c [&'c Command<T>]) -> (batch: Self)
        requires
            forall|i: int| 0 <= i < commands@.len() ==> (#[trigger] commands@[i]).fits(),
        ensures
            batch.well_formed(),
            batch.commands() == commands_of(commands@),
            batch.replies() == Seq::<Option<Outcome<T>>>::empty(),
    {
        let ghost all = commands_of(commands@);
        assert forall|i: int| 0 <= i < all.len() implies (#[trigger] all[i]).fits() by {
            assert(commands@[i].fits());
        }
        let joined = if can_coalesce(commands) {
            Some(VectorAddBatch::plan(commands))
        } else {
            None
        };
        let results: Vec<Result<Vec<T>, String>> = Vec::new();
        let batch = CudaBatch { commands, joined, results, replies: Ghost(Seq::empty()) };
        assert(outcomes(batch.results@) =~= batch_outcomes(all, batch.replies@));
        batch
    }

    /// Tells whether every command has its result.
    pub fn is_done(&self) -> (result: bool)
        requires
            self.well_formed(),
        ensures
            result == self.done(),
    {
        assert(self.results@.len() == outcomes(self.results@).len());
        self.results.len() == self.commands.len()
    }

    /// The launch to carry out before the batch is resumed, if there is one.
    pub fn pending(&self) -> (launch: Option<Launch<'_, T>>)
        requires
            self.well_formed(),
            !self.done(),
        ensures
            launch is Some <==> next_work(self.commands(), self.replies().len()) is Some,
            launch matches Some(l) ==> {
                &&& Some(l@) == next_work(self.commands(), self.replies().len())
                &&& l@.well_formed()
            },
    {
        assert(self.results@.len() == outcomes(self.results@).len());
        match &self.joined {
            Some(batch) => batch.launch(),
            None => {
                let i: usize = self.results.len();
                assert(self.commands()[i as int] == *self.commands@[i as int]);
                match plan(self.commands[i]) {
                    Step::Settled(_) => None,
                    Step::Launch(launch) => Some(launch),
                }
            },
        }
    }

    /// Takes the reply to the pending launch, or nothing where no launch was
    /// pending, and settles what can be settled with it.
    pub fn resume(&mut self, reply: Option<Result<Vec<T>, String>>)
        requires
            old(self).well_formed(),
            !old(self).done(),
            reply is Some <==> next_work(old(self).commands(), old(self).replies().len()) is Some,
            reply matches Some(r) ==> answers(
                next_work(old(self).commands(), old(self).replies().len())->0,
                outcome(r),
            ),
        ensures
            final(self).well_formed(),
            final(self).commands() == old(self).commands(),
            final(self).replies() == old(self).replies().push(answer(reply)),
            final(self).results().len() > old(self).results().len(),
    {
        let ghost all = self.commands();
        let ghost before = self.replies@;
        let ghost results = self.results@;
        assert(results.len() == outcomes(results).len());
        proof {
            self.replies@ = before.push(answer(reply));
        }
        match self.joined.take() {
            Some(batch) => {
                self.results = batch.conclude(reply);
                assert(self.results@.len() == outcomes(self.results@).len());
            },
            None => {
                assert(!coalesces(all));
                let i: usize = self.results.len();
                let command = self.commands[i];
                assert(all[i as int] == *command);
                let result = match reply {
                    Some(reply) => conclude(command, reply),
                    None => match plan(command) {
                        Step::Settled(result) => result,
                        Step::Launch(_) => unreached(),
                    },
                };
                self.results.push(result);
                assert(outcomes(self.results@) =~= outcomes(results).push(outcome(result)));
                assert(outcomes(self.results@) =~= batch_outcomes(all, self.replies@));
            },
        }
    }

    /// Hands the results out: one per command, in order.
    pub fn finish(self) -> (results: Vec<Result<Vec<T>, String>>)
        requires
            self.well_formed(),
            self.done(),
        ensures
            results@.len() == self.commands().len(),
            outcomes(results@) == batch_outcomes(self.commands(), self.replies()),
    {
        assert(self.results@.len() == outcomes(self.results@).len());
        self.results
    }
}

} // verus!
