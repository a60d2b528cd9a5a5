//! A backend that carries the launches of the CUDA backend out in software, and
//! the theorems that tie what the kernels compute to what the CPU computes.

use vstd::prelude::*;

use crate::backend::{
    commands_of, expected, in_order, lemma_stateless_in_order, matrix_product, outcome, outcomes,
    size_error, Backend, Outcome,
};
use crate::coalesce::{
    all_additions, batch_work, coalesced, coalesced_outcome, coalesces, flat_left, flat_right,
    left, lemma_flat, lemma_flat_empty, lemma_same_length, offset, right,
};
use crate::cuda::{
    answers, batch_outcomes, command_work, conclude, cuda_outcome, next_work, plan, settled, work,
    CudaBatch, Step,
};
use crate::device::{computed, Work};
use crate::grid::{
    ceil_div, low_bits, matmul_launch_computes_the_product, partial_sums_add_up,
    vector_add_launch_reaches_every_element,
};
use crate::job::Command;
use crate::kernels::{MATMUL_TILE_SIZE, REDUCE_BLOCK_SIZE};
use crate::scalar::{
    addition_reorders, lemma_sum_of_concatenation, multiplication_commutes, neutral_factor,
    products, sum, sum_ignores_order, sums, zero_product_is_neutral, Scalar,
};

verus! {

/// What the software device replies to a launch, if there is one.
pub open spec fn simulated<T: Scalar>(work: Option<Work<T>>, block_size: nat) -> Option<
    Outcome<T>,
> {
    match work {
        Some(work) => Some(Ok(computed(work, block_size))),
        None => None,
    }
}

/// What a command comes to on the CUDA backend if every step of its launch
/// succeeds.
pub open spec fn launched_outcome<T: Scalar>(command: Command<T>, block_size: nat) -> Outcome<T> {
    cuda_outcome(command, simulated(command_work(command), block_size))
}

/// The CUDA backend with its launches carried out in software.
pub struct GridBackend {
    block_size: u32,
}

impl GridBackend {
    /// The block size that the software device suggests for vector additions.
    pub closed spec fn block_size(self) -> nat {
        self.block_size as nat
    }

    #[verifier::type_invariant]
    spec fn has_threads(self) -> bool {
        self.block_size > 0
    }

    /// A backend whose vector additions run in blocks of `block_size` threads.
    pub fn new(block_size: u32) -> (backend: Self)
        requires
            block_size > 0,
        ensures
            backend.block_size() == block_size,
    {
        GridBackend { block_size }
    }
}

impl<T: Scalar> Backend<T> for GridBackend {
    open spec fn ran(pre: Self, command: Command<T>, post: Self, result: Outcome<T>) -> bool {
        &&& post == pre
        &&& result == launched_outcome(command, pre.block_size())
    }

    open spec fn ran_batch(
        pre: Self,
        commands: Seq<Command<T>>,
        post: Self,
        results: Seq<Outcome<T>>,
    ) -> bool {
        if coalesces(commands) {
            &&& post == pre
            &&& results == coalesced(commands, simulated(batch_work(commands), pre.block_size()))
        } else {
            in_order(
                |s: Self, c: Command<T>, t: Self, o: Outcome<T>|
                    <Self as Backend<T>>::ran(s, c, t, o),
                pre,
                commands,
                post,
                results,
            )
        }
    }

    fn run(&mut self, command: &Command<T>) -> (result: Result<Vec<T>, String>) {
        proof {
            use_type_invariant(&*self);
        }
        let result = match plan(command) {
            Step::Settled(result) => result,
            Step::Launch(launch) => {
                let reply = launch.execute(self.block_size);
                conclude(command, Ok(reply))
            },
        };
        assert(<Self as Backend<T>>::ran(*old(self), *command, *self, outcome(result)));
        result
    }

    fn run_batch(&mut self, commands: &[&Command<T>]) -> (results: Vec<Result<Vec<T>, String>>) {
        proof {
            use_type_invariant(&*self);
        }
        let ghost all = commands_of(commands@);
        let ghost size = self.block_size();
        let mut batch = CudaBatch::start(commands);
        while !batch.is_done()
            invariant
                *self == *old(self),
                self.block_size > 0,
                size == self.block_size(),
                batch.well_formed(),
                batch.commands() == all,
                all == commands_of(commands@),
                batch.results().len() <= all.len(),
                coalesces(all) ==> batch.replies().len() <= 1,
                forall|i: int|
                    0 <= i < batch.replies().len() ==> #[trigger] batch.replies()[i] == simulated(
                        next_work(all, i as nat),
                        size,
                    ),
            ensures
                batch.done(),
            decreases all.len() - batch.results().len(),
        {
            let reply = match batch.pending() {
                Some(launch) => Some(Ok(launch.execute(self.block_size))),
                None => None,
            };
            batch.resume(reply);
        }
        let results = batch.finish();
        proof {
            let replies = batch.replies();
            if coalesces(all) {
                assert(replies[0] == simulated(batch_work(all), size));
            } else {
                let step = |s: Self, c: Command<T>, t: Self, o: Outcome<T>|
                    <Self as Backend<T>>::ran(s, c, t, o);
                assert forall|i: int| 0 <= i < all.len() implies step(
                    *self,
                    #[trigger] all[i],
                    *self,
                    outcomes(results@)[i],
                ) by {
                    assert(replies[i] == simulated(command_work(all[i]), size));
                    assert(<Self as Backend<T>>::ran(*self, all[i], *self, outcomes(results@)[i]));
                }
                lemma_stateless_in_order(step, *self, all, outcomes(results@));
            }
        }
        results
    }
}

/// The lengths that a launch is sized by are 32-bit numbers.
pub open spec fn launchable<T>(command: Command<T>) -> bool {
    match command {
        Command::VectorAdd { a, b } => a@.len() <= u32::MAX,
        Command::Reduce { a } => a@.len() <= u32::MAX,
        Command::DotProduct { a, b } => a@.len() <= u32::MAX,
        Command::MatMul { a, b, m, n, k } => m <= u32::MAX && n <= u32::MAX,
    }
}

/// Both backends reject the same commands, in the same words, whatever the
/// device has to say.
pub proof fn both_backends_reject_alike<T: Scalar>(
    command: Command<T>,
    reply: Option<Outcome<T>>,
)
    requires
        size_error(command) is Some,
    ensures
        cuda_outcome(command, reply) == expected(command),
        command_work(command) is None,
{
}

/// Vector additions come out as on the CPU, in any arithmetic and for any block
/// size.
pub proof fn vector_add_matches_cpu<T: Scalar>(command: Command<T>, block_size: nat)
    requires
        command is VectorAdd,
        launchable(command),
        block_size > 0,
    ensures
        launched_outcome(command, block_size) == expected(command),
{
    if size_error(command) is None {
        let (a, b) = (command->VectorAdd_a@, command->VectorAdd_b@);
        if a.len() > 0 {
            vector_add_launch_reaches_every_element(a, b, block_size);
        } else {
            assert(sums(a, b) =~= Seq::<T>::empty());
        }
    }
}

/// Sums come out as on the CPU where addition may be reordered.
pub proof fn reduce_matches_cpu<T: Scalar>(command: Command<T>, block_size: nat)
    requires
        command is Reduce,
        launchable(command),
        addition_reorders::<T>(),
    ensures
        launched_outcome(command, block_size) == expected(command),
{
    partial_sums_add_up(command->Reduce_a@);
}

/// Dot products come out as on the CPU where addition may be reordered.
pub proof fn dot_product_matches_cpu<T: Scalar>(command: Command<T>, block_size: nat)
    requires
        command is DotProduct,
        launchable(command),
        addition_reorders::<T>(),
    ensures
        launched_outcome(command, block_size) == expected(command),
{
    if size_error(command) is None {
        partial_sums_add_up(products(command->DotProduct_a@, command->DotProduct_b@));
    }
}

/// Matrix products come out as on the CPU where products of zeros are neutral in
/// sums: both add up the same products in the same order.
pub proof fn matmul_matches_cpu<T: Scalar>(command: Command<T>, block_size: nat)
    requires
        command is MatMul,
        launchable(command),
        zero_product_is_neutral::<T>(),
    ensures
        launched_outcome(command, block_size) == expected(command),
{
    if let Command::MatMul { a, b, m, n, k } = command {
        matmul_launch_computes_the_product(a@, b@, m as nat, n as nat, k as nat);
        if m == 0 || n == 0 {
            lemma_empty_product(a@, b@, m as nat, n as nat, k as nat);
        }
    }
}

/// Where addition may be reordered, a launched sum does not depend on the order
/// of its summands.
pub proof fn launched_sum_ignores_order<T: Scalar>(
    a: Vec<T>,
    permuted: Vec<T>,
    block_size: nat,
)
    requires
        addition_reorders::<T>(),
        a@.len() <= u32::MAX,
        a@.to_multiset() == permuted@.to_multiset(),
    ensures
        launched_outcome(Command::Reduce { a }, block_size) == launched_outcome(
            Command::Reduce { a: permuted },
            block_size,
        ),
{
    broadcast use vstd::seq_lib::group_to_multiset_ensures;

    assert(a@.len() == a@.to_multiset().len());
    assert(permuted@.len() == permuted@.to_multiset().len());
    reduce_matches_cpu(Command::Reduce { a }, block_size);
    reduce_matches_cpu(Command::Reduce { a: permuted }, block_size);
    sum_ignores_order(a@, permuted@);
}

/// Where addition may be reordered, the launched sum of two vectors laid end to
/// end is the sum of both launched sums.
pub proof fn launched_sum_splits<T: Scalar>(x: Vec<T>, y: Vec<T>, a: Vec<T>, block_size: nat)
    requires
        addition_reorders::<T>(),
        a@ == x@ + y@,
        a@.len() <= u32::MAX,
    ensures
        launched_outcome(Command::Reduce { a: x }, block_size) == Ok::<Seq<T>, Seq<char>>(
            seq![sum(x@)],
        ),
        launched_outcome(Command::Reduce { a: y }, block_size) == Ok::<Seq<T>, Seq<char>>(
            seq![sum(y@)],
        ),
        launched_outcome(Command::Reduce { a }, block_size) == Ok::<Seq<T>, Seq<char>>(
            seq![sum(x@).plus_spec(sum(y@))],
        ),
{
    reduce_matches_cpu(Command::Reduce { a: x }, block_size);
    reduce_matches_cpu(Command::Reduce { a: y }, block_size);
    reduce_matches_cpu(Command::Reduce { a }, block_size);
    lemma_sum_of_concatenation(x@, y@);
}

/// A launched dot product is a launched sum of the products, in any arithmetic
/// and for any length: only what a thread loads differs.
pub proof fn launched_dot_product_sums_the_products<T: Scalar>(
    a: Vec<T>,
    b: Vec<T>,
    p: Vec<T>,
    block_size: nat,
)
    requires
        a@.len() == b@.len(),
        p@ == products(a@, b@),
    ensures
        launched_outcome(Command::DotProduct { a, b }, block_size) == launched_outcome(
            Command::Reduce { a: p },
            block_size,
        ),
{
}

/// Where the order of two factors does not matter, neither does the order of the
/// vectors in a launched dot product.
pub proof fn launched_dot_product_swaps<T: Scalar>(a: Vec<T>, b: Vec<T>, block_size: nat)
    requires
        multiplication_commutes::<T>(),
        a@.len() == b@.len(),
    ensures
        launched_outcome(Command::DotProduct { a, b }, block_size) == launched_outcome(
            Command::DotProduct { a: b, b: a },
            block_size,
        ),
{
    assert(products(a@, b@) =~= products(b@, a@));
}

/// A launched dot product with nothing but neutral factors is a launched sum.
pub proof fn launched_dot_product_with_ones_is_the_sum<T: Scalar>(
    a: Vec<T>,
    ones: Vec<T>,
    one: T,
    block_size: nat,
)
    requires
        neutral_factor(one),
        a@.len() == ones@.len(),
        forall|i: int| 0 <= i < ones@.len() ==> #[trigger] ones@[i] == one,
    ensures
        launched_outcome(Command::DotProduct { a, b: ones }, block_size) == launched_outcome(
            Command::Reduce { a },
            block_size,
        ),
{
    assert(products(a@, ones@) =~= a@);
}

/// A launch that a command waits for has at least one block along each edge of
/// its grid: whatever would start no thread is settled without the device.
pub proof fn launches_have_blocks<T: Scalar>(command: Command<T>, suggested: u32)
    requires
        command_work(command) is Some,
        launchable(command),
        suggested > 0,
    ensures
        work(command).geometry(suggested).grid.0 > 0,
        work(command).geometry(suggested).grid.1 > 0,
{
    match command {
        Command::VectorAdd { a, b } => lemma_some_blocks(a@.len(), suggested as nat),
        Command::Reduce { a } => lemma_some_blocks(a@.len(), REDUCE_BLOCK_SIZE as nat),
        Command::DotProduct { a, b } => lemma_some_blocks(a@.len(), REDUCE_BLOCK_SIZE as nat),
        Command::MatMul { a, b, m, n, k } => {
            lemma_some_blocks(m as nat, MATMUL_TILE_SIZE as nat);
            lemma_some_blocks(n as nat, MATMUL_TILE_SIZE as nat);
        },
    }
}

/// Something takes at least one block, and no more blocks than there are
/// elements.
proof fn lemma_some_blocks(n: nat, d: nat)
    requires
        0 < n <= u32::MAX,
        d > 0,
    ensures
        1 <= ceil_div(low_bits(n), d) <= n,
{
    let q = ceil_div(n, d);
    assert(1 <= q <= n) by (nonlinear_arith)
        requires
            n > 0,
            d > 0,
            q == (n + d - 1) / d as int,
    ;
}

/// Summing nothing gives zero, and takes no launch.
pub proof fn empty_sums_are_zero<T: Scalar>(command: Command<T>)
    requires
        match command {
            Command::Reduce { a } => a@.len() == 0,
            Command::DotProduct { a, b } => a@.len() == 0 && b@.len() == 0,
            _ => false,
        },
    ensures
        command_work(command) is None,
        cuda_outcome(command, None) == Ok::<Seq<T>, Seq<char>>(seq![T::zero_spec()]),
        expected(command) == Ok::<Seq<T>, Seq<char>>(seq![T::zero_spec()]),
{
}

/// A matrix without rows or columns is multiplied out to nothing, and takes no
/// launch.
pub proof fn empty_products_are_empty<T: Scalar>(command: Command<T>)
    requires
        size_error(command) is None,
        command matches Command::MatMul { a, b, m, n, k } && (m == 0 || n == 0),
    ensures
        command_work(command) is None,
        cuda_outcome(command, None) == Ok::<Seq<T>, Seq<char>>(Seq::empty()),
        expected(command) == Ok::<Seq<T>, Seq<char>>(Seq::empty()),
{
    if let Command::MatMul { a, b, m, n, k } = command {
        lemma_empty_product(a@, b@, m as nat, n as nat, k as nat);
    }
}

/// A matrix without rows or columns has no entries.
proof fn lemma_empty_product<T: Scalar>(a: Seq<T>, b: Seq<T>, m: nat, n: nat, k: nat)
    requires
        m == 0 || n == 0,
    ensures
        matrix_product(a, b, m, n, k) == Seq::<T>::empty(),
{
    assert(m * n == 0) by (nonlinear_arith)
        requires
            m == 0 || n == 0,
    ;
    assert(matrix_product(a, b, m, n, k) =~= Seq::<T>::empty());
}

/// If the device adds the flat buffers up, every command of a coalesced batch
/// gets what it comes to on its own.
pub proof fn coalescing_matches_cpu<T: Scalar>(commands: Seq<Command<T>>, i: int)
    requires
        all_additions(commands),
        0 <= i < commands.len(),
    ensures
        coalesced_outcome(
            commands,
            i,
            Some(Ok(sums(flat_left(commands), flat_right(commands)))),
        ) == expected(commands[i]),
{
    lemma_flat(commands, i);
    let command = commands[i];
    let (from, to) = (offset(commands, i), offset(commands, i) + left(command).len());
    let flat = sums(flat_left(commands), flat_right(commands));
    if settled(command) is None {
        assert(left(command) == flat_left(commands).subrange(from, to));
        assert(right(command) == flat_right(commands).subrange(from, to));
        assert forall|j: int| 0 <= j < left(command).len() implies flat.subrange(from, to)[j]
            == sums(left(command), right(command))[j] by {
            assert(left(command)[j] == flat_left(commands)[from + j]);
            assert(right(command)[j] == flat_right(commands)[from + j]);
        }
        assert(flat.subrange(from, to) =~= sums(left(command), right(command)));
    } else if size_error(command) is None {
        assert(sums(left(command), right(command)) =~= Seq::<T>::empty());
    }
}

/// A coalesced batch of additions comes to what the commands come to on the
/// CPU, one by one, for any block size, if the flat buffers have at most
/// `u32::MAX` elements.
pub proof fn coalesced_launch_matches_cpu<T: Scalar>(
    commands: Seq<Command<T>>,
    block_size: nat,
    i: int,
)
    requires
        coalesces(commands),
        flat_left(commands).len() <= u32::MAX,
        block_size > 0,
        0 <= i < commands.len(),
    ensures
        coalesced(commands, simulated(batch_work(commands), block_size))[i] == expected(
            commands[i],
        ),
{
    coalescing_matches_cpu(commands, i);
    lemma_same_length(commands);
    lemma_flat_empty(commands);
    if flat_left(commands).len() > 0 {
        vector_add_launch_reaches_every_element(
            flat_left(commands),
            flat_right(commands),
            block_size,
        );
    }
}

/// A batch of additions of which none has elements to add, be it for different
/// lengths or for being empty, takes no launch; any other batch takes one.
pub proof fn launch_only_with_something_to_add<T: Scalar>(commands: Seq<Command<T>>)
    requires
        coalesces(commands),
    ensures
        next_work(commands, 0) is Some <==> exists|i: int|
            0 <= i < commands.len() && size_error(#[trigger] commands[i]) is None && left(
                commands[i],
            ).len() > 0,
{
    lemma_flat_empty(commands);
    if next_work(commands, 0) is Some {
        let i = choose|i: int| 0 <= i < commands.len() && settled(#[trigger] commands[i]) is None;
        assert(size_error(commands[i]) is None && left(commands[i]).len() > 0);
    } else {
        assert forall|i: int| 0 <= i < commands.len() implies !(size_error(
            #[trigger] commands[i],
        ) is None && left(commands[i]).len() > 0) by {
            assert(settled(commands[i]) is Some);
        }
    }
}

/// A command that needs no device leaves no trace in the flat buffers.
proof fn lemma_settled_leave_no_trace<T: Scalar>(commands: Seq<Command<T>>, i: int)
    requires
        0 <= i < commands.len(),
        settled(commands[i]) is Some,
    ensures
        flat_left(commands.remove(i)) == flat_left(commands),
        flat_right(commands.remove(i)) == flat_right(commands),
    decreases commands.len(),
{
    let less = commands.drop_last();
    if i == commands.len() - 1 {
        assert(commands.remove(i) =~= less);
    } else {
        lemma_settled_leave_no_trace(less, i);
        assert(commands.remove(i).drop_last() =~= less.remove(i));
        assert(commands.remove(i).last() == commands.last());
    }
}

/// A command that needs no device, such as one of vectors of different lengths,
/// is isolated from the rest of its batch: it keeps its own outcome whatever
/// the device replies, the launch is the same without it, and so is the outcome
/// of every other command.
pub proof fn settled_commands_are_isolated<T: Scalar>(
    commands: Seq<Command<T>>,
    i: int,
    j: int,
    reply: Option<Outcome<T>>,
)
    requires
        0 <= i < commands.len(),
        settled(commands[i]) is Some,
        0 <= j < commands.len(),
        j != i,
    ensures
        Some(coalesced_outcome(commands, i, reply)) == settled(commands[i]),
        batch_work(commands.remove(i)) == batch_work(commands),
        coalesced_outcome(
            commands.remove(i),
            if j < i {
                j
            } else {
                j - 1
            },
            reply,
        ) == coalesced_outcome(commands, j, reply),
{
    lemma_settled_leave_no_trace(commands, i);
    let rest = commands.remove(i);
    if j < i {
        assert(rest.take(j) =~= commands.take(j));
    } else {
        lemma_settled_leave_no_trace(commands.take(j), i);
        assert(rest.take(j - 1) =~= commands.take(j).remove(i));
    }
}

/// A failed launch fails exactly the commands that were part of it, all in the
/// words of the failure.
pub proof fn failed_launch_fails_its_commands<T: Scalar>(
    commands: Seq<Command<T>>,
    i: int,
    reason: Seq<char>,
)
    requires
        all_additions(commands),
        0 <= i < commands.len(),
    ensures
        coalesced(commands, Some(Err(reason)))[i] == (if settled(commands[i]) is None {
            Err(reason)
        } else {
            expected(commands[i])
        }),
{
    if settled(commands[i]) is Some && size_error(commands[i]) is None {
        assert(sums(left(commands[i]), right(commands[i])) =~= Seq::<T>::empty());
    }
}

/// A batch of one command comes to what the command comes to.
pub proof fn batch_of_one_is_a_run<T: Scalar>(command: Command<T>, reply: Option<Outcome<T>>)
    requires
        reply is Some <==> command_work(command) is Some,
        reply matches Some(r) ==> answers(work(command), r),
    ensures
        next_work(seq![command], 0) == command_work(command),
        batch_outcomes(seq![command], seq![reply]) == seq![cuda_outcome(command, reply)],
{
    let one = seq![command];
    assert(one.drop_last() =~= Seq::empty());
    assert(one[0] == command);
    if command is VectorAdd {
        assert(coalesces(one));
        assert(one.take(0) =~= Seq::empty());
        assert(flat_left(one.drop_last()).len() == 0 && flat_right(one.drop_last()).len() == 0);
        assert(one.last() == command);
        if settled(command) is None {
            assert(flat_left(one) =~= left(command));
            assert(flat_right(one) =~= right(command));
            if let Some(Ok(out)) = reply {
                assert(out.subrange(0, left(command).len() as int) =~= out);
            }
        }
    } else {
        assert(!coalesces(one));
    }
    assert(batch_outcomes(one, seq![reply]) =~= seq![cuda_outcome(command, reply)]);
}

/// Every command comes out as on the CPU, where addition may be reordered and
/// products of zeros are neutral.
pub proof fn command_matches_cpu<T: Scalar>(command: Command<T>, block_size: nat)
    requires
        launchable(command),
        block_size > 0,
        addition_reorders::<T>(),
        zero_product_is_neutral::<T>(),
    ensures
        launched_outcome(command, block_size) == expected(command),
{
    match command {
        Command::VectorAdd { .. } => vector_add_matches_cpu(command, block_size),
        Command::Reduce { .. } => reduce_matches_cpu(command, block_size),
        Command::DotProduct { .. } => dot_product_matches_cpu(command, block_size),
        Command::MatMul { .. } => matmul_matches_cpu(command, block_size),
    }
}

/// Coalesced or not, every command of a batch comes to what it comes to on its own,
/// in any arithmetic.
pub proof fn batching_changes_nothing<T: Scalar>(
    pre: GridBackend,
    commands: Seq<Command<T>>,
    post: GridBackend,
    results: Seq<Outcome<T>>,
)
    requires
        <GridBackend as Backend<T>>::ran_batch(pre, commands, post, results),
        pre.block_size() > 0,
        coalesces(commands) ==> flat_left(commands).len() <= u32::MAX,
    ensures
        results == commands.map_values(|c: Command<T>| launched_outcome(c, pre.block_size())),
{
    if coalesces(commands) {
        assert forall|i: int| 0 <= i < commands.len() implies results[i] == launched_outcome(
            commands[i],
            pre.block_size(),
        ) by {
            coalesced_launch_matches_cpu(commands, pre.block_size(), i);
            if settled(commands[i]) is None {
                lemma_flat(commands, i);
                vector_add_matches_cpu(commands[i], pre.block_size());
            }
        }
    } else {
        lemma_state_kept(pre, commands, post, results);
    }
    assert(results =~= commands.map_values(
        |c: Command<T>| launched_outcome(c, pre.block_size()),
    ));
}

/// Every batch comes out as on the CPU, coalesced or not, command by command,
/// where addition may be reordered and products of zeros are neutral.
pub proof fn batch_matches_cpu<T: Scalar>(
    pre: GridBackend,
    commands: Seq<Command<T>>,
    post: GridBackend,
    results: Seq<Outcome<T>>,
)
    requires
        <GridBackend as Backend<T>>::ran_batch(pre, commands, post, results),
        pre.block_size() > 0,
        forall|i: int| 0 <= i < commands.len() ==> launchable(#[trigger] commands[i]),
        coalesces(commands) ==> flat_left(commands).len() <= u32::MAX,
        addition_reorders::<T>(),
        zero_product_is_neutral::<T>(),
    ensures
        results == commands.map_values(|c: Command<T>| expected(c)),
{
    batching_changes_nothing(pre, commands, post, results);
    assert forall|i: int| 0 <= i < commands.len() implies results[i] == expected(commands[i]) by {
        command_matches_cpu(commands[i], pre.block_size());
    }
    assert(results =~= commands.map_values(|c: Command<T>| expected(c)));
}

/// Running commands one by one leaves the backend as it was, and every result
/// is the one that a run on its own gives.
pub proof fn lemma_state_kept<T: Scalar>(
    pre: GridBackend,
    commands: Seq<Command<T>>,
    post: GridBackend,
    results: Seq<Outcome<T>>,
)
    requires
        in_order(
            |s: GridBackend, c: Command<T>, t: GridBackend, o: Outcome<T>|
                <GridBackend as Backend<T>>::ran(s, c, t, o),
            pre,
            commands,
            post,
            results,
        ),
    ensures
        pre == post,
        results.len() == commands.len(),
        forall|i: int|
            0 <= i < commands.len() ==> #[trigger] results[i] == launched_outcome(
                commands[i],
                pre.block_size(),
            ),
    decreases commands.len(),
{
    let step = |s: GridBackend, c: Command<T>, t: GridBackend, o: Outcome<T>|
        <GridBackend as Backend<T>>::ran(s, c, t, o);
    if commands.len() > 0 {
        let mid = choose|mid: GridBackend|
            #![trigger step(mid, commands.last(), post, results.last())]
            in_order(step, pre, commands.drop_last(), mid, results.drop_last()) && step(
                mid,
                commands.last(),
                post,
                results.last(),
            );
        lemma_state_kept(pre, commands.drop_last(), mid, results.drop_last());
        assert(<GridBackend as Backend<T>>::ran(mid, commands.last(), post, results.last()));
        assert forall|i: int| 0 <= i < commands.len() implies #[trigger] results[i] == launched_outcome(
            commands[i],
            pre.block_size(),
        ) by {
            if i < commands.len() - 1 {
                assert(results.drop_last()[i] == results[i]);
                assert(commands.drop_last()[i] == commands[i]);
            }
        }
    }
}

} // verus!
