//! What the operations are for, stated on plain values: elements, positions,
//! numbers and words.
//!
//! Each theorem takes what a contract says of a call and concludes what the caller
//! gets, or relates two calls to each other.

use vstd::prelude::*;

use crate::backend::{
    answer, commands_of, expected, in_order, lemma_row_major, outcome, outcomes,
    results_are_what_the_elements_say, Backend, CpuBackend, Outcome,
};
use crate::coalesce::{batch_work, coalesced, coalesces, flat_left, flat_right, lemma_flat, offset};
use crate::cuda::{
    answers, batch_outcomes, command_work, concluded, cuda_outcome, next_work, settled, work,
};
use crate::device::{computed, Launch, Stage, Work};
use crate::grid::{
    ceil_div, launched_product, launched_sums, lemma_ceil_div_covers, low_bits, matmul_blocks,
    partial_sums, reduce_blocks,
};
use crate::job::{Command, Job};
use crate::kernels::{
    added, block_lanes, block_sum, block_written, halve, halve_down, tiled_depth, tiled_entry,
    tiled_terms,
};
use crate::nif::{id_after, launched, Atom, JobIds};
use crate::queue::JobQueue;
use crate::scalar::{products, sum, sums, zeros, Scalar};
use crate::simulate::{
    batching_changes_nothing, launched_outcome, simulated, vector_add_matches_cpu, GridBackend,
};
use crate::text::decimal;
use crate::worker::{
    adopted, all_fit, given, polled_out, polls_since, received, served, Delivery, MAX_BATCH_SIZE,
};

verus! {

/// A sum starts from zero and grows by every element in turn.
pub proof fn sums_grow_element_by_element<T: Scalar>(s: Seq<T>, x: T)
    ensures
        sum(Seq::<T>::empty()) == T::zero_spec(),
        sum(s.push(x)) == sum(s).plus_spec(x),
{
    assert(s.push(x).drop_last() =~= s);
}

/// Elementwise sums and products pair up equal positions, and leave none out.
pub proof fn elements_are_paired_by_position<T: Scalar>(a: Seq<T>, b: Seq<T>, n: nat, i: int)
    ensures
        sums(a, b).len() == a.len(),
        products(a, b).len() == a.len(),
        zeros::<T>(n).len() == n,
        0 <= i < a.len() ==> sums(a, b)[i] == a[i].plus_spec(b[i]),
        0 <= i < a.len() ==> products(a, b)[i] == a[i].times_spec(b[i]),
        0 <= i < n ==> zeros::<T>(n)[i] == T::zero_spec(),
{
}

/// Integer sums and products are right up to a multiple of 2^32.
pub proof fn integers_wrap_around(x: i32, y: i32)
    ensures
        <i32 as Scalar>::zero_spec() == 0,
        (x.plus_spec(y) - (x + y)) % 0x1_0000_0000 == 0,
        (x.times_spec(y) - x * y) % 0x1_0000_0000 == 0,
{
    let p = x * y;
    assert((x.times_spec(y) - p) % 0x1_0000_0000 == 0);
}

/// A decimal number ends in its last digit, which the rest of it precedes.
pub proof fn decimal_digits_are_in_place(n: nat)
    ensures
        decimal(n).len() > 0,
        decimal(n).last() as int == '0' as int + n % 10,
        n < 10 ==> decimal(n).len() == 1,
        n >= 10 ==> decimal(n).drop_last() == decimal(n / 10),
{
    if n >= 10 {
        assert(decimal(n).drop_last() =~= decimal(n / 10));
    }
}

/// Different numbers are written differently.
pub proof fn decimal_numbers_are_distinct(m: nat, n: nat)
    requires
        m != n,
    ensures
        decimal(m) != decimal(n),
    decreases m + n,
{
    decimal_digits_are_in_place(m);
    decimal_digits_are_in_place(n);
    if decimal(m) == decimal(n) {
        if m >= 10 && n >= 10 {
            decimal_numbers_are_distinct(m / 10, n / 10);
        } else if m >= 10 {
            decimal_digits_are_in_place(m / 10);
        } else if n >= 10 {
            decimal_digits_are_in_place(n / 10);
        }
    }
}

/// Only a matrix product of the right sizes can have too many entries to run.
pub proof fn only_huge_products_do_not_fit<T: Scalar>(command: Command<T>)
    ensures
        command.fits() <==> match command {
            Command::MatMul { a, b, m, n, k } => a@.len() != m * k || b@.len() != k * n || m * n
                <= usize::MAX,
            _ => true,
        },
{
}

/// A batch may be run exactly if each of its commands may.
pub proof fn batches_fit_by_their_commands<T: Scalar, P>(batch: Seq<Job<T, P>>, i: int)
    requires
        0 <= i < batch.len(),
    ensures
        !batch[i].command.fits() ==> !all_fit(batch),
        all_fit(batch.push(batch[i])) <==> all_fit(batch),
        all_fit(batch.take(i + 1)) <==> all_fit(batch.take(i)) && batch[i].command.fits(),
        all_fit(Seq::<Job<T, P>>::empty()),
{
    let (less, more) = (batch.take(i), batch.take(i + 1));
    if all_fit(batch.push(batch[i])) {
        assert forall|j: int| 0 <= j < batch.len() implies (
        #[trigger] batch[j]).command.fits() by {
            assert(batch.push(batch[i])[j].command.fits());
        }
    }
    if all_fit(more) {
        assert(more[i].command.fits());
        assert forall|j: int| 0 <= j < less.len() implies (#[trigger] less[j]).command.fits() by {
            assert(more[j].command.fits());
        }
    }
    if all_fit(less) && batch[i].command.fits() {
        assert forall|j: int| 0 <= j < more.len() implies (#[trigger] more[j]).command.fits() by {
            if j < i {
                assert(less[j].command.fits());
            }
        }
    }
}

/// An outcome holds every element of a result, or every character of its error.
pub proof fn outcomes_hold_whole_results<T>(
    values: Vec<T>,
    reason: String,
    results: Seq<Result<Vec<T>, String>>,
    refs: Seq<&Command<T>>,
    i: int,
)
    ensures
        outcome(Ok::<Vec<T>, String>(values)) == Ok::<Seq<T>, Seq<char>>(values@),
        outcome(Err::<Vec<T>, String>(reason)) == Err::<Seq<T>, Seq<char>>(reason@),
        outcomes(results).len() == results.len(),
        0 <= i < results.len() ==> outcomes(results)[i] == outcome(results[i]),
        answer(None::<Result<Vec<T>, String>>) is None,
        0 <= i < results.len() ==> answer(Some(results[i])) == Some(outcome(results[i])),
        commands_of(refs).len() == refs.len(),
        0 <= i < refs.len() ==> commands_of(refs)[i] == *refs[i],
{
}

/// One more command on a batch is one more step at its end.
pub proof fn a_batch_grows_by_one_step<S, T>(
    step: spec_fn(S, Command<T>, S, Outcome<T>) -> bool,
    pre: S,
    commands: Seq<Command<T>>,
    command: Command<T>,
    post: S,
    results: Seq<Outcome<T>>,
    result: Outcome<T>,
)
    ensures
        in_order(step, pre, Seq::empty(), post, Seq::empty()) <==> pre == post,
        in_order(step, pre, commands, post, results) ==> results.len() == commands.len(),
        in_order(step, pre, commands.push(command), post, results.push(result)) <==> exists|mid: S|
            in_order(step, pre, commands, mid, results) && #[trigger] step(
                mid,
                command,
                post,
                result,
            ),
{
    let (more, longer) = (commands.push(command), results.push(result));
    assert(more.drop_last() =~= commands);
    assert(longer.drop_last() =~= results);
    assert(more.last() == command && longer.last() == result);
    if in_order(step, pre, more, post, longer) {
        let mid = choose|mid: S|
            #![trigger step(mid, more.last(), post, longer.last())]
            in_order(step, pre, more.drop_last(), mid, longer.drop_last()) && step(
                mid,
                more.last(),
                post,
                longer.last(),
            );
        assert(step(mid, command, post, result));
    }
}

/// On the CPU a command comes to its value and a batch to the values of its
/// commands, one per command and in their order.
pub proof fn cpu_batches_answer_by_position<T: Scalar>(
    pre: CpuBackend,
    command: Command<T>,
    commands: Seq<Command<T>>,
    post: CpuBackend,
    result: Outcome<T>,
    results: Seq<Outcome<T>>,
)
    ensures
        <CpuBackend as Backend<T>>::ran(pre, command, post, result) <==> result == expected(
            command,
        ),
        <CpuBackend as Backend<T>>::ran_batch(pre, commands, post, results) ==> {
            &&& results.len() == commands.len()
            &&& forall|i: int|
                0 <= i < commands.len() ==> #[trigger] results[i] == expected(commands[i])
        },
{
    if <CpuBackend as Backend<T>>::ran_batch(pre, commands, post, results) {
        crate::backend::cpu_batch_is_one_by_one(pre, commands, post, results);
    }
}

/// A thread of a vector addition writes one sum, at its own position, and nothing
/// else.
pub proof fn a_thread_adds_its_own_pair<T: Scalar>(
    c: Seq<T>,
    a: Seq<T>,
    b: Seq<T>,
    idx: int,
    i: int,
)
    requires
        0 <= i < c.len(),
        idx < a.len() ==> idx < b.len() && idx < c.len(),
    ensures
        added(c, a, b, idx).len() == c.len(),
        i == idx && i < a.len() ==> added(c, a, b, idx)[i] == a[i].plus_spec(b[i]),
        i != idx || i >= a.len() ==> added(c, a, b, idx)[i] == c[i],
{
}

/// Which eight elements thread `t` of a summing block adds up, and how: those that
/// lie a multiple of a warp apart, in pairs. The results of one warp are then added
/// from the left. Past the end of the values there are zeros.
pub proof fn a_block_sums_eight_elements_per_thread<T: Scalar>(
    values: Seq<T>,
    block: nat,
    x: spec_fn(int) -> T,
)
    requires
        forall|t: int|
            #![trigger x(t)]
            x(t) == (if 0 <= block * 256 + t < values.len() {
                values[block * 256 + t]
            } else {
                T::zero_spec()
            }),
    ensures
        block_sum(values, block as int) == sum(
            Seq::new(
                32,
                |t: int|
                    x(t).plus_spec(x(t + 128)).plus_spec(x(t + 64).plus_spec(x(t + 192))).plus_spec(
                        x(t + 32).plus_spec(x(t + 160)).plus_spec(
                            x(t + 96).plus_spec(x(t + 224)),
                        ),
                    ),
            ),
        ),
{
    let s = block_lanes(values, block as int);
    assert(s.len() == 256);
    assert forall|t: int| 0 <= t < 256 implies #[trigger] s[t] == x(t) by {}
    let (once, twice, thrice) = (
        halve(s, 128),
        halve(halve(s, 128), 64),
        halve(halve(halve(s, 128), 64), 32),
    );
    reveal_with_fuel(halve_down, 4);
    assert(halve_down(s, 128) == thrice);
    assert(thrice =~= Seq::new(
        32,
        |t: int|
            x(t).plus_spec(x(t + 128)).plus_spec(x(t + 64).plus_spec(x(t + 192))).plus_spec(
                x(t + 32).plus_spec(x(t + 160)).plus_spec(x(t + 96).plus_spec(x(t + 224))),
            ),
    ));
}

/// A thread of a matrix multiplication adds up its row times its column, followed
/// by products of zeros up to a whole number of tiles.
pub proof fn a_tiled_entry_is_a_row_times_a_column<T: Scalar>(
    a: Seq<T>,
    b: Seq<T>,
    m: nat,
    n: nat,
    k: nat,
    row: int,
    col: int,
)
    requires
        0 <= row < m,
        0 <= col < n,
    ensures
        k <= tiled_depth(k) < k + 16,
        tiled_depth(k) % 16 == 0,
        tiled_entry(a, b, m, n, k, row, col) == sum(
            Seq::new(k, |j: int| a[row * k + j].times_spec(b[j * n + col])) + Seq::new(
                (tiled_depth(k) - k) as nat,
                |j: int| T::zero_spec().times_spec(T::zero_spec()),
            ),
        ),
{
    assert(tiled_terms(a, b, m, n, k, row, col, tiled_depth(k)) =~= Seq::new(
        k,
        |j: int| a[row * k + j].times_spec(b[j * n + col]),
    ) + Seq::new(
        (tiled_depth(k) - k) as nat,
        |j: int| T::zero_spec().times_spec(T::zero_spec()),
    ));
}

/// A block of a matrix multiplication writes the entries of its own 16 rows and 16
/// columns, and nothing else.
pub proof fn a_block_writes_its_own_entries<T: Scalar>(
    c: Seq<T>,
    a: Seq<T>,
    b: Seq<T>,
    m: nat,
    n: nat,
    k: nat,
    block_x: int,
    block_y: int,
    row: int,
    col: int,
)
    requires
        m * n <= c.len(),
        0 <= row < m,
        0 <= col < n,
    ensures
        block_written(c, a, b, m, n, k, block_x, block_y).len() == c.len(),
        0 <= row * n + col < c.len(),
        block_written(c, a, b, m, n, k, block_x, block_y)[row * n + col] == (if row / 16 == block_y
            && col / 16 == block_x {
            tiled_entry(a, b, m, n, k, row, col)
        } else {
            c[row * n + col]
        }),
        forall|p: int|
            m * n <= p < c.len() ==> #[trigger] block_written(
                c,
                a,
                b,
                m,
                n,
                k,
                block_x,
                block_y,
            )[p] == c[p],
{
    lemma_row_major(m, n, row, col);
}

/// Rounding up gives the fewest blocks that hold everything. Lengths count in 32
/// bits.
pub proof fn grids_are_as_small_as_possible(n: nat, d: nat)
    requires
        d > 0,
    ensures
        n <= ceil_div(n, d) * d,
        n > 0 ==> (ceil_div(n, d) - 1) * d < n,
        n == 0 ==> ceil_div(n, d) == 0,
        n <= u32::MAX ==> low_bits(n) == n,
        low_bits(n + 0x1_0000_0000) == low_bits(n),
        reduce_blocks(n) == ceil_div(low_bits(n), 256),
        matmul_blocks(n) == ceil_div(low_bits(n), 16),
{
    lemma_ceil_div_covers(n, d);
    let q = ceil_div(n, d);
    if n > 0 {
        assert((q - 1) * d < n) by (nonlinear_arith)
            requires
                d > 0,
                n > 0,
                q == (n + d - 1) / d as int,
        ;
    } else {
        assert((d - 1) as nat / d == 0) by (nonlinear_arith)
            requires
                d > 0,
        ;
    }
}

/// What launches leave at every position of their output.
pub proof fn launches_fill_their_output<T: Scalar>(
    a: Seq<T>,
    b: Seq<T>,
    m: nat,
    n: nat,
    k: nat,
    grid: (nat, nat),
    block_size: nat,
    i: int,
    row: int,
    col: int,
)
    requires
        0 <= row < m,
        0 <= col < n,
    ensures
        launched_sums(a, b, grid.0, block_size).len() == a.len(),
        0 <= i < a.len() ==> launched_sums(a, b, grid.0, block_size)[i] == (if i < grid.0
            * block_size && i < 0x1_0000_0000 {
            a[i].plus_spec(b[i])
        } else {
            T::zero_spec()
        }),
        partial_sums(a, grid.0).len() == grid.0,
        0 <= i < grid.0 ==> partial_sums(a, grid.0)[i] == block_sum(a, i),
        launched_product(a, b, m, n, k, grid.0, grid.1).len() == m * n,
        launched_product(a, b, m, n, k, grid.0, grid.1)[row * n + col] == (if row < grid.1 * 16
            && col < grid.0 * 16 {
            tiled_entry(a, b, m, n, k, row, col)
        } else {
            T::zero_spec()
        }),
{
    lemma_row_major(m, n, row, col);
}

/// A launch carries its buffers and sizes as they are, and the device is told the
/// kernel, the size of the output and the threads that go with them.
pub proof fn launches_say_what_they_carry<T: Scalar>(launch: Launch<'_, T>, suggested: u32)
    requires
        suggested > 0,
    ensures
        match launch {
            Launch::VectorAdd { a, b } => {
                &&& launch@ == Work::VectorAdd { a: a@, b: b@ }
                &&& launch@.kernel_name() == "vector_add"@
                &&& launch@.out_len() == a@.len()
                &&& launch@.alloc_stage() == Stage::AllocOut
                &&& launch@.geometry(suggested).block == (suggested, 1u32)
                &&& launch@.geometry(suggested).grid == (
                    ceil_div(low_bits(a@.len()), suggested as nat) as u32,
                    1u32,
                )
                &&& launch@.well_formed() <==> a@.len() == b@.len()
                &&& computed(launch@, suggested as nat) == launched_sums(
                    a@,
                    b@,
                    ceil_div(low_bits(a@.len()), suggested as nat),
                    suggested as nat,
                )
            },
            Launch::ReduceSum { a, grid_size } => {
                &&& launch@ == Work::ReduceSum { a: a@, grid_size: grid_size as nat }
                &&& launch@.kernel_name() == "reduce_sum"@
                &&& launch@.out_len() == grid_size
                &&& launch@.alloc_stage() == Stage::AllocPartialSums
                &&& launch@.geometry(suggested).block == (256u32, 1u32)
                &&& launch@.geometry(suggested).grid == (grid_size, 1u32)
                &&& launch@.well_formed() <==> grid_size == reduce_blocks(a@.len())
                &&& computed(launch@, suggested as nat) == partial_sums(a@, grid_size as nat)
            },
            Launch::DotProduct { a, b, grid_size } => {
                &&& launch@ == Work::DotProduct { a: a@, b: b@, grid_size: grid_size as nat }
                &&& launch@.kernel_name() == "dot_product"@
                &&& launch@.out_len() == grid_size
                &&& launch@.alloc_stage() == Stage::AllocPartialSums
                &&& launch@.geometry(suggested).block == (256u32, 1u32)
                &&& launch@.geometry(suggested).grid == (grid_size, 1u32)
                &&& launch@.well_formed() <==> a@.len() == b@.len() && grid_size == reduce_blocks(
                    a@.len(),
                )
                &&& computed(launch@, suggested as nat) == partial_sums(
                    Seq::new(a@.len(), |i: int| a@[i].times_spec(b@[i])),
                    grid_size as nat,
                )
            },
            Launch::MatMul { a, b, m, n, k, grid_x, grid_y } => {
                &&& launch@ == Work::MatMul {
                    a: a@,
                    b: b@,
                    m: m as nat,
                    n: n as nat,
                    k: k as nat,
                    grid_x: grid_x as nat,
                    grid_y: grid_y as nat,
                }
                &&& launch@.kernel_name() == "matmul"@
                &&& launch@.out_len() == m * n
                &&& launch@.alloc_stage() == Stage::AllocC
                &&& launch@.geometry(suggested).block == (16u32, 16u32)
                &&& launch@.geometry(suggested).grid == (grid_x, grid_y)
                &&& launch@.well_formed() <==> a@.len() == m * k <= usize::MAX && b@.len() == k * n
                    <= usize::MAX && m * n <= usize::MAX && grid_x == matmul_blocks(n as nat)
                    && grid_y == matmul_blocks(m as nat)
                &&& computed(launch@, suggested as nat) == launched_product(
                    a@,
                    b@,
                    m as nat,
                    n as nat,
                    k as nat,
                    grid_x as nat,
                    grid_y as nat,
                )
            },
        },
{
    if let Launch::DotProduct { a, b, grid_size } = launch {
        assert(products(a@, b@) =~= Seq::new(a@.len(), |i: int| a@[i].times_spec(b@[i])));
    }
}

/// A failure names its step and ends in the device's own words.
pub proof fn failures_name_their_step(stage: Stage, reason: Seq<char>)
    ensures
        stage.failure_text(reason) == (match stage {
            Stage::Init => "cust::init"@,
            Stage::GetDevice { device } => "Device::get_device("@ + decimal(device as nat) + ")"@,
            Stage::NewContext => "Context::new"@,
            Stage::SetFlags => "Context::set_flags"@,
            Stage::LoadModule => "Module::from_ptx"@,
            Stage::NewStream => "Stream::new"@,
            Stage::UploadA => "upload a"@,
            Stage::UploadB => "upload b"@,
            Stage::AllocOut => "alloc out"@,
            Stage::AllocPartialSums => "alloc partial_sums"@,
            Stage::AllocC => "alloc c"@,
            Stage::GetFunction => "get_function"@,
            Stage::SuggestLaunch => "suggested_launch_configuration"@,
            Stage::KernelLaunch => "kernel launch"@,
            Stage::Synchronize => "stream.synchronize"@,
            Stage::CopyBack => "copy_to"@,
        }) + " failed: "@ + reason,
{
}

/// What is settled without the device is settled as on the CPU, and that is exactly
/// what has wrong sizes or nothing to compute.
pub proof fn settled_commands_get_their_value<T: Scalar>(command: Command<T>)
    ensures
        settled(command) is None <==> match command {
            Command::VectorAdd { a, b } => a@.len() == b@.len() && a@.len() > 0,
            Command::Reduce { a } => a@.len() > 0,
            Command::DotProduct { a, b } => a@.len() == b@.len() && a@.len() > 0,
            Command::MatMul { a, b, m, n, k } => a@.len() == m * k && b@.len() == k * n && m > 0
                && n > 0,
        },
        settled(command) is Some ==> settled(command) == Some(expected(command)),
        command_work(command) is Some <==> settled(command) is None,
{
    match command {
        Command::VectorAdd { a, b } => {
            if a@.len() == 0 {
                assert(sums(a@, b@) =~= Seq::<T>::empty());
            }
        },
        Command::Reduce { a } => {},
        Command::DotProduct { a, b } => {},
        Command::MatMul { a, b, m, n, k } => {
            if settled(command) is Some && a@.len() == m * k && b@.len() == k * n {
                crate::simulate::empty_products_are_empty(command);
            }
        },
    }
}

/// A command that waits for the device hands its own operands over, in their order,
/// with the smallest grid that holds them.
pub proof fn commands_launch_their_own_operands<T: Scalar>(command: Command<T>)
    requires
        settled(command) is None,
    ensures
        command_work(command) == Some(
            match command {
                Command::VectorAdd { a, b } => Work::VectorAdd { a: a@, b: b@ },
                Command::Reduce { a } => Work::ReduceSum {
                    a: a@,
                    grid_size: ceil_div(low_bits(a@.len()), 256),
                },
                Command::DotProduct { a, b } => Work::DotProduct {
                    a: a@,
                    b: b@,
                    grid_size: ceil_div(low_bits(a@.len()), 256),
                },
                Command::MatMul { a, b, m, n, k } => Work::MatMul {
                    a: a@,
                    b: b@,
                    m: m as nat,
                    n: n as nat,
                    k: k as nat,
                    grid_x: ceil_div(low_bits(n as nat), 16),
                    grid_y: ceil_div(low_bits(m as nat), 16),
                },
            },
        ),
        work(command) == command_work(command)->0,
{
}

/// A reply is the result as it stands: in full where the device computed elements,
/// added up where it computed partial sums, and passed on where it failed.
pub proof fn replies_are_results<T: Scalar>(
    command: Command<T>,
    reply: Outcome<T>,
    work_done: Work<T>,
)
    ensures
        reply is Err ==> concluded(command, reply) == reply,
        command is VectorAdd || command is MatMul ==> concluded(command, reply) == reply,
        (command is Reduce || command is DotProduct) && reply is Ok ==> concluded(command, reply)
            == Ok::<Seq<T>, Seq<char>>(seq![sum(reply->Ok_0)]),
        settled(command) is None ==> cuda_outcome(command, Some(reply)) == concluded(
            command,
            reply,
        ),
        settled(command) is Some ==> cuda_outcome(command, Some(reply)) == expected(command)
            && cuda_outcome(command, None) == expected(command),
        answers(work_done, reply) <==> (work_done is VectorAdd && reply is Ok ==> reply->Ok_0.len()
            == work_done->VectorAdd_a.len()),
{
    settled_commands_get_their_value(command);
}

/// A batch is coalesced exactly if it is one of additions alone. It then waits for
/// at most one launch, and every other batch for one launch per command at most.
pub proof fn batches_wait_for_their_launches<T: Scalar>(
    commands: Seq<Command<T>>,
    replies: Seq<Option<Outcome<T>>>,
    i: nat,
)
    ensures
        coalesces(commands) <==> commands.len() > 0 && forall|j: int|
            0 <= j < commands.len() ==> (#[trigger] commands[j]) is VectorAdd,
        coalesces(commands) ==> next_work(commands, i) == (if i == 0 {
            batch_work(commands)
        } else {
            None
        }),
        !coalesces(commands) ==> next_work(commands, i) == (if i < commands.len() {
            command_work(commands[i as int])
        } else {
            None
        }),
        coalesces(commands) && replies.len() > 0 ==> batch_outcomes(commands, replies)
            == coalesced(commands, replies[0]),
        !coalesces(commands) ==> batch_outcomes(commands, replies).len() == replies.len(),
        !coalesces(commands) && i < replies.len() ==> batch_outcomes(commands, replies)[i as int]
            == cuda_outcome(commands[i as int], replies[i as int]),
{
}

/// One more addition on a batch puts its operands at the end of the flat buffers,
/// if it has any and they go together.
pub proof fn flat_buffers_grow_at_the_end<T: Scalar>(
    commands: Seq<Command<T>>,
    a: Vec<T>,
    b: Vec<T>,
)
    ensures
        ({
            let more = commands.push(Command::VectorAdd { a, b });
            &&& offset(more, commands.len() as int) == flat_left(commands).len()
            &&& a@.len() == b@.len() ==> flat_left(more) == flat_left(commands) + a@
                && flat_right(more) == flat_right(commands) + b@
            &&& a@.len() != b@.len() ==> flat_left(more) == flat_left(commands) && flat_right(more)
                == flat_right(commands)
        }),
        flat_left(Seq::<Command<T>>::empty()).len() == 0,
        flat_right(Seq::<Command<T>>::empty()).len() == 0,
        flat_left(commands).len() == 0 ==> batch_work(commands) is None,
        flat_left(commands).len() > 0 ==> batch_work(commands) == Some(
            Work::VectorAdd { a: flat_left(commands), b: flat_right(commands) },
        ),
{
    let more = commands.push(Command::VectorAdd { a, b });
    assert(more.drop_last() =~= commands);
    assert(more.take(commands.len() as int) =~= commands);
    assert(more.last() == Command::VectorAdd { a, b });
    if a@.len() == b@.len() && a@.len() == 0 {
        assert(flat_left(commands) + a@ =~= flat_left(commands));
        assert(flat_right(commands) + b@ =~= flat_right(commands));
    }
}

/// From whatever a device replies to a coalesced batch, every addition with
/// something to add gets as many elements as it has pairs, those from where its
/// operands lie in the flat buffers. Every other one gets what it gets on the CPU.
pub proof fn coalesced_replies_are_cut_in_full<T: Scalar>(
    commands: Seq<Command<T>>,
    flat: Seq<T>,
    i: int,
    a: Vec<T>,
    b: Vec<T>,
)
    requires
        forall|j: int| 0 <= j < commands.len() ==> (#[trigger] commands[j]) is VectorAdd,
        0 <= i < commands.len(),
        commands[i] == (Command::VectorAdd { a, b }),
        flat.len() == flat_left(commands).len(),
    ensures
        coalesced(commands, Some(Ok(flat))).len() == commands.len(),
        a@.len() == b@.len() ==> {
            let got = coalesced(commands, Some(Ok(flat)))[i];
            &&& got is Ok
            &&& got->Ok_0.len() == a@.len()
            &&& forall|j: int|
                0 <= j < a@.len() ==> #[trigger] got->Ok_0[j] == flat[offset(commands, i) + j]
            &&& forall|j: int|
                0 <= j < a@.len() ==> #[trigger] flat_left(commands)[offset(commands, i) + j]
                    == a@[j]
            &&& forall|j: int|
                0 <= j < a@.len() ==> #[trigger] flat_right(commands)[offset(commands, i) + j]
                    == b@[j]
        },
        a@.len() != b@.len() ==> coalesced(commands, Some(Ok(flat)))[i] == expected(commands[i]),
{
    lemma_flat(commands, i);
    settled_commands_get_their_value(commands[i]);
    if a@.len() == b@.len() {
        if a@.len() > 0 {
            let (from, to) = (offset(commands, i), offset(commands, i) + a@.len());
            assert forall|j: int| 0 <= j < a@.len() implies #[trigger] flat_left(commands)[from + j]
                == a@[j] by {
                assert(flat_left(commands).subrange(from, to)[j] == a@[j]);
            }
            assert forall|j: int| 0 <= j < a@.len() implies #[trigger] flat_right(commands)[from + j]
                == b@[j] by {
                assert(flat_right(commands).subrange(from, to)[j] == b@[j]);
            }
        } else {
            assert(sums(a@, b@) =~= Seq::<T>::empty());
        }
    }
}

/// In a coalesced batch a command that needs no device gets what it gets on the CPU,
/// whatever becomes of the launch, and a failed launch fails every other one in its
/// own words.
pub proof fn coalesced_commands_need_the_launch_or_not<T: Scalar>(
    commands: Seq<Command<T>>,
    reply: Option<Outcome<T>>,
    reason: Seq<char>,
    i: int,
)
    requires
        0 <= i < commands.len(),
    ensures
        coalesced(commands, reply).len() == commands.len(),
        settled(commands[i]) is Some ==> coalesced(commands, reply)[i] == expected(commands[i]),
        settled(commands[i]) is None ==> coalesced(commands, Some(Err(reason)))[i] == Err::<
            Seq<T>,
            Seq<char>,
        >(reason),
{
    settled_commands_get_their_value(commands[i]);
}

/// A launched addition of at most `u32::MAX` pairs has one sum per pair.
pub proof fn launched_additions_add_every_pair<T: Scalar>(
    a: Vec<T>,
    b: Vec<T>,
    block_size: nat,
    result: Result<Vec<T>, String>,
)
    requires
        a@.len() == b@.len() <= u32::MAX,
        block_size > 0,
        outcome(result) == launched_outcome(Command::VectorAdd { a, b }, block_size),
    ensures
        result is Ok,
        result->Ok_0@.len() == a@.len(),
        forall|i: int| 0 <= i < a@.len() ==> #[trigger] result->Ok_0@[i] == a@[i].plus_spec(b@[i]),
{
    vector_add_matches_cpu(Command::VectorAdd { a, b }, block_size);
    results_are_what_the_elements_say(Command::VectorAdd { a, b }, result);
}

/// In a batch, coalesced or not, every addition has one sum per pair.
pub proof fn batched_additions_add_every_pair<T: Scalar>(
    pre: GridBackend,
    commands: Seq<Command<T>>,
    post: GridBackend,
    results: Seq<Result<Vec<T>, String>>,
    i: int,
    a: Vec<T>,
    b: Vec<T>,
)
    requires
        <GridBackend as Backend<T>>::ran_batch(pre, commands, post, outcomes(results)),
        pre.block_size() > 0,
        coalesces(commands) ==> flat_left(commands).len() <= u32::MAX,
        0 <= i < commands.len(),
        commands[i] == (Command::VectorAdd { a, b }),
        a@.len() == b@.len() <= u32::MAX,
    ensures
        results.len() == commands.len(),
        results[i] is Ok,
        results[i]->Ok_0@.len() == a@.len(),
        forall|j: int|
            0 <= j < a@.len() ==> #[trigger] results[i]->Ok_0@[j] == a@[j].plus_spec(b@[j]),
{
    batching_changes_nothing(pre, commands, post, outcomes(results));
    assert(outcomes(results).len() == results.len());
    assert(outcomes(results)[i] == outcome(results[i]));
    launched_additions_add_every_pair(a, b, pre.block_size(), results[i]);
}

/// A launched sum, and a launched dot product, is one element: the partial sums of
/// the fewest blocks of 256 that hold the elements, added up from the left.
pub proof fn launched_sums_add_up_their_blocks<T: Scalar>(
    a: Vec<T>,
    b: Vec<T>,
    blocks: nat,
    block_size: nat,
)
    requires
        0 < a@.len() <= u32::MAX,
        (blocks - 1) * 256 < a@.len() <= blocks * 256,
    ensures
        launched_outcome(Command::Reduce { a }, block_size) == Ok::<Seq<T>, Seq<char>>(
            seq![sum(Seq::new(blocks, |g: int| block_sum(a@, g)))],
        ),
        a@.len() == b@.len() ==> launched_outcome(Command::DotProduct { a, b }, block_size)
            == Ok::<Seq<T>, Seq<char>>(
            seq![
                sum(
                    Seq::new(
                        blocks,
                        |g: int|
                            block_sum(Seq::new(a@.len(), |i: int| a@[i].times_spec(b@[i])), g),
                    ),
                ),
            ],
        ),
{
    grids_are_as_small_as_possible(a@.len(), 256);
    let q = reduce_blocks(a@.len());
    assert(q == blocks);
    assert(partial_sums(a@, q) =~= Seq::new(blocks, |g: int| block_sum(a@, g)));
    let terms = Seq::new(a@.len(), |i: int| a@[i].times_spec(b@[i]));
    assert(products(a@, b@) =~= terms);
    assert(partial_sums(terms, q) =~= Seq::new(blocks, |g: int| block_sum(terms, g)));
}

/// A launched matrix product has one entry per row and column, a row of the left
/// matrix times a column of the right one, followed by products of zeros up to a
/// whole number of tiles.
pub proof fn launched_entries_are_rows_times_columns<T: Scalar>(
    a: Vec<T>,
    b: Vec<T>,
    m: usize,
    n: usize,
    k: usize,
    block_size: nat,
    row: int,
    col: int,
)
    requires
        a@.len() == m * k,
        b@.len() == k * n,
        0 <= row < m <= u32::MAX,
        0 <= col < n <= u32::MAX,
    ensures
        ({
            let got = launched_outcome(Command::MatMul { a, b, m, n, k }, block_size);
            &&& got is Ok
            &&& got->Ok_0.len() == m * n
            &&& k <= tiled_depth(k as nat) < k + 16
            &&& got->Ok_0[row * n + col] == sum(
                Seq::new(k as nat, |j: int| a@[row * k + j].times_spec(b@[j * n + col]))
                    + Seq::new(
                    (tiled_depth(k as nat) - k) as nat,
                    |j: int| T::zero_spec().times_spec(T::zero_spec()),
                ),
            )
        }),
{
    let (gx, gy) = (matmul_blocks(n as nat), matmul_blocks(m as nat));
    grids_are_as_small_as_possible(n as nat, 16);
    grids_are_as_small_as_possible(m as nat, 16);
    launches_fill_their_output(
        a@,
        b@,
        m as nat,
        n as nat,
        k as nat,
        (gx, gy),
        block_size,
        0,
        row,
        col,
    );
    a_tiled_entry_is_a_row_times_a_column(a@, b@, m as nat, n as nat, k as nat, row, col);
}

/// What the software device replies is what the launch computes, a run keeps the
/// backend as it is, and a batch that is not coalesced is run command by command.
pub proof fn the_software_device_is_faithful<T: Scalar>(
    pre: GridBackend,
    command: Command<T>,
    post: GridBackend,
    result: Outcome<T>,
    commands: Seq<Command<T>>,
    results: Seq<Outcome<T>>,
)
    ensures
        launched_outcome(command, pre.block_size()) == (if settled(command) is Some {
            expected(command)
        } else {
            concluded(command, Ok(computed(work(command), pre.block_size())))
        }),
        <GridBackend as Backend<T>>::ran(pre, command, post, result) <==> post == pre && result
            == launched_outcome(command, pre.block_size()),
        <GridBackend as Backend<T>>::ran_batch(pre, commands, post, results) && coalesces(commands)
            ==> post == pre && results == coalesced(
            commands,
            simulated(batch_work(commands), pre.block_size()),
        ),
        batch_work(commands) is Some ==> simulated(batch_work(commands), pre.block_size()) == Some(
            Ok::<Seq<T>, Seq<char>>(computed(batch_work(commands)->0, pre.block_size())),
        ),
        <GridBackend as Backend<T>>::ran_batch(pre, commands, post, results) && !coalesces(commands)
            ==> post == pre && results.len() == commands.len() && forall|i: int|
            0 <= i < commands.len() ==> #[trigger] results[i] == launched_outcome(
                commands[i],
                pre.block_size(),
            ),
{
    settled_commands_get_their_value(command);
    if <GridBackend as Backend<T>>::ran_batch(pre, commands, post, results) && !coalesces(
        commands,
    ) {
        crate::simulate::lemma_state_kept(pre, commands, post, results);
    }
}

/// The jobs among the polls are those that the polls gave, one by one, after the
/// job that was there first.
pub proof fn polled_jobs_are_kept_in_order<J>(first: J, polls: Seq<Option<J>>, job: J)
    ensures
        given(Seq::<Option<J>>::empty()).len() == 0,
        given(polls.push(Some(job))) == given(polls).push(job),
        given(polls.push(None)) == given(polls),
        received(first, polls).len() == given(polls).len() + 1,
        received(first, polls)[0] == first,
        received(first, polls).skip(1) == given(polls),
{
    assert(polls.push(Some(job)).drop_last() =~= polls);
    assert(polls.push(None).drop_last() =~= polls);
    assert(received(first, polls).skip(1) =~= given(polls));
}

/// A queue that hands its jobs out in order loses none of them, doubles none and
/// keeps the rest: a drained batch is the first job and the front of the queue, as
/// much as the cap allows, and polling goes no further.
pub proof fn draining_stops_at_the_cap_or_at_nothing<J>(
    first: J,
    queued: Seq<J>,
    polls: Seq<Option<J>>,
    cap: nat,
    batch: Seq<J>,
)
    requires
        batch == received(first, polls),
        polled_out(polls, cap),
        forall|i: int|
            0 <= i < polls.len() ==> #[trigger] polls[i] == (if i < queued.len() {
                Some(queued[i])
            } else {
                None
            }),
    ensures
        batch.len() == (if cap <= 1 {
            1
        } else if cap <= queued.len() {
            cap
        } else {
            queued.len() + 1
        }),
        batch[0] == first,
        forall|i: int| 1 <= i < batch.len() ==> #[trigger] batch[i] == queued[i - 1],
        polls.len() == (if batch.len() < cap {
            batch.len() as int
        } else {
            batch.len() - 1
        }),
{
    crate::worker::draining_takes_the_front_of_the_queue(first, queued, polls, cap);
    crate::worker::lemma_given_at_most(polls);
    polled_jobs_are_kept_in_order(first, polls, first);
    let jobs = given(polls);
    assert(batch =~= seq![first] + jobs);
    if cap <= 1 {
        assert(polls.len() == 0);
    } else {
        assert(jobs =~= batch.skip(1));
        if polls.last() is None && polls.len() > 0 {
            assert(polls[polls.len() - 1] is None);
            assert(polls.len() > queued.len());
            if polls.len() > 1 {
                assert(polls[polls.len() - 2] is Some);
            }
        } else {
            assert forall|i: int| 0 <= i < polls.len() implies (#[trigger] polls[i]) is Some by {
                assert(i < polls.len() - 1 || polls[i] == polls.last());
            }
            crate::worker::lemma_given(polls);
        }
    }
}

/// A worker takes at most 256 jobs in one turn, and at least the one it received.
pub proof fn turns_are_bounded<J>(first: J, polls: Seq<Option<J>>)
    requires
        polled_out(polls, MAX_BATCH_SIZE as nat),
    ensures
        1 <= received(first, polls).len() <= 256,
        received(first, polls).len() < 256 ==> polls.len() > 0 && polls.last() is None,
{
    crate::worker::lemma_given_at_most(polls);
}

/// The record of a queue is what it was, followed by what polling gave since.
pub proof fn the_record_only_grows<J>(earlier: JobQueue<J>, later: JobQueue<J>)
    requires
        earlier.polls().is_prefix_of(later.polls()),
    ensures
        later.polls() == earlier.polls() + polls_since(later, earlier),
{
    assert(later.polls() =~= earlier.polls() + polls_since(later, earlier));
}

/// A served batch hands the backend the very command of every job, at the job's
/// position, and every job the result at its position, under its own number and to
/// its own process.
pub proof fn jobs_run_their_commands_and_get_their_results<T: Scalar, P, B: Backend<T>>(
    pre: B,
    batch: Seq<Job<T, P>>,
    post: B,
    deliveries: Seq<Delivery<T, P>>,
)
    requires
        served(pre, batch, post, deliveries),
    ensures
        deliveries.len() == batch.len(),
        forall|i: int|
            0 <= i < batch.len() ==> (#[trigger] deliveries[i]).id == batch[i].id
                && deliveries[i].pid == batch[i].pid,
        B::ran_batch(
            pre,
            Seq::new(batch.len(), |i: int| batch[i].command),
            post,
            Seq::new(
                batch.len(),
                |i: int|
                    match deliveries[i].result {
                        Ok(values) => Ok::<Seq<T>, Seq<char>>(values@),
                        Err(reason) => Err::<Seq<T>, Seq<char>>(reason@),
                    },
            ),
        ),
{
    assert(Seq::new(batch.len(), |i: int| batch[i].command) =~= crate::worker::commands_in(batch));
    assert(Seq::new(
        batch.len(),
        |i: int|
            match deliveries[i].result {
                Ok(values) => Ok::<Seq<T>, Seq<char>>(values@),
                Err(reason) => Err::<Seq<T>, Seq<char>>(reason@),
            },
    ) =~= outcomes(crate::worker::results_in(deliveries)));
}

/// On the CPU backend every job is answered with the value of its own command.
pub proof fn a_cpu_worker_answers_every_job<T: Scalar, P>(
    pre: CpuBackend,
    batch: Seq<Job<T, P>>,
    post: CpuBackend,
    deliveries: Seq<Delivery<T, P>>,
    i: int,
)
    requires
        served(pre, batch, post, deliveries),
        0 <= i < batch.len(),
    ensures
        deliveries.len() == batch.len(),
        deliveries[i].id == batch[i].id,
        deliveries[i].pid == batch[i].pid,
        match deliveries[i].result {
            Ok(values) => expected(batch[i].command) == Ok::<Seq<T>, Seq<char>>(values@),
            Err(reason) => expected(batch[i].command) == Err::<Seq<T>, Seq<char>>(reason@),
        },
{
    jobs_run_their_commands_and_get_their_results(pre, batch, post, deliveries);
    let commands = Seq::new(batch.len(), |j: int| batch[j].command);
    let results = Seq::new(
        batch.len(),
        |j: int|
            match deliveries[j].result {
                Ok(values) => Ok::<Seq<T>, Seq<char>>(values@),
                Err(reason) => Err::<Seq<T>, Seq<char>>(reason@),
            },
    );
    cpu_batches_answer_by_position(pre, commands[i], commands, post, results[i], results);
    assert(results[i] == expected(commands[i]));
}

/// On the software device every job is answered with what its own command comes to
/// when it is launched alone.
pub proof fn a_device_worker_answers_every_job<T: Scalar, P>(
    pre: GridBackend,
    batch: Seq<Job<T, P>>,
    post: GridBackend,
    deliveries: Seq<Delivery<T, P>>,
    i: int,
)
    requires
        served(pre, batch, post, deliveries),
        pre.block_size() > 0,
        coalesces(Seq::new(batch.len(), |j: int| batch[j].command)) ==> flat_left(
            Seq::new(batch.len(), |j: int| batch[j].command),
        ).len() <= u32::MAX,
        0 <= i < batch.len(),
    ensures
        deliveries.len() == batch.len(),
        deliveries[i].id == batch[i].id,
        deliveries[i].pid == batch[i].pid,
        match deliveries[i].result {
            Ok(values) => launched_outcome(batch[i].command, pre.block_size()) == Ok::<
                Seq<T>,
                Seq<char>,
            >(values@),
            Err(reason) => launched_outcome(batch[i].command, pre.block_size()) == Err::<
                Seq<T>,
                Seq<char>,
            >(reason@),
        },
{
    jobs_run_their_commands_and_get_their_results(pre, batch, post, deliveries);
    let commands = Seq::new(batch.len(), |j: int| batch[j].command);
    let results = Seq::new(
        batch.len(),
        |j: int|
            match deliveries[j].result {
                Ok(values) => Ok::<Seq<T>, Seq<char>>(values@),
                Err(reason) => Err::<Seq<T>, Seq<char>>(reason@),
            },
    );
    batching_changes_nothing(pre, commands, post, results);
    assert(results[i] == launched_outcome(commands[i], pre.block_size()));
}

/// An offer fills an empty place and changes nothing else.
pub proof fn offers_fill_empty_places<S>(table: Map<u32, S>, device: u32, sender: S, other: u32)
    ensures
        table.dom().contains(device) ==> adopted(table, device, sender) == table,
        !table.dom().contains(device) ==> adopted(table, device, sender).dom().contains(device)
            && adopted(table, device, sender)[device] == sender,
        other != device ==> (adopted(table, device, sender).dom().contains(other)
            <==> table.dom().contains(other)),
        other != device && table.dom().contains(other) ==> adopted(table, device, sender)[other]
            == table[other],
{
}

/// An accepted request is a job with the request's own command and process, under
/// the next number. A refused one says why and uses up no number.
pub proof fn requests_become_jobs_as_they_are<T, P>(
    result: Result<Job<T, P>, Atom>,
    before: JobIds,
    after: JobIds,
    device: u32,
    count: u32,
    pid: P,
    command: Command<T>,
)
    requires
        launched(result, before, after, device, count, pid, command),
    ensures
        result is Ok <==> device < count,
        result is Ok ==> {
            &&& result->Ok_0.command == command
            &&& result->Ok_0.pid == pid
            &&& result->Ok_0.id == before.next()
            &&& before.next() < u64::MAX ==> after.next() == before.next() + 1
            &&& before.next() == u64::MAX ==> after.next() == 0
        },
        result is Err ==> result->Err_0 == Atom::InvalidDevice && after == before,
{
}

/// Numbers are handed out one after another, and the words of an answer are spelled
/// as the caller expects them.
pub proof fn numbers_and_words_are_as_expected(id: u64)
    ensures
        id < u64::MAX ==> id_after(id) == id + 1,
        id_after(u64::MAX) == 0,
        Atom::Okay.spelling() == "ok"@,
        Atom::Error.spelling() == "error"@,
        Atom::InvalidDevice.spelling() == "invalid_device"@,
        Atom::Erlcuda.spelling() == "erlcuda"@,
{
}

} // verus!
