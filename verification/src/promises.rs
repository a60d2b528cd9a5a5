//! What callers can rely on: whatever a call returns, on the values that went in and
//! the values that came out.

use std::sync::mpsc::Receiver;

use vstd::prelude::*;

use crate::backend::{
    check_length, check_matmul_dims, expected, outcome, outcomes, Backend, CpuBackend,
};
use crate::coalesce::{can_coalesce, coalesces, flat_left, offset, VectorAddBatch};
use crate::cuda::{conclude, cuda_outcome, plan, CudaBatch, Step};
use crate::device::{Geometry, Launch, Stage};
use crate::grid::{
    ceil_div, matmul_grid, reduce_grid, run_dot_product, run_matmul, run_reduce_sum,
    run_vector_add, vector_add_grid,
};
use crate::job::{full_product, Command, Job};
use crate::kernels::{block_sum, dot_product, matmul, reduce_sum, tiled_depth, vector_add};
use crate::laws::{
    a_block_writes_its_own_entries, a_cpu_worker_answers_every_job,
    a_tiled_entry_is_a_row_times_a_column, coalesced_replies_are_cut_in_full,
    cpu_batches_answer_by_position, draining_stops_at_the_cap_or_at_nothing,
    grids_are_as_small_as_possible, launched_entries_are_rows_times_columns,
    launched_sums_add_up_their_blocks, launches_fill_their_output, launches_say_what_they_carry,
};
use crate::nif::{
    launch_dot_product, launch_matmul, launch_reduce, launch_vector_add, outcome_message,
    validate_device, Atom, JobIds, Message, Payload,
};
use crate::queue::JobQueue;
use crate::scalar::{products, products_of, sum, sum_of, sums_of, zeroed, Scalar};
use crate::simulate::{batching_changes_nothing, GridBackend};
use crate::text::{decimal, decimal_text};
use crate::worker::{
    batch_fits, drain_batch, pair_up, polls_since, run_jobs, serve, take_polled, Delivery,
    StackSizeOverride, StackSizeOverrideGuard, WorkerTable,
};

verus! {

/// Summing nothing gives zero, and summing one element more adds that element.
pub proof fn summing_one_more_adds_it<T: Scalar>(
    a: &[T],
    longer: &[T],
    x: T,
    total: T,
    larger: T,
)
    requires
        call_ensures(sum_of::<T>, (a,), total),
        call_ensures(sum_of::<T>, (longer,), larger),
        longer@ == a@.push(x),
    ensures
        a@.len() == 0 ==> total == T::zero_spec(),
        larger == total.plus_spec(x),
{
    assert(longer@.drop_last() =~= a@);
}

/// Integers are added and multiplied right up to a multiple of 2^32.
pub proof fn integers_are_computed_modulo_2_32(
    x: i32,
    y: i32,
    zero: i32,
    added: i32,
    multiplied: i32,
)
    requires
        call_ensures(<i32 as Scalar>::zero, (), zero),
        call_ensures(<i32 as Scalar>::plus, (x, y), added),
        call_ensures(<i32 as Scalar>::times, (x, y), multiplied),
    ensures
        zero == 0,
        (added - (x + y)) % 0x1_0000_0000 == 0,
        (multiplied - x * y) % 0x1_0000_0000 == 0,
{
    crate::laws::integers_wrap_around(x, y);
}

/// Slices are added and multiplied position by position, and buffers are zero
/// throughout.
pub proof fn slices_are_combined_by_position<T: Scalar>(
    a: &[T],
    b: &[T],
    n: usize,
    added: Vec<T>,
    multiplied: Vec<T>,
    zeros: Vec<T>,
)
    requires
        call_ensures(sums_of::<T>, (a, b), added),
        call_ensures(products_of::<T>, (a, b), multiplied),
        call_ensures(zeroed::<T>, (n,), zeros),
    ensures
        added@.len() == a@.len(),
        forall|i: int| 0 <= i < a@.len() ==> #[trigger] added@[i] == a@[i].plus_spec(b@[i]),
        multiplied@.len() == a@.len(),
        forall|i: int| 0 <= i < a@.len() ==> #[trigger] multiplied@[i] == a@[i].times_spec(b@[i]),
        zeros@.len() == n,
        forall|i: int| 0 <= i < n ==> #[trigger] zeros@[i] == T::zero_spec(),
{
}

/// A number is written as all of its digits but the last, then the last one.
pub proof fn numbers_are_written_digit_by_digit(n: u128, text: String, front: String)
    requires
        call_ensures(decimal_text, (n,), text),
        call_ensures(decimal_text, (n / 10,), front),
    ensures
        n < 10 ==> text@ == seq![(48 + n) as char],
        n >= 10 ==> text@ == front@.push((48 + n % 10) as char),
{
    if n < 10 {
        assert(text@ =~= seq![(48 + n) as char]);
    }
}

/// Products of sizes are taken in full, and a command may be run unless it is a
/// matrix product with more entries than a machine number counts.
pub proof fn sizes_are_taken_in_full<T: Scalar>(
    x: usize,
    y: usize,
    product: u128,
    command: &Command<T>,
    fits: bool,
)
    requires
        call_ensures(full_product, (x, y), product),
        call_ensures(Command::<T>::sizes_fit, (command,), fits),
    ensures
        product == x * y,
        match *command {
            Command::MatMul { a, b, m, n, k } => fits <==> a@.len() != m * k || b@.len() != k * n
                || m * n <= usize::MAX,
            _ => fits,
        },
{
}

/// Sizes are accepted exactly if they agree, and else both are given.
pub proof fn sizes_are_checked<T>(
    a: &[T],
    b: &[T],
    m: usize,
    n: usize,
    k: usize,
    lengths: Result<(), String>,
    sizes: Result<(), String>,
)
    requires
        call_ensures(check_length::<T>, (a, b), lengths),
        call_ensures(check_matmul_dims::<T>, (a, b, m, n, k), sizes),
    ensures
        lengths is Ok <==> a@.len() == b@.len(),
        lengths is Err ==> lengths->Err_0@ == "length mismatch: "@ + decimal(a@.len()) + " vs "@
            + decimal(b@.len()),
        sizes is Ok <==> a@.len() == m * k && b@.len() == k * n,
        a@.len() != m * k ==> sizes->Err_0@ == "matmul: `a` has "@ + decimal(a@.len())
            + " elements, expected m*k = "@ + decimal((m * k) as nat),
        a@.len() == m * k && b@.len() != k * n ==> sizes->Err_0@ == "matmul: `b` has "@ + decimal(
            b@.len(),
        ) + " elements, expected k*n = "@ + decimal((k * n) as nat),
{
}

/// On the CPU a vector addition gives one sum per pair.
pub proof fn cpu_additions<T: Scalar>(
    backend: &mut CpuBackend,
    command: &Command<T>,
    a: Vec<T>,
    b: Vec<T>,
    result: Result<Vec<T>, String>,
)
    requires
        call_ensures(<CpuBackend as Backend<T>>::run, (backend, command), result),
        *command == (Command::VectorAdd { a, b }),
    ensures
        result is Ok <==> a@.len() == b@.len(),
        result is Ok ==> result->Ok_0@.len() == a@.len(),
        result is Ok ==> forall|i: int|
            0 <= i < a@.len() ==> #[trigger] result->Ok_0@[i] == a@[i].plus_spec(b@[i]),
        result is Err ==> result->Err_0@ == "length mismatch: "@ + decimal(a@.len()) + " vs "@
            + decimal(b@.len()),
{
    crate::backend::results_are_what_the_elements_say(*command, result);
}

/// On the CPU a sum is what summing the slice gives, and a dot product what summing
/// the products gives, in one element each.
pub proof fn cpu_sums_and_dot_products<T: Scalar>(
    backend: &mut CpuBackend,
    other: &mut CpuBackend,
    reduce: &Command<T>,
    dot: &Command<T>,
    a: Vec<T>,
    b: Vec<T>,
    terms: &[T],
    slice: &[T],
    totals: (T, T),
    results: (Result<Vec<T>, String>, Result<Vec<T>, String>),
)
    requires
        *reduce == (Command::Reduce { a }),
        *dot == (Command::DotProduct { a, b }),
        call_ensures(<CpuBackend as Backend<T>>::run, (backend, reduce), results.0),
        call_ensures(<CpuBackend as Backend<T>>::run, (other, dot), results.1),
        slice@ == a@,
        terms@.len() == a@.len(),
        forall|i: int| 0 <= i < a@.len() ==> #[trigger] terms@[i] == a@[i].times_spec(b@[i]),
        call_ensures(sum_of::<T>, (slice,), totals.0),
        call_ensures(sum_of::<T>, (terms,), totals.1),
    ensures
        results.0 is Ok && results.0->Ok_0@ == seq![totals.0],
        results.1 is Ok <==> a@.len() == b@.len(),
        results.1 is Ok ==> results.1->Ok_0@ == seq![totals.1],
        results.1 is Err ==> results.1->Err_0@ == "length mismatch: "@ + decimal(a@.len())
            + " vs "@ + decimal(b@.len()),
{
    crate::backend::results_are_what_the_elements_say(*reduce, results.0);
    crate::backend::results_are_what_the_elements_say(*dot, results.1);
    assert(terms@ =~= Seq::new(a@.len(), |i: int| a@[i].times_spec(b@[i])));
}

/// On the CPU an entry of a matrix product is what summing the products along its
/// row and its column gives.
pub proof fn cpu_matrix_products<T: Scalar>(
    backend: &mut CpuBackend,
    command: &Command<T>,
    a: Vec<T>,
    b: Vec<T>,
    m: usize,
    n: usize,
    k: usize,
    row: int,
    col: int,
    terms: &[T],
    total: T,
    result: Result<Vec<T>, String>,
)
    requires
        *command == (Command::MatMul { a, b, m, n, k }),
        call_ensures(<CpuBackend as Backend<T>>::run, (backend, command), result),
        a@.len() == m * k,
        b@.len() == k * n,
        0 <= row < m,
        0 <= col < n,
        terms@.len() == k,
        forall|j: int|
            0 <= j < k ==> #[trigger] terms@[j] == a@[row * k + j].times_spec(b@[j * n + col]),
        call_ensures(sum_of::<T>, (terms,), total),
    ensures
        result is Ok,
        result->Ok_0@.len() == m * n,
        result->Ok_0@[row * n + col] == total,
{
    crate::backend::results_are_what_the_elements_say(*command, result);
    assert(terms@ =~= Seq::new(
        k as nat,
        |j: int| a@[row * k + j].times_spec(b@[j * n + col]),
    ));
    let entry = result->Ok_0@[row * n + col];
    assert(entry == sum(terms@));
}

/// On the CPU a batch gives every command, at its position, what it gets when it is
/// run alone.
pub proof fn cpu_batches_are_single_runs<T: Scalar>(
    backend: &mut CpuBackend,
    other: &mut CpuBackend,
    commands: &[&Command<T>],
    i: int,
    command: &Command<T>,
    results: Vec<Result<Vec<T>, String>>,
    alone: Result<Vec<T>, String>,
)
    requires
        call_ensures(<CpuBackend as Backend<T>>::run_batch, (backend, commands), results),
        0 <= i < commands@.len(),
        *commands@[i] == *command,
        call_ensures(<CpuBackend as Backend<T>>::run, (other, command), alone),
    ensures
        results@.len() == commands@.len(),
        results@[i] is Ok <==> alone is Ok,
        alone is Ok ==> results@[i]->Ok_0@ == alone->Ok_0@,
        alone is Err ==> results@[i]->Err_0@ == alone->Err_0@,
{
    let all = crate::backend::commands_of(commands@);
    cpu_batches_answer_by_position(
        *old(backend),
        *command,
        all,
        *final(backend),
        outcome(alone),
        outcomes(results@),
    );
    assert(all[i] == *command);
    assert(outcomes(results@)[i] == outcome(results@[i]));
    assert(outcomes(results@)[i] == expected(all[i]));
}

/// A thread of a vector addition writes its own sum and nothing else.
pub proof fn a_thread_writes_its_own_sum<T: Scalar>(
    a: &[T],
    b: &[T],
    c: &mut Vec<T>,
    idx: usize,
    i: int,
)
    requires
        call_ensures(vector_add::<T>, (a, b, c, idx), ()),
        idx < a@.len() ==> idx < b@.len() && idx < old(c)@.len(),
        0 <= i < old(c)@.len(),
    ensures
        final(c)@.len() == old(c)@.len(),
        i == idx && idx < a@.len() ==> final(c)@[i] == a@[i].plus_spec(b@[i]),
        i != idx || idx >= a@.len() ==> final(c)@[i] == old(c)@[i],
{
}

/// A block of a summing kernel writes its own partial sum and nothing else: thread
/// `t` of a warp adds up eight elements a multiple of a warp apart, and the 32 results
/// are summed from the left. A dot product does the same with the products.
pub proof fn a_block_writes_its_own_partial_sum<T: Scalar>(
    a: &[T],
    b: &[T],
    p: &[T],
    sums: &mut Vec<T>,
    dots: &mut Vec<T>,
    block: u32,
    x: spec_fn(int) -> T,
)
    requires
        call_ensures(reduce_sum::<T>, (p, sums, block), ()),
        call_ensures(dot_product::<T>, (a, b, dots, block), ()),
        p@.len() == a@.len(),
        forall|i: int| 0 <= i < a@.len() ==> #[trigger] p@[i] == a@[i].times_spec(b@[i]),
        block < old(sums)@.len(),
        block < old(dots)@.len(),
        forall|t: int|
            #![trigger x(t)]
            x(t) == (if 0 <= block * 256 + t < p@.len() {
                p@[block * 256 + t]
            } else {
                T::zero_spec()
            }),
    ensures
        ({
            let total = sum(
                Seq::new(
                    32,
                    |t: int|
                        x(t).plus_spec(x(t + 128)).plus_spec(
                            x(t + 64).plus_spec(x(t + 192)),
                        ).plus_spec(
                            x(t + 32).plus_spec(x(t + 160)).plus_spec(
                                x(t + 96).plus_spec(x(t + 224)),
                            ),
                        ),
                ),
            );
            &&& final(sums)@ == old(sums)@.update(block as int, total)
            &&& final(dots)@ == old(dots)@.update(block as int, total)
        }),
{
    assert(products(a@, b@) =~= p@);
    crate::laws::a_block_sums_eight_elements_per_thread(p@, block as nat, x);
}

/// A block of a matrix multiplication writes the entries of its own 16 rows and 16
/// columns and nothing else: a row times a column, then products of zeros up to a
/// whole number of tiles.
pub proof fn a_block_writes_its_own_tile<T: Scalar>(
    a: &[T],
    b: &[T],
    c: &mut Vec<T>,
    m: usize,
    n: usize,
    k: usize,
    block_x: u32,
    block_y: u32,
    row: int,
    col: int,
)
    requires
        call_ensures(matmul::<T>, (a, b, c, m, n, k, block_x, block_y), ()),
        m * n <= old(c)@.len(),
        0 <= row < m,
        0 <= col < n,
    ensures
        final(c)@.len() == old(c)@.len(),
        k <= tiled_depth(k as nat) < k + 16,
        row / 16 == block_y && col / 16 == block_x ==> final(c)@[row * n + col] == sum(
            Seq::new(k as nat, |j: int| a@[row * k + j].times_spec(b@[j * n + col])) + Seq::new(
                (tiled_depth(k as nat) - k) as nat,
                |j: int| T::zero_spec().times_spec(T::zero_spec()),
            ),
        ),
        row / 16 != block_y || col / 16 != block_x ==> final(c)@[row * n + col] == old(c)@[row * n
            + col],
        forall|p: int| m * n <= p < old(c)@.len() ==> #[trigger] final(c)@[p] == old(c)@[p],
{
    a_block_writes_its_own_entries(
        old(c)@,
        a@,
        b@,
        m as nat,
        n as nat,
        k as nat,
        block_x as int,
        block_y as int,
        row,
        col,
    );
    a_tiled_entry_is_a_row_times_a_column(a@, b@, m as nat, n as nat, k as nat, row, col);
}

/// Grids are the smallest that hold everything, for lengths of up to 32 bits.
pub proof fn grids_hold_everything(
    len: usize,
    block_size: u32,
    additions: u32,
    partials: u32,
    edge: u32,
)
    requires
        len <= u32::MAX,
        block_size > 0,
        call_ensures(vector_add_grid, (len, block_size), additions),
        call_ensures(reduce_grid, (len,), partials),
        call_ensures(matmul_grid, (len,), edge),
    ensures
        len <= additions * block_size,
        len > 0 ==> (additions - 1) * block_size < len,
        len <= partials * 256,
        len > 0 ==> (partials - 1) * 256 < len,
        len <= edge * 16,
        len > 0 ==> (edge - 1) * 16 < len,
        len == 0 ==> additions == 0 && partials == 0 && edge == 0,
{
    grids_are_as_small_as_possible(len as nat, block_size as nat);
    grids_are_as_small_as_possible(len as nat, 256);
    grids_are_as_small_as_possible(len as nat, 16);
}

/// Lengths count in 32 bits: what lies beyond goes into no grid.
pub proof fn grids_count_in_32_bits(
    len: usize,
    longer: usize,
    block_size: u32,
    grids: (u32, u32, u32),
    longer_grids: (u32, u32, u32),
)
    requires
        longer == len + 0x1_0000_0000,
        block_size > 0,
        call_ensures(vector_add_grid, (len, block_size), grids.0),
        call_ensures(reduce_grid, (len,), grids.1),
        call_ensures(matmul_grid, (len,), grids.2),
        call_ensures(vector_add_grid, (longer, block_size), longer_grids.0),
        call_ensures(reduce_grid, (longer,), longer_grids.1),
        call_ensures(matmul_grid, (longer,), longer_grids.2),
    ensures
        grids == longer_grids,
{
    grids_are_as_small_as_possible(len as nat, block_size as nat);
}

/// A grid leaves one sum per thread that has a pair, one partial sum per block, and
/// one entry per row and column that it reaches.
pub proof fn grids_compute_what_their_threads_do<T: Scalar>(
    a: &[T],
    b: &[T],
    m: usize,
    n: usize,
    k: usize,
    grid: (u32, u32),
    block_size: u32,
    sums: Vec<T>,
    partials: Vec<T>,
    dots: Vec<T>,
    entries: Vec<T>,
    i: int,
    row: int,
    col: int,
)
    requires
        0 <= row < m,
        0 <= col < n,
        call_ensures(run_vector_add::<T>, (a, b, grid.0, block_size), sums),
        call_ensures(run_reduce_sum::<T>, (a, grid.0), partials),
        call_ensures(run_dot_product::<T>, (a, b, grid.0), dots),
        call_ensures(run_matmul::<T>, (a, b, m, n, k, grid.0, grid.1), entries),
    ensures
        sums@.len() == a@.len(),
        0 <= i < a@.len() && i < grid.0 * block_size && i <= u32::MAX ==> sums@[i]
            == a@[i].plus_spec(b@[i]),
        0 <= i < a@.len() && i >= grid.0 * block_size ==> sums@[i] == T::zero_spec(),
        partials@.len() == grid.0,
        0 <= i < grid.0 ==> partials@[i] == block_sum(a@, i),
        dots@.len() == grid.0,
        0 <= i < grid.0 ==> dots@[i] == block_sum(
            Seq::new(a@.len(), |j: int| a@[j].times_spec(b@[j])),
            i,
        ),
        entries@.len() == m * n,
        row >= grid.1 * 16 || col >= grid.0 * 16 ==> entries@[row * n + col] == T::zero_spec(),
        row < grid.1 * 16 && col < grid.0 * 16 ==> entries@[row * n + col] == sum(
            Seq::new(k as nat, |j: int| a@[row * k + j].times_spec(b@[j * n + col])) + Seq::new(
                (tiled_depth(k as nat) - k) as nat,
                |j: int| T::zero_spec().times_spec(T::zero_spec()),
            ),
        ),
{
    launches_fill_their_output(
        a@,
        b@,
        m as nat,
        n as nat,
        k as nat,
        (grid.0 as nat, grid.1 as nat),
        block_size as nat,
        i,
        row,
        col,
    );
    a_tiled_entry_is_a_row_times_a_column(a@, b@, m as nat, n as nat, k as nat, row, col);
    assert(products(a@, b@) =~= Seq::new(a@.len(), |j: int| a@[j].times_spec(b@[j])));
}

/// The device is told the kernel of a launch, the size of its output, the step that
/// allocates it and the threads to start.
pub proof fn launches_are_described<T: Scalar>(
    launch: &Launch<'_, T>,
    suggested: u32,
    len: usize,
    name: &'static str,
    stage: Stage,
    geometry: Geometry,
    grid_size: u32,
)
    requires
        suggested > 0,
        launch is VectorAdd ==> exists|size: usize|
            size == launch->VectorAdd_a@.len() && #[trigger] call_ensures(
                vector_add_grid,
                (size, suggested),
                grid_size,
            ),
        call_ensures(Launch::<'_, T>::out_len, (launch,), len),
        call_ensures(Launch::<'_, T>::kernel_name, (launch,), name),
        call_ensures(Launch::<'_, T>::alloc_stage, (launch,), stage),
        call_ensures(Launch::<'_, T>::geometry, (launch, suggested), geometry),
    ensures
        match *launch {
            Launch::VectorAdd { a, b } => {
                &&& len == a@.len()
                &&& name@ == "vector_add"@
                &&& stage == Stage::AllocOut
                &&& geometry.block == (suggested, 1u32)
                &&& geometry.grid == (grid_size, 1u32)
                &&& a@.len() <= u32::MAX ==> a@.len() <= geometry.grid.0 * suggested
                &&& 0 < a@.len() <= u32::MAX ==> (geometry.grid.0 - 1) * suggested < a@.len()
            },
            Launch::ReduceSum { a, grid_size } => {
                &&& len == grid_size
                &&& name@ == "reduce_sum"@
                &&& stage == Stage::AllocPartialSums
                &&& geometry.block == (256u32, 1u32)
                &&& geometry.grid == (grid_size, 1u32)
            },
            Launch::DotProduct { a, b, grid_size } => {
                &&& len == grid_size
                &&& name@ == "dot_product"@
                &&& stage == Stage::AllocPartialSums
                &&& geometry.block == (256u32, 1u32)
                &&& geometry.grid == (grid_size, 1u32)
            },
            Launch::MatMul { a, b, m, n, k, grid_x, grid_y } => {
                &&& len == m * n
                &&& name@ == "matmul"@
                &&& stage == Stage::AllocC
                &&& geometry.block == (16u32, 16u32)
                &&& geometry.grid == (grid_x, grid_y)
            },
        },
{
    launches_say_what_they_carry(*launch, suggested);
    if let Launch::VectorAdd { a, b } = *launch {
        grids_are_as_small_as_possible(a@.len(), suggested as nat);
        if a@.len() <= u32::MAX {
            let q = ceil_div(a@.len(), suggested as nat);
            assert(q <= a@.len()) by (nonlinear_arith)
                requires
                    a@.len() == 0 ==> q == 0,
                    a@.len() > 0 ==> (q - 1) * suggested < a@.len(),
                    suggested > 0,
            ;
        }
    }
}

/// Running a launch in software leaves one sum per pair, one partial sum per block,
/// or one entry per row and column.
pub proof fn software_launches_compute<T: Scalar>(
    launch: &Launch<'_, T>,
    block_size: u32,
    out: Vec<T>,
    i: int,
    row: int,
    col: int,
)
    requires
        block_size > 0,
        call_ensures(Launch::<'_, T>::execute, (launch, block_size), out),
    ensures
        match *launch {
            Launch::VectorAdd { a, b } => {
                &&& out@.len() == a@.len()
                &&& 0 <= i < a@.len() <= u32::MAX ==> out@[i] == a@[i].plus_spec(b@[i])
            },
            Launch::ReduceSum { a, grid_size } => {
                &&& out@.len() == grid_size
                &&& 0 <= i < grid_size ==> out@[i] == block_sum(a@, i)
            },
            Launch::DotProduct { a, b, grid_size } => {
                &&& out@.len() == grid_size
                &&& 0 <= i < grid_size ==> out@[i] == block_sum(
                    Seq::new(a@.len(), |j: int| a@[j].times_spec(b@[j])),
                    i,
                )
            },
            Launch::MatMul { a, b, m, n, k, grid_x, grid_y } => {
                &&& out@.len() == m * n
                &&& 0 <= row < m && 0 <= col < n && row < grid_y * 16 && col < grid_x * 16
                    ==> out@[row * n + col] == sum(
                    Seq::new(k as nat, |j: int| a@[row * k + j].times_spec(b@[j * n + col]))
                        + Seq::new(
                        (tiled_depth(k as nat) - k) as nat,
                        |j: int| T::zero_spec().times_spec(T::zero_spec()),
                    ),
                )
            },
        },
{
    launches_say_what_they_carry(*launch, block_size);
    match *launch {
        Launch::VectorAdd { a, b } => {
            grids_are_as_small_as_possible(a@.len(), block_size as nat);
        },
        Launch::MatMul { a, b, m, n, k, grid_x, grid_y } => {
            if 0 <= row < m && 0 <= col < n {
                launches_fill_their_output(
                    a@,
                    b@,
                    m as nat,
                    n as nat,
                    k as nat,
                    (grid_x as nat, grid_y as nat),
                    block_size as nat,
                    i,
                    row,
                    col,
                );
                a_tiled_entry_is_a_row_times_a_column(
                    a@,
                    b@,
                    m as nat,
                    n as nat,
                    k as nat,
                    row,
                    col,
                );
            }
        },
        _ => {},
    }
}

/// A failure is worded as its step, then the device's own words.
pub proof fn failures_are_worded(stage: &Stage, reason: &str, text: String)
    requires
        call_ensures(Stage::failure, (stage, reason), text),
    ensures
        text@ == (match *stage {
            Stage::Init => "cust::init"@,
            Stage::GetDevice { device } => "Device::get_device("@ + decimal(device as nat) + ")"@,
            Stage::NewContext => "Context::new"@,
            Stage::SetFlags => "Context::set_flags"@,
            Stage::LoadModule => "Module::from_ptx"@,
            Stage::NewStream => "Stream::new"@,
            Stage::UploadA => "upload a"@,
            Stage::UploadB => "upload b"@,
            Stage::AllocOut => "alloc out"@,
            Stage::AllocPartialSums => "alloc partial_sums"@,
            Stage::AllocC => "alloc c"@,
            Stage::GetFunction => "get_function"@,
            Stage::SuggestLaunch => "suggested_launch_configuration"@,
            Stage::KernelLaunch => "kernel launch"@,
            Stage::Synchronize => "stream.synchronize"@,
            Stage::CopyBack => "copy_to"@,
        }) + " failed: "@ + reason@,
{
}

/// A command is either settled as the CPU settles it, or launched with its own
/// operands and sizes; it is launched exactly if its sizes agree and there is
/// something to compute.
pub proof fn plans_launch_or_settle<'c, T: Scalar>(
    command: &'c Command<T>,
    step: Step<'c, T>,
    backend: &mut CpuBackend,
    on_cpu: Result<Vec<T>, String>,
)
    requires
        call_ensures(plan::<T>, (command,), step),
        call_ensures(<CpuBackend as Backend<T>>::run, (backend, command), on_cpu),
    ensures
        step is Launch <==> match *command {
            Command::VectorAdd { a, b } => a@.len() == b@.len() && a@.len() > 0,
            Command::Reduce { a } => a@.len() > 0,
            Command::DotProduct { a, b } => a@.len() == b@.len() && a@.len() > 0,
            Command::MatMul { a, b, m, n, k } => a@.len() == m * k && b@.len() == k * n && m > 0
                && n > 0,
        },
        match step {
            Step::Settled(Ok(values)) => on_cpu is Ok && on_cpu->Ok_0@ == values@,
            Step::Settled(Err(reason)) => on_cpu is Err && on_cpu->Err_0@ == reason@,
            Step::Launch(launch) => match *command {
                Command::VectorAdd { a, b } => {
                    &&& launch is VectorAdd
                    &&& launch->VectorAdd_a@ == a@
                    &&& launch->VectorAdd_b@ == b@
                },
                Command::Reduce { a } => {
                    &&& launch is ReduceSum
                    &&& launch->ReduceSum_a@ == a@
                    &&& a@.len() <= u32::MAX ==> launch->ReduceSum_grid_size * 256 >= a@.len()
                    &&& a@.len() <= u32::MAX ==> (launch->ReduceSum_grid_size - 1) * 256 < a@.len()
                },
                Command::DotProduct { a, b } => {
                    &&& launch is DotProduct
                    &&& launch->DotProduct_a@ == a@
                    &&& launch->DotProduct_b@ == b@
                    &&& a@.len() <= u32::MAX ==> launch->DotProduct_grid_size * 256 >= a@.len()
                    &&& a@.len() <= u32::MAX ==> (launch->DotProduct_grid_size - 1) * 256
                        < a@.len()
                },
                Command::MatMul { a, b, m, n, k } => {
                    &&& launch is MatMul
                    &&& launch->MatMul_a@ == a@
                    &&& launch->MatMul_b@ == b@
                    &&& launch->m == m
                    &&& launch->n == n
                    &&& launch->k == k
                    &&& n <= u32::MAX ==> launch->grid_x * 16 >= n && (launch->grid_x - 1) * 16 < n
                    &&& m <= u32::MAX ==> launch->grid_y * 16 >= m && (launch->grid_y - 1) * 16 < m
                },
            },
        },
{
    crate::laws::settled_commands_get_their_value(*command);
    match *command {
        Command::Reduce { a } => grids_are_as_small_as_possible(a@.len(), 256),
        Command::DotProduct { a, b } => grids_are_as_small_as_possible(a@.len(), 256),
        Command::MatMul { a, b, m, n, k } => {
            grids_are_as_small_as_possible(m as nat, 16);
            grids_are_as_small_as_possible(n as nat, 16);
        },
        _ => {},
    }
}

/// A reply is the result as it stands, in full; partial sums are summed, and a
/// failure is passed on.
pub proof fn replies_are_passed_on<T: Scalar>(
    command: &Command<T>,
    reply: Result<Vec<T>, String>,
    result: Result<Vec<T>, String>,
    slice: &[T],
    total: T,
)
    requires
        call_ensures(conclude::<T>, (command, reply), result),
        reply is Ok ==> slice@ == reply->Ok_0@,
        call_ensures(sum_of::<T>, (slice,), total),
    ensures
        reply is Err ==> result is Err && result->Err_0@ == reply->Err_0@,
        reply is Ok && (command is VectorAdd || command is MatMul) ==> result is Ok
            && result->Ok_0@ == reply->Ok_0@,
        reply is Ok && (command is Reduce || command is DotProduct) ==> result is Ok
            && result->Ok_0@ == seq![total],
{
}

/// A batch is coalesced exactly if it is not empty and all its commands are additions.
pub proof fn additions_alone_are_coalesced<T: Scalar>(
    commands: &[&Command<T>],
    result: bool,
)
    requires
        call_ensures(can_coalesce::<T>, (commands,), result),
    ensures
        result <==> commands@.len() > 0 && forall|i: int|
            0 <= i < commands@.len() ==> (#[trigger] commands@[i]) is VectorAdd,
{
    let all = crate::backend::commands_of(commands@);
    if result {
        assert forall|i: int| 0 <= i < commands@.len() implies (
        #[trigger] commands@[i]) is VectorAdd by {
            assert(all[i] is VectorAdd);
        }
    } else if commands@.len() > 0 {
        let i = choose|i: int| 0 <= i < all.len() && !((#[trigger] all[i]) is VectorAdd);
        assert(!(commands@[i] is VectorAdd));
    }
}

/// Laid end to end, launched and cut up again, every addition with operands that go
/// together gets one element per pair, from the place where its operands lie; one
/// whose lengths differ gets its own error; and a failed launch fails only those that
/// were part of it.
pub proof fn coalesced_additions_get_their_own_elements<'b, T: Scalar>(
    commands: &[&Command<T>],
    batch: &'b VectorAddBatch<T>,
    launch: Option<Launch<'b, T>>,
    reply: Option<Result<Vec<T>, String>>,
    results: Vec<Result<Vec<T>, String>>,
    i: int,
    a: Vec<T>,
    b: Vec<T>,
    start: int,
)
    requires
        call_ensures(VectorAddBatch::<T>::plan, (commands,), *batch),
        call_ensures(VectorAddBatch::<T>::launch, (batch,), launch),
        call_ensures(VectorAddBatch::<T>::conclude, (*batch, reply), results),
        forall|j: int| 0 <= j < commands@.len() ==> (#[trigger] commands@[j]) is VectorAdd,
        launch is Some ==> reply is Some,
        reply matches Some(Ok(out)) ==> launch is Some && out@.len()
            == launch->0->VectorAdd_a@.len(),
        0 <= i < commands@.len(),
        *commands@[i] == (Command::VectorAdd { a, b }),
        start == offset(crate::backend::commands_of(commands@), i),
    ensures
        results@.len() == commands@.len(),
        a@.len() != b@.len() ==> results@[i] is Err && results@[i]->Err_0@ == "length mismatch: "@
            + decimal(a@.len()) + " vs "@ + decimal(b@.len()),
        a@.len() == b@.len() == 0 ==> results@[i] is Ok && results@[i]->Ok_0@.len() == 0,
        a@.len() == b@.len() && a@.len() > 0 ==> {
            &&& launch is Some && launch->0 is VectorAdd
            &&& forall|j: int|
                0 <= j < a@.len() ==> #[trigger] launch->0->VectorAdd_a@[start + j] == a@[j]
            &&& forall|j: int|
                0 <= j < a@.len() ==> #[trigger] launch->0->VectorAdd_b@[start + j] == b@[j]
            &&& match reply->0 {
                Ok(out) => {
                    &&& results@[i] is Ok
                    &&& results@[i]->Ok_0@.len() == a@.len()
                    &&& forall|j: int|
                        0 <= j < a@.len() ==> #[trigger] results@[i]->Ok_0@[j] == out@[start + j]
                },
                Err(reason) => results@[i] is Err && results@[i]->Err_0@ == reason@,
            }
        },
{
    let all = crate::backend::commands_of(commands@);
    assert(all[i] == *commands@[i]);
    assert forall|j: int| 0 <= j < all.len() implies (#[trigger] all[j]) is VectorAdd by {
        assert(commands@[j] is VectorAdd);
    }
    assert(outcomes(results@).len() == results@.len());
    assert(outcomes(results@)[i] == outcome(results@[i]));
    crate::laws::settled_commands_get_their_value(all[i]);
    coalesced_replies_are_cut_in_full(all, flat_left(all), i, a, b);
    crate::coalesce::lemma_flat(all, i);
    crate::coalesce::lemma_flat_empty(all);
    if a@.len() == b@.len() && a@.len() > 0 {
        if let Some(Ok(out)) = reply {
            coalesced_replies_are_cut_in_full(all, out@, i, a, b);
        }
    } else {
        crate::laws::coalesced_commands_need_the_launch_or_not(
            all,
            crate::backend::answer(reply),
            Seq::empty(),
            i,
        );
        if a@.len() == b@.len() {
            assert(crate::scalar::sums(a@, b@).len() == 0);
        }
    }
}

/// On the software device a vector addition of at most `u32::MAX` pairs gives one sum
/// per pair, alone and at its position in a batch, and an addition of vectors of
/// different lengths its own error.
pub proof fn device_additions<T: Scalar>(
    backend: &mut GridBackend,
    other: &mut GridBackend,
    commands: &[&Command<T>],
    i: int,
    command: &Command<T>,
    a: Vec<T>,
    b: Vec<T>,
    alone: Result<Vec<T>, String>,
    results: Vec<Result<Vec<T>, String>>,
)
    requires
        call_ensures(<GridBackend as Backend<T>>::run, (backend, command), alone),
        call_ensures(<GridBackend as Backend<T>>::run_batch, (other, commands), results),
        old(backend).block_size() > 0,
        old(other).block_size() > 0,
        0 <= i < commands@.len(),
        *commands@[i] == *command,
        *command == (Command::VectorAdd { a, b }),
        a@.len() <= u32::MAX,
        coalesces(crate::backend::commands_of(commands@)) ==> flat_left(
            crate::backend::commands_of(commands@),
        ).len() <= u32::MAX,
    ensures
        results@.len() == commands@.len(),
        alone is Ok <==> a@.len() == b@.len(),
        results@[i] is Ok <==> a@.len() == b@.len(),
        a@.len() == b@.len() ==> alone->Ok_0@.len() == a@.len() && results@[i]->Ok_0@.len()
            == a@.len(),
        a@.len() == b@.len() ==> forall|j: int|
            0 <= j < a@.len() ==> #[trigger] alone->Ok_0@[j] == a@[j].plus_spec(b@[j]),
        a@.len() == b@.len() ==> forall|j: int|
            0 <= j < a@.len() ==> #[trigger] results@[i]->Ok_0@[j] == a@[j].plus_spec(b@[j]),
        a@.len() != b@.len() ==> alone->Err_0@ == "length mismatch: "@ + decimal(a@.len())
            + " vs "@ + decimal(b@.len()) && results@[i]->Err_0@ == alone->Err_0@,
{
    let all = crate::backend::commands_of(commands@);
    assert(all[i] == *command);
    batching_changes_nothing(*old(other), all, *final(other), outcomes(results@));
    assert(outcomes(results@).len() == results@.len());
    assert(outcomes(results@)[i] == outcome(results@[i]));
    crate::simulate::vector_add_matches_cpu(*command, old(backend).block_size());
    crate::simulate::vector_add_matches_cpu(*command, old(other).block_size());
    crate::backend::results_are_what_the_elements_say(*command, alone);
    crate::backend::results_are_what_the_elements_say(*command, results@[i]);
}

/// On the software device a batch gives every command, at its position, what it gets
/// when it is run alone.
pub proof fn device_batches_are_single_runs<T: Scalar>(
    backend: &mut GridBackend,
    other: &mut GridBackend,
    commands: &[&Command<T>],
    i: int,
    command: &Command<T>,
    results: Vec<Result<Vec<T>, String>>,
    alone: Result<Vec<T>, String>,
)
    requires
        call_ensures(<GridBackend as Backend<T>>::run_batch, (backend, commands), results),
        call_ensures(<GridBackend as Backend<T>>::run, (other, command), alone),
        old(backend).block_size() == old(other).block_size() > 0,
        0 <= i < commands@.len(),
        *commands@[i] == *command,
        coalesces(crate::backend::commands_of(commands@)) ==> flat_left(
            crate::backend::commands_of(commands@),
        ).len() <= u32::MAX,
    ensures
        results@.len() == commands@.len(),
        results@[i] is Ok <==> alone is Ok,
        alone is Ok ==> results@[i]->Ok_0@ == alone->Ok_0@,
        alone is Err ==> results@[i]->Err_0@ == alone->Err_0@,
        final(backend).block_size() == old(backend).block_size(),
        final(other).block_size() == old(other).block_size(),
{
    let all = crate::backend::commands_of(commands@);
    assert(all[i] == *command);
    batching_changes_nothing(*old(backend), all, *final(backend), outcomes(results@));
    crate::laws::the_software_device_is_faithful(
        *old(backend),
        *command,
        *final(backend),
        outcome(alone),
        all,
        outcomes(results@),
    );
    assert(outcomes(results@).len() == results@.len());
    assert(outcomes(results@)[i] == outcome(results@[i]));
}

/// On the software device a sum, and a dot product, adds up the partial sums of the
/// fewest blocks of 256 that hold the elements.
pub proof fn device_sums_and_dot_products<T: Scalar>(
    backend: &mut GridBackend,
    other: &mut GridBackend,
    reduce: &Command<T>,
    dot: &Command<T>,
    a: Vec<T>,
    b: Vec<T>,
    blocks: nat,
    results: (Result<Vec<T>, String>, Result<Vec<T>, String>),
)
    requires
        *reduce == (Command::Reduce { a }),
        *dot == (Command::DotProduct { a, b }),
        call_ensures(<GridBackend as Backend<T>>::run, (backend, reduce), results.0),
        call_ensures(<GridBackend as Backend<T>>::run, (other, dot), results.1),
        0 < a@.len() == b@.len() <= u32::MAX,
        (blocks - 1) * 256 < a@.len() <= blocks * 256,
    ensures
        results.0 is Ok && results.0->Ok_0@ == seq![
            sum(Seq::new(blocks, |g: int| block_sum(a@, g))),
        ],
        results.1 is Ok && results.1->Ok_0@ == seq![
            sum(
                Seq::new(
                    blocks,
                    |g: int| block_sum(Seq::new(a@.len(), |i: int| a@[i].times_spec(b@[i])), g),
                ),
            ),
        ],
{
    launched_sums_add_up_their_blocks(a, b, blocks, old(backend).block_size());
    launched_sums_add_up_their_blocks(a, b, blocks, old(other).block_size());
}

/// On the software device an entry of a matrix product is its row times its column,
/// then products of zeros up to a whole number of tiles.
pub proof fn device_matrix_products<T: Scalar>(
    backend: &mut GridBackend,
    command: &Command<T>,
    a: Vec<T>,
    b: Vec<T>,
    m: usize,
    n: usize,
    k: usize,
    row: int,
    col: int,
    result: Result<Vec<T>, String>,
)
    requires
        *command == (Command::MatMul { a, b, m, n, k }),
        call_ensures(<GridBackend as Backend<T>>::run, (backend, command), result),
        a@.len() == m * k,
        b@.len() == k * n,
        0 <= row < m <= u32::MAX,
        0 <= col < n <= u32::MAX,
    ensures
        result is Ok,
        result->Ok_0@.len() == m * n,
        k <= tiled_depth(k as nat) < k + 16,
        result->Ok_0@[row * n + col] == sum(
            Seq::new(k as nat, |j: int| a@[row * k + j].times_spec(b@[j * n + col])) + Seq::new(
                (tiled_depth(k as nat) - k) as nat,
                |j: int| T::zero_spec().times_spec(T::zero_spec()),
            ),
        ),
{
    launched_entries_are_rows_times_columns(
        a,
        b,
        m,
        n,
        k,
        old(backend).block_size(),
        row,
        col,
    );
}

/// The software device refuses what the CPU refuses, in the same words, and gives
/// results of the same length.
pub proof fn devices_refuse_what_the_cpu_refuses<T: Scalar>(
    backend: &mut GridBackend,
    cpu: &mut CpuBackend,
    command: &Command<T>,
    result: Result<Vec<T>, String>,
    on_cpu: Result<Vec<T>, String>,
)
    requires
        call_ensures(<GridBackend as Backend<T>>::run, (backend, command), result),
        call_ensures(<CpuBackend as Backend<T>>::run, (cpu, command), on_cpu),
    ensures
        result is Err <==> on_cpu is Err,
        result is Err ==> result->Err_0@ == on_cpu->Err_0@,
        result is Ok ==> result->Ok_0@.len() == on_cpu->Ok_0@.len(),
        final(backend).block_size() == old(backend).block_size(),
{
    crate::laws::settled_commands_get_their_value(*command);
    crate::laws::the_software_device_is_faithful(
        *old(backend),
        *command,
        *final(backend),
        outcome(result),
        Seq::empty(),
        Seq::empty(),
    );
}

/// A batch on its way through the CUDA backend keeps its commands and records its
/// replies, and is done when every command has its result.
pub proof fn batches_keep_their_commands_and_replies<'c, T: Scalar>(
    commands: &'c [&'c Command<T>],
    started: CudaBatch<'c, T>,
    batch: &mut CudaBatch<'c, T>,
    reply: Option<Result<Vec<T>, String>>,
    i: int,
)
    requires
        call_ensures(CudaBatch::<'c, T>::start, (commands,), started),
        call_ensures(CudaBatch::<'c, T>::resume, (batch, reply), ()),
    ensures
        started.commands().len() == commands@.len(),
        0 <= i < commands@.len() ==> started.commands()[i] == *commands@[i],
        started.replies().len() == 0,
        final(batch).commands() == old(batch).commands(),
        final(batch).replies().len() == old(batch).replies().len() + 1,
        final(batch).replies().drop_last() == old(batch).replies(),
        match reply {
            None => final(batch).replies().last() is None,
            Some(Ok(values)) => final(batch).replies().last() == Some(
                Ok::<Seq<T>, Seq<char>>(values@),
            ),
            Some(Err(reason)) => final(batch).replies().last() == Some(
                Err::<Seq<T>, Seq<char>>(reason@),
            ),
        },
{
    assert(final(batch).replies().drop_last() =~= old(batch).replies());
}

/// A batch that is not one of additions alone waits, command by command, for the
/// launch that the command at its turn plans.
pub proof fn mixed_batches_wait_for_one_command_at_a_time<'b, 'c, T: Scalar>(
    batch: &'b CudaBatch<'c, T>,
    launch: Option<Launch<'b, T>>,
    command: &'c Command<T>,
    step: Step<'c, T>,
    other: int,
)
    requires
        call_ensures(CudaBatch::<'c, T>::pending, (batch,), launch),
        call_ensures(plan::<T>, (command,), step),
        0 <= other < batch.commands().len(),
        !(batch.commands()[other] is VectorAdd),
        batch.replies().len() < batch.commands().len(),
        *command == batch.commands()[batch.replies().len() as int],
    ensures
        launch is Some <==> step is Launch,
        launch is Some ==> match (launch->0, step->Launch_0) {
            (Launch::VectorAdd { a, b }, Launch::VectorAdd { a: x, b: y }) => a@ == x@ && b@ == y@,
            (Launch::ReduceSum { a, grid_size }, Launch::ReduceSum { a: x, grid_size: g }) => a@
                == x@ && grid_size == g,
            (
                Launch::DotProduct { a, b, grid_size },
                Launch::DotProduct { a: x, b: y, grid_size: g },
            ) => a@ == x@ && b@ == y@ && grid_size == g,
            (
                Launch::MatMul { a, b, m, n, k, grid_x, grid_y },
                Launch::MatMul { a: x, b: y, m: m2, n: n2, k: k2, grid_x: gx, grid_y: gy },
            ) => a@ == x@ && b@ == y@ && m == m2 && n == n2 && k == k2 && grid_x == gx && grid_y
                == gy,
            _ => false,
        },
{
    assert(!coalesces(batch.commands())) by {
        if coalesces(batch.commands()) {
            assert(batch.commands()[other] is VectorAdd);
        }
    }
}

/// A batch of additions alone waits once, for a launch of the flat buffers, which hold
/// the operands of every addition whose lengths agree.
pub proof fn additions_wait_once<'b, 'c, T: Scalar>(
    batch: &'b CudaBatch<'c, T>,
    launch: Option<Launch<'b, T>>,
    i: int,
    a: Vec<T>,
    b: Vec<T>,
    start: int,
)
    requires
        call_ensures(CudaBatch::<'c, T>::pending, (batch,), launch),
        forall|j: int|
            0 <= j < batch.commands().len() ==> (#[trigger] batch.commands()[j]) is VectorAdd,
        0 <= i < batch.commands().len(),
        batch.commands()[i] == (Command::VectorAdd { a, b }),
        a@.len() == b@.len() && a@.len() > 0,
        start == offset(batch.commands(), i),
    ensures
        launch is Some <==> batch.replies().len() == 0,
        launch is Some ==> {
            &&& launch->0 is VectorAdd
            &&& forall|j: int|
                0 <= j < a@.len() ==> #[trigger] launch->0->VectorAdd_a@[start + j] == a@[j]
            &&& forall|j: int|
                0 <= j < a@.len() ==> #[trigger] launch->0->VectorAdd_b@[start + j] == b@[j]
        },
{
    let all = batch.commands();
    assert(coalesces(all));
    coalesced_replies_are_cut_in_full(all, flat_left(all), i, a, b);
    crate::coalesce::lemma_flat(all, i);
    crate::laws::settled_commands_get_their_value(all[i]);
}

/// The results of a batch that is not one of additions alone: a command that was
/// settled has what the CPU gives, every other one the reply to its own launch.
pub proof fn mixed_batches_give_out_their_replies<'c, T: Scalar>(
    batch: CudaBatch<'c, T>,
    results: Vec<Result<Vec<T>, String>>,
    i: int,
    other: int,
    cpu: &mut CpuBackend,
    command: &Command<T>,
    on_cpu: Result<Vec<T>, String>,
    step: Step<'_, T>,
    reply: Result<Vec<T>, String>,
    concluded: Result<Vec<T>, String>,
)
    requires
        call_ensures(CudaBatch::<'c, T>::finish, (batch,), results),
        call_ensures(plan::<T>, (command,), step),
        call_ensures(<CpuBackend as Backend<T>>::run, (cpu, command), on_cpu),
        call_ensures(conclude::<T>, (command, reply), concluded),
        0 <= other < batch.commands().len(),
        !(batch.commands()[other] is VectorAdd),
        0 <= i < batch.commands().len(),
        batch.commands()[i] == *command,
        batch.replies().len() == batch.commands().len(),
        step is Launch ==> batch.replies()[i] == Some(outcome(reply)),
    ensures
        results@.len() == batch.commands().len(),
        step is Settled ==> {
            &&& results@[i] is Ok <==> on_cpu is Ok
            &&& on_cpu is Ok ==> results@[i]->Ok_0@ == on_cpu->Ok_0@
            &&& on_cpu is Err ==> results@[i]->Err_0@ == on_cpu->Err_0@
        },
        step is Launch ==> {
            &&& results@[i] is Ok <==> concluded is Ok
            &&& concluded is Ok ==> results@[i]->Ok_0@ == concluded->Ok_0@
            &&& concluded is Err ==> results@[i]->Err_0@ == concluded->Err_0@
        },
{
    assert(!coalesces(batch.commands())) by {
        if coalesces(batch.commands()) {
            assert(batch.commands()[other] is VectorAdd);
        }
    }
    crate::laws::settled_commands_get_their_value(*command);
    assert(outcomes(results@).len() == results@.len());
    assert(outcomes(results@)[i] == outcome(results@[i]));
    assert(outcomes(results@)[i] == cuda_outcome(*command, batch.replies()[i]));
}

/// The results of a batch of additions alone: one whose lengths agree has as many
/// elements of the reply as it has pairs, from where its operands lie in the flat
/// buffers, or the failure of the launch; any other has its own error.
pub proof fn additions_give_out_their_part_of_the_reply<'c, T: Scalar>(
    batch: CudaBatch<'c, T>,
    results: Vec<Result<Vec<T>, String>>,
    reply: Result<Vec<T>, String>,
    i: int,
    a: Vec<T>,
    b: Vec<T>,
    start: int,
)
    requires
        call_ensures(CudaBatch::<'c, T>::finish, (batch,), results),
        forall|j: int|
            0 <= j < batch.commands().len() ==> (#[trigger] batch.commands()[j]) is VectorAdd,
        0 <= i < batch.commands().len(),
        batch.commands()[i] == (Command::VectorAdd { a, b }),
        batch.replies().len() > 0,
        a@.len() == b@.len() && a@.len() > 0 ==> batch.replies()[0] == Some(outcome(reply)),
        reply is Ok ==> reply->Ok_0@.len() == flat_left(batch.commands()).len(),
        start == offset(batch.commands(), i),
    ensures
        results@.len() == batch.commands().len(),
        a@.len() != b@.len() ==> results@[i] is Err && results@[i]->Err_0@ == "length mismatch: "@
            + decimal(a@.len()) + " vs "@ + decimal(b@.len()),
        a@.len() == b@.len() == 0 ==> results@[i] is Ok && results@[i]->Ok_0@.len() == 0,
        a@.len() == b@.len() && a@.len() > 0 && reply is Ok ==> {
            &&& results@[i] is Ok
            &&& results@[i]->Ok_0@.len() == a@.len()
            &&& forall|j: int|
                0 <= j < a@.len() ==> #[trigger] results@[i]->Ok_0@[j] == reply->Ok_0@[start + j]
        },
        a@.len() == b@.len() && a@.len() > 0 && reply is Err ==> results@[i] is Err
            && results@[i]->Err_0@ == reply->Err_0@,
{
    let all = batch.commands();
    assert(coalesces(all));
    assert(outcomes(results@).len() == results@.len());
    assert(outcomes(results@)[i] == outcome(results@[i]));
    crate::laws::settled_commands_get_their_value(all[i]);
    crate::laws::coalesced_commands_need_the_launch_or_not(all, batch.replies()[0], Seq::empty(), i);
    if a@.len() == b@.len() && a@.len() > 0 {
        match reply {
            Ok(out) => coalesced_replies_are_cut_in_full(all, out@, i, a, b),
            Err(reason) => crate::laws::coalesced_commands_need_the_launch_or_not(
                all,
                None,
                reason@,
                i,
            ),
        }
    } else if a@.len() == b@.len() {
        assert(crate::scalar::sums(a@, b@).len() == 0);
    }
}

/// The CUDA backend waits for the launches that its commands need and gives out one
/// result per command: a finished batch of one holds the reply as it stands.
pub proof fn a_finished_batch_of_one_holds_its_reply<'c, T: Scalar>(
    batch: CudaBatch<'c, T>,
    command: Command<T>,
    reply: Result<Vec<T>, String>,
    results: Vec<Result<Vec<T>, String>>,
)
    requires
        call_ensures(CudaBatch::<'c, T>::finish, (batch,), results),
        batch.commands() == seq![command],
        batch.replies() == seq![Some(outcome(reply))],
        command is MatMul || command is Reduce || command is DotProduct,
        crate::cuda::settled(command) is None,
    ensures
        results@.len() == 1,
        reply is Err ==> results@[0] is Err && results@[0]->Err_0@ == reply->Err_0@,
        reply is Ok && command is MatMul ==> results@[0] is Ok && results@[0]->Ok_0@
            == reply->Ok_0@,
        reply is Ok && !(command is MatMul) ==> results@[0] is Ok && results@[0]->Ok_0@ == seq![
            sum(reply->Ok_0@),
        ],
{
    assert(outcomes(results@).len() == results@.len());
    assert(outcomes(results@)[0] == outcome(results@[0]));
    assert(!coalesces(seq![command])) by {
        if coalesces(seq![command]) {
            assert(seq![command][0] is VectorAdd);
        }
    }
    assert(outcomes(results@)[0] == cuda_outcome(command, Some(outcome(reply))));
}

/// A polled job goes to the end of the batch, and polling goes on while there was one
/// and the batch is short of the cap.
pub proof fn a_polled_job_joins_the_batch<J>(
    batch: &mut Vec<J>,
    polled: Option<J>,
    cap: usize,
    more: bool,
)
    requires
        call_ensures(take_polled::<J>, (batch, polled, cap), more),
    ensures
        polled is Some ==> final(batch)@ == old(batch)@.push(polled->0),
        polled is None ==> final(batch)@ == old(batch)@,
        more <==> polled is Some && old(batch)@.len() + 1 < cap,
{
}

/// What a drained batch and the polls behind it have to do with each other.
proof fn lemma_polled_out<J>(first: J, polls: Seq<Option<J>>, cap: nat)
    requires
        crate::worker::polled_out(polls, cap),
    ensures
        ({
            let batch = crate::worker::received(first, polls);
            &&& batch.len() >= 1
            &&& batch.len() == 1 || batch.len() <= cap
            &&& batch[0] == first
            &&& forall|i: int|
                1 <= i < batch.len() ==> polls[i - 1] is Some && #[trigger] batch[i] == polls[i
                    - 1]->0
            &&& polls.len() == (if batch.len() < cap {
                batch.len() as int
            } else {
                batch.len() - 1
            })
            &&& batch.len() < cap ==> polls.last() is None
        }),
{
    let batch = crate::worker::received(first, polls);
    if polls.len() > 0 && polls.last() is None {
        let less = polls.drop_last();
        assert forall|i: int| 0 <= i < less.len() implies (#[trigger] less[i]) is Some by {
            assert(polls[i] is Some);
        }
        crate::worker::lemma_given(less);
        assert forall|i: int| 1 <= i < batch.len() implies polls[i - 1] is Some && #[trigger] batch[i]
            == polls[i - 1]->0 by {
            assert(crate::worker::given(less)[i - 1] == less[i - 1]->0);
            assert(polls[i - 1] is Some);
        }
    } else {
        assert forall|i: int| 0 <= i < polls.len() implies (#[trigger] polls[i]) is Some by {
            assert(i < polls.len() - 1 || polls[i] == polls.last());
        }
        crate::worker::lemma_given(polls);
        assert forall|i: int| 1 <= i < batch.len() implies polls[i - 1] is Some && #[trigger] batch[i]
            == polls[i - 1]->0 by {
            assert(crate::worker::given(polls)[i - 1] == polls[i - 1]->0);
        }
    }
}

/// Whatever polling gives, a drained batch is the first job and then every job that a
/// poll gave, in order. Polling stops at the cap or where a poll gives nothing.
pub proof fn draining_keeps_what_polling_gave<J>(
    queue: &mut JobQueue<J>,
    first: J,
    cap: usize,
    batch: Vec<J>,
    polls: Seq<Option<J>>,
)
    requires
        call_ensures(drain_batch::<J>, (queue, first, cap), batch),
        final(queue).polls() == old(queue).polls() + polls,
    ensures
        final(queue).channel() == old(queue).channel(),
        batch@.len() == 1 || 1 < batch@.len() <= cap,
        batch@[0] == first,
        forall|i: int|
            1 <= i < batch@.len() ==> polls[i - 1] == Some(#[trigger] batch@[i]),
        polls.len() == (if batch@.len() < cap {
            batch@.len() as int
        } else {
            batch@.len() - 1
        }),
        batch@.len() < cap ==> polls.last() is None,
{
    assert(polls_since(*final(queue), *old(queue)) =~= polls);
    lemma_polled_out(first, polls, cap as nat);
    let jobs = crate::worker::received(first, polls);
    assert(batch@ == jobs);
    assert forall|i: int| 1 <= i < batch@.len() implies polls[i - 1] == Some(
        #[trigger] batch@[i],
    ) by {
        assert(jobs[i] == polls[i - 1]->0);
    }
}

/// Draining a queue that hands its jobs out in order gives the first job and the
/// front of the queue, as much as the cap allows, and takes no more off the queue
/// than that.
pub proof fn draining_gives_the_front_of_the_queue<J>(
    queue: &mut JobQueue<J>,
    first: J,
    cap: usize,
    batch: Vec<J>,
    queued: Seq<J>,
    seen: int,
)
    requires
        call_ensures(drain_batch::<J>, (queue, first, cap), batch),
        seen == old(queue).polls().len(),
        forall|i: int|
            seen <= i < final(queue).polls().len() ==> #[trigger] final(queue).polls()[i] == (
            if i - seen < queued.len() {
                Some(queued[i - seen])
            } else {
                None
            }),
    ensures
        final(queue).channel() == old(queue).channel(),
        final(queue).polls().take(seen) == old(queue).polls(),
        batch@.len() == (if cap <= 1 {
            1
        } else if cap <= queued.len() {
            cap as nat
        } else {
            queued.len() + 1
        }),
        batch@[0] == first,
        forall|i: int| 1 <= i < batch@.len() ==> #[trigger] batch@[i] == queued[i - 1],
        final(queue).polls().len() == seen + (if batch@.len() < cap {
            batch@.len() as int
        } else {
            batch@.len() - 1
        }),
{
    let polls = polls_since(*final(queue), *old(queue));
    assert forall|i: int| 0 <= i < polls.len() implies #[trigger] polls[i] == (if i
        < queued.len() {
        Some(queued[i])
    } else {
        None
    }) by {
        assert(polls[i] == final(queue).polls()[seen + i]);
    }
    draining_stops_at_the_cap_or_at_nothing(first, queued, polls, cap as nat, batch@);
    assert(final(queue).polls().take(seen) =~= old(queue).polls());
}

/// Jobs and results are paired by position: every delivery has the number and the
/// process of its job and the result at its place.
pub proof fn results_go_to_their_jobs<T, P>(
    batch: Vec<Job<T, P>>,
    results: Vec<Result<Vec<T>, String>>,
    deliveries: Vec<Delivery<T, P>>,
    i: int,
)
    requires
        call_ensures(pair_up::<T, P>, (batch, results), deliveries),
    ensures
        deliveries@.len() <= batch@.len(),
        deliveries@.len() <= results@.len(),
        deliveries@.len() == batch@.len() || deliveries@.len() == results@.len(),
        0 <= i < deliveries@.len() ==> {
            &&& deliveries@[i].result == results@[i]
            &&& deliveries@[i].id == batch@[i].id
            &&& deliveries@[i].pid == batch@[i].pid
        },
{
}

/// A batch may be run exactly if it has no matrix product, with matrices of the right
/// sizes, that has more entries than a machine number counts.
pub proof fn batches_without_huge_products_may_run<T: Scalar, P>(
    batch: &Vec<Job<T, P>>,
    result: bool,
)
    requires
        call_ensures(batch_fits::<T, P>, (batch,), result),
    ensures
        result <==> forall|j: int|
            0 <= j < batch@.len() ==> match (#[trigger] batch@[j]).command {
                Command::MatMul { a, b, m, n, k } => a@.len() != m * k || b@.len() != k * n || m * n
                    <= usize::MAX,
                _ => true,
            },
{
    if result {
        assert forall|j: int| 0 <= j < batch@.len() implies match (#[trigger] batch@[j]).command {
            Command::MatMul { a, b, m, n, k } => a@.len() != m * k || b@.len() != k * n || m * n
                <= usize::MAX,
            _ => true,
        } by {
            assert(batch@[j].command.fits());
        }
    } else {
        let j = choose|j: int| 0 <= j < batch@.len() && !(#[trigger] batch@[j]).command.fits();
        assert(!match batch@[j].command {
            Command::MatMul { a, b, m, n, k } => a@.len() != m * k || b@.len() != k * n || m * n
                <= usize::MAX,
            _ => true,
        });
    }
}

/// Whatever the backend, a worker runs the very commands of its jobs, as one batch and
/// in their order, and every job gets the result at its position under its own number.
pub proof fn workers_run_the_commands_of_their_jobs<T: Scalar, P, B: Backend<T>>(
    backend: &mut B,
    batch: Vec<Job<T, P>>,
    deliveries: Vec<Delivery<T, P>>,
)
    requires
        call_ensures(run_jobs::<T, P, B>, (backend, batch), deliveries),
    ensures
        deliveries@.len() == batch@.len(),
        forall|i: int|
            0 <= i < batch@.len() ==> (#[trigger] deliveries@[i]).id == batch@[i].id
                && deliveries@[i].pid == batch@[i].pid,
        B::ran_batch(
            *old(backend),
            Seq::new(batch@.len(), |i: int| batch@[i].command),
            *final(backend),
            Seq::new(
                batch@.len(),
                |i: int|
                    match deliveries@[i].result {
                        Ok(values) => Ok::<Seq<T>, Seq<char>>(values@),
                        Err(reason) => Err::<Seq<T>, Seq<char>>(reason@),
                    },
            ),
        ),
{
    crate::laws::jobs_run_their_commands_and_get_their_results(
        *old(backend),
        batch@,
        *final(backend),
        deliveries@,
    );
}

/// A worker on the CPU answers every job with what running its command alone gives.
pub proof fn a_cpu_worker_runs_every_command<T: Scalar, P>(
    backend: &mut CpuBackend,
    other: &mut CpuBackend,
    batch: Vec<Job<T, P>>,
    deliveries: Vec<Delivery<T, P>>,
    i: int,
    command: &Command<T>,
    alone: Result<Vec<T>, String>,
)
    requires
        call_ensures(run_jobs::<T, P, CpuBackend>, (backend, batch), deliveries),
        0 <= i < batch@.len(),
        *command == batch@[i].command,
        call_ensures(<CpuBackend as Backend<T>>::run, (other, command), alone),
    ensures
        deliveries@.len() == batch@.len(),
        deliveries@[i].id == batch@[i].id,
        deliveries@[i].pid == batch@[i].pid,
        deliveries@[i].result is Ok <==> alone is Ok,
        alone is Ok ==> deliveries@[i].result->Ok_0@ == alone->Ok_0@,
        alone is Err ==> deliveries@[i].result->Err_0@ == alone->Err_0@,
{
    a_cpu_worker_answers_every_job(*old(backend), batch@, *final(backend), deliveries@, i);
}

/// A turn of a worker on the CPU takes the front of a queue that hands its jobs out in
/// order, at most 256 jobs with the one it received, and answers each with what
/// running its command alone gives. It runs nothing exactly if a matrix product among
/// them has more entries than a machine number counts.
pub proof fn a_cpu_turn_answers_what_was_queued<T: Scalar, P>(
    backend: &mut CpuBackend,
    other: &mut CpuBackend,
    queue: &mut JobQueue<Job<T, P>>,
    first: Job<T, P>,
    queued: Seq<Job<T, P>>,
    served: Option<Vec<Delivery<T, P>>>,
    i: int,
    command: &Command<T>,
    alone: Result<Vec<T>, String>,
)
    requires
        call_ensures(serve::<T, P, CpuBackend>, (backend, queue, first), served),
        forall|j: int|
            old(queue).polls().len() <= j < final(queue).polls().len() ==> #[trigger] final(queue).polls()[j] == (if j - old(queue).polls().len() < queued.len() {
                Some(queued[j - old(queue).polls().len()])
            } else {
                None
            }),
        0 <= i <= queued.len(),
        i < 256,
        *command == (if i == 0 {
            first.command
        } else {
            queued[i - 1].command
        }),
        call_ensures(<CpuBackend as Backend<T>>::run, (other, command), alone),
    ensures
        served is None ==> match first.command {
            Command::MatMul { a, b, m, n, k } => a@.len() == m * k && b@.len() == k * n && m * n
                > usize::MAX,
            _ => false,
        } || exists|j: int|
            0 <= j < queued.len() && j < 255 && match (#[trigger] queued[j]).command {
                Command::MatMul { a, b, m, n, k } => a@.len() == m * k && b@.len() == k * n && m * n
                    > usize::MAX,
                _ => false,
            },
        match *command {
            Command::MatMul { a, b, m, n, k } => a@.len() == m * k && b@.len() == k * n && m * n
                > usize::MAX ==> served is None,
            _ => true,
        },
        served is Some ==> {
            let job = if i == 0 {
                first
            } else {
                queued[i - 1]
            };
            &&& served->0@.len() == (if queued.len() < 256 {
                queued.len() + 1
            } else {
                256
            })
            &&& served->0@[i].id == job.id
            &&& served->0@[i].pid == job.pid
            &&& served->0@[i].result is Ok <==> alone is Ok
            &&& alone is Ok ==> served->0@[i].result->Ok_0@ == alone->Ok_0@
            &&& alone is Err ==> served->0@[i].result->Err_0@ == alone->Err_0@
        },
{
    let seen = old(queue).polls().len() as int;
    let polls = polls_since(*final(queue), *old(queue));
    assert forall|j: int| 0 <= j < polls.len() implies #[trigger] polls[j] == (if j
        < queued.len() {
        Some(queued[j])
    } else {
        None
    }) by {
        assert(polls[j] == final(queue).polls()[seen + j]);
    }
    let batch = crate::worker::received(first, polls);
    draining_stops_at_the_cap_or_at_nothing(first, queued, polls, 256, batch);
    if served is Some {
        a_cpu_worker_answers_every_job(
            *old(backend),
            batch,
            *final(backend),
            served->0@,
            i,
        );
        assert(batch[i].command.fits());
    } else {
        let j = choose|j: int| 0 <= j < batch.len() && !(#[trigger] batch[j]).command.fits();
        if j > 0 {
            assert(batch[j] == queued[j - 1]);
        }
    }
}

/// Whatever polling gives, and whatever the backend, a turn runs the first job and
/// every polled one, as one batch and in their order, and answers each of them; or
/// it leaves the backend alone.
pub proof fn a_turn_answers_what_polling_gave<T: Scalar, P, B: Backend<T>>(
    backend: &mut B,
    queue: &mut JobQueue<Job<T, P>>,
    first: Job<T, P>,
    result: Option<Vec<Delivery<T, P>>>,
    polls: Seq<Option<Job<T, P>>>,
)
    requires
        call_ensures(serve::<T, P, B>, (backend, queue, first), result),
        final(queue).polls() == old(queue).polls() + polls,
    ensures
        final(queue).channel() == old(queue).channel(),
        result is None ==> *final(backend) == *old(backend),
        result is Some ==> {
            let deliveries = result->0@;
            &&& 1 <= deliveries.len() <= 256
            &&& polls.len() == (if deliveries.len() < 256 {
                deliveries.len() as int
            } else {
                255
            })
            &&& deliveries.len() < 256 ==> polls.last() is None
            &&& deliveries[0].id == first.id && deliveries[0].pid == first.pid
            &&& forall|i: int|
                1 <= i < deliveries.len() ==> polls[i - 1] is Some && (
                #[trigger] deliveries[i]).id == polls[i - 1]->0.id && deliveries[i].pid == polls[i
                    - 1]->0.pid
            &&& B::ran_batch(
                *old(backend),
                Seq::new(
                    deliveries.len(),
                    |i: int|
                        if i == 0 {
                            first.command
                        } else {
                            polls[i - 1]->0.command
                        },
                ),
                *final(backend),
                Seq::new(
                    deliveries.len(),
                    |i: int|
                        match deliveries[i].result {
                            Ok(values) => Ok::<Seq<T>, Seq<char>>(values@),
                            Err(reason) => Err::<Seq<T>, Seq<char>>(reason@),
                        },
                ),
            )
        },
{
    assert(polls_since(*final(queue), *old(queue)) =~= polls);
    let batch = crate::worker::received(first, polls);
    lemma_polled_out(first, polls, 256);
    if result is Some {
        let deliveries = result->0@;
        crate::laws::jobs_run_their_commands_and_get_their_results(
            *old(backend),
            batch,
            *final(backend),
            deliveries,
        );
        assert(Seq::new(
            deliveries.len(),
            |i: int|
                if i == 0 {
                    first.command
                } else {
                    polls[i - 1]->0.command
                },
        ) =~= Seq::new(batch.len(), |i: int| batch[i].command));
        assert forall|i: int| 1 <= i < deliveries.len() implies polls[i - 1] is Some && (
        #[trigger] deliveries[i]).id == polls[i - 1]->0.id && deliveries[i].pid == polls[i
            - 1]->0.pid by {
            assert(batch[i] == polls[i - 1]->0);
        }
    }
}

/// A worker table starts empty, and finds the worker of a device exactly if one was
/// adopted for it.
pub proof fn workers_are_found_again<S>(
    empty: WorkerTable<S>,
    table: &WorkerTable<S>,
    device: u32,
    found: Option<&S>,
)
    requires
        call_ensures(WorkerTable::<S>::new, (), empty),
        call_ensures(WorkerTable::<S>::lookup, (table, device), found),
    ensures
        !empty@.dom().contains(device),
        found is Some <==> table@.dom().contains(device),
        found is Some ==> *found->0 == table@[device],
{
}

/// The first worker of a device is kept and handed out; an offer changes nothing for
/// other devices, and nothing at all where there is a worker already.
pub proof fn the_first_worker_is_kept<S>(
    table: &mut WorkerTable<S>,
    device: u32,
    sender: S,
    kept: &S,
    other: u32,
)
    requires
        call_ensures(WorkerTable::<S>::adopt, (table, device, sender), kept),
    ensures
        final(table)@.dom().contains(device),
        final(table)@[device] == *kept,
        old(table)@.dom().contains(device) ==> *kept == old(table)@[device],
        !old(table)@.dom().contains(device) ==> *kept == sender,
        other != device ==> (final(table)@.dom().contains(other) <==> old(table)@.dom().contains(other)),
        other != device && old(table)@.dom().contains(other) ==> final(table)@[other] == old(table)@[other],
{
}

/// A stack size override is in force from when it is set until it is reset.
pub proof fn overrides_are_set_and_lifted(
    cell: &mut StackSizeOverride,
    later: &mut StackSizeOverride,
    size: usize,
    guard: StackSizeOverrideGuard,
)
    requires
        call_ensures(StackSizeOverrideGuard::set, (cell, size), guard),
        call_ensures(StackSizeOverrideGuard::reset, (guard, later), ()),
    ensures
        final(cell).size == Some(size),
        final(later).size is None,
{
}

/// A device is accepted exactly if it is one of those that there are.
pub proof fn devices_are_counted_from_zero(
    device: u32,
    count: u32,
    result: Result<(), Atom>,
)
    requires
        call_ensures(validate_device, (device, count), result),
    ensures
        result is Ok <==> device < count,
        result is Err ==> result->Err_0 == Atom::InvalidDevice,
{
}

/// Numbers start at one and are handed out one after another.
pub proof fn numbers_are_handed_out_in_order(ids: &mut JobIds, fresh: JobIds, id: u64)
    requires
        call_ensures(JobIds::new, (), fresh),
        call_ensures(JobIds::issue, (ids,), id),
    ensures
        fresh.next() == 1,
        id == old(ids).next(),
        id < u64::MAX ==> final(ids).next() == id + 1,
        id == u64::MAX ==> final(ids).next() == 0,
{
}

/// A vector addition is requested with its own operands, for its own process and
/// under the next number, or refused for want of the device, which uses up no number.
pub proof fn additions_are_requested_as_they_are<T, P>(
    ids: &mut JobIds,
    a: Vec<T>,
    b: Vec<T>,
    device: u32,
    count: u32,
    pid: P,
    result: Result<Job<T, P>, Atom>,
)
    requires
        call_ensures(launch_vector_add::<T, P>, (ids, a, b, device, count, pid), result),
    ensures
        result is Ok <==> device < count,
        result is Ok ==> {
            &&& result->Ok_0.command is VectorAdd
            &&& result->Ok_0.command->VectorAdd_a == a
            &&& result->Ok_0.command->VectorAdd_b == b
            &&& result->Ok_0.pid == pid
            &&& result->Ok_0.id == old(ids).next()
            &&& old(ids).next() < u64::MAX ==> final(ids).next() == old(ids).next() + 1
        },
        result is Err ==> result->Err_0 == Atom::InvalidDevice && *final(ids) == *old(ids),
{
}

/// A sum is requested with its own operand, for its own process and under the next
/// number, or refused for want of the device, which uses up no number.
pub proof fn sums_are_requested_as_they_are<T, P>(
    ids: &mut JobIds,
    a: Vec<T>,
    device: u32,
    count: u32,
    pid: P,
    result: Result<Job<T, P>, Atom>,
)
    requires
        call_ensures(launch_reduce::<T, P>, (ids, a, device, count, pid), result),
    ensures
        result is Ok <==> device < count,
        result is Ok ==> {
            &&& result->Ok_0.command is Reduce
            &&& result->Ok_0.command->Reduce_a == a
            &&& result->Ok_0.pid == pid
            &&& result->Ok_0.id == old(ids).next()
            &&& old(ids).next() < u64::MAX ==> final(ids).next() == old(ids).next() + 1
        },
        result is Err ==> result->Err_0 == Atom::InvalidDevice && *final(ids) == *old(ids),
{
}

/// A dot product is requested with its own operands, for its own process and under
/// the next number, or refused for want of the device, which uses up no number.
pub proof fn dot_products_are_requested_as_they_are<T, P>(
    ids: &mut JobIds,
    a: Vec<T>,
    b: Vec<T>,
    device: u32,
    count: u32,
    pid: P,
    result: Result<Job<T, P>, Atom>,
)
    requires
        call_ensures(launch_dot_product::<T, P>, (ids, a, b, device, count, pid), result),
    ensures
        result is Ok <==> device < count,
        result is Ok ==> {
            &&& result->Ok_0.command is DotProduct
            &&& result->Ok_0.command->DotProduct_a == a
            &&& result->Ok_0.command->DotProduct_b == b
            &&& result->Ok_0.pid == pid
            &&& result->Ok_0.id == old(ids).next()
            &&& old(ids).next() < u64::MAX ==> final(ids).next() == old(ids).next() + 1
        },
        result is Err ==> result->Err_0 == Atom::InvalidDevice && *final(ids) == *old(ids),
{
}

/// A matrix product is requested with its own matrices, in their order, and its own
/// sizes, for its own process and under the next number, or refused for want of the
/// device, which uses up no number.
pub proof fn matrix_products_are_requested_as_they_are<T, P>(
    ids: &mut JobIds,
    a: Vec<T>,
    b: Vec<T>,
    m: usize,
    n: usize,
    k: usize,
    device: u32,
    count: u32,
    pid: P,
    result: Result<Job<T, P>, Atom>,
)
    requires
        call_ensures(launch_matmul::<T, P>, (ids, a, b, m, n, k, device, count, pid), result),
    ensures
        result is Ok <==> device < count,
        result is Ok ==> {
            &&& result->Ok_0.command is MatMul
            &&& result->Ok_0.command->MatMul_a == a
            &&& result->Ok_0.command->MatMul_b == b
            &&& result->Ok_0.command->m == m
            &&& result->Ok_0.command->n == n
            &&& result->Ok_0.command->k == k
            &&& result->Ok_0.pid == pid
            &&& result->Ok_0.id == old(ids).next()
            &&& old(ids).next() < u64::MAX ==> final(ids).next() == old(ids).next() + 1
        },
        result is Err ==> result->Err_0 == Atom::InvalidDevice && *final(ids) == *old(ids),
{
}

/// A message carries the number of its job and, as they are, the values or the reason
/// of its result; its words are spelled as the caller expects them.
pub proof fn messages_carry_their_results<T>(
    id: u64,
    result: Result<Vec<T>, String>,
    message: Message<T>,
    tag: &'static str,
    status: &'static str,
)
    requires
        call_ensures(outcome_message::<T>, (id, result), message),
        call_ensures(Atom::name, (&message.tag,), tag),
        call_ensures(Atom::name, (&message.status,), status),
    ensures
        message.id == id,
        tag@ == "erlcuda"@,
        match result {
            Ok(values) => status@ == "ok"@ && message.payload == Payload::Values(values),
            Err(reason) => status@ == "error"@ && message.payload == Payload::<T>::Reason(reason),
        },
{
}

/// A fresh queue is on the channel it was given and has polled nothing, and the
/// software device has the block size that it was given.
pub proof fn fresh_queues_and_devices<J>(
    rx: Receiver<J>,
    queue: JobQueue<J>,
    block_size: u32,
    backend: GridBackend,
)
    requires
        call_ensures(JobQueue::<J>::new, (rx,), queue),
        call_ensures(GridBackend::new, (block_size,), backend),
    ensures
        queue.channel() == rx,
        queue.polls().len() == 0,
        backend.block_size() == block_size,
{
}

} // verus!
