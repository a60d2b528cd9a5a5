//! The GPU kernels.
//!
//! A kernel runs once per thread of a grid of thread blocks. A kernel without
//! barriers is given here as the work of one thread. A kernel with barriers is
//! given as the work of one block: between two barriers every thread of the
//! block takes one step, and here the threads take their steps one after another,
//! by number. That any other order gives the same is proved in [`crate::order`].
//! Thread and block indices, which a device hands to its threads, are
//! parameters.

use vstd::prelude::*;

use crate::backend::lemma_row_major;
use crate::scalar::{lemma_sum_push, products, sum, zeroed, Scalar};

verus! {

/// Threads per block of the summing kernels, and the length of their shared
/// buffer.
pub const REDUCE_BLOCK_SIZE: usize = 256;

/// Threads that run in lockstep. A barrier that only a part of such a group
/// reaches may hang, so the summing kernels stop halving here.
pub const WARP_SIZE: usize = 32;

/// Edge length of the square tiles of [`matmul`].
pub const MATMUL_TILE_SIZE: usize = 16;

/// The output buffer after the thread with global index `idx` has run.
pub open spec fn added<T: Scalar>(c: Seq<T>, a: Seq<T>, b: Seq<T>, idx: int) -> Seq<T> {
    if 0 <= idx < a.len() {
        c.update(idx, a[idx].plus_spec(b[idx]))
    } else {
        c
    }
}

/// Adds one pair of elements: the work of the thread with global index `idx`.
/// Threads past the end do nothing.
pub fn vector_add<T: Scalar>(a: &[T], b: &[T], c: &mut Vec<T>, idx: usize)
    requires
        idx < a@.len() ==> idx < b@.len() && idx < old(c)@.len(),
    ensures
        final(c)@ == added(old(c)@, a@, b@, idx as int),
        final(c)@.len() == old(c)@.len(),
        idx < a@.len() ==> final(c)@[idx as int] == a@[idx as int].plus_spec(b@[idx as int]),
        forall|i: int|
            0 <= i < old(c)@.len() && (i != idx || idx >= a@.len()) ==> #[trigger] final(c)@[i]
                == old(c)@[i],
{
    if idx < a.len() {
        let total = a[idx].plus(b[idx]);
        c[idx] = total;
    }
}

/// The element at `idx`, or zero past the end.
pub open spec fn lane<T: Scalar>(values: Seq<T>, idx: int) -> T {
    if 0 <= idx < values.len() {
        values[idx]
    } else {
        T::zero_spec()
    }
}

/// What the threads of a block load into shared memory.
pub open spec fn block_lanes<T: Scalar>(values: Seq<T>, block: int) -> Seq<T> {
    Seq::new(REDUCE_BLOCK_SIZE as nat, |t: int| lane(values, block * REDUCE_BLOCK_SIZE + t))
}

/// One halving step: the upper half is added onto the lower half.
pub open spec fn halve<T: Scalar>(s: Seq<T>, stride: int) -> Seq<T> {
    Seq::new(stride as nat, |t: int| s[t].plus_spec(s[t + stride]))
}

/// Halving from `stride` downwards until less than a warp would be active.
pub open spec fn halve_down<T: Scalar>(s: Seq<T>, stride: nat) -> Seq<T>
    decreases stride,
{
    if stride < WARP_SIZE {
        s
    } else {
        halve_down(halve(s, stride as int), stride / 2)
    }
}

/// The partial sum that a block delivers: its lanes halved down to one warp,
/// the rest added up from the left.
pub open spec fn block_sum<T: Scalar>(values: Seq<T>, block: int) -> T {
    sum(halve_down(block_lanes(values, block), (REDUCE_BLOCK_SIZE / 2) as nat))
}

/// The barrier-separated part of the summing kernels: halves the shared buffer
/// down to one warp and adds up the rest.
fn reduce_block<T: Scalar>(shared: Vec<T>) -> (total: T)
    requires
        shared@.len() == REDUCE_BLOCK_SIZE,
    ensures
        total == sum(halve_down(shared@, (REDUCE_BLOCK_SIZE / 2) as nat)),
{
    let mut sdata = shared;
    let ghost result = halve_down(shared@, (REDUCE_BLOCK_SIZE / 2) as nat);
    let mut stride: usize = REDUCE_BLOCK_SIZE / 2;
    assert(sdata@.take(2 * stride as int) =~= shared@);
    while stride >= WARP_SIZE
        invariant
            sdata@.len() == REDUCE_BLOCK_SIZE,
            stride == 128 || stride == 64 || stride == 32 || stride == 16,
            result == halve_down(sdata@.take(2 * stride as int), stride as nat),
        decreases stride,
    {
        let ghost before = sdata@;
        let mut tid: usize = 0;
        while tid < stride
            invariant
                tid <= stride,
                2 * stride <= sdata@.len(),
                sdata@.len() == before.len() == REDUCE_BLOCK_SIZE,
                forall|t: int|
                    0 <= t < tid ==> sdata@[t] == before[t].plus_spec(before[t + stride]),
                forall|t: int| tid <= t < before.len() ==> sdata@[t] == before[t],
            decreases stride - tid,
        {
            let total = sdata[tid].plus(sdata[tid + stride]);
            sdata[tid] = total;
            tid += 1;
        }
        assert(sdata@.take(stride as int) =~= halve(
            before.take(2 * stride as int),
            stride as int,
        ));
        stride = stride / 2;
    }
    let mut total = T::zero();
    let mut i: usize = 0;
    assert(result.take(0) =~= Seq::<T>::empty());
    while i < WARP_SIZE
        invariant
            i <= WARP_SIZE,
            sdata@.len() == REDUCE_BLOCK_SIZE,
            result == sdata@.take(WARP_SIZE as int),
            total == sum(result.take(i as int)),
        decreases WARP_SIZE - i,
    {
        proof {
            lemma_sum_push(result.take(i as int), result[i as int]);
            assert(result.take(i + 1) =~= result.take(i as int).push(result[i as int]));
        }
        total = total.plus(sdata[i]);
        i += 1;
    }
    assert(result.take(i as int) =~= result);
    total
}

/// Sums the elements that fall to block `block_idx` and delivers the partial
/// sum. Threads past the end of `a` contribute zero.
pub fn reduce_sum<T: Scalar>(a: &[T], partial_sums: &mut Vec<T>, block_idx: u32)
    requires
        block_idx < old(partial_sums)@.len(),
        (block_idx + 1) * REDUCE_BLOCK_SIZE <= u32::MAX + 1,
    ensures
        final(partial_sums)@ == old(partial_sums)@.update(
            block_idx as int,
            block_sum(a@, block_idx as int),
        ),
{
    let mut sdata: Vec<T> = Vec::new();
    let mut tid: u32 = 0;
    while (tid as usize) < REDUCE_BLOCK_SIZE
        invariant
            tid <= REDUCE_BLOCK_SIZE,
            (block_idx + 1) * REDUCE_BLOCK_SIZE <= u32::MAX + 1,
            sdata@ == block_lanes(a@, block_idx as int).take(tid as int),
        decreases REDUCE_BLOCK_SIZE - tid,
    {
        let idx = (tid + block_idx * (REDUCE_BLOCK_SIZE as u32)) as usize;
        let value = if idx < a.len() {
            a[idx]
        } else {
            T::zero()
        };
        sdata.push(value);
        tid += 1;
    }
    assert(sdata@ =~= block_lanes(a@, block_idx as int));
    let total = reduce_block(sdata);
    partial_sums[block_idx as usize] = total;
}

/// Sums the products that fall to block `block_idx` and delivers the partial
/// sum. Threads past the end of `a` contribute zero.
pub fn dot_product<T: Scalar>(a: &[T], b: &[T], partial_sums: &mut Vec<T>, block_idx: u32)
    requires
        a@.len() <= b@.len() || (block_idx + 1) * REDUCE_BLOCK_SIZE <= b@.len(),
        block_idx < old(partial_sums)@.len(),
        (block_idx + 1) * REDUCE_BLOCK_SIZE <= u32::MAX + 1,
    ensures
        final(partial_sums)@ == old(partial_sums)@.update(
            block_idx as int,
            block_sum(products(a@, b@), block_idx as int),
        ),
{
    let ghost terms = products(a@, b@);
    let mut sdata: Vec<T> = Vec::new();
    let mut tid: u32 = 0;
    while (tid as usize) < REDUCE_BLOCK_SIZE
        invariant
            tid <= REDUCE_BLOCK_SIZE,
            a@.len() <= b@.len() || (block_idx + 1) * REDUCE_BLOCK_SIZE <= b@.len(),
            terms == products(a@, b@),
            (block_idx + 1) * REDUCE_BLOCK_SIZE <= u32::MAX + 1,
            sdata@ == block_lanes(terms, block_idx as int).take(tid as int),
        decreases REDUCE_BLOCK_SIZE - tid,
    {
        let idx = (tid + block_idx * (REDUCE_BLOCK_SIZE as u32)) as usize;
        let value = if idx < a.len() {
            a[idx].times(b[idx])
        } else {
            T::zero()
        };
        sdata.push(value);
        tid += 1;
    }
    assert(sdata@ =~= block_lanes(terms, block_idx as int));
    let total = reduce_block(sdata);
    partial_sums[block_idx as usize] = total;
}

/// An element of a row-major matrix, or zero outside of it.
pub open spec fn padded<T: Scalar>(
    matrix: Seq<T>,
    rows: nat,
    cols: nat,
    row: int,
    col: int,
) -> T {
    if 0 <= row < rows && 0 <= col < cols {
        matrix[row * cols + col]
    } else {
        T::zero_spec()
    }
}

/// The first `upto` products that a thread of [`matmul`] adds up for its entry.
pub open spec fn tiled_terms<T: Scalar>(
    a: Seq<T>,
    b: Seq<T>,
    m: nat,
    n: nat,
    k: nat,
    row: int,
    col: int,
    upto: nat,
) -> Seq<T> {
    Seq::new(upto, |j: int| padded(a, m, k, row, j).times_spec(padded(b, k, n, j, col)))
}

/// `k` rounded up to whole tiles.
pub open spec fn tiled_depth(k: nat) -> nat {
    (k + MATMUL_TILE_SIZE - 1) as nat / MATMUL_TILE_SIZE as nat * MATMUL_TILE_SIZE as nat
}

/// The entry that a thread of [`matmul`] arrives at: the products along the
/// whole tiles, in order.
pub open spec fn tiled_entry<T: Scalar>(
    a: Seq<T>,
    b: Seq<T>,
    m: nat,
    n: nat,
    k: nat,
    row: int,
    col: int,
) -> T {
    sum(tiled_terms(a, b, m, n, k, row, col, tiled_depth(k)))
}

/// Row or column `x` falls to the block with index `block`.
pub open spec fn in_tile(x: int, block: int) -> bool {
    block * MATMUL_TILE_SIZE <= x < (block + 1) * MATMUL_TILE_SIZE
}

/// The shared tile that a block loads from a matrix, starting at `row0` and
/// `col0`.
pub open spec fn tile<T: Scalar>(
    matrix: Seq<T>,
    rows: nat,
    cols: nat,
    row0: int,
    col0: int,
) -> Seq<T> {
    Seq::new(
        (MATMUL_TILE_SIZE * MATMUL_TILE_SIZE) as nat,
        |t: int|
            padded(
                matrix,
                rows,
                cols,
                row0 + t / (MATMUL_TILE_SIZE as int),
                col0 + t % (MATMUL_TILE_SIZE as int),
            ),
    )
}

/// The `m x n` matrix after the block with index `block_x`, `block_y` has written
/// its entries. A buffer that is longer keeps the rest.
pub open spec fn block_written<T: Scalar>(
    c: Seq<T>,
    a: Seq<T>,
    b: Seq<T>,
    m: nat,
    n: nat,
    k: nat,
    block_x: int,
    block_y: int,
) -> Seq<T> {
    Seq::new(
        c.len(),
        |p: int|
            if p < m * n && in_tile(p / (n as int), block_y) && in_tile(p % (n as int), block_x) {
                tiled_entry(a, b, m, n, k, p / (n as int), p % (n as int))
            } else {
                c[p]
            },
    )
}

/// Every thread of a block loads one element of a tile, or zero outside of the
/// matrix.
fn load_tile<T: Scalar>(
    matrix: &[T],
    rows: usize,
    cols: usize,
    row0: usize,
    col0: usize,
) -> (loaded: Vec<T>)
    requires
        rows * cols <= matrix@.len(),
    ensures
        loaded@ == tile(matrix@, rows as nat, cols as nat, row0 as int, col0 as int),
{
    let mut loaded: Vec<T> = Vec::new();
    let size: usize = matrix.len();
    assert(rows * cols <= size);
    let ghost whole = tile(matrix@, rows as nat, cols as nat, row0 as int, col0 as int);
    let mut t: usize = 0;
    while t < MATMUL_TILE_SIZE * MATMUL_TILE_SIZE
        invariant
            t <= 256,
            rows * cols <= matrix@.len(),
            rows * cols <= usize::MAX,
            whole == tile(matrix@, rows as nat, cols as nat, row0 as int, col0 as int),
            loaded@ == whole.take(t as int),
        decreases 256 - t,
    {
        let ty: usize = t / MATMUL_TILE_SIZE;
        let tx: usize = t % MATMUL_TILE_SIZE;
        let value = if row0 < rows && ty < rows - row0 && col0 < cols && tx < cols - col0 {
            proof {
                lemma_row_major(rows as nat, cols as nat, row0 + ty, col0 + tx);
            }
            matrix[(row0 + ty) * cols + (col0 + tx)]
        } else {
            T::zero()
        };
        loaded.push(value);
        assert(loaded@ =~= whole.take(t + 1));
        t += 1;
    }
    assert(whole.take(t as int) =~= whole);
    loaded
}

/// A running sum after the first `upto` products along a pair of tiles, for the
/// thread with index `t` in its block.
pub open spec fn accumulated<T: Scalar>(
    tile_a: Seq<T>,
    tile_b: Seq<T>,
    t: int,
    start: T,
    upto: nat,
) -> T
    decreases upto,
{
    if upto == 0 {
        start
    } else {
        let i = upto - 1;
        accumulated(tile_a, tile_b, t, start, i as nat).plus_spec(
            tile_a[t / 16 * 16 + i].times_spec(tile_b[i * 16 + t % 16]),
        )
    }
}

/// Adds the products along a pair of tiles to the running sum of thread `t`.
fn accumulate<T: Scalar>(tile_a: &Vec<T>, tile_b: &Vec<T>, t: usize, start: T) -> (total: T)
    requires
        tile_a@.len() == 256,
        tile_b@.len() == 256,
        t < 256,
    ensures
        total == accumulated(tile_a@, tile_b@, t as int, start, MATMUL_TILE_SIZE as nat),
{
    let ty: usize = t / MATMUL_TILE_SIZE;
    let tx: usize = t % MATMUL_TILE_SIZE;
    let mut total = start;
    let mut i: usize = 0;
    while i < MATMUL_TILE_SIZE
        invariant
            i <= 16,
            ty == t / 16 < 16,
            tx == t % 16,
            tile_a@.len() == 256,
            tile_b@.len() == 256,
            total == accumulated(tile_a@, tile_b@, t as int, start, i as nat),
        decreases 16 - i,
    {
        total =
        total.plus(tile_a[ty * MATMUL_TILE_SIZE + i].times(tile_b[i * MATMUL_TILE_SIZE + tx]));
        i += 1;
    }
    total
}

/// Walking along the tiles at `kk` extends the products of an entry by those
/// from `kk` on.
pub proof fn lemma_accumulate<T: Scalar>(
    a: Seq<T>,
    b: Seq<T>,
    m: nat,
    n: nat,
    k: nat,
    row0: int,
    col0: int,
    kk: nat,
    t: int,
    upto: nat,
)
    requires
        0 <= t < 256,
        upto <= 16,
    ensures
        accumulated(
            tile(a, m, k, row0, kk as int),
            tile(b, k, n, kk as int, col0),
            t,
            sum(tiled_terms(a, b, m, n, k, row0 + t / 16, col0 + t % 16, kk)),
            upto,
        ) == sum(tiled_terms(a, b, m, n, k, row0 + t / 16, col0 + t % 16, kk + upto)),
    decreases upto,
{
    if upto > 0 {
        let i = (upto - 1) as nat;
        lemma_accumulate(a, b, m, n, k, row0, col0, kk, t, i);
        let terms = tiled_terms(a, b, m, n, k, row0 + t / 16, col0 + t % 16, kk + upto);
        assert(terms.drop_last() =~= tiled_terms(
            a,
            b,
            m,
            n,
            k,
            row0 + t / 16,
            col0 + t % 16,
            kk + i,
        ));
        assert((t / 16 * 16 + i) / 16 == t / 16 && (t / 16 * 16 + i) % 16 == i);
        assert((i * 16 + t % 16) / 16 == i && (i * 16 + t % 16) % 16 == t % 16);
        assert(tile(a, m, k, row0, kk as int)[t / 16 * 16 + i] == padded(
            a,
            m,
            k,
            row0 + t / 16,
            (kk + i) as int,
        ));
        assert(tile(b, k, n, kk as int, col0)[i * 16 + t % 16] == padded(
            b,
            k,
            n,
            (kk + i) as int,
            col0 + t % 16,
        ));
    }
}

/// Row-major position `p` of an `m x n` matrix lies in the tile at `row0` and
/// `col0`, and belongs to one of the first `upto` threads of the block.
pub open spec fn stored(m: nat, n: nat, row0: int, col0: int, p: int, upto: int) -> bool {
    &&& 0 <= p < m * n
    &&& row0 <= p / (n as int) < row0 + 16
    &&& col0 <= p % (n as int) < col0 + 16
    &&& (p / (n as int) - row0) * 16 + (p % (n as int) - col0) < upto
}

/// The matrix after a block has stored one entry per thread.
pub open spec fn block_stored<T>(
    c: Seq<T>,
    entries: Seq<T>,
    m: nat,
    n: nat,
    row0: int,
    col0: int,
    upto: int,
) -> Seq<T> {
    Seq::new(
        c.len(),
        |p: int|
            if stored(m, n, row0, col0, p, upto) {
                entries[(p / (n as int) - row0) * 16 + (p % (n as int) - col0)]
            } else {
                c[p]
            },
    )
}

/// Every thread of a block that lies inside of `C` writes its entry.
fn store_block<T: Scalar>(
    sums: &Vec<T>,
    c: &mut Vec<T>,
    m: usize,
    n: usize,
    row0: usize,
    col0: usize,
)
    requires
        sums@.len() == 256,
        m * n <= old(c)@.len(),
        row0 + 15 <= usize::MAX,
        col0 + 15 <= usize::MAX,
    ensures
        final(c)@ == block_stored(
            old(c)@,
            sums@,
            m as nat,
            n as nat,
            row0 as int,
            col0 as int,
            256,
        ),
{
    let mut t: usize = 0;
    let ghost start = c@;
    let size: usize = c.len();
    assert(c@ =~= block_stored(start, sums@, m as nat, n as nat, row0 as int, col0 as int, 0));
    while t < MATMUL_TILE_SIZE * MATMUL_TILE_SIZE
        invariant
            t <= 256,
            sums@.len() == 256,
            m * n <= size == c@.len() == start.len(),
            row0 + 15 <= usize::MAX,
            col0 + 15 <= usize::MAX,
            c@ == block_stored(
                start,
                sums@,
                m as nat,
                n as nat,
                row0 as int,
                col0 as int,
                t as int,
            ),
        decreases 256 - t,
    {
        let row: usize = row0 + t / MATMUL_TILE_SIZE;
        let col: usize = col0 + t % MATMUL_TILE_SIZE;
        let ghost before = c@;
        let ghost after = block_stored(
            start,
            sums@,
            m as nat,
            n as nat,
            row0 as int,
            col0 as int,
            t + 1,
        );
        if row < m && col < n {
            proof {
                lemma_row_major(m as nat, n as nat, row as int, col as int);
            }
            let value = sums[t];
            c[row * n + col] = value;
        }
        assert forall|p: int| 0 <= p < c@.len() implies #[trigger] c@[p] == after[p] by {
            if p < m * n {
                lemma_position(m as nat, n as nat, p);
            }
            assert(c@[p] == before[p] || p == row * n + col);
        }
        assert(c@ =~= after);
        t += 1;
    }
}

/// A position inside of a row-major buffer has a row and a column.
pub proof fn lemma_position(rows: nat, cols: nat, p: int)
    requires
        0 <= p < rows * cols,
    ensures
        cols > 0,
        0 <= p / (cols as int) < rows,
        0 <= p % (cols as int) < cols,
        p == (p / (cols as int)) * cols + p % (cols as int),
{
    assert(cols > 0) by (nonlinear_arith)
        requires
            0 < rows * cols,
            0 <= cols,
    ;
    assert(0 <= p / (cols as int) < rows && 0 <= p % (cols as int) < cols && p == (p / (
    cols as int)) * cols + p % (cols as int)) by (nonlinear_arith)
        requires
            0 <= p < rows * cols,
            cols > 0,
    ;
}

/// Computes the entries of `C = A * B` that fall to the block with index
/// `block_x`, `block_y`: rows by `block_y`, columns by `block_x`. The block
/// walks along the common dimension tile by tile; outside of the matrices the
/// tiles hold zeros, and threads outside of `C` write nothing.
pub fn matmul<T: Scalar>(
    a: &[T],
    b: &[T],
    c: &mut Vec<T>,
    m: usize,
    n: usize,
    k: usize,
    block_x: u32,
    block_y: u32,
)
    requires
        m * k <= a@.len(),
        k * n <= b@.len(),
        m * n <= old(c)@.len(),
        (block_x + 1) * MATMUL_TILE_SIZE <= u32::MAX + 1,
        (block_y + 1) * MATMUL_TILE_SIZE <= u32::MAX + 1,
    ensures
        final(c)@ == block_written(
            old(c)@,
            a@,
            b@,
            m as nat,
            n as nat,
            k as nat,
            block_x as int,
            block_y as int,
        ),
{
    let row0: usize = block_y as usize * MATMUL_TILE_SIZE;
    let col0: usize = block_x as usize * MATMUL_TILE_SIZE;
    let steps: usize = k / MATMUL_TILE_SIZE + if k % MATMUL_TILE_SIZE == 0 {
        0
    } else {
        1
    };
    assert(steps * 16 == tiled_depth(k as nat));
    let mut sums: Vec<T> = zeroed(MATMUL_TILE_SIZE * MATMUL_TILE_SIZE);
    let mut step: usize = 0;
    while step < steps
        invariant
            step <= steps,
            steps * 16 == tiled_depth(k as nat),
            m * k <= a@.len(),
            k * n <= b@.len(),
            sums@.len() == 256,
            row0 <= u32::MAX,
            col0 <= u32::MAX,
            forall|t: int|
                0 <= t < 256 ==> #[trigger] sums@[t] == sum(
                    tiled_terms(
                        a@,
                        b@,
                        m as nat,
                        n as nat,
                        k as nat,
                        row0 + t / 16,
                        col0 + t % 16,
                        (step * 16) as nat,
                    ),
                ),
        decreases steps - step,
    {
        let kk: usize = step * MATMUL_TILE_SIZE;
        let tile_a = load_tile(a, m, k, row0, kk);
        let tile_b = load_tile(b, k, n, kk, col0);
        let ghost before = sums@;
        let mut t: usize = 0;
        while t < MATMUL_TILE_SIZE * MATMUL_TILE_SIZE
            invariant
                t <= 256,
                sums@.len() == 256,
                before.len() == 256,
                kk == step * 16,
                tile_a@ == tile(a@, m as nat, k as nat, row0 as int, kk as int),
                tile_b@ == tile(b@, k as nat, n as nat, kk as int, col0 as int),
                forall|u: int|
                    0 <= u < 256 ==> #[trigger] before[u] == sum(
                        tiled_terms(
                            a@,
                            b@,
                            m as nat,
                            n as nat,
                            k as nat,
                            row0 + u / 16,
                            col0 + u % 16,
                            kk as nat,
                        ),
                    ),
                forall|u: int| t <= u < 256 ==> sums@[u] == before[u],
                forall|u: int|
                    0 <= u < t ==> #[trigger] sums@[u] == sum(
                        tiled_terms(
                            a@,
                            b@,
                            m as nat,
                            n as nat,
                            k as nat,
                            row0 + u / 16,
                            col0 + u % 16,
                            (kk + 16) as nat,
                        ),
                    ),
            decreases 256 - t,
        {
            let total = accumulate(&tile_a, &tile_b, t, sums[t]);
            proof {
                lemma_accumulate(
                    a@,
                    b@,
                    m as nat,
                    n as nat,
                    k as nat,
                    row0 as int,
                    col0 as int,
                    kk as nat,
                    t as int,
                    16,
                );
                assert(before[t as int] == sums@[t as int]);
            }
            sums[t] = total;
            t += 1;
        }
        step += 1;
    }
    store_block(&sums, c, m, n, row0, col0);
    assert(c@ =~= block_written(
        old(c)@,
        a@,
        b@,
        m as nat,
        n as nat,
        k as nat,
        block_x as int,
        block_y as int,
    ));
}

} // verus!
