//! How kernels are laid out over a grid of thread blocks, and what a whole
//! launch computes.

use vstd::prelude::*;

use crate::backend::{entry_terms, matrix_product};
use crate::kernels::{
    block_lanes, block_sum, dot_product, halve, halve_down, in_tile, lemma_position, matmul, padded,
    reduce_sum, tiled_depth, tiled_entry, tiled_terms, vector_add, MATMUL_TILE_SIZE,
    REDUCE_BLOCK_SIZE,
};
use crate::scalar::{
    addition_reorders, lemma_sum_of_concatenation, lemma_sum_of_sums, lemma_sum_push,
    lemma_sum_with_zeros, products, sum, sums, zero_product_is_neutral, zeroed, zeros, Scalar,
};

verus! {

/// The number of values of a 32-bit index.
pub const INDEX_RANGE: u64 = 0x1_0000_0000;

/// `n / d`, rounded up.
pub open spec fn ceil_div(n: nat, d: nat) -> nat {
    (n + d - 1) as nat / d
}

/// The low 32 bits of a length: launch sizes are 32-bit numbers.
pub open spec fn low_bits(n: nat) -> nat {
    n % INDEX_RANGE as nat
}

/// Cuts a length down to 32 bits.
fn truncate(n: usize) -> (low: u32)
    ensures
        low == low_bits(n as nat),
{
    let low = n as u32;
    assert(low == n as u64 % 0x1_0000_0000) by (bit_vector)
        requires
            low == n as u32,
    ;
    low
}

/// Divides and rounds up.
fn div_ceil(n: u32, d: u32) -> (q: u32)
    requires
        d > 0,
    ensures
        q == ceil_div(n as nat, d as nat),
{
    let (q, r) = (n / d, n % d);
    proof {
        let (ni, di, qi, ri) = (n as int, d as int, q as int, r as int);
        assert(ni == qi * di + ri && 0 <= ri < di && 0 <= qi <= ni) by (nonlinear_arith)
            requires
                di > 0,
                ni >= 0,
                qi == ni / di,
                ri == ni % di,
        ;
        if ri == 0 {
            vstd::arithmetic::div_mod::lemma_fundamental_div_mod_converse(
                ni + di - 1,
                di,
                qi,
                di - 1,
            );
        } else {
            assert((qi + 1) * di == qi * di + di) by (nonlinear_arith);
            vstd::arithmetic::div_mod::lemma_fundamental_div_mod_converse(
                ni + di - 1,
                di,
                qi + 1,
                ri - 1,
            );
            assert(qi + 1 <= ni) by (nonlinear_arith)
                requires
                    ni == qi * di + ri,
                    ri >= 1,
                    di >= 1,
                    qi >= 0,
            ;
        }
    }
    if r == 0 {
        q
    } else {
        q + 1
    }
}

/// Blocks for a vector addition over `len` elements, given the block size that
/// the device suggests.
pub fn vector_add_grid(len: usize, block_size: u32) -> (grid_size: u32)
    requires
        block_size > 0,
    ensures
        grid_size == ceil_div(low_bits(len as nat), block_size as nat),
{
    div_ceil(truncate(len), block_size)
}

/// Blocks, and so partial sums, for summing `len` elements.
pub open spec fn reduce_blocks(len: nat) -> nat {
    ceil_div(low_bits(len), REDUCE_BLOCK_SIZE as nat)
}

/// Blocks, and so partial sums, for summing `len` elements.
pub fn reduce_grid(len: usize) -> (grid_size: u32)
    ensures
        grid_size == reduce_blocks(len as nat),
        grid_size * REDUCE_BLOCK_SIZE <= INDEX_RANGE,
{
    div_ceil(truncate(len), REDUCE_BLOCK_SIZE as u32)
}

/// Blocks along one edge of a matrix with `len` rows or columns.
pub open spec fn matmul_blocks(len: nat) -> nat {
    ceil_div(low_bits(len), MATMUL_TILE_SIZE as nat)
}

/// Blocks along one edge of a matrix with `len` rows or columns.
pub fn matmul_grid(len: usize) -> (grid_size: u32)
    ensures
        grid_size == matmul_blocks(len as nat),
        grid_size * MATMUL_TILE_SIZE <= INDEX_RANGE,
{
    div_ceil(truncate(len), MATMUL_TILE_SIZE as u32)
}

/// How many leading elements the threads of a one-dimensional launch reach. A
/// thread computes its index in 32 bits.
pub open spec fn reach(grid_size: nat, block_size: nat) -> nat {
    if grid_size * block_size <= INDEX_RANGE {
        grid_size * block_size
    } else {
        INDEX_RANGE as nat
    }
}

/// What a vector addition leaves in its zeroed output buffer.
pub open spec fn launched_sums<T: Scalar>(
    a: Seq<T>,
    b: Seq<T>,
    grid_size: nat,
    block_size: nat,
) -> Seq<T> {
    Seq::new(
        a.len(),
        |i: int|
            if i < reach(grid_size, block_size) {
                a[i].plus_spec(b[i])
            } else {
                T::zero_spec()
            },
    )
}

/// The first `done` threads of a launch have run.
spec fn partly_launched<T: Scalar>(out: Seq<T>, a: Seq<T>, b: Seq<T>, done: int) -> bool {
    &&& out.len() == a.len()
    &&& forall|i: int|
        0 <= i < a.len() ==> #[trigger] out[i] == (if i < done && i < INDEX_RANGE {
            a[i].plus_spec(b[i])
        } else {
            T::zero_spec()
        })
}

/// Runs the vector addition kernel on every thread of a grid.
pub fn run_vector_add<T: Scalar>(a: &[T], b: &[T], grid_size: u32, block_size: u32) -> (out: Vec<
    T,
>)
    requires
        a@.len() <= b@.len(),
    ensures
        out@ == launched_sums(a@, b@, grid_size as nat, block_size as nat),
{
    let mut out: Vec<T> = zeroed(a.len());
    let mut block: u32 = 0;
    while block < grid_size
        invariant
            block <= grid_size,
            a@.len() <= b@.len(),
            partly_launched(out@, a@, b@, block * block_size),
        decreases grid_size - block,
    {
        let mut tid: u32 = 0;
        while tid < block_size
            invariant
                tid <= block_size,
                a@.len() <= b@.len(),
                partly_launched(out@, a@, b@, block * block_size + tid),
            decreases block_size - tid,
        {
            let idx = tid.wrapping_add(block.wrapping_mul(block_size));
            proof {
                let before = block * block_size;
                assert(0 <= before) by (nonlinear_arith)
                    requires
                        before == block * block_size,
                        0 <= block,
                        0 <= block_size,
                ;
                assert(idx == (before + tid) % 0x1_0000_0000);
            }
            vector_add(a, b, &mut out, idx as usize);
            tid += 1;
        }
        assert((block + 1) * block_size == block * block_size + block_size) by (nonlinear_arith);
        block += 1;
    }
    assert(out@ =~= launched_sums(a@, b@, grid_size as nat, block_size as nat));
    out
}

/// The partial sums of `grid_size` blocks.
pub open spec fn partial_sums<T: Scalar>(values: Seq<T>, grid_size: nat) -> Seq<T> {
    Seq::new(grid_size, |block: int| block_sum(values, block))
}

/// Runs the summing kernel on every block of a grid.
pub fn run_reduce_sum<T: Scalar>(a: &[T], grid_size: u32) -> (partials: Vec<T>)
    requires
        grid_size * REDUCE_BLOCK_SIZE <= INDEX_RANGE,
    ensures
        partials@ == partial_sums(a@, grid_size as nat),
{
    let mut partials: Vec<T> = zeroed(grid_size as usize);
    let mut block: u32 = 0;
    while block < grid_size
        invariant
            block <= grid_size,
            grid_size * REDUCE_BLOCK_SIZE <= INDEX_RANGE,
            partials@.len() == grid_size,
            forall|i: int| 0 <= i < block ==> partials@[i] == block_sum(a@, i),
        decreases grid_size - block,
    {
        reduce_sum(a, &mut partials, block);
        block += 1;
    }
    assert(partials@ =~= partial_sums(a@, grid_size as nat));
    partials
}

/// Runs the dot product kernel on every block of a grid.
pub fn run_dot_product<T: Scalar>(a: &[T], b: &[T], grid_size: u32) -> (partials: Vec<T>)
    requires
        a@.len() <= b@.len(),
        grid_size * REDUCE_BLOCK_SIZE <= INDEX_RANGE,
    ensures
        partials@ == partial_sums(products(a@, b@), grid_size as nat),
{
    let mut partials: Vec<T> = zeroed(grid_size as usize);
    let mut block: u32 = 0;
    while block < grid_size
        invariant
            block <= grid_size,
            a@.len() <= b@.len(),
            grid_size * REDUCE_BLOCK_SIZE <= INDEX_RANGE,
            partials@.len() == grid_size,
            forall|i: int| 0 <= i < block ==> partials@[i] == block_sum(products(a@, b@), i),
        decreases grid_size - block,
    {
        dot_product(a, b, &mut partials, block);
        block += 1;
    }
    assert(partials@ =~= partial_sums(products(a@, b@), grid_size as nat));
    partials
}

/// What a matrix multiplication leaves in its zeroed output buffer: entries in
/// the rows and columns that the grid covers.
pub open spec fn launched_product<T: Scalar>(
    a: Seq<T>,
    b: Seq<T>,
    m: nat,
    n: nat,
    k: nat,
    grid_x: nat,
    grid_y: nat,
) -> Seq<T> {
    Seq::new(
        m * n,
        |p: int|
            if p / (n as int) < grid_y * MATMUL_TILE_SIZE && p % (n as int) < grid_x
                * MATMUL_TILE_SIZE {
                tiled_entry(a, b, m, n, k, p / (n as int), p % (n as int))
            } else {
                T::zero_spec()
            },
    )
}

/// All blocks of the block rows before `block_y` have run, and `block_x` blocks
/// of that row.
spec fn partly_multiplied<T: Scalar>(
    c: Seq<T>,
    a: Seq<T>,
    b: Seq<T>,
    m: nat,
    n: nat,
    k: nat,
    grid_x: int,
    block_x: int,
    block_y: int,
) -> bool {
    &&& c.len() == m * n
    &&& forall|p: int|
        0 <= p < c.len() ==> #[trigger] c[p] == (if (p / (n as int) < block_y * 16 && p % (n as int)
            < grid_x * 16) || (in_tile(p / (n as int), block_y) && p % (n as int) < block_x * 16) {
            tiled_entry(a, b, m, n, k, p / (n as int), p % (n as int))
        } else {
            T::zero_spec()
        })
}

/// A finished block row is the start of the next one.
proof fn lemma_next_block_row<T: Scalar>(
    c: Seq<T>,
    a: Seq<T>,
    b: Seq<T>,
    m: nat,
    n: nat,
    k: nat,
    grid_x: int,
    block_y: int,
)
    requires
        block_y >= -1,
        block_y == -1 ==> c == zeros::<T>(m * n),
        block_y >= 0 ==> partly_multiplied(c, a, b, m, n, k, grid_x, grid_x, block_y),
    ensures
        partly_multiplied(c, a, b, m, n, k, grid_x, 0, block_y + 1),
{
    assert forall|p: int| 0 <= p < c.len() implies #[trigger] c[p] == (if (p / (n as int) < (block_y
        + 1) * 16 && p % (n as int) < grid_x * 16) || (in_tile(p / (n as int), block_y + 1) && p % (
    n as int) < 0 * 16) {
        tiled_entry(a, b, m, n, k, p / (n as int), p % (n as int))
    } else {
        T::zero_spec()
    }) by {
        lemma_position(m, n, p);
    }
}

/// Runs the matrix multiplication kernel on every block of a grid.
pub fn run_matmul<T: Scalar>(
    a: &[T],
    b: &[T],
    m: usize,
    n: usize,
    k: usize,
    grid_x: u32,
    grid_y: u32,
) -> (c: Vec<T>)
    requires
        a@.len() == m * k <= usize::MAX,
        b@.len() == k * n <= usize::MAX,
        m * n <= usize::MAX,
        grid_x * MATMUL_TILE_SIZE <= INDEX_RANGE,
        grid_y * MATMUL_TILE_SIZE <= INDEX_RANGE,
    ensures
        c@ == launched_product(
            a@,
            b@,
            m as nat,
            n as nat,
            k as nat,
            grid_x as nat,
            grid_y as nat,
        ),
{
    let mut c: Vec<T> = zeroed(m * n);
    let mut block_y: u32 = 0;
    proof {
        lemma_next_block_row(c@, a@, b@, m as nat, n as nat, k as nat, grid_x as int, -1);
    }
    while block_y < grid_y
        invariant
            block_y <= grid_y,
            a@.len() == m * k <= usize::MAX,
            b@.len() == k * n <= usize::MAX,
            m * n <= usize::MAX,
            grid_x * MATMUL_TILE_SIZE <= INDEX_RANGE,
            grid_y * MATMUL_TILE_SIZE <= INDEX_RANGE,
            partly_multiplied(
                c@,
                a@,
                b@,
                m as nat,
                n as nat,
                k as nat,
                grid_x as int,
                0,
                block_y as int,
            ),
        decreases grid_y - block_y,
    {
        let mut block_x: u32 = 0;
        while block_x < grid_x
            invariant
                block_x <= grid_x,
                block_y < grid_y,
                a@.len() == m * k <= usize::MAX,
                b@.len() == k * n <= usize::MAX,
                m * n <= usize::MAX,
                grid_x * MATMUL_TILE_SIZE <= INDEX_RANGE,
                grid_y * MATMUL_TILE_SIZE <= INDEX_RANGE,
                partly_multiplied(
                    c@,
                    a@,
                    b@,
                    m as nat,
                    n as nat,
                    k as nat,
                    grid_x as int,
                    block_x as int,
                    block_y as int,
                ),
            decreases grid_x - block_x,
        {
            let ghost before = c@;
            matmul(a, b, &mut c, m, n, k, block_x, block_y);
            assert forall|p: int| 0 <= p < c@.len() implies #[trigger] c@[p] == (if (p / (n as int)
                < block_y * 16 && p % (n as int) < grid_x * 16) || (in_tile(
                p / (n as int),
                block_y as int,
            ) && p % (n as int) < (block_x + 1) * 16) {
                tiled_entry(
                    a@,
                    b@,
                    m as nat,
                    n as nat,
                    k as nat,
                    p / (n as int),
                    p % (n as int),
                )
            } else {
                T::zero_spec()
            }) by {
                assert(c@[p] == before[p] || in_tile(p % (n as int), block_x as int));
            }
            block_x += 1;
        }
        proof {
            lemma_next_block_row(
                c@,
                a@,
                b@,
                m as nat,
                n as nat,
                k as nat,
                grid_x as int,
                block_y as int,
            );
        }
        block_y += 1;
    }
    let ghost product = launched_product(
        a@,
        b@,
        m as nat,
        n as nat,
        k as nat,
        grid_x as nat,
        grid_y as nat,
    );
    assert forall|p: int| 0 <= p < c@.len() implies #[trigger] c@[p] == product[p] by {
        lemma_position(m as nat, n as nat, p);
    }
    assert(c@ =~= product);
    c
}

/// Rounding up loses nothing: that many blocks hold at least `n`.
pub proof fn lemma_ceil_div_covers(n: nat, d: nat)
    requires
        d > 0,
    ensures
        ceil_div(n, d) * d >= n,
{
    let q = ceil_div(n, d);
    assert(q * d >= n) by (nonlinear_arith)
        requires
            d > 0,
            n >= 0,
            q == (n + d - 1) / d as int,
    ;
}

/// A vector addition over at most `u32::MAX` elements reaches every element,
/// whatever block size the device suggests.
pub proof fn vector_add_launch_reaches_every_element<T: Scalar>(
    a: Seq<T>,
    b: Seq<T>,
    block_size: nat,
)
    requires
        block_size > 0,
        a.len() == b.len() <= u32::MAX,
    ensures
        launched_sums(a, b, ceil_div(low_bits(a.len()), block_size), block_size) == sums(a, b),
{
    lemma_ceil_div_covers(a.len(), block_size);
    assert(launched_sums(a, b, ceil_div(low_bits(a.len()), block_size), block_size) =~= sums(a, b));
}

/// A halving step keeps the sum.
proof fn lemma_halve_keeps_sum<T: Scalar>(s: Seq<T>, stride: nat)
    requires
        addition_reorders::<T>(),
        s.len() == 2 * stride,
    ensures
        sum(halve(s, stride as int)) == sum(s),
{
    let (low, high) = (s.take(stride as int), s.skip(stride as int));
    assert(s =~= low + high);
    assert(halve(s, stride as int) =~= sums(low, high));
    lemma_sum_of_sums(low, high);
    lemma_sum_of_concatenation(low, high);
}

/// What a block delivers is the sum of what its threads loaded.
proof fn lemma_block_sum<T: Scalar>(values: Seq<T>, block: int)
    requires
        addition_reorders::<T>(),
    ensures
        block_sum(values, block) == sum(block_lanes(values, block)),
{
    reveal_with_fuel(halve_down, 4);
    let s = block_lanes(values, block);
    lemma_halve_keeps_sum(s, 128);
    lemma_halve_keeps_sum(halve(s, 128), 64);
    lemma_halve_keeps_sum(halve(halve(s, 128), 64), 32);
}

/// The partial sums of the first blocks add up to the sum of the elements that
/// fall to those blocks.
proof fn lemma_partial_sums<T: Scalar>(values: Seq<T>, blocks: nat)
    requires
        addition_reorders::<T>(),
    ensures
        sum(partial_sums(values, blocks)) == sum(
            values.take(
                if blocks * REDUCE_BLOCK_SIZE <= values.len() {
                    blocks * REDUCE_BLOCK_SIZE
                } else {
                    values.len() as int
                },
            ),
        ),
    decreases blocks,
{
    if blocks == 0 {
        assert(partial_sums(values, 0) =~= Seq::<T>::empty());
        assert(values.take(0) =~= Seq::<T>::empty());
    } else {
        let block = (blocks - 1) as nat;
        let len = values.len() as int;
        let from = if block * 256 <= len {
            (block * 256) as int
        } else {
            len
        };
        let to = if blocks * 256 <= len {
            (blocks * 256) as int
        } else {
            len
        };
        lemma_partial_sums(values, block);
        lemma_sum_push(partial_sums(values, block), block_sum(values, block as int));
        assert(partial_sums(values, blocks) =~= partial_sums(values, block).push(
            block_sum(values, block as int),
        ));
        let chunk = values.subrange(from, to);
        let rest = (256 - (to - from)) as nat;
        lemma_block_sum(values, block as int);
        assert(block_lanes(values, block as int) =~= chunk + zeros(rest));
        lemma_sum_with_zeros(chunk, rest);
        lemma_sum_of_concatenation(values.take(from), chunk);
        assert(values.take(to) =~= values.take(from) + chunk);
    }
}

/// Where addition may be reordered, the partial sums of a launch over at most
/// `u32::MAX` values add up to the sum of all values.
pub proof fn partial_sums_add_up<T: Scalar>(values: Seq<T>)
    requires
        addition_reorders::<T>(),
        values.len() <= u32::MAX,
    ensures
        sum(partial_sums(values, reduce_blocks(values.len()))) == sum(values),
{
    lemma_ceil_div_covers(values.len(), REDUCE_BLOCK_SIZE as nat);
    lemma_partial_sums(values, reduce_blocks(values.len()));
    assert(values.take(values.len() as int) =~= values);
}

/// Inside of the matrices the products along the whole tiles are those of the
/// entry, followed by products of zeros.
proof fn lemma_tiled_sum<T: Scalar>(
    a: Seq<T>,
    b: Seq<T>,
    m: nat,
    n: nat,
    k: nat,
    row: int,
    col: int,
    depth: nat,
)
    requires
        zero_product_is_neutral::<T>(),
        0 <= row < m,
        0 <= col < n,
        k <= depth,
    ensures
        sum(tiled_terms(a, b, m, n, k, row, col, depth)) == sum(
            entry_terms(a, b, n, k, row, col, k),
        ),
    decreases depth,
{
    let terms = tiled_terms(a, b, m, n, k, row, col, depth);
    if depth == k {
        assert(terms =~= entry_terms(a, b, n, k, row, col, k));
    } else {
        let less = (depth - 1) as nat;
        lemma_tiled_sum(a, b, m, n, k, row, col, less);
        assert(terms.drop_last() =~= tiled_terms(a, b, m, n, k, row, col, less));
        assert(padded(a, m, k, row, less as int) == T::zero_spec());
    }
}

/// Where products of zeros are neutral in sums, a launch over matrices of at most
/// `u32::MAX` rows and columns computes the matrix product, also where the
/// matrices do not fill whole tiles and where they are not square.
pub proof fn matmul_launch_computes_the_product<T: Scalar>(
    a: Seq<T>,
    b: Seq<T>,
    m: nat,
    n: nat,
    k: nat,
)
    requires
        zero_product_is_neutral::<T>(),
        m <= u32::MAX,
        n <= u32::MAX,
    ensures
        launched_product(a, b, m, n, k, matmul_blocks(n), matmul_blocks(m)) == matrix_product(
            a,
            b,
            m,
            n,
            k,
        ),
{
    let launched = launched_product(a, b, m, n, k, matmul_blocks(n), matmul_blocks(m));
    let product = matrix_product(a, b, m, n, k);
    lemma_ceil_div_covers(m, MATMUL_TILE_SIZE as nat);
    lemma_ceil_div_covers(n, MATMUL_TILE_SIZE as nat);
    lemma_ceil_div_covers(k, MATMUL_TILE_SIZE as nat);
    assert forall|p: int| 0 <= p < launched.len() implies launched[p] == product[p] by {
        lemma_position(m, n, p);
        lemma_tiled_sum(a, b, m, n, k, p / (n as int), p % (n as int), tiled_depth(k));
    }
    assert(launched =~= product);
}

} // verus!
