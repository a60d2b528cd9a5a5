//! Threads and blocks may run in any order.
//!
//! Between two barriers no thread reads what another thread of its block writes,
//! and no two write to one place. So whatever order the threads take within each
//! phase, a block arrives at what [`crate::kernels`] computes with the threads
//! taken by number. Whole blocks share nothing but the output, each its own part
//! of it.

use vstd::prelude::*;

use crate::backend::lemma_row_major;
use crate::kernels::{
    accumulated, added, block_lanes, block_stored, block_sum, block_written, halve, halve_down,
    lane, lemma_accumulate, lemma_position, padded, stored, tile, tiled_depth, tiled_entry,
    tiled_terms, MATMUL_TILE_SIZE, REDUCE_BLOCK_SIZE, WARP_SIZE,
};
use crate::scalar::{sum, sums, zeros, Scalar};

verus! {

/// Every thread from zero up to `count` has its turn.
pub open spec fn covers(order: Seq<int>, count: int) -> bool {
    forall|t: int| 0 <= t < count ==> #[trigger] order.contains(t)
}

/// The threads of a block of `count` threads have one turn each.
pub open spec fn each_once(order: Seq<int>, count: int) -> bool {
    &&& covers(order, count)
    &&& order.no_duplicates()
    &&& forall|i: int| 0 <= i < order.len() ==> 0 <= #[trigger] order[i] < count
}

/// The output buffer after the threads in `order` have run one after another.
pub open spec fn added_in_order<T: Scalar>(
    c: Seq<T>,
    a: Seq<T>,
    b: Seq<T>,
    order: Seq<int>,
) -> Seq<T>
    decreases order.len(),
{
    if order.len() == 0 {
        c
    } else {
        added(added_in_order(c, a, b, order.drop_last()), a, b, order.last())
    }
}

proof fn lemma_added_in_order<T: Scalar>(c: Seq<T>, a: Seq<T>, b: Seq<T>, order: Seq<int>)
    requires
        a.len() <= c.len(),
    ensures
        added_in_order(c, a, b, order).len() == c.len(),
        forall|i: int|
            0 <= i < c.len() ==> #[trigger] added_in_order(c, a, b, order)[i] == (
            if i < a.len() && order.contains(i) {
                a[i].plus_spec(b[i])
            } else {
                c[i]
            }),
    decreases order.len(),
{
    if order.len() > 0 {
        let (less, last) = (order.drop_last(), order.last());
        lemma_added_in_order(c, a, b, less);
        assert forall|i: int| 0 <= i < c.len() implies #[trigger] added_in_order(c, a, b, order)[i]
            == (if i < a.len() && order.contains(i) {
            a[i].plus_spec(b[i])
        } else {
            c[i]
        }) by {
            lemma_contains_split(order, i);
        }
    }
}

/// An element of a sequence is its last one or is among the others.
proof fn lemma_contains_split(order: Seq<int>, x: int)
    requires
        order.len() > 0,
    ensures
        order.contains(x) <==> order.drop_last().contains(x) || order.last() == x,
{
    if order.contains(x) {
        let at = choose|at: int| 0 <= at < order.len() && order[at] == x;
        if at < order.len() - 1 {
            assert(order.drop_last()[at] == x);
        }
    }
    if order.drop_last().contains(x) {
        let at = choose|at: int| 0 <= at < order.len() - 1 && order.drop_last()[at] == x;
        assert(order[at] == x);
    }
    if order.last() == x {
        assert(order[order.len() - 1] == x);
    }
}

/// Where nothing repeats, the last element is not among the others.
proof fn lemma_last_is_new(order: Seq<int>)
    requires
        order.len() > 0,
        order.no_duplicates(),
    ensures
        !order.drop_last().contains(order.last()),
        order.drop_last().no_duplicates(),
{
    let less = order.drop_last();
    if less.contains(order.last()) {
        let at = choose|at: int| 0 <= at < less.len() && less[at] == order.last();
        assert(order[at] == order[order.len() - 1]);
    }
}

/// The threads of a vector addition may run in any order, as long as every
/// element has its thread. Threads past the end, and threads whose index
/// repeats, do no harm, and an output buffer that is longer keeps the rest.
pub proof fn vector_add_in_any_order<T: Scalar>(
    c: Seq<T>,
    a: Seq<T>,
    b: Seq<T>,
    order: Seq<int>,
)
    requires
        a.len() <= b.len(),
        a.len() <= c.len(),
        covers(order, a.len() as int),
    ensures
        added_in_order(c, a, b, order) == sums(a, b) + c.skip(a.len() as int),
{
    lemma_added_in_order(c, a, b, order);
    assert(added_in_order(c, a, b, order) =~= sums(a, b) + c.skip(a.len() as int));
}

/// The shared buffer after the threads in `order` have stored one value each, one
/// after another. What thread `t` stores, in cell `t`, is fixed beforehand.
pub open spec fn filled_in_order<T>(
    s: Seq<T>,
    value: spec_fn(int) -> T,
    order: Seq<int>,
) -> Seq<T>
    decreases order.len(),
{
    if order.len() == 0 {
        s
    } else {
        let (before, t) = (filled_in_order(s, value, order.drop_last()), order.last());
        if 0 <= t < s.len() {
            before.update(t, value(t))
        } else {
            before
        }
    }
}

proof fn lemma_filled_in_order<T>(s: Seq<T>, value: spec_fn(int) -> T, order: Seq<int>)
    ensures
        filled_in_order(s, value, order).len() == s.len(),
        forall|t: int|
            0 <= t < s.len() ==> #[trigger] filled_in_order(s, value, order)[t] == (
            if order.contains(t) {
                value(t)
            } else {
                s[t]
            }),
    decreases order.len(),
{
    if order.len() > 0 {
        lemma_filled_in_order(s, value, order.drop_last());
        assert forall|t: int| 0 <= t < s.len() implies #[trigger] filled_in_order(s, value, order)[t]
            == (if order.contains(t) {
            value(t)
        } else {
            s[t]
        }) by {
            lemma_contains_split(order, t);
        }
    }
}

/// The threads of a block may load shared memory in any order, whatever it held
/// before.
pub proof fn filling_in_any_order<T>(s: Seq<T>, value: spec_fn(int) -> T, order: Seq<int>)
    requires
        covers(order, s.len() as int),
    ensures
        filled_in_order(s, value, order) == Seq::new(s.len(), value),
{
    lemma_filled_in_order(s, value, order);
    assert(filled_in_order(s, value, order) =~= Seq::new(s.len(), value));
}

/// The shared buffer after thread `t` has taken its part in a halving step.
pub open spec fn halved_at<T: Scalar>(s: Seq<T>, stride: int, t: int) -> Seq<T> {
    if t < stride {
        s.update(t, s[t].plus_spec(s[t + stride]))
    } else {
        s
    }
}

/// The shared buffer after the threads in `order` have taken their parts in a
/// halving step, one after another.
pub open spec fn halved_in_order<T: Scalar>(s: Seq<T>, stride: int, order: Seq<int>) -> Seq<T>
    decreases order.len(),
{
    if order.len() == 0 {
        s
    } else {
        halved_at(halved_in_order(s, stride, order.drop_last()), stride, order.last())
    }
}

proof fn lemma_halved_in_order<T: Scalar>(s: Seq<T>, stride: int, order: Seq<int>)
    requires
        0 <= stride,
        2 * stride <= s.len(),
        order.no_duplicates(),
        forall|i: int| 0 <= i < order.len() ==> 0 <= #[trigger] order[i],
    ensures
        halved_in_order(s, stride, order).len() == s.len(),
        forall|t: int|
            0 <= t < s.len() ==> #[trigger] halved_in_order(s, stride, order)[t] == (if t < stride
                && order.contains(t) {
                s[t].plus_spec(s[t + stride])
            } else {
                s[t]
            }),
    decreases order.len(),
{
    if order.len() > 0 {
        let (less, last) = (order.drop_last(), order.last());
        assert forall|i: int| 0 <= i < less.len() implies 0 <= #[trigger] less[i] by {
            assert(less[i] == order[i]);
        }
        lemma_halved_in_order(s, stride, less);
        assert(0 <= last) by {
            assert(order[order.len() - 1] == last);
        }
        lemma_last_is_new(order);
        let before = halved_in_order(s, stride, less);
        if last < stride {
            assert(before[last] == s[last]);
            assert(before[last + stride] == s[last + stride]);
        }
        assert forall|t: int| 0 <= t < s.len() implies #[trigger] halved_in_order(s, stride, order)[
        t] == (if t < stride && order.contains(t) {
            s[t].plus_spec(s[t + stride])
        } else {
            s[t]
        }) by {
            lemma_contains_split(order, t);
        }
    }
}

/// Between two barriers the threads of a summing kernel may run in any order:
/// none reads what another writes, so the halving step is the same.
pub proof fn halving_in_any_order<T: Scalar>(s: Seq<T>, stride: int, order: Seq<int>)
    requires
        0 <= stride,
        2 * stride <= s.len(),
        order.no_duplicates(),
        forall|i: int| 0 <= i < order.len() ==> 0 <= #[trigger] order[i],
        covers(order, stride),
    ensures
        halved_in_order(s, stride, order).take(stride) == halve(s.take(2 * stride), stride),
{
    lemma_halved_in_order(s, stride, order);
    let after = halved_in_order(s, stride, order);
    assert forall|t: int| 0 <= t < stride implies after.take(stride)[t] == halve(
        s.take(2 * stride),
        stride,
    )[t] by {
        assert(after[t] == s[t].plus_spec(s[t + stride]));
    }
    assert(after.take(stride) =~= halve(s.take(2 * stride), stride));
}

/// What a block of a summing kernel delivers if its threads load in one order and
/// halve in one order per step, starting from a shared buffer that holds anything.
pub open spec fn summed_in_order<T: Scalar>(
    shared: Seq<T>,
    values: Seq<T>,
    block: int,
    load: Seq<int>,
    halvings: (Seq<int>, Seq<int>, Seq<int>),
) -> T {
    let loaded = filled_in_order(
        shared,
        |t: int| lane(values, block * REDUCE_BLOCK_SIZE + t),
        load,
    );
    let once = halved_in_order(loaded, 128, halvings.0);
    let twice = halved_in_order(once, 64, halvings.1);
    let thrice = halved_in_order(twice, 32, halvings.2);
    sum(thrice.take(WARP_SIZE as int))
}

/// Whatever order the threads of a block take between two barriers, and whatever
/// shared memory held before, a summing kernel delivers the same partial sum.
pub proof fn summing_block_in_any_order<T: Scalar>(
    shared: Seq<T>,
    values: Seq<T>,
    block: int,
    load: Seq<int>,
    halvings: (Seq<int>, Seq<int>, Seq<int>),
)
    requires
        shared.len() == REDUCE_BLOCK_SIZE,
        each_once(load, REDUCE_BLOCK_SIZE as int),
        each_once(halvings.0, REDUCE_BLOCK_SIZE as int),
        each_once(halvings.1, REDUCE_BLOCK_SIZE as int),
        each_once(halvings.2, REDUCE_BLOCK_SIZE as int),
    ensures
        summed_in_order(shared, values, block, load, halvings) == block_sum(values, block),
{
    let value = |t: int| lane(values, block * REDUCE_BLOCK_SIZE + t);
    let loaded = filled_in_order(shared, value, load);
    let once = halved_in_order(loaded, 128, halvings.0);
    let twice = halved_in_order(once, 64, halvings.1);
    let thrice = halved_in_order(twice, 32, halvings.2);
    filling_in_any_order(shared, value, load);
    assert(loaded =~= block_lanes(values, block));
    lemma_halved_in_order(loaded, 128, halvings.0);
    lemma_halved_in_order(once, 64, halvings.1);
    halving_in_any_order(loaded, 128, halvings.0);
    halving_in_any_order(once, 64, halvings.1);
    halving_in_any_order(twice, 32, halvings.2);
    assert(loaded.take(256) =~= loaded);
    reveal_with_fuel(halve_down, 4);
    assert(thrice.take(32) == halve(halve(halve(loaded, 128), 64), 32));
}

/// The running sums of a block after the threads in `order` have added the
/// products along a pair of tiles, one after another.
pub open spec fn accumulated_in_order<T: Scalar>(
    sums: Seq<T>,
    tile_a: Seq<T>,
    tile_b: Seq<T>,
    order: Seq<int>,
) -> Seq<T>
    decreases order.len(),
{
    if order.len() == 0 {
        sums
    } else {
        let before = accumulated_in_order(sums, tile_a, tile_b, order.drop_last());
        let t = order.last();
        before.update(
            t,
            accumulated(tile_a, tile_b, t, before[t], MATMUL_TILE_SIZE as nat),
        )
    }
}

proof fn lemma_accumulated_in_order<T: Scalar>(
    sums: Seq<T>,
    tile_a: Seq<T>,
    tile_b: Seq<T>,
    order: Seq<int>,
)
    requires
        order.no_duplicates(),
        forall|i: int| 0 <= i < order.len() ==> 0 <= #[trigger] order[i] < sums.len(),
    ensures
        accumulated_in_order(sums, tile_a, tile_b, order).len() == sums.len(),
        forall|t: int|
            0 <= t < sums.len() ==> #[trigger] accumulated_in_order(sums, tile_a, tile_b, order)[t]
                == (if order.contains(t) {
                accumulated(tile_a, tile_b, t, sums[t], MATMUL_TILE_SIZE as nat)
            } else {
                sums[t]
            }),
    decreases order.len(),
{
    if order.len() > 0 {
        let (less, last) = (order.drop_last(), order.last());
        assert forall|i: int| 0 <= i < less.len() implies 0 <= #[trigger] less[i] < sums.len() by {
            assert(less[i] == order[i]);
        }
        lemma_accumulated_in_order(sums, tile_a, tile_b, less);
        assert(order[order.len() - 1] == last);
        lemma_last_is_new(order);
        assert(accumulated_in_order(sums, tile_a, tile_b, less)[last] == sums[last]);
        assert forall|t: int| 0 <= t < sums.len() implies #[trigger] accumulated_in_order(
            sums,
            tile_a,
            tile_b,
            order,
        )[t] == (if order.contains(t) {
            accumulated(tile_a, tile_b, t, sums[t], MATMUL_TILE_SIZE as nat)
        } else {
            sums[t]
        }) by {
            lemma_contains_split(order, t);
        }
    }
}

/// The threads of a block may add the products along a pair of tiles in any order.
pub proof fn accumulating_in_any_order<T: Scalar>(
    sums: Seq<T>,
    tile_a: Seq<T>,
    tile_b: Seq<T>,
    order: Seq<int>,
)
    requires
        each_once(order, sums.len() as int),
    ensures
        accumulated_in_order(sums, tile_a, tile_b, order) == Seq::new(
            sums.len(),
            |t: int| accumulated(tile_a, tile_b, t, sums[t], MATMUL_TILE_SIZE as nat),
        ),
{
    lemma_accumulated_in_order(sums, tile_a, tile_b, order);
    assert(accumulated_in_order(sums, tile_a, tile_b, order) =~= Seq::new(
        sums.len(),
        |t: int| accumulated(tile_a, tile_b, t, sums[t], MATMUL_TILE_SIZE as nat),
    ));
}

/// The matrix after thread `t` of a block has stored its entry. Threads outside of
/// the matrix store nothing.
pub open spec fn stored_at<T>(
    c: Seq<T>,
    entries: Seq<T>,
    m: nat,
    n: nat,
    row0: int,
    col0: int,
    t: int,
) -> Seq<T> {
    let (row, col) = (row0 + t / 16, col0 + t % 16);
    if row < m && col < n {
        c.update(row * n + col, entries[t])
    } else {
        c
    }
}

/// The matrix after the threads in `order` have stored their entries, one after
/// another.
pub open spec fn stored_in_order<T>(
    c: Seq<T>,
    entries: Seq<T>,
    m: nat,
    n: nat,
    row0: int,
    col0: int,
    order: Seq<int>,
) -> Seq<T>
    decreases order.len(),
{
    if order.len() == 0 {
        c
    } else {
        stored_at(
            stored_in_order(c, entries, m, n, row0, col0, order.drop_last()),
            entries,
            m,
            n,
            row0,
            col0,
            order.last(),
        )
    }
}

/// The thread of a block that an entry belongs to.
spec fn thread_of(n: nat, row0: int, col0: int, p: int) -> int {
    (p / (n as int) - row0) * 16 + (p % (n as int) - col0)
}

proof fn lemma_stored_in_order<T>(
    c: Seq<T>,
    entries: Seq<T>,
    m: nat,
    n: nat,
    row0: int,
    col0: int,
    order: Seq<int>,
)
    requires
        m * n <= c.len(),
        0 <= row0,
        0 <= col0,
        forall|i: int| 0 <= i < order.len() ==> 0 <= #[trigger] order[i] < 256,
    ensures
        stored_in_order(c, entries, m, n, row0, col0, order).len() == c.len(),
        forall|p: int|
            0 <= p < c.len() ==> #[trigger] stored_in_order(c, entries, m, n, row0, col0, order)[p]
                == (if stored(m, n, row0, col0, p, 256) && order.contains(
                thread_of(n, row0, col0, p),
            ) {
                entries[thread_of(n, row0, col0, p)]
            } else {
                c[p]
            }),
    decreases order.len(),
{
    if order.len() > 0 {
        let (less, t) = (order.drop_last(), order.last());
        assert forall|i: int| 0 <= i < less.len() implies 0 <= #[trigger] less[i] < 256 by {
            assert(less[i] == order[i]);
        }
        lemma_stored_in_order(c, entries, m, n, row0, col0, less);
        assert(order[order.len() - 1] == t);
        let (row, col) = (row0 + t / 16, col0 + t % 16);
        if row < m && col < n {
            lemma_row_major(m, n, row, col);
        }
        let before = stored_in_order(c, entries, m, n, row0, col0, less);
        let after = stored_in_order(c, entries, m, n, row0, col0, order);
        assert forall|p: int| 0 <= p < c.len() implies #[trigger] after[p] == (if stored(
            m,
            n,
            row0,
            col0,
            p,
            256,
        ) && order.contains(thread_of(n, row0, col0, p)) {
            entries[thread_of(n, row0, col0, p)]
        } else {
            c[p]
        }) by {
            lemma_contains_split(order, thread_of(n, row0, col0, p));
            if p < m * n {
                lemma_position(m, n, p);
            }
        }
    }
}

/// The threads of a block may store their entries in any order.
pub proof fn storing_in_any_order<T>(
    c: Seq<T>,
    entries: Seq<T>,
    m: nat,
    n: nat,
    row0: int,
    col0: int,
    order: Seq<int>,
)
    requires
        m * n <= c.len(),
        0 <= row0,
        0 <= col0,
        each_once(order, 256),
    ensures
        stored_in_order(c, entries, m, n, row0, col0, order) == block_stored(
            c,
            entries,
            m,
            n,
            row0,
            col0,
            256,
        ),
{
    lemma_stored_in_order(c, entries, m, n, row0, col0, order);
    assert(stored_in_order(c, entries, m, n, row0, col0, order) =~= block_stored(
        c,
        entries,
        m,
        n,
        row0,
        col0,
        256,
    ));
}

/// What the threads of a block of [`crate::kernels::matmul`] hold: two shared
/// tiles, and one running sum per thread.
pub struct BlockMemory<T> {
    pub tile_a: Seq<T>,
    pub tile_b: Seq<T>,
    pub sums: Seq<T>,
}

/// What a block holds after walking along one pair of tiles per element of
/// `orders`, which gives the order of its threads while loading and while adding.
pub open spec fn walked_in_order<T: Scalar>(
    start: BlockMemory<T>,
    a: Seq<T>,
    b: Seq<T>,
    m: nat,
    n: nat,
    k: nat,
    row0: int,
    col0: int,
    orders: Seq<(Seq<int>, Seq<int>)>,
) -> BlockMemory<T>
    decreases orders.len(),
{
    if orders.len() == 0 {
        start
    } else {
        let before = walked_in_order(start, a, b, m, n, k, row0, col0, orders.drop_last());
        let kk = (orders.len() - 1) * 16;
        let (load, walk) = orders.last();
        let tile_a = filled_in_order(
            before.tile_a,
            |t: int| padded(a, m, k, row0 + t / 16, kk + t % 16),
            load,
        );
        let tile_b = filled_in_order(
            before.tile_b,
            |t: int| padded(b, k, n, kk + t / 16, col0 + t % 16),
            load,
        );
        BlockMemory {
            tile_a,
            tile_b,
            sums: accumulated_in_order(before.sums, tile_a, tile_b, walk),
        }
    }
}

proof fn lemma_walked_in_order<T: Scalar>(
    start: BlockMemory<T>,
    a: Seq<T>,
    b: Seq<T>,
    m: nat,
    n: nat,
    k: nat,
    row0: int,
    col0: int,
    orders: Seq<(Seq<int>, Seq<int>)>,
)
    requires
        start.tile_a.len() == 256,
        start.tile_b.len() == 256,
        start.sums == zeros::<T>(256),
        forall|i: int|
            0 <= i < orders.len() ==> each_once((#[trigger] orders[i]).0, 256) && each_once(
                orders[i].1,
                256,
            ),
    ensures
        ({
            let end = walked_in_order(start, a, b, m, n, k, row0, col0, orders);
            &&& end.tile_a.len() == 256
            &&& end.tile_b.len() == 256
            &&& end.sums.len() == 256
            &&& forall|t: int|
                0 <= t < 256 ==> #[trigger] end.sums[t] == sum(
                    tiled_terms(
                        a,
                        b,
                        m,
                        n,
                        k,
                        row0 + t / 16,
                        col0 + t % 16,
                        orders.len() * 16,
                    ),
                )
        }),
    decreases orders.len(),
{
    if orders.len() == 0 {
        assert forall|t: int| 0 <= t < 256 implies #[trigger] start.sums[t] == sum(
            tiled_terms(a, b, m, n, k, row0 + t / 16, col0 + t % 16, 0),
        ) by {
            assert(tiled_terms(a, b, m, n, k, row0 + t / 16, col0 + t % 16, 0).len() == 0);
        }
    } else {
        let less = orders.drop_last();
        assert forall|i: int| 0 <= i < less.len() implies each_once(
            (#[trigger] less[i]).0,
            256,
        ) && each_once(less[i].1, 256) by {
            assert(less[i] == orders[i]);
        }
        lemma_walked_in_order(start, a, b, m, n, k, row0, col0, less);
        let before = walked_in_order(start, a, b, m, n, k, row0, col0, less);
        let kk = (orders.len() - 1) as nat * 16;
        assert(orders[orders.len() - 1] == orders.last());
        let (load, walk) = orders.last();
        let value_a = |t: int| padded(a, m, k, row0 + t / 16, kk + t % 16);
        let value_b = |t: int| padded(b, k, n, kk + t / 16, col0 + t % 16);
        let tile_a = filled_in_order(before.tile_a, value_a, load);
        let tile_b = filled_in_order(before.tile_b, value_b, load);
        filling_in_any_order(before.tile_a, value_a, load);
        filling_in_any_order(before.tile_b, value_b, load);
        assert(tile_a =~= tile(a, m, k, row0, kk as int));
        assert(tile_b =~= tile(b, k, n, kk as int, col0));
        accumulating_in_any_order(before.sums, tile_a, tile_b, walk);
        let end = walked_in_order(start, a, b, m, n, k, row0, col0, orders);
        assert forall|t: int| 0 <= t < 256 implies #[trigger] end.sums[t] == sum(
            tiled_terms(a, b, m, n, k, row0 + t / 16, col0 + t % 16, orders.len() * 16),
        ) by {
            lemma_accumulate(a, b, m, n, k, row0, col0, kk, t, 16);
            assert(before.sums[t] == sum(
                tiled_terms(a, b, m, n, k, row0 + t / 16, col0 + t % 16, kk),
            ));
        }
    }
}

/// Whatever order the threads of a block take between two barriers, and whatever
/// the shared tiles held before, a block of a matrix multiplication writes the
/// same entries.
pub proof fn matmul_block_in_any_order<T: Scalar>(
    start: BlockMemory<T>,
    c: Seq<T>,
    a: Seq<T>,
    b: Seq<T>,
    m: nat,
    n: nat,
    k: nat,
    block_x: nat,
    block_y: nat,
    orders: Seq<(Seq<int>, Seq<int>)>,
    store: Seq<int>,
)
    requires
        m * n <= c.len(),
        start.tile_a.len() == 256,
        start.tile_b.len() == 256,
        start.sums == zeros::<T>(256),
        orders.len() * MATMUL_TILE_SIZE == tiled_depth(k),
        forall|i: int|
            0 <= i < orders.len() ==> each_once((#[trigger] orders[i]).0, 256) && each_once(
                orders[i].1,
                256,
            ),
        each_once(store, 256),
    ensures
        stored_in_order(
            c,
            walked_in_order(
                start,
                a,
                b,
                m,
                n,
                k,
                (block_y * MATMUL_TILE_SIZE) as int,
                (block_x * MATMUL_TILE_SIZE) as int,
                orders,
            ).sums,
            m,
            n,
            (block_y * MATMUL_TILE_SIZE) as int,
            (block_x * MATMUL_TILE_SIZE) as int,
            store,
        ) == block_written(c, a, b, m, n, k, block_x as int, block_y as int),
{
    let (row0, col0) = ((block_y * 16) as int, (block_x * 16) as int);
    lemma_walked_in_order(start, a, b, m, n, k, row0, col0, orders);
    let entries = walked_in_order(start, a, b, m, n, k, row0, col0, orders).sums;
    storing_in_any_order(c, entries, m, n, row0, col0, store);
    let (left, right) = (
        block_stored(c, entries, m, n, row0, col0, 256),
        block_written(c, a, b, m, n, k, block_x as int, block_y as int),
    );
    assert forall|p: int| 0 <= p < c.len() implies left[p] == right[p] by {
        if stored(m, n, row0, col0, p, 256) {
            let t = thread_of(n, row0, col0, p);
            assert(t / 16 == p / (n as int) - row0 && t % 16 == p % (n as int) - col0);
            assert(entries[t] == tiled_entry(a, b, m, n, k, row0 + t / 16, col0 + t % 16));
        }
    }
    assert(left =~= right);
}

/// Blocks of a summing kernel may run in any order.
pub proof fn summing_blocks_commute<T: Scalar>(
    partials: Seq<T>,
    values: Seq<T>,
    i: int,
    j: int,
)
    requires
        0 <= i < partials.len(),
        0 <= j < partials.len(),
    ensures
        partials.update(i, block_sum(values, i)).update(j, block_sum(values, j))
            == partials.update(j, block_sum(values, j)).update(i, block_sum(values, i)),
{
    assert(partials.update(i, block_sum(values, i)).update(j, block_sum(values, j))
        =~= partials.update(j, block_sum(values, j)).update(i, block_sum(values, i)));
}

/// Blocks of a matrix multiplication may run in any order.
pub proof fn matmul_blocks_commute<T: Scalar>(
    c: Seq<T>,
    a: Seq<T>,
    b: Seq<T>,
    m: nat,
    n: nat,
    k: nat,
    first: (int, int),
    second: (int, int),
)
    ensures
        block_written(
            block_written(c, a, b, m, n, k, first.0, first.1),
            a,
            b,
            m,
            n,
            k,
            second.0,
            second.1,
        ) == block_written(
            block_written(c, a, b, m, n, k, second.0, second.1),
            a,
            b,
            m,
            n,
            k,
            first.0,
            first.1,
        ),
{
    assert(block_written(
        block_written(c, a, b, m, n, k, first.0, first.1),
        a,
        b,
        m,
        n,
        k,
        second.0,
        second.1,
    ) =~= block_written(
        block_written(c, a, b, m, n, k, second.0, second.1),
        a,
        b,
        m,
        n,
        k,
        first.0,
        first.1,
    ));
}

} // verus!
