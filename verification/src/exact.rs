//! Sums of whole numbers, in an arithmetic that need not be associative.
//!
//! Floating-point addition may not be reordered in general, so a launch may round
//! otherwise than the CPU does. While all numbers are whole and small enough,
//! nothing is rounded at all: then every order of summation comes to the same
//! number, and this number is the true sum.

use vstd::prelude::*;

use crate::backend::{entry_terms, expected, lemma_row_major, Outcome};
use crate::grid::{lemma_ceil_div_covers, partial_sums, reduce_blocks};
use crate::job::Command;
use crate::kernels::{block_lanes, block_sum, halve, halve_down, tiled_depth, REDUCE_BLOCK_SIZE};
use crate::laws::launched_entries_are_rows_times_columns;
use crate::scalar::{products, sum, sums, zeros, Scalar};
use crate::simulate::launched_outcome;

verus! {

/// The magnitude of a number.
pub open spec fn abs(n: int) -> nat {
    if n < 0 {
        -n as nat
    } else {
        n as nat
    }
}

/// Zero stands for zero, and the sum of two elements that stand for whole numbers
/// is exact while no number involved exceeds `bound` in magnitude. `value` tells
/// which whole number an element stands for, if any. Single precision has this
/// property with a bound of 2^24.
pub open spec fn exact_addition<T: Scalar>(value: spec_fn(T) -> Option<int>, bound: nat) -> bool {
    &&& value(T::zero_spec()) == Some(0int)
    &&& forall|x: T, y: T|
        #![trigger x.plus_spec(y)]
        value(x) is Some && value(y) is Some && abs(value(x)->0) <= bound && abs(value(y)->0)
            <= bound && abs(value(x)->0 + value(y)->0) <= bound ==> value(x.plus_spec(y)) == Some(
            value(x)->0 + value(y)->0,
        )
}

/// The product of two elements that stand for whole numbers is exact while it does
/// not exceed `bound` in magnitude. Single precision has this property with a bound
/// of 2^24.
pub open spec fn exact_multiplication<T: Scalar>(
    value: spec_fn(T) -> Option<int>,
    bound: nat,
) -> bool {
    forall|x: T, y: T|
        #![trigger x.times_spec(y)]
        value(x) is Some && value(y) is Some && abs(value(x)->0 * value(y)->0) <= bound ==> value(
            x.times_spec(y),
        ) == Some(value(x)->0 * value(y)->0)
}

/// Wrapping integers are exact while nothing wraps.
pub proof fn wrapping_integers_are_exact()
    ensures
        exact_addition(|x: i32| Some(x as int), i32::MAX as nat),
        exact_multiplication(|x: i32| Some(x as int), i32::MAX as nat),
{
    let value = |x: i32| Some(x as int);
    assert forall|x: i32, y: i32|
        #![trigger x.times_spec(y)]
        abs(value(x)->0 * value(y)->0) <= i32::MAX implies value(x.times_spec(y)) == Some(
        value(x)->0 * value(y)->0,
    ) by {
        assert(value(x)->0 == x && value(y)->0 == y);
    }
}

/// Every element stands for a whole number.
pub open spec fn whole<T>(value: spec_fn(T) -> Option<int>, s: Seq<T>) -> bool {
    forall|i: int| 0 <= i < s.len() ==> value(#[trigger] s[i]) is Some
}

/// The true sum of the numbers that the elements stand for.
pub open spec fn total<T>(value: spec_fn(T) -> Option<int>, s: Seq<T>) -> int
    decreases s.len(),
{
    if s.len() == 0 {
        0
    } else {
        total(value, s.drop_last()) + value(s.last())->0
    }
}

/// The sum of the magnitudes of the numbers that the elements stand for.
pub open spec fn magnitude<T>(value: spec_fn(T) -> Option<int>, s: Seq<T>) -> nat
    decreases s.len(),
{
    if s.len() == 0 {
        0
    } else {
        magnitude(value, s.drop_last()) + abs(value(s.last())->0)
    }
}

/// The true inner product of the numbers that the elements stand for.
pub open spec fn inner<T>(value: spec_fn(T) -> Option<int>, a: Seq<T>, b: Seq<T>) -> int
    decreases a.len(),
{
    if a.len() == 0 {
        0
    } else {
        inner(value, a.drop_last(), b.drop_last()) + value(a.last())->0 * value(b.last())->0
    }
}

/// The sum of the magnitudes of the terms of an inner product.
pub open spec fn inner_magnitude<T>(value: spec_fn(T) -> Option<int>, a: Seq<T>, b: Seq<T>) -> nat
    decreases a.len(),
{
    if a.len() == 0 {
        0
    } else {
        inner_magnitude(value, a.drop_last(), b.drop_last()) + abs(
            value(a.last())->0 * value(b.last())->0,
        )
    }
}

/// A run of whole numbers stays one without its last element.
proof fn lemma_whole_drop_last<T>(value: spec_fn(T) -> Option<int>, s: Seq<T>)
    requires
        whole(value, s),
        s.len() > 0,
    ensures
        whole(value, s.drop_last()),
        value(s.last()) is Some,
{
    assert forall|i: int| 0 <= i < s.drop_last().len() implies value(
        #[trigger] s.drop_last()[i],
    ) is Some by {
        assert(value(s[i]) is Some);
    }
    assert(value(s[s.len() - 1]) is Some);
}

/// While the magnitudes stay within the bound, a sum from the left is exact.
pub proof fn sum_is_exact<T: Scalar>(value: spec_fn(T) -> Option<int>, bound: nat, s: Seq<T>)
    requires
        exact_addition(value, bound),
        whole(value, s),
        magnitude(value, s) <= bound,
    ensures
        value(sum(s)) == Some(total(value, s)),
        abs(total(value, s)) <= magnitude(value, s),
    decreases s.len(),
{
    if s.len() > 0 {
        lemma_whole_drop_last(value, s);
        sum_is_exact(value, bound, s.drop_last());
    }
}

/// What two runs laid end to end amount to.
proof fn lemma_concatenation<T>(value: spec_fn(T) -> Option<int>, a: Seq<T>, b: Seq<T>)
    ensures
        total(value, a + b) == total(value, a) + total(value, b),
        magnitude(value, a + b) == magnitude(value, a) + magnitude(value, b),
    decreases b.len(),
{
    if b.len() == 0 {
        assert(a + b =~= a);
    } else {
        assert((a + b).drop_last() =~= a + b.drop_last());
        lemma_concatenation(value, a, b.drop_last());
    }
}

/// What zeros amount to.
proof fn lemma_zeros<T: Scalar>(value: spec_fn(T) -> Option<int>, n: nat)
    requires
        value(T::zero_spec()) == Some(0int),
    ensures
        whole(value, zeros::<T>(n)),
        total(value, zeros::<T>(n)) == 0,
        magnitude(value, zeros::<T>(n)) == 0,
    decreases n,
{
    if n > 0 {
        lemma_zeros::<T>(value, (n - 1) as nat);
        assert(zeros::<T>(n).drop_last() =~= zeros((n - 1) as nat));
    }
}

/// Adding two runs element by element keeps what they amount to.
proof fn lemma_sums<T: Scalar>(
    value: spec_fn(T) -> Option<int>,
    bound: nat,
    a: Seq<T>,
    b: Seq<T>,
)
    requires
        exact_addition(value, bound),
        a.len() == b.len(),
        whole(value, a),
        whole(value, b),
        magnitude(value, a) + magnitude(value, b) <= bound,
    ensures
        whole(value, sums(a, b)),
        total(value, sums(a, b)) == total(value, a) + total(value, b),
        magnitude(value, sums(a, b)) <= magnitude(value, a) + magnitude(value, b),
    decreases a.len(),
{
    if a.len() > 0 {
        let (p, q) = (a.drop_last(), b.drop_last());
        lemma_whole_drop_last(value, a);
        lemma_whole_drop_last(value, b);
        lemma_sums(value, bound, p, q);
        assert(sums(a, b).drop_last() =~= sums(p, q));
        assert(sums(a, b).last() == a.last().plus_spec(b.last()));
        assert forall|i: int| 0 <= i < sums(a, b).len() implies value(
            #[trigger] sums(a, b)[i],
        ) is Some by {
            if i < p.len() {
                assert(value(sums(p, q)[i]) is Some);
                assert(sums(a, b)[i] == sums(p, q)[i]);
            } else {
                assert(sums(a, b)[i] == sums(a, b).last());
            }
        }
    }
}

/// A part of a run of whole numbers is one.
proof fn lemma_whole_part<T>(value: spec_fn(T) -> Option<int>, s: Seq<T>, from: int, to: int)
    requires
        whole(value, s),
        0 <= from <= to <= s.len(),
    ensures
        whole(value, s.subrange(from, to)),
{
    let part = s.subrange(from, to);
    assert forall|i: int| 0 <= i < part.len() implies value(#[trigger] part[i]) is Some by {
        assert(value(s[from + i]) is Some);
    }
}

/// A halving step keeps what a run amounts to.
proof fn lemma_halve<T: Scalar>(
    value: spec_fn(T) -> Option<int>,
    bound: nat,
    s: Seq<T>,
    stride: nat,
)
    requires
        exact_addition(value, bound),
        s.len() == 2 * stride,
        whole(value, s),
        magnitude(value, s) <= bound,
    ensures
        whole(value, halve(s, stride as int)),
        total(value, halve(s, stride as int)) == total(value, s),
        magnitude(value, halve(s, stride as int)) <= magnitude(value, s),
{
    let (low, high) = (s.subrange(0, stride as int), s.subrange(stride as int, s.len() as int));
    assert(s =~= low + high);
    assert(halve(s, stride as int) =~= sums(low, high));
    lemma_whole_part(value, s, 0, stride as int);
    lemma_whole_part(value, s, stride as int, s.len() as int);
    lemma_concatenation(value, low, high);
    lemma_sums(value, bound, low, high);
}

/// A block delivers the true sum of what its threads loaded.
proof fn lemma_block_sum<T: Scalar>(
    value: spec_fn(T) -> Option<int>,
    bound: nat,
    values: Seq<T>,
    block: int,
)
    requires
        exact_addition(value, bound),
        whole(value, block_lanes(values, block)),
        magnitude(value, block_lanes(values, block)) <= bound,
    ensures
        value(block_sum(values, block)) == Some(total(value, block_lanes(values, block))),
        abs(total(value, block_lanes(values, block))) <= magnitude(
            value,
            block_lanes(values, block),
        ),
{
    let s = block_lanes(values, block);
    lemma_halve(value, bound, s, 128);
    lemma_halve(value, bound, halve(s, 128), 64);
    lemma_halve(value, bound, halve(halve(s, 128), 64), 32);
    reveal_with_fuel(halve_down, 4);
    sum_is_exact(value, bound, halve(halve(halve(s, 128), 64), 32));
}

/// The partial sums of the first blocks amount to what the elements that fall to
/// those blocks amount to.
proof fn lemma_partial_sums<T: Scalar>(
    value: spec_fn(T) -> Option<int>,
    bound: nat,
    values: Seq<T>,
    blocks: nat,
    upto: nat,
)
    requires
        exact_addition(value, bound),
        whole(value, values),
        magnitude(value, values) <= bound,
        upto == (if blocks * REDUCE_BLOCK_SIZE <= values.len() {
            (blocks * REDUCE_BLOCK_SIZE) as nat
        } else {
            values.len()
        }),
    ensures
        whole(value, partial_sums(values, blocks)),
        total(value, partial_sums(values, blocks)) == total(value, values.take(upto as int)),
        magnitude(value, partial_sums(values, blocks)) <= magnitude(
            value,
            values.take(upto as int),
        ),
    decreases blocks,
{
    let partials = partial_sums(values, blocks);
    if blocks == 0 {
        assert(values.take(0) =~= Seq::<T>::empty());
    } else {
        let block = (blocks - 1) as nat;
        let from = if block * 256 <= values.len() {
            block * 256
        } else {
            values.len()
        };
        let less = partial_sums(values, block);
        lemma_partial_sums(value, bound, values, block, from);
        let (taken, chunk) = (values.take(from as int), values.subrange(from as int, upto as int));
        let rest = (256 - (upto - from)) as nat;
        let lanes = block_lanes(values, block as int);
        assert(lanes =~= chunk + zeros(rest));
        assert(values.take(upto as int) =~= taken + chunk);
        assert(values =~= taken + chunk + values.skip(upto as int));
        lemma_concatenation(value, taken, chunk);
        lemma_concatenation(value, taken + chunk, values.skip(upto as int));
        lemma_zeros::<T>(value, rest);
        lemma_concatenation(value, chunk, zeros(rest));
        lemma_whole_part(value, values, from as int, upto as int);
        assert forall|i: int| 0 <= i < lanes.len() implies value(#[trigger] lanes[i]) is Some by {
            if i < chunk.len() {
                assert(value(chunk[i]) is Some);
            } else {
                assert(value(zeros::<T>(rest)[i - chunk.len()]) is Some);
            }
        }
        lemma_block_sum(value, bound, values, block as int);
        assert(partials.drop_last() =~= less);
        assert forall|i: int| 0 <= i < partials.len() implies value(
            #[trigger] partials[i],
        ) is Some by {
            if i < less.len() {
                assert(value(less[i]) is Some);
            }
        }
    }
}

/// While the magnitudes stay within the bound, adding up the partial sums of a
/// launch over at most `u32::MAX` values comes to the true sum.
pub proof fn partial_sums_are_exact<T: Scalar>(
    value: spec_fn(T) -> Option<int>,
    bound: nat,
    values: Seq<T>,
)
    requires
        exact_addition(value, bound),
        whole(value, values),
        magnitude(value, values) <= bound,
        values.len() <= u32::MAX,
    ensures
        value(sum(partial_sums(values, reduce_blocks(values.len())))) == Some(
            total(value, values),
        ),
{
    let blocks = reduce_blocks(values.len());
    lemma_ceil_div_covers(values.len(), REDUCE_BLOCK_SIZE as nat);
    lemma_partial_sums(value, bound, values, blocks, values.len());
    assert(values.take(values.len() as int) =~= values);
    sum_is_exact(value, bound, partial_sums(values, blocks));
}

/// The outcome is one element, and that stands for `n`.
pub open spec fn comes_to<T>(
    value: spec_fn(T) -> Option<int>,
    outcome: Outcome<T>,
    n: int,
) -> bool {
    outcome matches Ok(out) && out.len() == 1 && value(out[0]) == Some(n)
}

/// A launched sum comes to the true sum, and so does the CPU's, while the
/// magnitudes stay within the bound.
pub proof fn launched_sum_is_exact<T: Scalar>(
    value: spec_fn(T) -> Option<int>,
    bound: nat,
    a: Vec<T>,
    block_size: nat,
)
    requires
        exact_addition(value, bound),
        whole(value, a@),
        magnitude(value, a@) <= bound,
        a@.len() <= u32::MAX,
    ensures
        comes_to(value, launched_outcome(Command::Reduce { a }, block_size), total(value, a@)),
        comes_to(value, expected(Command::Reduce { a }), total(value, a@)),
{
    partial_sums_are_exact(value, bound, a@);
    sum_is_exact(value, bound, a@);
}

/// Taking one element out of a run takes it out of what the run amounts to.
proof fn lemma_total_without<T>(value: spec_fn(T) -> Option<int>, a: Seq<T>, i: int)
    requires
        0 <= i < a.len(),
    ensures
        total(value, a) == total(value, a.remove(i)) + value(a[i])->0,
        magnitude(value, a) == magnitude(value, a.remove(i)) + abs(value(a[i])->0),
{
    let (front, back) = (a.take(i), a.skip(i + 1));
    assert(a =~= front.push(a[i]) + back);
    assert(a.remove(i) =~= front + back);
    assert(front.push(a[i]).drop_last() =~= front);
    lemma_concatenation(value, front.push(a[i]), back);
    lemma_concatenation(value, front, back);
}

/// What a run amounts to does not depend on its order.
proof fn lemma_total_ignores_order<T>(value: spec_fn(T) -> Option<int>, a: Seq<T>, b: Seq<T>)
    requires
        a.to_multiset() == b.to_multiset(),
    ensures
        a.len() == b.len(),
        whole(value, a) ==> whole(value, b),
        total(value, a) == total(value, b),
        magnitude(value, a) == magnitude(value, b),
    decreases a.len(),
{
    broadcast use vstd::seq_lib::group_to_multiset_ensures;

    assert(a.len() == a.to_multiset().len());
    assert(b.len() == b.to_multiset().len());
    if whole(value, a) {
        assert forall|i: int| 0 <= i < b.len() implies value(#[trigger] b[i]) is Some by {
            assert(b.to_multiset().count(b[i]) > 0);
            assert(a.to_multiset().count(b[i]) > 0);
            let j = choose|j: int| 0 <= j < a.len() && a[j] == b[i];
            assert(value(a[j]) is Some);
        }
    }
    if a.len() > 0 {
        let x = a.last();
        assert(a[a.len() - 1] == x);
        assert(a.to_multiset().count(x) > 0);
        assert(b.to_multiset().count(x) > 0);
        let i = choose|i: int| 0 <= i < b.len() && b[i] == x;
        assert(a.remove(a.len() - 1) =~= a.drop_last());
        assert(a.remove(a.len() - 1).to_multiset() == b.remove(i).to_multiset());
        lemma_total_ignores_order(value, a.drop_last(), b.remove(i));
        lemma_total_without(value, b, i);
    }
}

/// A launched sum comes to the same number in whatever order its summands come,
/// while the magnitudes stay within the bound.
pub proof fn exact_sum_ignores_order<T: Scalar>(
    value: spec_fn(T) -> Option<int>,
    bound: nat,
    a: Vec<T>,
    permuted: Vec<T>,
    block_size: nat,
)
    requires
        exact_addition(value, bound),
        whole(value, a@),
        magnitude(value, a@) <= bound,
        a@.len() <= u32::MAX,
        a@.to_multiset() == permuted@.to_multiset(),
    ensures
        comes_to(value, launched_outcome(Command::Reduce { a }, block_size), total(value, a@)),
        comes_to(
            value,
            launched_outcome(Command::Reduce { a: permuted }, block_size),
            total(value, a@),
        ),
{
    lemma_total_ignores_order(value, a@, permuted@);
    launched_sum_is_exact(value, bound, a, block_size);
    launched_sum_is_exact(value, bound, permuted, block_size);
}

/// The launched sum of two vectors laid end to end comes to the sum of both
/// launched sums, while the magnitudes stay within the bound.
pub proof fn exact_sum_splits<T: Scalar>(
    value: spec_fn(T) -> Option<int>,
    bound: nat,
    x: Vec<T>,
    y: Vec<T>,
    a: Vec<T>,
    block_size: nat,
)
    requires
        exact_addition(value, bound),
        a@ == x@ + y@,
        whole(value, a@),
        magnitude(value, a@) <= bound,
        a@.len() <= u32::MAX,
    ensures
        comes_to(value, launched_outcome(Command::Reduce { a: x }, block_size), total(value, x@)),
        comes_to(value, launched_outcome(Command::Reduce { a: y }, block_size), total(value, y@)),
        comes_to(
            value,
            launched_outcome(Command::Reduce { a }, block_size),
            total(value, x@) + total(value, y@),
        ),
        value(
            launched_outcome(Command::Reduce { a: x }, block_size)->Ok_0[0].plus_spec(
                launched_outcome(Command::Reduce { a: y }, block_size)->Ok_0[0],
            ),
        ) == Some(total(value, a@)),
{
    let (p, q) = (x@.len() as int, a@.len() as int);
    assert(a@.subrange(0, p) =~= x@);
    assert(a@.subrange(p, q) =~= y@);
    lemma_whole_part(value, a@, 0, p);
    lemma_whole_part(value, a@, p, q);
    lemma_concatenation(value, x@, y@);
    launched_sum_is_exact(value, bound, a, block_size);
    launched_sum_is_exact(value, bound, x, block_size);
    launched_sum_is_exact(value, bound, y, block_size);
    sum_is_exact(value, bound, a@);
    sum_is_exact(value, bound, x@);
    sum_is_exact(value, bound, y@);
}

/// The products of whole numbers amount to their inner product.
proof fn lemma_products<T: Scalar>(
    value: spec_fn(T) -> Option<int>,
    bound: nat,
    a: Seq<T>,
    b: Seq<T>,
)
    requires
        exact_multiplication(value, bound),
        a.len() == b.len(),
        whole(value, a),
        whole(value, b),
        inner_magnitude(value, a, b) <= bound,
    ensures
        whole(value, products(a, b)),
        total(value, products(a, b)) == inner(value, a, b),
        magnitude(value, products(a, b)) == inner_magnitude(value, a, b),
    decreases a.len(),
{
    if a.len() > 0 {
        let (p, q) = (a.drop_last(), b.drop_last());
        lemma_whole_drop_last(value, a);
        lemma_whole_drop_last(value, b);
        lemma_products(value, bound, p, q);
        assert(products(a, b).drop_last() =~= products(p, q));
        assert(products(a, b).last() == a.last().times_spec(b.last()));
        assert forall|i: int| 0 <= i < products(a, b).len() implies value(
            #[trigger] products(a, b)[i],
        ) is Some by {
            if i < p.len() {
                assert(value(products(p, q)[i]) is Some);
                assert(products(a, b)[i] == products(p, q)[i]);
            } else {
                assert(products(a, b)[i] == products(a, b).last());
            }
        }
    }
}

/// A launched dot product comes to the true inner product, and so does the CPU's,
/// while the magnitudes of its terms stay within the bound.
pub proof fn launched_dot_product_is_exact<T: Scalar>(
    value: spec_fn(T) -> Option<int>,
    bound: nat,
    a: Vec<T>,
    b: Vec<T>,
    block_size: nat,
)
    requires
        exact_addition(value, bound),
        exact_multiplication(value, bound),
        a@.len() == b@.len() <= u32::MAX,
        whole(value, a@),
        whole(value, b@),
        inner_magnitude(value, a@, b@) <= bound,
    ensures
        comes_to(
            value,
            launched_outcome(Command::DotProduct { a, b }, block_size),
            inner(value, a@, b@),
        ),
        comes_to(value, expected(Command::DotProduct { a, b }), inner(value, a@, b@)),
{
    lemma_products(value, bound, a@, b@);
    partial_sums_are_exact(value, bound, products(a@, b@));
    sum_is_exact(value, bound, products(a@, b@));
}

/// An inner product does not depend on the order of the two vectors.
pub proof fn inner_swaps<T>(value: spec_fn(T) -> Option<int>, a: Seq<T>, b: Seq<T>)
    requires
        a.len() == b.len(),
    ensures
        inner(value, a, b) == inner(value, b, a),
        inner_magnitude(value, a, b) == inner_magnitude(value, b, a),
    decreases a.len(),
{
    if a.len() > 0 {
        inner_swaps(value, a.drop_last(), b.drop_last());
        let (x, y) = (value(a.last())->0, value(b.last())->0);
        assert(x * y == y * x) by (nonlinear_arith);
    }
}

/// An inner product with ones is the sum.
pub proof fn inner_with_ones_is_the_total<T>(
    value: spec_fn(T) -> Option<int>,
    a: Seq<T>,
    ones: Seq<T>,
)
    requires
        a.len() == ones.len(),
        forall|i: int| 0 <= i < ones.len() ==> value(#[trigger] ones[i]) == Some(1int),
    ensures
        inner(value, a, ones) == total(value, a),
        inner_magnitude(value, a, ones) == magnitude(value, a),
    decreases a.len(),
{
    if a.len() > 0 {
        let less = ones.drop_last();
        assert forall|i: int| 0 <= i < less.len() implies value(#[trigger] less[i]) == Some(
            1int,
        ) by {
            assert(less[i] == ones[i]);
        }
        inner_with_ones_is_the_total(value, a.drop_last(), less);
        assert(value(ones[ones.len() - 1]) == Some(1int));
    }
}

/// A launched dot product with ones comes to the same number as a launched sum,
/// while the magnitudes stay within the bound.
pub proof fn exact_dot_product_with_ones_is_the_sum<T: Scalar>(
    value: spec_fn(T) -> Option<int>,
    bound: nat,
    a: Vec<T>,
    ones: Vec<T>,
    block_size: nat,
)
    requires
        exact_addition(value, bound),
        exact_multiplication(value, bound),
        a@.len() == ones@.len() <= u32::MAX,
        whole(value, a@),
        forall|i: int| 0 <= i < ones@.len() ==> value(#[trigger] ones@[i]) == Some(1int),
        magnitude(value, a@) <= bound,
    ensures
        comes_to(
            value,
            launched_outcome(Command::DotProduct { a, b: ones }, block_size),
            total(value, a@),
        ),
        comes_to(value, launched_outcome(Command::Reduce { a }, block_size), total(value, a@)),
{
    inner_with_ones_is_the_total(value, a@, ones@);
    launched_dot_product_is_exact(value, bound, a, ones, block_size);
    launched_sum_is_exact(value, bound, a, block_size);
}

/// Sums, magnitudes and inner products grow by every element, and nothing else goes
/// into them.
pub proof fn totals_grow_element_by_element<T>(
    value: spec_fn(T) -> Option<int>,
    a: Seq<T>,
    b: Seq<T>,
    x: T,
    y: T,
)
    requires
        a.len() == b.len(),
    ensures
        total(value, Seq::<T>::empty()) == 0,
        total(value, a.push(x)) == total(value, a) + value(x)->0,
        magnitude(value, Seq::<T>::empty()) == 0,
        magnitude(value, a.push(x)) == magnitude(value, a) + (if value(x)->0 < 0 {
            -value(x)->0
        } else {
            value(x)->0
        }),
        inner(value, Seq::<T>::empty(), Seq::<T>::empty()) == 0,
        inner(value, a.push(x), b.push(y)) == inner(value, a, b) + value(x)->0 * value(y)->0,
        inner_magnitude(value, Seq::<T>::empty(), Seq::<T>::empty()) == 0,
        inner_magnitude(value, a.push(x), b.push(y)) == inner_magnitude(value, a, b) + abs(
            value(x)->0 * value(y)->0,
        ),
        whole(value, Seq::<T>::empty()),
        whole(value, a.push(x)) <==> whole(value, a) && value(x) is Some,
{
    assert(a.push(x).drop_last() =~= a);
    assert(b.push(y).drop_last() =~= b);
    if whole(value, a.push(x)) {
        lemma_whole_drop_last(value, a.push(x));
    }
}

/// What products of zeros amount to.
proof fn lemma_zero_products<T: Scalar>(
    value: spec_fn(T) -> Option<int>,
    bound: nat,
    n: nat,
    run: Seq<T>,
)
    requires
        exact_addition(value, bound),
        exact_multiplication(value, bound),
        run == Seq::new(n, |j: int| T::zero_spec().times_spec(T::zero_spec())),
    ensures
        whole(value, run),
        total(value, run) == 0,
        magnitude(value, run) == 0,
    decreases n,
{
    let z = T::zero_spec().times_spec(T::zero_spec());
    assert(value(T::zero_spec())->0 * value(T::zero_spec())->0 == 0);
    assert(value(z) == Some(0int));
    if n > 0 {
        let less = Seq::new((n - 1) as nat, |j: int| z);
        assert(run.drop_last() =~= less);
        lemma_zero_products(value, bound, (n - 1) as nat, less);
    }
}

/// Rows and columns of whole numbers, and what their products amount to, also with
/// products of zeros behind them.
proof fn lemma_entry<T: Scalar>(
    value: spec_fn(T) -> Option<int>,
    bound: nat,
    a: Seq<T>,
    b: Seq<T>,
    m: nat,
    n: nat,
    k: nat,
    row: int,
    col: int,
    extra: nat,
)
    requires
        exact_addition(value, bound),
        exact_multiplication(value, bound),
        a.len() == m * k,
        b.len() == k * n,
        whole(value, a),
        whole(value, b),
        0 <= row < m,
        0 <= col < n,
        inner_magnitude(value, a.subrange(row * k, row * k + k), Seq::new(k, |j: int| b[j * n + col]))
            <= bound,
    ensures
        value(
            sum(
                Seq::new(k, |j: int| a[row * k + j].times_spec(b[j * n + col])) + Seq::new(
                    extra,
                    |j: int| T::zero_spec().times_spec(T::zero_spec()),
                ),
            ),
        ) == Some(
            inner(value, a.subrange(row * k, row * k + k), Seq::new(k, |j: int| b[j * n + col])),
        ),
{
    let (x, y) = (a.subrange(row * k, row * k + k), Seq::new(k, |j: int| b[j * n + col]));
    let terms = Seq::new(k, |j: int| a[row * k + j].times_spec(b[j * n + col]));
    let rest = Seq::new(extra, |j: int| T::zero_spec().times_spec(T::zero_spec()));
    assert(0 <= row * k && row * k + k <= m * k) by (nonlinear_arith)
        requires
            0 <= row < m,
            0 <= k,
    ;
    lemma_whole_part(value, a, row * k, row * k + k);
    assert forall|j: int| 0 <= j < y.len() implies value(#[trigger] y[j]) is Some by {
        lemma_row_major(k, n, j, col);
        assert(value(b[j * n + col]) is Some);
    }
    lemma_products(value, bound, x, y);
    assert(products(x, y) =~= terms);
    lemma_zero_products(value, bound, extra, rest);
    lemma_concatenation(value, terms, rest);
    let all = terms + rest;
    assert forall|j: int| 0 <= j < all.len() implies value(#[trigger] all[j]) is Some by {
        if j < terms.len() {
            assert(value(terms[j]) is Some);
        } else {
            assert(value(rest[j - terms.len()]) is Some);
        }
    }
    sum_is_exact(value, bound, all);
}

/// Entry by entry, a matrix product of whole numbers comes to the inner product of a
/// row of the left matrix with a column of the right one, launched and on the CPU,
/// while the magnitudes of its terms stay within the bound.
pub proof fn matrix_products_are_exact<T: Scalar>(
    value: spec_fn(T) -> Option<int>,
    bound: nat,
    a: Vec<T>,
    b: Vec<T>,
    m: usize,
    n: usize,
    k: usize,
    block_size: nat,
    row: int,
    col: int,
)
    requires
        exact_addition(value, bound),
        exact_multiplication(value, bound),
        a@.len() == m * k,
        b@.len() == k * n,
        whole(value, a@),
        whole(value, b@),
        0 <= row < m <= u32::MAX,
        0 <= col < n <= u32::MAX,
        inner_magnitude(
            value,
            a@.subrange(row * k, row * k + k),
            Seq::new(k as nat, |j: int| b@[j * n + col]),
        ) <= bound,
    ensures
        ({
            let on_cpu = expected(Command::MatMul { a, b, m, n, k });
            let on_device = launched_outcome(Command::MatMul { a, b, m, n, k }, block_size);
            let right = inner(
                value,
                a@.subrange(row * k, row * k + k),
                Seq::new(k as nat, |j: int| b@[j * n + col]),
            );
            &&& on_cpu is Ok && on_device is Ok
            &&& on_cpu->Ok_0.len() == m * n
            &&& on_device->Ok_0.len() == m * n
            &&& value(on_cpu->Ok_0[row * n + col]) == Some(right)
            &&& value(on_device->Ok_0[row * n + col]) == Some(right)
        }),
{
    let (mm, nn, kk) = (m as nat, n as nat, k as nat);
    let extra = (tiled_depth(kk) - k) as nat;
    lemma_row_major(mm, nn, row, col);
    launched_entries_are_rows_times_columns(a, b, m, n, k, block_size, row, col);
    lemma_entry(value, bound, a@, b@, mm, nn, kk, row, col, extra);
    lemma_entry(value, bound, a@, b@, mm, nn, kk, row, col, 0);
    let terms = Seq::new(kk, |j: int| a@[row * k + j].times_spec(b@[j * n + col]));
    assert(terms + Seq::new(0, |j: int| T::zero_spec().times_spec(T::zero_spec())) =~= terms);
    assert(entry_terms(a@, b@, nn, kk, row, col, kk) =~= terms);
}

/// An inner product with a unit vector picks one element out.
proof fn lemma_unit<T>(value: spec_fn(T) -> Option<int>, unit: Seq<T>, s: Seq<T>, r: int)
    requires
        unit.len() == s.len(),
        forall|j: int|
            0 <= j < unit.len() ==> value(#[trigger] unit[j]) == Some(
                if j == r {
                    1int
                } else {
                    0int
                },
            ),
    ensures
        inner(value, unit, s) == (if 0 <= r < s.len() {
            value(s[r])->0
        } else {
            0
        }),
        inner_magnitude(value, unit, s) == (if 0 <= r < s.len() {
            abs(value(s[r])->0)
        } else {
            0
        }),
    decreases unit.len(),
{
    if unit.len() > 0 {
        let (less, fewer) = (unit.drop_last(), s.drop_last());
        assert forall|j: int| 0 <= j < less.len() implies value(#[trigger] less[j]) == Some(
            if j == r {
                1int
            } else {
                0int
            },
        ) by {
            assert(less[j] == unit[j]);
        }
        lemma_unit(value, less, fewer, r);
        let last = unit.len() - 1;
        assert(value(unit[last]) == Some(
            if last == r {
                1int
            } else {
                0int
            },
        ));
        let y = value(s.last())->0;
        assert(1 * y == y && 0 * y == 0);
    }
}

/// Multiplying by the identity from the left gives the matrix back, launched and on
/// the CPU.
pub proof fn the_identity_gives_the_right_matrix_back<T: Scalar>(
    value: spec_fn(T) -> Option<int>,
    bound: nat,
    a: Vec<T>,
    b: Vec<T>,
    m: usize,
    n: usize,
    block_size: nat,
    row: int,
    col: int,
)
    requires
        exact_addition(value, bound),
        exact_multiplication(value, bound),
        a@.len() == m * m,
        b@.len() == m * n,
        forall|p: int|
            0 <= p < a@.len() ==> value(#[trigger] a@[p]) == Some(
                if p / (m as int) == p % (m as int) {
                    1int
                } else {
                    0int
                },
            ),
        whole(value, b@),
        0 <= row < m <= u32::MAX,
        0 <= col < n <= u32::MAX,
        abs(value(b@[row * n + col])->0) <= bound,
    ensures
        ({
            let command = Command::MatMul { a, b, m, n, k: m };
            &&& expected(command) is Ok
            &&& expected(command)->Ok_0.len() == b@.len()
            &&& value(expected(command)->Ok_0[row * n + col]) == value(b@[row * n + col])
            &&& launched_outcome(command, block_size) is Ok
            &&& launched_outcome(command, block_size)->Ok_0.len() == b@.len()
            &&& value(launched_outcome(command, block_size)->Ok_0[row * n + col]) == value(
                b@[row * n + col],
            )
        }),
{
    let (x, y) = (
        a@.subrange(row * m, row * m + m),
        Seq::new(m as nat, |j: int| b@[j * n + col]),
    );
    assert(0 <= row * m && row * m + m <= m * m) by (nonlinear_arith)
        requires
            0 <= row < m,
            0 <= m,
    ;
    assert forall|j: int| 0 <= j < x.len() implies value(#[trigger] x[j]) == Some(
        if j == row {
            1int
        } else {
            0int
        },
    ) by {
        lemma_row_major(m as nat, m as nat, row, j);
        assert(x[j] == a@[row * m + j]);
    }
    lemma_unit(value, x, y, row);
    lemma_row_major(m as nat, n as nat, row, col);
    assert(value(b@[row * n + col]) is Some);
    assert(whole(value, a@));
    matrix_products_are_exact(value, bound, a, b, m, n, m, block_size, row, col);
}

/// Multiplying by the identity from the right gives the matrix back, launched and on
/// the CPU.
pub proof fn the_identity_gives_the_left_matrix_back<T: Scalar>(
    value: spec_fn(T) -> Option<int>,
    bound: nat,
    a: Vec<T>,
    b: Vec<T>,
    m: usize,
    n: usize,
    block_size: nat,
    row: int,
    col: int,
)
    requires
        exact_addition(value, bound),
        exact_multiplication(value, bound),
        a@.len() == m * n,
        b@.len() == n * n,
        whole(value, a@),
        forall|p: int|
            0 <= p < b@.len() ==> value(#[trigger] b@[p]) == Some(
                if p / (n as int) == p % (n as int) {
                    1int
                } else {
                    0int
                },
            ),
        0 <= row < m <= u32::MAX,
        0 <= col < n <= u32::MAX,
        abs(value(a@[row * n + col])->0) <= bound,
    ensures
        ({
            let command = Command::MatMul { a, b, m, n, k: n };
            &&& expected(command) is Ok
            &&& expected(command)->Ok_0.len() == a@.len()
            &&& value(expected(command)->Ok_0[row * n + col]) == value(a@[row * n + col])
            &&& launched_outcome(command, block_size) is Ok
            &&& launched_outcome(command, block_size)->Ok_0.len() == a@.len()
            &&& value(launched_outcome(command, block_size)->Ok_0[row * n + col]) == value(
                a@[row * n + col],
            )
        }),
{
    let (x, y) = (
        a@.subrange(row * n, row * n + n),
        Seq::new(n as nat, |j: int| b@[j * n + col]),
    );
    assert(0 <= row * n && row * n + n <= m * n) by (nonlinear_arith)
        requires
            0 <= row < m,
            0 <= n,
    ;
    assert forall|j: int| 0 <= j < y.len() implies value(#[trigger] y[j]) == Some(
        if j == col {
            1int
        } else {
            0int
        },
    ) by {
        lemma_row_major(n as nat, n as nat, j, col);
        assert(y[j] == b@[j * n + col]);
    }
    lemma_unit(value, y, x, col);
    inner_swaps(value, x, y);
    assert(x[col] == a@[row * n + col]);
    lemma_row_major(m as nat, n as nat, row, col);
    assert(value(a@[row * n + col]) is Some);
    assert(whole(value, b@));
    matrix_products_are_exact(value, bound, a, b, m, n, n, block_size, row, col);
}

} // verus!
