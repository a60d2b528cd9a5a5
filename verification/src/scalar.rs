//! The arithmetic of buffer elements, and sums over sequences of them.

use vstd::prelude::*;

verus! {

/// The operations of element arithmetic.
pub enum Operation {
    Addition,
    Multiplication,
}

/// The arithmetic of one buffer element.
///
/// Each operation is a function of its operands. Nothing else is taken for
/// granted: floating-point addition, which is neither associative nor exact,
/// qualifies as long as every NaN is taken as one value. What a theorem needs
/// beyond that, such as associativity, it asks for by name.
///
/// An implementation outside verified code leaves the specification functions
/// at their defaults: some function of the operation and the operands that is not
/// spelled out.
pub trait Scalar: Copy {
    /// The value that every sum starts from.
    open spec fn zero_spec() -> Self {
        arbitrary()
    }

    /// The sum of two elements.
    open spec fn plus_spec(self, other: Self) -> Self {
        arbitrary::<spec_fn(Operation, Self, Self) -> Self>()(Operation::Addition, self, other)
    }

    /// The product of two elements.
    open spec fn times_spec(self, other: Self) -> Self {
        arbitrary::<spec_fn(Operation, Self, Self) -> Self>()(Operation::Multiplication, self, other)
    }

    /// Returns the value that every sum starts from.
    fn zero() -> (result: Self)
        ensures
            result == Self::zero_spec(),
    ;

    /// Adds two elements.
    fn plus(self, other: Self) -> (result: Self)
        ensures
            result == self.plus_spec(other),
    ;

    /// Multiplies two elements.
    fn times(self, other: Self) -> (result: Self)
        ensures
            result == self.times_spec(other),
    ;
}

/// Integers with wrapping arithmetic.
impl Scalar for i32 {
    open spec fn zero_spec() -> i32 {
        0
    }

    open spec fn plus_spec(self, other: i32) -> i32 {
        self.wrapping_add(other)
    }

    open spec fn times_spec(self, other: i32) -> i32 {
        self.wrapping_mul(other)
    }

    fn zero() -> (result: i32) {
        0
    }

    fn plus(self, other: i32) -> (result: i32) {
        self.wrapping_add(other)
    }

    fn times(self, other: i32) -> (result: i32) {
        self.wrapping_mul(other)
    }
}

/// The sum of a sequence, accumulated from the left.
pub open spec fn sum<T: Scalar>(s: Seq<T>) -> T
    decreases s.len(),
{
    if s.len() == 0 {
        T::zero_spec()
    } else {
        sum(s.drop_last()).plus_spec(s.last())
    }
}

/// The elementwise sum of a sequence and one at least as long.
pub open spec fn sums<T: Scalar>(a: Seq<T>, b: Seq<T>) -> Seq<T> {
    Seq::new(a.len(), |i: int| a[i].plus_spec(b[i]))
}

/// The elementwise product of a sequence and one at least as long.
pub open spec fn products<T: Scalar>(a: Seq<T>, b: Seq<T>) -> Seq<T> {
    Seq::new(a.len(), |i: int| a[i].times_spec(b[i]))
}

/// `n` copies of zero.
pub open spec fn zeros<T: Scalar>(n: nat) -> Seq<T> {
    Seq::new(n, |i: int| T::zero_spec())
}

/// Addition may be regrouped and reordered freely, and zero is neutral. This is
/// more than floating-point addition offers; what holds of that while sums stay
/// exact is in [`crate::exact`].
pub open spec fn addition_reorders<T: Scalar>() -> bool {
    &&& forall|x: T, y: T, z: T|
        #![trigger x.plus_spec(y).plus_spec(z)]
        x.plus_spec(y).plus_spec(z) == x.plus_spec(y.plus_spec(z))
    &&& addition_commutes::<T>()
    &&& forall|x: T| #![trigger x.plus_spec(T::zero_spec())] x.plus_spec(T::zero_spec()) == x
}

/// The order of two summands does not matter, as in floating-point arithmetic.
pub open spec fn addition_commutes<T: Scalar>() -> bool {
    forall|x: T, y: T| #![trigger x.plus_spec(y)] x.plus_spec(y) == y.plus_spec(x)
}

/// The order of two factors does not matter, as in floating-point arithmetic.
pub open spec fn multiplication_commutes<T: Scalar>() -> bool {
    forall|x: T, y: T| #![trigger x.times_spec(y)] x.times_spec(y) == y.times_spec(x)
}

/// Multiplying by `one` from the right changes nothing.
pub open spec fn neutral_factor<T: Scalar>(one: T) -> bool {
    forall|x: T| #![trigger x.times_spec(one)] x.times_spec(one) == x
}

/// Adding the product of two zeros to a sum changes nothing. Floating-point
/// arithmetic has this property: the one value that it would change is a negative
/// zero, and no sum that starts from zero comes to that.
pub open spec fn zero_product_is_neutral<T: Scalar>() -> bool {
    forall|s: Seq<T>|
        #![trigger sum(s)]
        sum(s).plus_spec(T::zero_spec().times_spec(T::zero_spec())) == sum(s)
}

/// Wrapping integers have every property that a theorem asks for.
pub proof fn wrapping_integers_reorder()
    ensures
        addition_reorders::<i32>(),
        multiplication_commutes::<i32>(),
        neutral_factor::<i32>(1),
        zero_product_is_neutral::<i32>(),
{
    assert(0i32.wrapping_mul(0i32) == 0i32);
    assert forall|x: i32, y: i32| #![trigger x.times_spec(y)] x.times_spec(y) == y.times_spec(x) by {
        assert(x * y == y * x) by (nonlinear_arith);
    }
}

/// The sum of two runs laid end to end is the sum of their sums.
pub proof fn lemma_sum_of_concatenation<T: Scalar>(a: Seq<T>, b: Seq<T>)
    requires
        addition_reorders::<T>(),
    ensures
        sum(a + b) == sum(a).plus_spec(sum(b)),
    decreases b.len(),
{
    if b.len() == 0 {
        assert(a + b =~= a);
    } else {
        assert((a + b).drop_last() =~= a + b.drop_last());
        lemma_sum_of_concatenation(a, b.drop_last());
        let s = sum(a).plus_spec(sum(b.drop_last())).plus_spec(b.last());
        assert(s == sum(a).plus_spec(sum(b.drop_last()).plus_spec(b.last())));
    }
}

/// The sum of an elementwise sum is the sum of both sums.
pub proof fn lemma_sum_of_sums<T: Scalar>(a: Seq<T>, b: Seq<T>)
    requires
        addition_reorders::<T>(),
        a.len() == b.len(),
    ensures
        sum(sums(a, b)) == sum(a).plus_spec(sum(b)),
    decreases a.len(),
{
    if a.len() == 0 {
        assert(sum(a).plus_spec(T::zero_spec()) == sum(a));
    } else {
        let (p, q) = (sum(a.drop_last()), sum(b.drop_last()));
        let (x, y) = (a.last(), b.last());
        lemma_sum_of_sums(a.drop_last(), b.drop_last());
        assert(sums(a, b).drop_last() =~= sums(a.drop_last(), b.drop_last()));
        assert(p.plus_spec(q).plus_spec(x.plus_spec(y)) == p.plus_spec(
            q.plus_spec(x.plus_spec(y)),
        ));
        assert(q.plus_spec(x).plus_spec(y) == q.plus_spec(x.plus_spec(y)));
        assert(q.plus_spec(x) == x.plus_spec(q));
        assert(x.plus_spec(q).plus_spec(y) == x.plus_spec(q.plus_spec(y)));
        assert(p.plus_spec(x).plus_spec(q.plus_spec(y)) == p.plus_spec(
            x.plus_spec(q.plus_spec(y)),
        ));
    }
}

/// Zeros at the end of a run add nothing to its sum.
pub proof fn lemma_sum_with_zeros<T: Scalar>(a: Seq<T>, n: nat)
    requires
        addition_reorders::<T>(),
    ensures
        sum(a + zeros(n)) == sum(a),
    decreases n,
{
    if n == 0 {
        assert(a + zeros(n) =~= a);
    } else {
        let m = (n - 1) as nat;
        lemma_sum_with_zeros(a, m);
        assert((a + zeros::<T>(n)).drop_last() =~= a + zeros(m));
        assert(sum(a).plus_spec(T::zero_spec()) == sum(a));
    }
}

/// Extending a run by one element adds that element to its sum.
pub proof fn lemma_sum_push<T: Scalar>(a: Seq<T>, x: T)
    ensures
        sum(a.push(x)) == sum(a).plus_spec(x),
{
    assert(a.push(x).drop_last() =~= a);
}

/// Taking one element out of a run takes it out of the sum.
proof fn lemma_sum_without<T: Scalar>(a: Seq<T>, i: int)
    requires
        addition_reorders::<T>(),
        0 <= i < a.len(),
    ensures
        sum(a) == sum(a.remove(i)).plus_spec(a[i]),
{
    let (front, back) = (a.take(i), a.skip(i + 1));
    let (p, q, x) = (sum(front), sum(back), a[i]);
    assert(a =~= front.push(x) + back);
    assert(a.remove(i) =~= front + back);
    lemma_sum_of_concatenation(front.push(x), back);
    lemma_sum_of_concatenation(front, back);
    lemma_sum_push(front, x);
    assert(p.plus_spec(x).plus_spec(q) == p.plus_spec(x.plus_spec(q)));
    assert(x.plus_spec(q) == q.plus_spec(x));
    assert(p.plus_spec(q).plus_spec(x) == p.plus_spec(q.plus_spec(x)));
}

/// Where addition may be reordered, a sum depends on its summands and not on the
/// order they come in.
pub proof fn sum_ignores_order<T: Scalar>(a: Seq<T>, b: Seq<T>)
    requires
        addition_reorders::<T>(),
        a.to_multiset() == b.to_multiset(),
    ensures
        sum(a) == sum(b),
    decreases a.len(),
{
    broadcast use vstd::seq_lib::group_to_multiset_ensures;

    assert(a.len() == a.to_multiset().len());
    assert(b.len() == b.to_multiset().len());
    if a.len() > 0 {
        let x = a.last();
        assert(a[a.len() - 1] == x);
        assert(a.to_multiset().count(x) > 0);
        assert(b.to_multiset().count(x) > 0);
        let i = choose|i: int| 0 <= i < b.len() && b[i] == x;
        assert(a.remove(a.len() - 1) =~= a.drop_last());
        assert(a.remove(a.len() - 1).to_multiset() == b.remove(i).to_multiset());
        sum_ignores_order(a.drop_last(), b.remove(i));
        lemma_sum_without(b, i);
    }
}

/// Sums a slice from the left.
pub fn sum_of<T: Scalar>(a: &[T]) -> (total: T)
    ensures
        total == sum(a@),
{
    let mut total = T::zero();
    let mut i: usize = 0;
    assert(a@.take(0) =~= Seq::<T>::empty());
    while i < a.len()
        invariant
            i <= a.len(),
            total == sum(a@.take(i as int)),
        decreases a.len() - i,
    {
        proof {
            lemma_sum_push(a@.take(i as int), a@[i as int]);
            assert(a@.take(i + 1) =~= a@.take(i as int).push(a@[i as int]));
        }
        total = total.plus(a[i]);
        i += 1;
    }
    assert(a@.take(i as int) =~= a@);
    total
}

/// Adds two slices of one length element by element.
pub fn sums_of<T: Scalar>(a: &[T], b: &[T]) -> (out: Vec<T>)
    requires
        a.len() == b.len(),
    ensures
        out@ == sums(a@, b@),
{
    let mut out: Vec<T> = Vec::new();
    let mut i: usize = 0;
    while i < a.len()
        invariant
            i <= a.len(),
            a.len() == b.len(),
            out@ == sums(a@, b@).take(i as int),
        decreases a.len() - i,
    {
        out.push(a[i].plus(b[i]));
        i += 1;
    }
    assert(sums(a@, b@).take(i as int) =~= sums(a@, b@));
    out
}

/// Multiplies two slices of one length element by element.
pub fn products_of<T: Scalar>(a: &[T], b: &[T]) -> (out: Vec<T>)
    requires
        a.len() == b.len(),
    ensures
        out@ == products(a@, b@),
{
    let mut out: Vec<T> = Vec::new();
    let mut i: usize = 0;
    while i < a.len()
        invariant
            i <= a.len(),
            a.len() == b.len(),
            out@ == products(a@, b@).take(i as int),
        decreases a.len() - i,
    {
        out.push(a[i].times(b[i]));
        i += 1;
    }
    assert(products(a@, b@).take(i as int) =~= products(a@, b@));
    out
}

/// A buffer of `n` zeros.
pub fn zeroed<T: Scalar>(n: usize) -> (out: Vec<T>)
    ensures
        out@ == zeros::<T>(n as nat),
{
    let mut out: Vec<T> = Vec::new();
    let mut i: usize = 0;
    while i < n
        invariant
            i <= n,
            out@ == zeros::<T>(i as nat),
        decreases n - i,
    {
        out.push(T::zero());
        i += 1;
    }
    out
}

} // verus!
