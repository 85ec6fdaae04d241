//! An owned, immutable sequence of scalars and the inner product of two of them.
//!
//! A scalar is any `Copy` type with a default value, addition and
//! multiplication. What the operators compute is taken from the operator
//! specifications of `vstd` (`add_spec`, `mul_spec`), and what they demand of
//! their operands from `add_req` and `mul_req`; for the machine integers the
//! demand is that the exact result fits the type.

use std::ops::{Add, Mul};
use vstd::prelude::*;
use vstd::std_specs::ops::{AddSpec, MulSpec};

verus! {

/// `z` is a value that `T::default()` may return: the seed of every sum.
pub open spec fn is_zero<T: Default>(z: T) -> bool {
    call_ensures(T::default, (), z)
}

/// `seed` plus the first `n` pairwise products of `a` and `b`, added from left
/// to right.
pub open spec fn dot_prefix<T>(seed: T, a: Seq<T>, b: Seq<T>, n: nat) -> T where
    T: Add<Output = T> + Mul<Output = T>,
    decreases n,
{
    if n == 0 {
        seed
    } else {
        dot_prefix(seed, a, b, (n - 1) as nat).add_spec(a[n - 1].mul_spec(b[n - 1]))
    }
}

/// Every multiplication and every addition that `dot_prefix(seed, a, b, n)`
/// stands for is one that the scalar type admits.
pub open spec fn dot_defined<T>(seed: T, a: Seq<T>, b: Seq<T>, n: nat) -> bool where
    T: Add<Output = T> + Mul<Output = T>,
    decreases n,
{
    n == 0 || {
        &&& dot_defined(seed, a, b, (n - 1) as nat)
        &&& a[n - 1].mul_req(b[n - 1])
        &&& dot_prefix(seed, a, b, (n - 1) as nat).add_req(a[n - 1].mul_spec(b[n - 1]))
    }
}

/// The inner product of `a` and `b` can be computed from every seed that
/// `T::default()` may return.
pub open spec fn dot_computable<T>(a: Seq<T>, b: Seq<T>) -> bool where
    T: Default + Add<Output = T> + Mul<Output = T>,
{
    forall|z: T| is_zero(z) ==> dot_defined(z, a, b, a.len())
}

/// `v` is the inner product of `a` and `b`: the sum of their pairwise
/// products, seeded with a default value of `T`.
pub open spec fn is_dot_product<T>(a: Seq<T>, b: Seq<T>, v: T) -> bool where
    T: Default + Add<Output = T> + Mul<Output = T>,
{
    exists|z: T| is_zero(z) && v == dot_prefix(z, a, b, a.len())
}

/// The scalar type's `+` and `*` return what their specifications say.
pub open spec fn scalar_ops_specified<T>() -> bool where T: Add<Output = T> + Mul<Output = T> {
    T::obeys_add_spec() && T::obeys_mul_spec()
}

/// The sum of the first `n` pairwise products of two integer sequences.
pub open spec fn sum_of_products(a: Seq<int>, b: Seq<int>, n: nat) -> int
    decreases n,
{
    if n == 0 {
        0
    } else {
        sum_of_products(a, b, (n - 1) as nat) + a[n - 1] * b[n - 1]
    }
}

/// Why two vectors have no inner product.
#[derive(Debug, Clone, Copy, PartialEq, Eq, Structural)]
pub enum VectorError {
    /// The two vectors differ in length.
    LengthMismatch,
}

/// An owned sequence of scalars: one row or one column of a matrix.
pub struct Vector<T> {
    data: Vec<T>,
}

impl<T> View for Vector<T> {
    type V = Seq<T>;

    closed spec fn view(&self) -> Seq<T> {
        self.data@
    }
}

impl<T> Vector<T> {
    /// Takes ownership of `data` as a vector.
    pub fn new(data: Vec<T>) -> (v: Self)
        ensures
            v@ == data@,
    {
        Vector { data }
    }

    /// The number of elements.
    pub fn len(&self) -> (n: usize)
        ensures
            n == self@.len(),
    {
        self.data.len()
    }
}

impl<T: Copy> Vector<T> {
    /// The element at position `i`.
    pub fn get(&self, i: usize) -> (x: T)
        requires
            i < self@.len(),
        ensures
            x == self@[i as int],
    {
        self.data[i]
    }
}

/// The inner product of `a` and `b`, or `LengthMismatch` where their lengths
/// differ.
pub fn dot_product<T>(a: Vector<T>, b: Vector<T>) -> (r: Result<T, VectorError>) where
    T: Copy + Default + Add<Output = T> + Mul<Output = T>,
    requires
        scalar_ops_specified::<T>(),
        a@.len() == b@.len() ==> dot_computable(a@, b@),
    ensures
        a@.len() != b@.len() <==> r == Err::<T, VectorError>(VectorError::LengthMismatch),
        a@.len() == b@.len() <==> r is Ok,
        r matches Ok(v) ==> is_dot_product(a@, b@, v),
{
    if a.len() != b.len() {
        return Err(VectorError::LengthMismatch);
    }
    let seed = T::default();
    assert(is_zero(seed));
    let mut sum = seed;
    let mut i: usize = 0;
    while i < a.len()
        invariant
            scalar_ops_specified::<T>(),
            i <= a@.len(),
            a@.len() == b@.len(),
            dot_defined(seed, a@, b@, a@.len()),
            sum == dot_prefix(seed, a@, b@, i as nat),
        decreases a@.len() - i,
    {
        proof {
            lemma_dot_defined_prefix(seed, a@, b@, a@.len(), (i + 1) as nat);
        }
        sum = sum + a.get(i) * b.get(i);
        i = i + 1;
    }
    assert(is_zero(seed) && sum == dot_prefix(seed, a@, b@, a@.len()));
    Ok(sum)
}

/// Where a sum of `n` products is defined, so is the sum of the first `m`.
pub proof fn lemma_dot_defined_prefix<T>(seed: T, a: Seq<T>, b: Seq<T>, n: nat, m: nat) where
    T: Add<Output = T> + Mul<Output = T>,
    requires
        dot_defined(seed, a, b, n),
        m <= n,
    ensures
        dot_defined(seed, a, b, m),
    decreases n,
{
    if m < n {
        lemma_dot_defined_prefix(seed, a, b, (n - 1) as nat, m);
    }
}

/// On `i32`, a defined inner product seeded with zero is the exact integer sum
/// of the pairwise products.
pub proof fn lemma_dot_prefix_i32(a: Seq<i32>, b: Seq<i32>, n: nat)
    requires
        n <= a.len(),
        n <= b.len(),
        dot_defined(0i32, a, b, n),
    ensures
        dot_prefix(0i32, a, b, n) as int == sum_of_products(
            a.map_values(|x: i32| x as int),
            b.map_values(|x: i32| x as int),
            n,
        ),
    decreases n,
{
    if n > 0 {
        lemma_dot_prefix_i32(a, b, (n - 1) as nat);
    }
}

/// On `i64`, a defined inner product seeded with zero is the exact integer sum
/// of the pairwise products.
pub proof fn lemma_dot_prefix_i64(a: Seq<i64>, b: Seq<i64>, n: nat)
    requires
        n <= a.len(),
        n <= b.len(),
        dot_defined(0i64, a, b, n),
    ensures
        dot_prefix(0i64, a, b, n) as int == sum_of_products(
            a.map_values(|x: i64| x as int),
            b.map_values(|x: i64| x as int),
            n,
        ),
    decreases n,
{
    if n > 0 {
        lemma_dot_prefix_i64(a, b, (n - 1) as nat);
    }
}

} // verus!
