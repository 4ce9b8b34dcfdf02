//! The numbers that fill a matrix.
//!
//! The library never looks inside a number. It only asks the number type for
//! arithmetic, through [`Scalar`], and its contracts name the result of each
//! operation: `sum(a, b)` is what `a.add(b)` returns. That reading is sound for
//! a type whose operations are functions of their arguments, which is what
//! [`deterministic`] says; contracts about cell values are stated under it.

use vstd::prelude::*;
use rand::rngs::StdRng;

verus! {

/// `rand::rngs::StdRng`, the random number generator that samples are drawn
/// from. Nothing is known of its state.
#[verifier::external_type_specification]
#[verifier::external_body]
pub struct ExStdRng(rand::rngs::StdRng);

/// Arithmetic on the numbers of a matrix. The library promises nothing of an
/// implementation and asks nothing of it: every operation is total.
pub trait Scalar: Copy {
    fn zero() -> Self;

    fn one() -> Self;

    /// The number closest to the count `n`.
    fn from_usize(n: usize) -> Self;

    fn add(self, rhs: Self) -> Self;

    fn sub(self, rhs: Self) -> Self;

    fn mul(self, rhs: Self) -> Self;

    fn div(self, rhs: Self) -> Self;

    fn neg(self) -> Self;

    fn exp(self) -> Self;

    fn ln(self) -> Self;

    fn sqrt(self) -> Self;

    /// `self` raised to the power `n`.
    fn powi(self, n: i32) -> Self;

    /// Whether `self` is strictly greater than `rhs`.
    fn gt(self, rhs: Self) -> bool;

    /// Whether `self` is greater than or equal to `rhs`.
    fn ge(self, rhs: Self) -> bool;

    /// Whether `self` and `rhs` are equal as numbers.
    fn eq(self, rhs: Self) -> bool;

    /// Whether `self` comes at or after `rhs` in the total order of the number
    /// type, the order that ranks every value, also those that `ge` does not
    /// compare.
    fn total_ge(self, rhs: Self) -> bool;

    /// A sample drawn uniformly from the half-open unit interval.
    fn uniform(rng: &mut StdRng) -> Self;
}

/// What `T::zero()` returns.
pub open spec fn zero<T: Scalar>() -> T {
    choose|r: T| call_ensures(T::zero, (), r)
}

/// What `T::one()` returns.
pub open spec fn one<T: Scalar>() -> T {
    choose|r: T| call_ensures(T::one, (), r)
}

/// What `T::from_usize(n)` returns.
pub open spec fn of_usize<T: Scalar>(n: usize) -> T {
    choose|r: T| call_ensures(T::from_usize, (n,), r)
}

/// What `a.add(b)` returns.
pub open spec fn sum<T: Scalar>(a: T, b: T) -> T {
    choose|r: T| call_ensures(T::add, (a, b), r)
}

/// What `a.sub(b)` returns.
pub open spec fn difference<T: Scalar>(a: T, b: T) -> T {
    choose|r: T| call_ensures(T::sub, (a, b), r)
}

/// What `a.mul(b)` returns.
pub open spec fn product<T: Scalar>(a: T, b: T) -> T {
    choose|r: T| call_ensures(T::mul, (a, b), r)
}

/// What `a.div(b)` returns.
pub open spec fn quotient<T: Scalar>(a: T, b: T) -> T {
    choose|r: T| call_ensures(T::div, (a, b), r)
}

/// What `a.neg()` returns.
pub open spec fn negation<T: Scalar>(a: T) -> T {
    choose|r: T| call_ensures(T::neg, (a,), r)
}

/// What `a.exp()` returns.
pub open spec fn exponential<T: Scalar>(a: T) -> T {
    choose|r: T| call_ensures(T::exp, (a,), r)
}

/// What `a.ln()` returns.
pub open spec fn logarithm<T: Scalar>(a: T) -> T {
    choose|r: T| call_ensures(T::ln, (a,), r)
}

/// What `a.sqrt()` returns.
pub open spec fn square_root<T: Scalar>(a: T) -> T {
    choose|r: T| call_ensures(T::sqrt, (a,), r)
}

/// What `a.powi(n)` returns.
pub open spec fn power<T: Scalar>(a: T, n: i32) -> T {
    choose|r: T| call_ensures(T::powi, (a, n), r)
}

/// What `a.gt(b)` returns.
pub open spec fn exceeds<T: Scalar>(a: T, b: T) -> bool {
    choose|r: bool| call_ensures(T::gt, (a, b), r)
}

/// What `a.ge(b)` returns.
pub open spec fn reaches<T: Scalar>(a: T, b: T) -> bool {
    choose|r: bool| call_ensures(T::ge, (a, b), r)
}

/// What `a.eq(b)` returns.
pub open spec fn equals<T: Scalar>(a: T, b: T) -> bool {
    choose|r: bool| call_ensures(T::eq, (a, b), r)
}

/// What `a.total_ge(b)` returns.
pub open spec fn ranks_at_least<T: Scalar>(a: T, b: T) -> bool {
    choose|r: bool| call_ensures(T::total_ge, (a, b), r)
}

/// Every operation of `T` but sampling returns one value for given arguments.
pub open spec fn deterministic<T: Scalar>() -> bool {
    &&& forall|r: T, s: T| call_ensures(T::zero, (), r) && call_ensures(T::zero, (), s) ==> r == s
    &&& forall|r: T, s: T| call_ensures(T::one, (), r) && call_ensures(T::one, (), s) ==> r == s
    &&& forall|n: usize, r: T, s: T|
        call_ensures(T::from_usize, (n,), r) && call_ensures(T::from_usize, (n,), s) ==> r == s
    &&& forall|a: T, b: T, r: T, s: T|
        call_ensures(T::add, (a, b), r) && call_ensures(T::add, (a, b), s) ==> r == s
    &&& forall|a: T, b: T, r: T, s: T|
        call_ensures(T::sub, (a, b), r) && call_ensures(T::sub, (a, b), s) ==> r == s
    &&& forall|a: T, b: T, r: T, s: T|
        call_ensures(T::mul, (a, b), r) && call_ensures(T::mul, (a, b), s) ==> r == s
    &&& forall|a: T, b: T, r: T, s: T|
        call_ensures(T::div, (a, b), r) && call_ensures(T::div, (a, b), s) ==> r == s
    &&& forall|a: T, r: T, s: T|
        call_ensures(T::neg, (a,), r) && call_ensures(T::neg, (a,), s) ==> r == s
    &&& forall|a: T, r: T, s: T|
        call_ensures(T::exp, (a,), r) && call_ensures(T::exp, (a,), s) ==> r == s
    &&& forall|a: T, r: T, s: T|
        call_ensures(T::ln, (a,), r) && call_ensures(T::ln, (a,), s) ==> r == s
    &&& forall|a: T, r: T, s: T|
        call_ensures(T::sqrt, (a,), r) && call_ensures(T::sqrt, (a,), s) ==> r == s
    &&& forall|a: T, n: i32, r: T, s: T|
        call_ensures(T::powi, (a, n), r) && call_ensures(T::powi, (a, n), s) ==> r == s
    &&& forall|a: T, b: T, r: bool, s: bool|
        call_ensures(T::gt, (a, b), r) && call_ensures(T::gt, (a, b), s) ==> r == s
    &&& forall|a: T, b: T, r: bool, s: bool|
        call_ensures(T::ge, (a, b), r) && call_ensures(T::ge, (a, b), s) ==> r == s
    &&& forall|a: T, b: T, r: bool, s: bool|
        call_ensures(T::eq, (a, b), r) && call_ensures(T::eq, (a, b), s) ==> r == s
    &&& forall|a: T, b: T, r: bool, s: bool|
        call_ensures(T::total_ge, (a, b), r) && call_ensures(T::total_ge, (a, b), s) ==> r == s
}

/// `T::zero()`.
pub fn zero_value<T: Scalar>() -> (r: T)
    ensures
        deterministic::<T>() ==> r == zero::<T>(),
{
    T::zero()
}

/// `T::one()`.
pub fn one_value<T: Scalar>() -> (r: T)
    ensures
        deterministic::<T>() ==> r == one::<T>(),
{
    T::one()
}

/// `T::from_usize(n)`.
pub fn count_value<T: Scalar>(n: usize) -> (r: T)
    ensures
        deterministic::<T>() ==> r == of_usize::<T>(n),
{
    T::from_usize(n)
}

/// `a.add(b)`.
pub fn plus<T: Scalar>(a: T, b: T) -> (r: T)
    ensures
        deterministic::<T>() ==> r == sum(a, b),
{
    a.add(b)
}

/// `a.sub(b)`.
pub fn minus<T: Scalar>(a: T, b: T) -> (r: T)
    ensures
        deterministic::<T>() ==> r == difference(a, b),
{
    a.sub(b)
}

/// `a.mul(b)`.
pub fn times<T: Scalar>(a: T, b: T) -> (r: T)
    ensures
        deterministic::<T>() ==> r == product(a, b),
{
    a.mul(b)
}

/// `a.div(b)`.
pub fn over<T: Scalar>(a: T, b: T) -> (r: T)
    ensures
        deterministic::<T>() ==> r == quotient(a, b),
{
    a.div(b)
}

/// `a.neg()`.
pub fn negated<T: Scalar>(a: T) -> (r: T)
    ensures
        deterministic::<T>() ==> r == negation(a),
{
    a.neg()
}

/// `a.exp()`.
pub fn exp_value<T: Scalar>(a: T) -> (r: T)
    ensures
        deterministic::<T>() ==> r == exponential(a),
{
    a.exp()
}

/// `a.ln()`.
pub fn ln_value<T: Scalar>(a: T) -> (r: T)
    ensures
        deterministic::<T>() ==> r == logarithm(a),
{
    a.ln()
}

/// `a.sqrt()`.
pub fn sqrt_value<T: Scalar>(a: T) -> (r: T)
    ensures
        deterministic::<T>() ==> r == square_root(a),
{
    a.sqrt()
}

/// `a.powi(n)`.
pub fn raised<T: Scalar>(a: T, n: i32) -> (r: T)
    ensures
        deterministic::<T>() ==> r == power(a, n),
{
    a.powi(n)
}

/// `a.gt(b)`.
pub fn is_greater<T: Scalar>(a: T, b: T) -> (r: bool)
    ensures
        deterministic::<T>() ==> r == exceeds(a, b),
{
    a.gt(b)
}

/// `a.ge(b)`.
pub fn is_at_least<T: Scalar>(a: T, b: T) -> (r: bool)
    ensures
        deterministic::<T>() ==> r == reaches(a, b),
{
    a.ge(b)
}

/// `a.eq(b)`.
pub fn is_equal<T: Scalar>(a: T, b: T) -> (r: bool)
    ensures
        deterministic::<T>() ==> r == equals(a, b),
{
    a.eq(b)
}

/// `a.total_ge(b)`.
pub fn is_ranked_at_least<T: Scalar>(a: T, b: T) -> (r: bool)
    ensures
        deterministic::<T>() ==> r == ranks_at_least(a, b),
{
    a.total_ge(b)
}

} // verus!
