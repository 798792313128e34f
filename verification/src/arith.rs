//! The number system that the network computes in.
//!
//! Every operator of the library is generic over an [`Arith`], which supplies the
//! scalars and the matrix product. The trait promises nothing of its results: what
//! the library proves is which operations are carried out, on which operands and in
//! which order. Each operation has a predicate (`is_sum`, `is_product`, ...) that
//! holds of a result which the operation may give, and a function that carries it out.
use vstd::prelude::*;

verus! {

/// Sizes and strides of one matrix product: `lhs` is `m` by `k`, `rhs` is `k` by `n`.
///
/// Entry `(i, l)` of `lhs` is its element `i * lhs_rs + l * lhs_cs`, and entry
/// `(l, j)` of `rhs` is its element `l * rhs_rs + j * rhs_cs`.
#[derive(Clone, Copy, Debug, PartialEq, Eq)]
pub struct Gemm {
    pub m: usize,
    pub n: usize,
    pub k: usize,
    pub lhs_cs: usize,
    pub lhs_rs: usize,
    pub rhs_cs: usize,
    pub rhs_rs: usize,
}

/// The last elements that the product reads lie inside the operands, and the result
/// has a number of entries that fits in `usize`.
pub open spec fn gemm_in_bounds(g: Gemm, lhs_len: int, rhs_len: int) -> bool {
    &&& g.m > 0 && g.k > 0 ==> (g.m - 1) * g.lhs_rs + (g.k - 1) * g.lhs_cs < lhs_len
    &&& g.n > 0 && g.k > 0 ==> (g.n - 1) * g.rhs_cs + (g.k - 1) * g.rhs_rs < rhs_len
    &&& g.m * g.n <= usize::MAX
}

/// Scalars with the operations that the network needs.
pub trait Arith {
    /// A scalar.
    type T: Copy;

    /// The result of one matrix product.
    type Product;

    /// The number zero.
    fn zero(&self) -> Self::T;

    /// The number below all others, from which a maximum starts.
    fn lowest(&self) -> Self::T;

    /// The number `num / den`.
    fn ratio(&self, num: u64, den: u64) -> Self::T
        requires
            den > 0,
    ;

    /// The number `n`.
    fn count(&self, n: usize) -> Self::T;

    /// The number whose IEEE 754 single precision encoding is `bits`.
    fn from_bits(&self, bits: u32) -> Self::T;

    /// The number whose IEEE 754 half precision encoding is `bits`.
    fn from_half_bits(&self, bits: u16) -> Self::T;

    /// Whether `x > y`.
    fn greater(&self, x: Self::T, y: Self::T) -> bool;

    /// `-x`.
    fn neg(&self, x: Self::T) -> Self::T;

    /// `|x|`.
    fn abs(&self, x: Self::T) -> Self::T;

    /// `e^x`.
    fn exp(&self, x: Self::T) -> Self::T;

    /// The natural logarithm of `x`.
    fn ln(&self, x: Self::T) -> Self::T;

    /// The square root of `x`.
    fn sqrt(&self, x: Self::T) -> Self::T;

    /// `1 / x`.
    fn recip(&self, x: Self::T) -> Self::T;

    /// The sine of `x`.
    fn sin(&self, x: Self::T) -> Self::T;

    /// The cosine of `x`.
    fn cos(&self, x: Self::T) -> Self::T;

    /// `x + y`.
    fn add(&self, x: Self::T, y: Self::T) -> Self::T;

    /// `x - y`.
    fn sub(&self, x: Self::T, y: Self::T) -> Self::T;

    /// `x * y`.
    fn mul(&self, x: Self::T, y: Self::T) -> Self::T;

    /// `x / y`.
    fn div(&self, x: Self::T, y: Self::T) -> Self::T;

    /// `x` raised to the power `y`.
    fn pow(&self, x: Self::T, y: Self::T) -> Self::T;

    /// The error function of `x * y`, the product and the function taken in double precision.
    fn erf_scaled(&self, x: Self::T, y: Self::T) -> Self::T;

    /// `scale` times the matrix product that `g` describes.
    fn gemm(&self, g: Gemm, lhs: &[Self::T], rhs: &[Self::T], scale: Self::T) -> Self::Product
        requires
            gemm_in_bounds(g, lhs@.len() as int, rhs@.len() as int),
    ;

    /// Entry `(i, j)` of the result of a matrix product.
    fn entry(&self, product: &Self::Product, i: usize, j: usize) -> Self::T;
}

/// `r` may be the number zero.
pub open spec fn is_zero<A: Arith>(a: &A, r: A::T) -> bool {
    call_ensures(A::zero, (a,), r)
}

/// `r` may be the number below all others.
pub open spec fn is_lowest<A: Arith>(a: &A, r: A::T) -> bool {
    call_ensures(A::lowest, (a,), r)
}

/// `r` may be `num / den`.
pub open spec fn is_ratio<A: Arith>(a: &A, num: u64, den: u64, r: A::T) -> bool {
    call_ensures(A::ratio, (a, num, den), r)
}

/// `r` may be the number `n`.
pub open spec fn is_count<A: Arith>(a: &A, n: int, r: A::T) -> bool {
    call_ensures(A::count, (a, n as usize), r)
}

/// `r` may be the number that `bits` encodes.
pub open spec fn is_decoded<A: Arith>(a: &A, bits: u32, r: A::T) -> bool {
    call_ensures(A::from_bits, (a, bits), r)
}

/// `r` may be the number that `bits` encodes in half precision.
pub open spec fn is_decoded_half<A: Arith>(a: &A, bits: u16, r: A::T) -> bool {
    call_ensures(A::from_half_bits, (a, bits), r)
}

/// `r` may be the answer to `x > y`.
pub open spec fn is_greater<A: Arith>(a: &A, x: A::T, y: A::T, r: bool) -> bool {
    call_ensures(A::greater, (a, x, y), r)
}

/// `p` may be `scale` times the product of `lhs` and `rhs` as `g` describes it.
pub open spec fn is_gemm<A: Arith>(
    a: &A,
    g: Gemm,
    lhs: Seq<A::T>,
    rhs: Seq<A::T>,
    scale: A::T,
    p: A::Product,
) -> bool {
    exists|l: &[A::T], r: &[A::T]|
        l@ == lhs && r@ == rhs && #[trigger] call_ensures(A::gemm, (a, g, l, r, scale), p)
}

/// `r` may be entry `(i, j)` of `p`.
pub open spec fn is_entry<A: Arith>(a: &A, p: A::Product, i: int, j: int, r: A::T) -> bool {
    call_ensures(A::entry, (a, &p, i as usize, j as usize), r)
}

/// `r` may be `-x`.
pub open spec fn is_negation<A: Arith>(a: &A, x: A::T, r: A::T) -> bool {
    call_ensures(A::neg, (a, x), r)
}

/// `r` may be `|x|`.
pub open spec fn is_magnitude<A: Arith>(a: &A, x: A::T, r: A::T) -> bool {
    call_ensures(A::abs, (a, x), r)
}

/// `r` may be `e^x`.
pub open spec fn is_exponential<A: Arith>(a: &A, x: A::T, r: A::T) -> bool {
    call_ensures(A::exp, (a, x), r)
}

/// `r` may be the natural logarithm of `x`.
pub open spec fn is_logarithm<A: Arith>(a: &A, x: A::T, r: A::T) -> bool {
    call_ensures(A::ln, (a, x), r)
}

/// `r` may be the square root of `x`.
pub open spec fn is_square_root<A: Arith>(a: &A, x: A::T, r: A::T) -> bool {
    call_ensures(A::sqrt, (a, x), r)
}

/// `r` may be `1 / x`.
pub open spec fn is_reciprocal<A: Arith>(a: &A, x: A::T, r: A::T) -> bool {
    call_ensures(A::recip, (a, x), r)
}

/// `r` may be the sine of `x`.
pub open spec fn is_sine<A: Arith>(a: &A, x: A::T, r: A::T) -> bool {
    call_ensures(A::sin, (a, x), r)
}

/// `r` may be the cosine of `x`.
pub open spec fn is_cosine<A: Arith>(a: &A, x: A::T, r: A::T) -> bool {
    call_ensures(A::cos, (a, x), r)
}

/// `r` may be `x + y`.
pub open spec fn is_sum<A: Arith>(a: &A, x: A::T, y: A::T, r: A::T) -> bool {
    call_ensures(A::add, (a, x, y), r)
}

/// `r` may be `x - y`.
pub open spec fn is_difference<A: Arith>(a: &A, x: A::T, y: A::T, r: A::T) -> bool {
    call_ensures(A::sub, (a, x, y), r)
}

/// `r` may be `x * y`.
pub open spec fn is_product<A: Arith>(a: &A, x: A::T, y: A::T, r: A::T) -> bool {
    call_ensures(A::mul, (a, x, y), r)
}

/// `r` may be `x / y`.
pub open spec fn is_quotient<A: Arith>(a: &A, x: A::T, y: A::T, r: A::T) -> bool {
    call_ensures(A::div, (a, x, y), r)
}

/// `r` may be `x` raised to the power `y`.
pub open spec fn is_power<A: Arith>(a: &A, x: A::T, y: A::T, r: A::T) -> bool {
    call_ensures(A::pow, (a, x, y), r)
}

/// `r` may be the error function of `x * y`, the product and the function taken in double precision.
pub open spec fn is_scaled_erf<A: Arith>(a: &A, x: A::T, y: A::T, r: A::T) -> bool {
    call_ensures(A::erf_scaled, (a, x, y), r)
}

/// The number zero.
pub fn zero<A: Arith>(a: &A) -> (r: A::T)
    ensures
        is_zero(a, r),
{
    a.zero()
}

/// The number below all others.
pub fn lowest<A: Arith>(a: &A) -> (r: A::T)
    ensures
        is_lowest(a, r),
{
    a.lowest()
}

/// The number `num / den`.
pub fn ratio<A: Arith>(a: &A, num: u64, den: u64) -> (r: A::T)
    requires
        den > 0,
    ensures
        is_ratio(a, num, den, r),
{
    a.ratio(num, den)
}

/// The number `n`.
pub fn count<A: Arith>(a: &A, n: usize) -> (r: A::T)
    ensures
        is_count(a, n as int, r),
{
    a.count(n)
}

/// The number that `bits` encodes.
pub fn decoded<A: Arith>(a: &A, bits: u32) -> (r: A::T)
    ensures
        is_decoded(a, bits, r),
{
    a.from_bits(bits)
}

/// The number that `bits` encodes in half precision.
pub fn decoded_half<A: Arith>(a: &A, bits: u16) -> (r: A::T)
    ensures
        is_decoded_half(a, bits, r),
{
    a.from_half_bits(bits)
}

/// Whether `x > y`.
pub fn greater<A: Arith>(a: &A, x: A::T, y: A::T) -> (r: bool)
    ensures
        is_greater(a, x, y, r),
{
    a.greater(x, y)
}

/// `-x`.
pub fn negate<A: Arith>(a: &A, x: A::T) -> (r: A::T)
    ensures
        is_negation(a, x, r),
{
    a.neg(x)
}

/// `|x|`.
pub fn magnitude<A: Arith>(a: &A, x: A::T) -> (r: A::T)
    ensures
        is_magnitude(a, x, r),
{
    a.abs(x)
}

/// `e^x`.
pub fn exponential<A: Arith>(a: &A, x: A::T) -> (r: A::T)
    ensures
        is_exponential(a, x, r),
{
    a.exp(x)
}

/// The natural logarithm of `x`.
pub fn logarithm<A: Arith>(a: &A, x: A::T) -> (r: A::T)
    ensures
        is_logarithm(a, x, r),
{
    a.ln(x)
}

/// The square root of `x`.
pub fn square_root<A: Arith>(a: &A, x: A::T) -> (r: A::T)
    ensures
        is_square_root(a, x, r),
{
    a.sqrt(x)
}

/// `1 / x`.
pub fn reciprocal<A: Arith>(a: &A, x: A::T) -> (r: A::T)
    ensures
        is_reciprocal(a, x, r),
{
    a.recip(x)
}

/// The sine of `x`.
pub fn sine<A: Arith>(a: &A, x: A::T) -> (r: A::T)
    ensures
        is_sine(a, x, r),
{
    a.sin(x)
}

/// The cosine of `x`.
pub fn cosine<A: Arith>(a: &A, x: A::T) -> (r: A::T)
    ensures
        is_cosine(a, x, r),
{
    a.cos(x)
}

/// `x + y`.
pub fn plus<A: Arith>(a: &A, x: A::T, y: A::T) -> (r: A::T)
    ensures
        is_sum(a, x, y, r),
{
    a.add(x, y)
}

/// `x - y`.
pub fn minus<A: Arith>(a: &A, x: A::T, y: A::T) -> (r: A::T)
    ensures
        is_difference(a, x, y, r),
{
    a.sub(x, y)
}

/// `x * y`.
pub fn times<A: Arith>(a: &A, x: A::T, y: A::T) -> (r: A::T)
    ensures
        is_product(a, x, y, r),
{
    a.mul(x, y)
}

/// `x / y`.
pub fn over<A: Arith>(a: &A, x: A::T, y: A::T) -> (r: A::T)
    ensures
        is_quotient(a, x, y, r),
{
    a.div(x, y)
}

/// `x` raised to the power `y`.
pub fn power<A: Arith>(a: &A, x: A::T, y: A::T) -> (r: A::T)
    ensures
        is_power(a, x, y, r),
{
    a.pow(x, y)
}

/// The error function of `x * y`, the product and the function taken in double precision.
pub fn scaled_erf<A: Arith>(a: &A, x: A::T, y: A::T) -> (r: A::T)
    ensures
        is_scaled_erf(a, x, y, r),
{
    a.erf_scaled(x, y)
}

/// `scale` times the matrix product that `g` describes.
pub fn matmul<A: Arith>(a: &A, g: Gemm, lhs: &[A::T], rhs: &[A::T], scale: A::T) -> (p: A::Product)
    requires
        gemm_in_bounds(g, lhs@.len() as int, rhs@.len() as int),
    ensures
        is_gemm(a, g, lhs@, rhs@, scale, p),
{
    a.gemm(g, lhs, rhs, scale)
}

/// Entry `(i, j)` of a matrix product.
pub fn entry<A: Arith>(a: &A, p: &A::Product, i: usize, j: usize) -> (r: A::T)
    ensures
        is_entry(a, *p, i as int, j as int, r),
{
    a.entry(p, i, j)
}

/// Scalars that there is a shorter form of, with half the bits.
pub trait HalfArith: Arith {
    /// The shorter form.
    type H: Copy;

    /// The number in half precision with these bits.
    fn half(&self, bits: u16) -> Self::H;

    /// The scalar in half precision.
    fn narrow(&self, x: Self::T) -> Self::H;
}

/// `r` may be the number in half precision with these bits.
pub open spec fn is_half<A: HalfArith>(a: &A, bits: u16, r: A::H) -> bool {
    call_ensures(A::half, (a, bits), r)
}

/// `r` may be `x` in half precision.
pub open spec fn is_narrowed<A: HalfArith>(a: &A, x: A::T, r: A::H) -> bool {
    call_ensures(A::narrow, (a, x), r)
}

/// The number in half precision with these bits.
pub fn half<A: HalfArith>(a: &A, bits: u16) -> (r: A::H)
    ensures
        is_half(a, bits, r),
{
    a.half(bits)
}

/// The scalar in half precision.
pub fn narrow<A: HalfArith>(a: &A, x: A::T) -> (r: A::H)
    ensures
        is_narrowed(a, x, r),
{
    a.narrow(x)
}

} // verus!
