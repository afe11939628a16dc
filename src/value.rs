//! Values a tree can aggregate: a commutative group, given by an identity, a
//! merge and its inverse.
use vstd::prelude::*;

verus! {

/// A value that a tree can store and aggregate.
///
/// `store_value` merges another value in, `substract` undoes a merge, and
/// `identity` is the value every slot starts from. The spec functions `zero`,
/// `plus` and `minus` say what they compute, and `lemma_group_laws` is the
/// proof that they form a commutative group, which is all the trees rely on.
pub trait FenwickTreeValue: Sized {
    /// The identity element.
    spec fn zero() -> Self;

    /// Merging `b` into `a`.
    spec fn plus(a: Self, b: Self) -> Self;

    /// The value that merged with `b` gives `a`.
    spec fn minus(a: Self, b: Self) -> Self;

    /// `plus` is commutative and associative with identity `zero`, and
    /// `minus` undoes it.
    proof fn lemma_group_laws(a: Self, b: Self, c: Self)
        ensures
            Self::plus(a, Self::zero()) == a,
            Self::plus(a, b) == Self::plus(b, a),
            Self::plus(Self::plus(a, b), c) == Self::plus(a, Self::plus(b, c)),
            Self::plus(Self::minus(a, b), b) == a,
    ;

    /// The identity element.
    fn identity() -> (r: Self)
        ensures
            r == Self::zero(),
    ;

    /// Merges `other` into `self`.
    fn store_value(&mut self, other: &Self)
        ensures
            *final(self) == Self::plus(*old(self), *other),
    ;

    /// The difference `self - other`.
    fn substract(self, other: Self) -> (r: Self)
        ensures
            r == Self::minus(self, other),
    ;
}

/// Merging the same value on both sides can be cancelled.
pub proof fn lemma_cancel<T: FenwickTreeValue>(x: T, y: T, b: T)
    requires
        T::plus(x, b) == T::plus(y, b),
    ensures
        x == y,
{
    let z = T::zero();
    let n = T::minus(z, b);
    T::lemma_group_laws(n, b, z);
    T::lemma_group_laws(z, b, z);
    T::lemma_group_laws(b, n, z);
    T::lemma_group_laws(x, z, z);
    T::lemma_group_laws(y, z, z);
    T::lemma_group_laws(x, b, n);
    T::lemma_group_laws(y, b, n);
}

/// `minus(a, b)` is the one value that merged with `b` gives `a`.
pub proof fn lemma_minus_unique<T: FenwickTreeValue>(a: T, b: T, x: T)
    requires
        T::plus(x, b) == a,
    ensures
        T::minus(a, b) == x,
{
    T::lemma_group_laws(a, b, b);
    lemma_cancel(T::minus(a, b), x, b);
}

/// Facts about `minus` that follow from the group laws.
pub proof fn lemma_minus_facts<T: FenwickTreeValue>(a: T, b: T, v: T)
    ensures
        T::minus(a, a) == T::zero(),
        T::minus(a, T::zero()) == a,
        T::minus(T::plus(a, v), b) == T::plus(T::minus(a, b), v),
        T::minus(T::plus(a, v), T::plus(b, v)) == T::minus(a, b),
        T::minus(T::plus(b, a), b) == a,
        T::plus(T::zero(), a) == a,
{
    let z = T::zero();
    T::lemma_group_laws(a, z, z);
    T::lemma_group_laws(z, a, z);
    lemma_minus_unique(a, a, z);
    lemma_minus_unique(a, z, a);
    let m = T::minus(a, b);
    T::lemma_group_laws(m, v, b);
    T::lemma_group_laws(v, b, z);
    T::lemma_group_laws(m, b, v);
    T::lemma_group_laws(a, b, b);
    lemma_minus_unique(T::plus(a, v), b, T::plus(m, v));
    lemma_minus_unique(T::plus(a, v), T::plus(b, v), m);
    T::lemma_group_laws(b, a, z);
    lemma_minus_unique(T::plus(b, a), b, a);
}

/// Wrapping arithmetic: `i8` values aggregate as integers modulo
/// `2^8`, so a merge never overflows.
impl FenwickTreeValue for i8 {
    open spec fn zero() -> i8 {
        0
    }

    open spec fn plus(a: i8, b: i8) -> i8 {
        vstd::wrapping::i8_specs::wrapping_add(a, b)
    }

    open spec fn minus(a: i8, b: i8) -> i8 {
        vstd::wrapping::i8_specs::wrapping_sub(a, b)
    }

    proof fn lemma_group_laws(a: i8, b: i8, c: i8) {
    }

    fn identity() -> i8 {
        0
    }

    fn store_value(&mut self, other: &i8) {
        *self = self.wrapping_add(*other);
    }

    fn substract(self, other: i8) -> i8 {
        self.wrapping_sub(other)
    }
}

/// Wrapping arithmetic: `i16` values aggregate as integers modulo
/// `2^16`, so a merge never overflows.
impl FenwickTreeValue for i16 {
    open spec fn zero() -> i16 {
        0
    }

    open spec fn plus(a: i16, b: i16) -> i16 {
        vstd::wrapping::i16_specs::wrapping_add(a, b)
    }

    open spec fn minus(a: i16, b: i16) -> i16 {
        vstd::wrapping::i16_specs::wrapping_sub(a, b)
    }

    proof fn lemma_group_laws(a: i16, b: i16, c: i16) {
    }

    fn identity() -> i16 {
        0
    }

    fn store_value(&mut self, other: &i16) {
        *self = self.wrapping_add(*other);
    }

    fn substract(self, other: i16) -> i16 {
        self.wrapping_sub(other)
    }
}

/// Wrapping arithmetic: `i32` values aggregate as integers modulo
/// `2^32`, so a merge never overflows.
impl FenwickTreeValue for i32 {
    open spec fn zero() -> i32 {
        0
    }

    open spec fn plus(a: i32, b: i32) -> i32 {
        vstd::wrapping::i32_specs::wrapping_add(a, b)
    }

    open spec fn minus(a: i32, b: i32) -> i32 {
        vstd::wrapping::i32_specs::wrapping_sub(a, b)
    }

    proof fn lemma_group_laws(a: i32, b: i32, c: i32) {
    }

    fn identity() -> i32 {
        0
    }

    fn store_value(&mut self, other: &i32) {
        *self = self.wrapping_add(*other);
    }

    fn substract(self, other: i32) -> i32 {
        self.wrapping_sub(other)
    }
}

/// Wrapping arithmetic: `i64` values aggregate as integers modulo
/// `2^64`, so a merge never overflows.
impl FenwickTreeValue for i64 {
    open spec fn zero() -> i64 {
        0
    }

    open spec fn plus(a: i64, b: i64) -> i64 {
        vstd::wrapping::i64_specs::wrapping_add(a, b)
    }

    open spec fn minus(a: i64, b: i64) -> i64 {
        vstd::wrapping::i64_specs::wrapping_sub(a, b)
    }

    proof fn lemma_group_laws(a: i64, b: i64, c: i64) {
    }

    fn identity() -> i64 {
        0
    }

    fn store_value(&mut self, other: &i64) {
        *self = self.wrapping_add(*other);
    }

    fn substract(self, other: i64) -> i64 {
        self.wrapping_sub(other)
    }
}

/// Wrapping arithmetic: `i128` values aggregate as integers modulo
/// `2^128`, so a merge never overflows.
impl FenwickTreeValue for i128 {
    open spec fn zero() -> i128 {
        0
    }

    open spec fn plus(a: i128, b: i128) -> i128 {
        vstd::wrapping::i128_specs::wrapping_add(a, b)
    }

    open spec fn minus(a: i128, b: i128) -> i128 {
        vstd::wrapping::i128_specs::wrapping_sub(a, b)
    }

    proof fn lemma_group_laws(a: i128, b: i128, c: i128) {
    }

    fn identity() -> i128 {
        0
    }

    fn store_value(&mut self, other: &i128) {
        *self = self.wrapping_add(*other);
    }

    fn substract(self, other: i128) -> i128 {
        self.wrapping_sub(other)
    }
}

/// Wrapping arithmetic: `isize` values aggregate as integers modulo
/// `2^isize::BITS`, so a merge never overflows.
impl FenwickTreeValue for isize {
    open spec fn zero() -> isize {
        0
    }

    open spec fn plus(a: isize, b: isize) -> isize {
        vstd::wrapping::isize_specs::wrapping_add(a, b)
    }

    open spec fn minus(a: isize, b: isize) -> isize {
        vstd::wrapping::isize_specs::wrapping_sub(a, b)
    }

    proof fn lemma_group_laws(a: isize, b: isize, c: isize) {
    }

    fn identity() -> isize {
        0
    }

    fn store_value(&mut self, other: &isize) {
        *self = self.wrapping_add(*other);
    }

    fn substract(self, other: isize) -> isize {
        self.wrapping_sub(other)
    }
}

/// Wrapping arithmetic: `u8` values aggregate as integers modulo
/// `2^8`, so a merge never overflows.
impl FenwickTreeValue for u8 {
    open spec fn zero() -> u8 {
        0
    }

    open spec fn plus(a: u8, b: u8) -> u8 {
        vstd::wrapping::u8_specs::wrapping_add(a, b)
    }

    open spec fn minus(a: u8, b: u8) -> u8 {
        vstd::wrapping::u8_specs::wrapping_sub(a, b)
    }

    proof fn lemma_group_laws(a: u8, b: u8, c: u8) {
    }

    fn identity() -> u8 {
        0
    }

    fn store_value(&mut self, other: &u8) {
        *self = self.wrapping_add(*other);
    }

    fn substract(self, other: u8) -> u8 {
        self.wrapping_sub(other)
    }
}

/// Wrapping arithmetic: `u16` values aggregate as integers modulo
/// `2^16`, so a merge never overflows.
impl FenwickTreeValue for u16 {
    open spec fn zero() -> u16 {
        0
    }

    open spec fn plus(a: u16, b: u16) -> u16 {
        vstd::wrapping::u16_specs::wrapping_add(a, b)
    }

    open spec fn minus(a: u16, b: u16) -> u16 {
        vstd::wrapping::u16_specs::wrapping_sub(a, b)
    }

    proof fn lemma_group_laws(a: u16, b: u16, c: u16) {
    }

    fn identity() -> u16 {
        0
    }

    fn store_value(&mut self, other: &u16) {
        *self = self.wrapping_add(*other);
    }

    fn substract(self, other: u16) -> u16 {
        self.wrapping_sub(other)
    }
}

/// Wrapping arithmetic: `u32` values aggregate as integers modulo
/// `2^32`, so a merge never overflows.
impl FenwickTreeValue for u32 {
    open spec fn zero() -> u32 {
        0
    }

    open spec fn plus(a: u32, b: u32) -> u32 {
        vstd::wrapping::u32_specs::wrapping_add(a, b)
    }

    open spec fn minus(a: u32, b: u32) -> u32 {
        vstd::wrapping::u32_specs::wrapping_sub(a, b)
    }

    proof fn lemma_group_laws(a: u32, b: u32, c: u32) {
    }

    fn identity() -> u32 {
        0
    }

    fn store_value(&mut self, other: &u32) {
        *self = self.wrapping_add(*other);
    }

    fn substract(self, other: u32) -> u32 {
        self.wrapping_sub(other)
    }
}

/// Wrapping arithmetic: `u64` values aggregate as integers modulo
/// `2^64`, so a merge never overflows.
impl FenwickTreeValue for u64 {
    open spec fn zero() -> u64 {
        0
    }

    open spec fn plus(a: u64, b: u64) -> u64 {
        vstd::wrapping::u64_specs::wrapping_add(a, b)
    }

    open spec fn minus(a: u64, b: u64) -> u64 {
        vstd::wrapping::u64_specs::wrapping_sub(a, b)
    }

    proof fn lemma_group_laws(a: u64, b: u64, c: u64) {
    }

    fn identity() -> u64 {
        0
    }

    fn store_value(&mut self, other: &u64) {
        *self = self.wrapping_add(*other);
    }

    fn substract(self, other: u64) -> u64 {
        self.wrapping_sub(other)
    }
}

/// Wrapping arithmetic: `u128` values aggregate as integers modulo
/// `2^128`, so a merge never overflows.
impl FenwickTreeValue for u128 {
    open spec fn zero() -> u128 {
        0
    }

    open spec fn plus(a: u128, b: u128) -> u128 {
        vstd::wrapping::u128_specs::wrapping_add(a, b)
    }

    open spec fn minus(a: u128, b: u128) -> u128 {
        vstd::wrapping::u128_specs::wrapping_sub(a, b)
    }

    proof fn lemma_group_laws(a: u128, b: u128, c: u128) {
    }

    fn identity() -> u128 {
        0
    }

    fn store_value(&mut self, other: &u128) {
        *self = self.wrapping_add(*other);
    }

    fn substract(self, other: u128) -> u128 {
        self.wrapping_sub(other)
    }
}

/// Wrapping arithmetic: `usize` values aggregate as integers modulo
/// `2^usize::BITS`, so a merge never overflows.
impl FenwickTreeValue for usize {
    open spec fn zero() -> usize {
        0
    }

    open spec fn plus(a: usize, b: usize) -> usize {
        vstd::wrapping::usize_specs::wrapping_add(a, b)
    }

    open spec fn minus(a: usize, b: usize) -> usize {
        vstd::wrapping::usize_specs::wrapping_sub(a, b)
    }

    proof fn lemma_group_laws(a: usize, b: usize, c: usize) {
    }

    fn identity() -> usize {
        0
    }

    fn store_value(&mut self, other: &usize) {
        *self = self.wrapping_add(*other);
    }

    fn substract(self, other: usize) -> usize {
        self.wrapping_sub(other)
    }
}

} // verus!
