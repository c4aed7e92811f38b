use vstd::prelude::*;

verus! {

/// An element type of buffers: a plain value with a zero, which freshly
/// allocated and cleared buffers hold, a one, which seeds a backward pass, and
/// a sum and a product, which accumulate gradients, and a difference.
pub trait Number: Copy {
    /// The value that `zero` returns.
    spec fn zero_spec() -> Self;

    /// The value that `one` returns.
    spec fn one_spec() -> Self;

    /// The value that `plus` returns.
    spec fn plus_spec(self, rhs: Self) -> Self;

    /// The value that `times` returns.
    spec fn times_spec(self, rhs: Self) -> Self;

    /// The value that `minus` returns.
    spec fn minus_spec(self, rhs: Self) -> Self;

    fn zero() -> (z: Self)
        ensures
            z == Self::zero_spec(),
    ;

    fn one() -> (o: Self)
        ensures
            o == Self::one_spec(),
    ;

    /// The sum of `self` and `rhs`.
    fn plus(self, rhs: Self) -> (sum: Self)
        ensures
            sum == self.plus_spec(rhs),
    ;

    /// The product of `self` and `rhs`.
    fn times(self, rhs: Self) -> (product: Self)
        ensures
            product == self.times_spec(rhs),
    ;

    /// The difference of `self` and `rhs`.
    fn minus(self, rhs: Self) -> (difference: Self)
        ensures
            difference == self.minus_spec(rhs),
    ;
}

/// `len` zeros.
pub open spec fn zeros<T: Number>(len: nat) -> Seq<T> {
    Seq::new(len, |i: int| T::zero_spec())
}

/// The integers of `i8`, whose sums, products and differences wrap around at
/// the bounds of the type.
impl Number for i8 {
    open spec fn zero_spec() -> i8 {
        0
    }

    open spec fn one_spec() -> i8 {
        1
    }

    open spec fn plus_spec(self, rhs: i8) -> i8 {
        self.wrapping_add(rhs)
    }

    open spec fn times_spec(self, rhs: i8) -> i8 {
        self.wrapping_mul(rhs)
    }

    open spec fn minus_spec(self, rhs: i8) -> i8 {
        self.wrapping_sub(rhs)
    }

    fn zero() -> (z: i8) {
        0
    }

    fn one() -> (o: i8) {
        1
    }

    fn plus(self, rhs: i8) -> (sum: i8) {
        self.wrapping_add(rhs)
    }

    fn times(self, rhs: i8) -> (product: i8) {
        self.wrapping_mul(rhs)
    }

    fn minus(self, rhs: i8) -> (difference: i8) {
        self.wrapping_sub(rhs)
    }
}

/// The integers of `i16`, whose sums, products and differences wrap around at
/// the bounds of the type.
impl Number for i16 {
    open spec fn zero_spec() -> i16 {
        0
    }

    open spec fn one_spec() -> i16 {
        1
    }

    open spec fn plus_spec(self, rhs: i16) -> i16 {
        self.wrapping_add(rhs)
    }

    open spec fn times_spec(self, rhs: i16) -> i16 {
        self.wrapping_mul(rhs)
    }

    open spec fn minus_spec(self, rhs: i16) -> i16 {
        self.wrapping_sub(rhs)
    }

    fn zero() -> (z: i16) {
        0
    }

    fn one() -> (o: i16) {
        1
    }

    fn plus(self, rhs: i16) -> (sum: i16) {
        self.wrapping_add(rhs)
    }

    fn times(self, rhs: i16) -> (product: i16) {
        self.wrapping_mul(rhs)
    }

    fn minus(self, rhs: i16) -> (difference: i16) {
        self.wrapping_sub(rhs)
    }
}

/// The integers of `i32`, whose sums, products and differences wrap around at
/// the bounds of the type.
impl Number for i32 {
    open spec fn zero_spec() -> i32 {
        0
    }

    open spec fn one_spec() -> i32 {
        1
    }

    open spec fn plus_spec(self, rhs: i32) -> i32 {
        self.wrapping_add(rhs)
    }

    open spec fn times_spec(self, rhs: i32) -> i32 {
        self.wrapping_mul(rhs)
    }

    open spec fn minus_spec(self, rhs: i32) -> i32 {
        self.wrapping_sub(rhs)
    }

    fn zero() -> (z: i32) {
        0
    }

    fn one() -> (o: i32) {
        1
    }

    fn plus(self, rhs: i32) -> (sum: i32) {
        self.wrapping_add(rhs)
    }

    fn times(self, rhs: i32) -> (product: i32) {
        self.wrapping_mul(rhs)
    }

    fn minus(self, rhs: i32) -> (difference: i32) {
        self.wrapping_sub(rhs)
    }
}

/// The integers of `i64`, whose sums, products and differences wrap around at
/// the bounds of the type.
impl Number for i64 {
    open spec fn zero_spec() -> i64 {
        0
    }

    open spec fn one_spec() -> i64 {
        1
    }

    open spec fn plus_spec(self, rhs: i64) -> i64 {
        self.wrapping_add(rhs)
    }

    open spec fn times_spec(self, rhs: i64) -> i64 {
        self.wrapping_mul(rhs)
    }

    open spec fn minus_spec(self, rhs: i64) -> i64 {
        self.wrapping_sub(rhs)
    }

    fn zero() -> (z: i64) {
        0
    }

    fn one() -> (o: i64) {
        1
    }

    fn plus(self, rhs: i64) -> (sum: i64) {
        self.wrapping_add(rhs)
    }

    fn times(self, rhs: i64) -> (product: i64) {
        self.wrapping_mul(rhs)
    }

    fn minus(self, rhs: i64) -> (difference: i64) {
        self.wrapping_sub(rhs)
    }
}

/// The integers of `i128`, whose sums, products and differences wrap around at
/// the bounds of the type.
impl Number for i128 {
    open spec fn zero_spec() -> i128 {
        0
    }

    open spec fn one_spec() -> i128 {
        1
    }

    open spec fn plus_spec(self, rhs: i128) -> i128 {
        self.wrapping_add(rhs)
    }

    open spec fn times_spec(self, rhs: i128) -> i128 {
        self.wrapping_mul(rhs)
    }

    open spec fn minus_spec(self, rhs: i128) -> i128 {
        self.wrapping_sub(rhs)
    }

    fn zero() -> (z: i128) {
        0
    }

    fn one() -> (o: i128) {
        1
    }

    fn plus(self, rhs: i128) -> (sum: i128) {
        self.wrapping_add(rhs)
    }

    fn times(self, rhs: i128) -> (product: i128) {
        self.wrapping_mul(rhs)
    }

    fn minus(self, rhs: i128) -> (difference: i128) {
        self.wrapping_sub(rhs)
    }
}

/// The integers of `isize`, whose sums, products and differences wrap around at
/// the bounds of the type.
impl Number for isize {
    open spec fn zero_spec() -> isize {
        0
    }

    open spec fn one_spec() -> isize {
        1
    }

    open spec fn plus_spec(self, rhs: isize) -> isize {
        self.wrapping_add(rhs)
    }

    open spec fn times_spec(self, rhs: isize) -> isize {
        self.wrapping_mul(rhs)
    }

    open spec fn minus_spec(self, rhs: isize) -> isize {
        self.wrapping_sub(rhs)
    }

    fn zero() -> (z: isize) {
        0
    }

    fn one() -> (o: isize) {
        1
    }

    fn plus(self, rhs: isize) -> (sum: isize) {
        self.wrapping_add(rhs)
    }

    fn times(self, rhs: isize) -> (product: isize) {
        self.wrapping_mul(rhs)
    }

    fn minus(self, rhs: isize) -> (difference: isize) {
        self.wrapping_sub(rhs)
    }
}

/// The integers of `u8`, whose sums, products and differences wrap around at
/// the bounds of the type.
impl Number for u8 {
    open spec fn zero_spec() -> u8 {
        0
    }

    open spec fn one_spec() -> u8 {
        1
    }

    open spec fn plus_spec(self, rhs: u8) -> u8 {
        self.wrapping_add(rhs)
    }

    open spec fn times_spec(self, rhs: u8) -> u8 {
        self.wrapping_mul(rhs)
    }

    open spec fn minus_spec(self, rhs: u8) -> u8 {
        self.wrapping_sub(rhs)
    }

    fn zero() -> (z: u8) {
        0
    }

    fn one() -> (o: u8) {
        1
    }

    fn plus(self, rhs: u8) -> (sum: u8) {
        self.wrapping_add(rhs)
    }

    fn times(self, rhs: u8) -> (product: u8) {
        self.wrapping_mul(rhs)
    }

    fn minus(self, rhs: u8) -> (difference: u8) {
        self.wrapping_sub(rhs)
    }
}

/// The integers of `u16`, whose sums, products and differences wrap around at
/// the bounds of the type.
impl Number for u16 {
    open spec fn zero_spec() -> u16 {
        0
    }

    open spec fn one_spec() -> u16 {
        1
    }

    open spec fn plus_spec(self, rhs: u16) -> u16 {
        self.wrapping_add(rhs)
    }

    open spec fn times_spec(self, rhs: u16) -> u16 {
        self.wrapping_mul(rhs)
    }

    open spec fn minus_spec(self, rhs: u16) -> u16 {
        self.wrapping_sub(rhs)
    }

    fn zero() -> (z: u16) {
        0
    }

    fn one() -> (o: u16) {
        1
    }

    fn plus(self, rhs: u16) -> (sum: u16) {
        self.wrapping_add(rhs)
    }

    fn times(self, rhs: u16) -> (product: u16) {
        self.wrapping_mul(rhs)
    }

    fn minus(self, rhs: u16) -> (difference: u16) {
        self.wrapping_sub(rhs)
    }
}

/// The integers of `u32`, whose sums, products and differences wrap around at
/// the bounds of the type.
impl Number for u32 {
    open spec fn zero_spec() -> u32 {
        0
    }

    open spec fn one_spec() -> u32 {
        1
    }

    open spec fn plus_spec(self, rhs: u32) -> u32 {
        self.wrapping_add(rhs)
    }

    open spec fn times_spec(self, rhs: u32) -> u32 {
        self.wrapping_mul(rhs)
    }

    open spec fn minus_spec(self, rhs: u32) -> u32 {
        self.wrapping_sub(rhs)
    }

    fn zero() -> (z: u32) {
        0
    }

    fn one() -> (o: u32) {
        1
    }

    fn plus(self, rhs: u32) -> (sum: u32) {
        self.wrapping_add(rhs)
    }

    fn times(self, rhs: u32) -> (product: u32) {
        self.wrapping_mul(rhs)
    }

    fn minus(self, rhs: u32) -> (difference: u32) {
        self.wrapping_sub(rhs)
    }
}

/// The integers of `u64`, whose sums, products and differences wrap around at
/// the bounds of the type.
impl Number for u64 {
    open spec fn zero_spec() -> u64 {
        0
    }

    open spec fn one_spec() -> u64 {
        1
    }

    open spec fn plus_spec(self, rhs: u64) -> u64 {
        self.wrapping_add(rhs)
    }

    open spec fn times_spec(self, rhs: u64) -> u64 {
        self.wrapping_mul(rhs)
    }

    open spec fn minus_spec(self, rhs: u64) -> u64 {
        self.wrapping_sub(rhs)
    }

    fn zero() -> (z: u64) {
        0
    }

    fn one() -> (o: u64) {
        1
    }

    fn plus(self, rhs: u64) -> (sum: u64) {
        self.wrapping_add(rhs)
    }

    fn times(self, rhs: u64) -> (product: u64) {
        self.wrapping_mul(rhs)
    }

    fn minus(self, rhs: u64) -> (difference: u64) {
        self.wrapping_sub(rhs)
    }
}

/// The integers of `u128`, whose sums, products and differences wrap around at
/// the bounds of the type.
impl Number for u128 {
    open spec fn zero_spec() -> u128 {
        0
    }

    open spec fn one_spec() -> u128 {
        1
    }

    open spec fn plus_spec(self, rhs: u128) -> u128 {
        self.wrapping_add(rhs)
    }

    open spec fn times_spec(self, rhs: u128) -> u128 {
        self.wrapping_mul(rhs)
    }

    open spec fn minus_spec(self, rhs: u128) -> u128 {
        self.wrapping_sub(rhs)
    }

    fn zero() -> (z: u128) {
        0
    }

    fn one() -> (o: u128) {
        1
    }

    fn plus(self, rhs: u128) -> (sum: u128) {
        self.wrapping_add(rhs)
    }

    fn times(self, rhs: u128) -> (product: u128) {
        self.wrapping_mul(rhs)
    }

    fn minus(self, rhs: u128) -> (difference: u128) {
        self.wrapping_sub(rhs)
    }
}

/// The integers of `usize`, whose sums, products and differences wrap around at
/// the bounds of the type.
impl Number for usize {
    open spec fn zero_spec() -> usize {
        0
    }

    open spec fn one_spec() -> usize {
        1
    }

    open spec fn plus_spec(self, rhs: usize) -> usize {
        self.wrapping_add(rhs)
    }

    open spec fn times_spec(self, rhs: usize) -> usize {
        self.wrapping_mul(rhs)
    }

    open spec fn minus_spec(self, rhs: usize) -> usize {
        self.wrapping_sub(rhs)
    }

    fn zero() -> (z: usize) {
        0
    }

    fn one() -> (o: usize) {
        1
    }

    fn plus(self, rhs: usize) -> (sum: usize) {
        self.wrapping_add(rhs)
    }

    fn times(self, rhs: usize) -> (product: usize) {
        self.wrapping_mul(rhs)
    }

    fn minus(self, rhs: usize) -> (difference: usize) {
        self.wrapping_sub(rhs)
    }
}

} // verus!
