//! The numbers that a search adds up and compares.

use vstd::prelude::*;

verus! {

/// A cost: a number with a zero, an order and an addition that reports when
/// the sum has no value in the type.
pub trait Cost: Copy {
    /// The number that a value stands for.
    open spec fn value(self) -> int {
        arbitrary()
    }

    /// Whether the type has a value that stands for `v`.
    open spec fn representable(v: int) -> bool {
        arbitrary()
    }

    /// The cost of standing still.
    fn zero() -> (z: Self)
        ensures
            z.value() == 0,
    ;

    /// The sum of two costs, or `None` where the type has no value for it.
    fn checked_sum(self, other: Self) -> (sum: Option<Self>)
        ensures
            sum.is_some() == Self::representable(self.value() + other.value()),
            sum matches Some(s) ==> s.value() == self.value() + other.value(),
    ;

    /// The cost taken `factor` times, or `None` where the type has no value
    /// for it.
    fn checked_times(self, factor: u32) -> (product: Option<Self>)
        ensures
            product.is_some() == Self::representable(self.value() * factor),
            product matches Some(p) ==> p.value() == self.value() * factor,
    ;

    /// Whether `self` is strictly smaller than `other`.
    fn less(self, other: Self) -> (smaller: bool)
        ensures
            smaller == (self.value() < other.value()),
    ;
}

impl Cost for i32 {
    open spec fn value(self) -> int {
        self as int
    }

    open spec fn representable(v: int) -> bool {
        i32::MIN <= v <= i32::MAX
    }

    fn zero() -> (z: Self) {
        0
    }

    fn checked_sum(self, other: Self) -> (sum: Option<Self>) {
        self.checked_add(other)
    }

    fn checked_times(self, factor: u32) -> (product: Option<Self>) {
        assert(i32::MIN * u32::MAX <= self * factor <= i32::MAX * u32::MAX) by (nonlinear_arith)
            requires
                i32::MIN <= self <= i32::MAX,
                0 <= factor <= u32::MAX,
        ;
        let wide: i64 = (self as i64) * (factor as i64);
        if wide < i32::MIN as i64 || wide > i32::MAX as i64 {
            None
        } else {
            Some(wide as i32)
        }
    }

    fn less(self, other: Self) -> (smaller: bool) {
        self < other
    }
}

impl Cost for i64 {
    open spec fn value(self) -> int {
        self as int
    }

    open spec fn representable(v: int) -> bool {
        i64::MIN <= v <= i64::MAX
    }

    fn zero() -> (z: Self) {
        0
    }

    fn checked_sum(self, other: Self) -> (sum: Option<Self>) {
        self.checked_add(other)
    }

    fn checked_times(self, factor: u32) -> (product: Option<Self>) {
        assert(i64::MIN * u32::MAX <= self * factor <= i64::MAX * u32::MAX) by (nonlinear_arith)
            requires
                i64::MIN <= self <= i64::MAX,
                0 <= factor <= u32::MAX,
        ;
        let wide: i128 = (self as i128) * (factor as i128);
        if wide < i64::MIN as i128 || wide > i64::MAX as i128 {
            None
        } else {
            Some(wide as i64)
        }
    }

    fn less(self, other: Self) -> (smaller: bool) {
        self < other
    }
}

/// `fixed::FixedI32::<U10>::checked_add` on the numbers with these bits: the
/// bits of the sum, or `None` where the sum does not fit. A fixed-point
/// number is its bits read as an integer and divided by 1024, so the sum's
/// bits are the sum of the bits.
#[verifier::external_body]
fn fixed_checked_add(a: i32, b: i32) -> (sum: Option<i32>)
    ensures
        sum.is_some() == (i32::MIN <= a + b <= i32::MAX),
        sum matches Some(bits) ==> bits == a + b,
{
    let left = fixed::FixedI32::<fixed::types::extra::U10>::from_bits(a);
    let right = fixed::FixedI32::<fixed::types::extra::U10>::from_bits(b);
    match left.checked_add(right) {
        Some(sum) => Some(sum.to_bits()),
        None => None,
    }
}

/// `<` of `fixed::FixedI32::<U10>` on the numbers with these bits: two
/// fixed-point numbers with the same number of fractional digits are ordered
/// as their bits are.
#[verifier::external_body]
fn fixed_less(a: i32, b: i32) -> (smaller: bool)
    ensures
        smaller == (a < b),
{
    fixed::FixedI32::<fixed::types::extra::U10>::from_bits(a) < fixed::FixedI32::<
        fixed::types::extra::U10,
    >::from_bits(b)
}

/// A fixed-point cost with ten binary digits after the point, held as the
/// bits of a `fixed::FixedI32<U10>`: the cost is `bits / 1024`.
#[derive(Clone, Copy, Debug)]
pub struct FixedCost {
    bits: i32,
}

impl FixedCost {
    /// The cost in units of 1/1024.
    pub closed spec fn bits(self) -> int {
        self.bits as int
    }

    /// The cost that is `bits / 1024`.
    pub fn from_bits(bits: i32) -> (cost: Self)
        ensures
            cost.bits() == bits,
    {
        FixedCost { bits }
    }

    /// The cost in units of 1/1024.
    pub fn to_bits(self) -> (bits: i32)
        ensures
            bits == self.bits(),
    {
        self.bits
    }
}

impl Cost for FixedCost {
    /// The cost in units of 1/1024, which orders and adds as the cost does.
    open spec fn value(self) -> int {
        self.bits()
    }

    open spec fn representable(v: int) -> bool {
        i32::MIN <= v <= i32::MAX
    }

    fn zero() -> (z: Self) {
        FixedCost { bits: 0 }
    }

    fn checked_sum(self, other: Self) -> (sum: Option<Self>) {
        match fixed_checked_add(self.bits, other.bits) {
            Some(bits) => Some(FixedCost { bits }),
            None => None,
        }
    }

    fn checked_times(self, factor: u32) -> (product: Option<Self>) {
        match self.bits.checked_times(factor) {
            Some(bits) => Some(FixedCost { bits }),
            None => None,
        }
    }

    fn less(self, other: Self) -> (smaller: bool) {
        fixed_less(self.bits, other.bits)
    }
}

} // verus!
