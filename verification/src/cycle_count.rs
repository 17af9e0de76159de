//! Counters that wrap around, compared so that a value just past the wrap comes
//! after one just before it.
use vstd::prelude::*;

verus! {

/// The result of comparing two counters.
#[derive(Clone, Copy, PartialEq, Eq, Structural, Debug)]
pub enum CycleOrder {
    Less,
    Equal,
    Greater,
}

/// Unsigned counters that wrap around. Within `r` of the bottom a value counts as
/// past one within `r` of the top.
pub trait CycleNum: Sized {
    /// The ranges `r` on which the range tests return: at least one.
    spec fn range_ok(r: Self) -> bool;

    /// `a` plus `b`, wrapping around.
    spec fn wrap_add(a: Self, b: Self) -> Self;

    /// `a` compared with `b` as wrapping counters with range `r`.
    spec fn order(a: Self, b: Self, r: Self) -> CycleOrder;

    /// Adds `v`, wrapping around.
    fn uncheck_add_assign(&mut self, v: Self)
        ensures
            *final(self) == Self::wrap_add(*old(self), v),
    ;

    fn cycle_partial_cmp(&self, v: &Self, r: Self) -> (o: Option<CycleOrder>)
        requires
            Self::range_ok(r),
        ensures
            o == Some(Self::order(*self, *v, r)),
    ;

    fn cycle_cmp(&self, v: &Self, r: Self) -> (o: CycleOrder)
        requires
            Self::range_ok(r),
        ensures
            o == Self::order(*self, *v, r),
    ;

    /// Whether `v` is among the `r` smallest values.
    fn in_min_range(&self, v: Self, r: Self) -> bool
        requires
            Self::range_ok(r),
    ;

    /// Whether `v` is among the `r` largest values.
    fn in_max_range(&self, v: Self, r: Self) -> bool
        requires
            Self::range_ok(r),
    ;
}

/// `a` compared with `b` as wrapping counters with range `r`.
pub open spec fn cycle_order_u8(a: u8, b: u8, r: u8) -> CycleOrder {
    if a <= u8::MIN + r - 1 && b >= u8::MAX - r + 1 {
        CycleOrder::Greater
    } else if a >= u8::MAX - r + 1 && b <= u8::MIN + r - 1 {
        CycleOrder::Less
    } else if a < b {
        CycleOrder::Less
    } else if a == b {
        CycleOrder::Equal
    } else {
        CycleOrder::Greater
    }
}

impl CycleNum for u8 {
    open spec fn range_ok(r: u8) -> bool {
        r >= 1
    }

    open spec fn wrap_add(a: u8, b: u8) -> u8 {
        (if a + b > u8::MAX {
            a + b - u8::MAX - 1
        } else {
            a + b
        }) as u8
    }

    open spec fn order(a: u8, b: u8, r: u8) -> CycleOrder {
        cycle_order_u8(a, b, r)
    }

    fn uncheck_add_assign(&mut self, v: u8)
        ensures
            *final(self) == (if *old(self) + v > u8::MAX { *old(self) + v - u8::MAX - 1 } else { *old(self) + v }),
    {
        *self = self.wrapping_add(v);
    }

    fn in_min_range(&self, v: u8, r: u8) -> (b: bool)
        ensures
            b == (v <= u8::MIN + r - 1),
    {
        v >= u8::MIN && v <= u8::MIN + r - 1
    }

    fn in_max_range(&self, v: u8, r: u8) -> (b: bool)
        ensures
            b == (v >= u8::MAX - r + 1),
    {
        v >= u8::MAX - r + 1 && v <= u8::MAX
    }

    fn cycle_partial_cmp(&self, v: &u8, r: u8) -> (o: Option<CycleOrder>)
        ensures
            o == Some(cycle_order_u8(*self, *v, r)),
    {
        Some(self.cycle_cmp(v, r))
    }

    fn cycle_cmp(&self, v: &u8, r: u8) -> (o: CycleOrder)
        ensures
            o == cycle_order_u8(*self, *v, r),
    {
        if self.in_min_range(*self, r) && self.in_max_range(*v, r) {
            CycleOrder::Greater
        } else if self.in_max_range(*self, r) && self.in_min_range(*v, r) {
            CycleOrder::Less
        } else if *self < *v {
            CycleOrder::Less
        } else if *self == *v {
            CycleOrder::Equal
        } else {
            CycleOrder::Greater
        }
    }
}

/// `a` compared with `b` as wrapping counters with range `r`.
pub open spec fn cycle_order_u16(a: u16, b: u16, r: u16) -> CycleOrder {
    if a <= u16::MIN + r - 1 && b >= u16::MAX - r + 1 {
        CycleOrder::Greater
    } else if a >= u16::MAX - r + 1 && b <= u16::MIN + r - 1 {
        CycleOrder::Less
    } else if a < b {
        CycleOrder::Less
    } else if a == b {
        CycleOrder::Equal
    } else {
        CycleOrder::Greater
    }
}

impl CycleNum for u16 {
    open spec fn range_ok(r: u16) -> bool {
        r >= 1
    }

    open spec fn wrap_add(a: u16, b: u16) -> u16 {
        (if a + b > u16::MAX {
            a + b - u16::MAX - 1
        } else {
            a + b
        }) as u16
    }

    open spec fn order(a: u16, b: u16, r: u16) -> CycleOrder {
        cycle_order_u16(a, b, r)
    }

    fn uncheck_add_assign(&mut self, v: u16)
        ensures
            *final(self) == (if *old(self) + v > u16::MAX { *old(self) + v - u16::MAX - 1 } else { *old(self) + v }),
    {
        *self = self.wrapping_add(v);
    }

    fn in_min_range(&self, v: u16, r: u16) -> (b: bool)
        ensures
            b == (v <= u16::MIN + r - 1),
    {
        v >= u16::MIN && v <= u16::MIN + r - 1
    }

    fn in_max_range(&self, v: u16, r: u16) -> (b: bool)
        ensures
            b == (v >= u16::MAX - r + 1),
    {
        v >= u16::MAX - r + 1 && v <= u16::MAX
    }

    fn cycle_partial_cmp(&self, v: &u16, r: u16) -> (o: Option<CycleOrder>)
        ensures
            o == Some(cycle_order_u16(*self, *v, r)),
    {
        Some(self.cycle_cmp(v, r))
    }

    fn cycle_cmp(&self, v: &u16, r: u16) -> (o: CycleOrder)
        ensures
            o == cycle_order_u16(*self, *v, r),
    {
        if self.in_min_range(*self, r) && self.in_max_range(*v, r) {
            CycleOrder::Greater
        } else if self.in_max_range(*self, r) && self.in_min_range(*v, r) {
            CycleOrder::Less
        } else if *self < *v {
            CycleOrder::Less
        } else if *self == *v {
            CycleOrder::Equal
        } else {
            CycleOrder::Greater
        }
    }
}

/// `a` compared with `b` as wrapping counters with range `r`.
pub open spec fn cycle_order_u32(a: u32, b: u32, r: u32) -> CycleOrder {
    if a <= u32::MIN + r - 1 && b >= u32::MAX - r + 1 {
        CycleOrder::Greater
    } else if a >= u32::MAX - r + 1 && b <= u32::MIN + r - 1 {
        CycleOrder::Less
    } else if a < b {
        CycleOrder::Less
    } else if a == b {
        CycleOrder::Equal
    } else {
        CycleOrder::Greater
    }
}

impl CycleNum for u32 {
    open spec fn range_ok(r: u32) -> bool {
        r >= 1
    }

    open spec fn wrap_add(a: u32, b: u32) -> u32 {
        (if a + b > u32::MAX {
            a + b - u32::MAX - 1
        } else {
            a + b
        }) as u32
    }

    open spec fn order(a: u32, b: u32, r: u32) -> CycleOrder {
        cycle_order_u32(a, b, r)
    }

    fn uncheck_add_assign(&mut self, v: u32)
        ensures
            *final(self) == (if *old(self) + v > u32::MAX { *old(self) + v - u32::MAX - 1 } else { *old(self) + v }),
    {
        *self = self.wrapping_add(v);
    }

    fn in_min_range(&self, v: u32, r: u32) -> (b: bool)
        ensures
            b == (v <= u32::MIN + r - 1),
    {
        v >= u32::MIN && v <= u32::MIN + r - 1
    }

    fn in_max_range(&self, v: u32, r: u32) -> (b: bool)
        ensures
            b == (v >= u32::MAX - r + 1),
    {
        v >= u32::MAX - r + 1 && v <= u32::MAX
    }

    fn cycle_partial_cmp(&self, v: &u32, r: u32) -> (o: Option<CycleOrder>)
        ensures
            o == Some(cycle_order_u32(*self, *v, r)),
    {
        Some(self.cycle_cmp(v, r))
    }

    fn cycle_cmp(&self, v: &u32, r: u32) -> (o: CycleOrder)
        ensures
            o == cycle_order_u32(*self, *v, r),
    {
        if self.in_min_range(*self, r) && self.in_max_range(*v, r) {
            CycleOrder::Greater
        } else if self.in_max_range(*self, r) && self.in_min_range(*v, r) {
            CycleOrder::Less
        } else if *self < *v {
            CycleOrder::Less
        } else if *self == *v {
            CycleOrder::Equal
        } else {
            CycleOrder::Greater
        }
    }
}

/// `a` compared with `b` as wrapping counters with range `r`.
pub open spec fn cycle_order_u64(a: u64, b: u64, r: u64) -> CycleOrder {
    if a <= u64::MIN + r - 1 && b >= u64::MAX - r + 1 {
        CycleOrder::Greater
    } else if a >= u64::MAX - r + 1 && b <= u64::MIN + r - 1 {
        CycleOrder::Less
    } else if a < b {
        CycleOrder::Less
    } else if a == b {
        CycleOrder::Equal
    } else {
        CycleOrder::Greater
    }
}

impl CycleNum for u64 {
    open spec fn range_ok(r: u64) -> bool {
        r >= 1
    }

    open spec fn wrap_add(a: u64, b: u64) -> u64 {
        (if a + b > u64::MAX {
            a + b - u64::MAX - 1
        } else {
            a + b
        }) as u64
    }

    open spec fn order(a: u64, b: u64, r: u64) -> CycleOrder {
        cycle_order_u64(a, b, r)
    }

    fn uncheck_add_assign(&mut self, v: u64)
        ensures
            *final(self) == (if *old(self) + v > u64::MAX { *old(self) + v - u64::MAX - 1 } else { *old(self) + v }),
    {
        *self = self.wrapping_add(v);
    }

    fn in_min_range(&self, v: u64, r: u64) -> (b: bool)
        ensures
            b == (v <= u64::MIN + r - 1),
    {
        v >= u64::MIN && v <= u64::MIN + r - 1
    }

    fn in_max_range(&self, v: u64, r: u64) -> (b: bool)
        ensures
            b == (v >= u64::MAX - r + 1),
    {
        v >= u64::MAX - r + 1 && v <= u64::MAX
    }

    fn cycle_partial_cmp(&self, v: &u64, r: u64) -> (o: Option<CycleOrder>)
        ensures
            o == Some(cycle_order_u64(*self, *v, r)),
    {
        Some(self.cycle_cmp(v, r))
    }

    fn cycle_cmp(&self, v: &u64, r: u64) -> (o: CycleOrder)
        ensures
            o == cycle_order_u64(*self, *v, r),
    {
        if self.in_min_range(*self, r) && self.in_max_range(*v, r) {
            CycleOrder::Greater
        } else if self.in_max_range(*self, r) && self.in_min_range(*v, r) {
            CycleOrder::Less
        } else if *self < *v {
            CycleOrder::Less
        } else if *self == *v {
            CycleOrder::Equal
        } else {
            CycleOrder::Greater
        }
    }
}

/// `a` compared with `b` as wrapping counters with range `r`.
pub open spec fn cycle_order_usize(a: usize, b: usize, r: usize) -> CycleOrder {
    if a <= usize::MIN + r - 1 && b >= usize::MAX - r + 1 {
        CycleOrder::Greater
    } else if a >= usize::MAX - r + 1 && b <= usize::MIN + r - 1 {
        CycleOrder::Less
    } else if a < b {
        CycleOrder::Less
    } else if a == b {
        CycleOrder::Equal
    } else {
        CycleOrder::Greater
    }
}

impl CycleNum for usize {
    open spec fn range_ok(r: usize) -> bool {
        r >= 1
    }

    open spec fn wrap_add(a: usize, b: usize) -> usize {
        (if a + b > usize::MAX {
            a + b - usize::MAX - 1
        } else {
            a + b
        }) as usize
    }

    open spec fn order(a: usize, b: usize, r: usize) -> CycleOrder {
        cycle_order_usize(a, b, r)
    }

    fn uncheck_add_assign(&mut self, v: usize)
        ensures
            *final(self) == (if *old(self) + v > usize::MAX { *old(self) + v - usize::MAX - 1 } else { *old(self) + v }),
    {
        *self = self.wrapping_add(v);
    }

    fn in_min_range(&self, v: usize, r: usize) -> (b: bool)
        ensures
            b == (v <= usize::MIN + r - 1),
    {
        v >= usize::MIN && v <= usize::MIN + r - 1
    }

    fn in_max_range(&self, v: usize, r: usize) -> (b: bool)
        ensures
            b == (v >= usize::MAX - r + 1),
    {
        v >= usize::MAX - r + 1 && v <= usize::MAX
    }

    fn cycle_partial_cmp(&self, v: &usize, r: usize) -> (o: Option<CycleOrder>)
        ensures
            o == Some(cycle_order_usize(*self, *v, r)),
    {
        Some(self.cycle_cmp(v, r))
    }

    fn cycle_cmp(&self, v: &usize, r: usize) -> (o: CycleOrder)
        ensures
            o == cycle_order_usize(*self, *v, r),
    {
        if self.in_min_range(*self, r) && self.in_max_range(*v, r) {
            CycleOrder::Greater
        } else if self.in_max_range(*self, r) && self.in_min_range(*v, r) {
            CycleOrder::Less
        } else if *self < *v {
            CycleOrder::Less
        } else if *self == *v {
            CycleOrder::Equal
        } else {
            CycleOrder::Greater
        }
    }
}

/// `a` compared with `b` as wrapping counters with range `r`.
pub open spec fn cycle_order_u128(a: u128, b: u128, r: u128) -> CycleOrder {
    if a <= u128::MIN + r - 1 && b >= u128::MAX - r + 1 {
        CycleOrder::Greater
    } else if a >= u128::MAX - r + 1 && b <= u128::MIN + r - 1 {
        CycleOrder::Less
    } else if a < b {
        CycleOrder::Less
    } else if a == b {
        CycleOrder::Equal
    } else {
        CycleOrder::Greater
    }
}

impl CycleNum for u128 {
    open spec fn range_ok(r: u128) -> bool {
        r >= 1
    }

    open spec fn wrap_add(a: u128, b: u128) -> u128 {
        (if a + b > u128::MAX {
            a + b - u128::MAX - 1
        } else {
            a + b
        }) as u128
    }

    open spec fn order(a: u128, b: u128, r: u128) -> CycleOrder {
        cycle_order_u128(a, b, r)
    }

    fn uncheck_add_assign(&mut self, v: u128)
        ensures
            *final(self) == (if *old(self) + v > u128::MAX { *old(self) + v - u128::MAX - 1 } else { *old(self) + v }),
    {
        *self = self.wrapping_add(v);
    }

    fn in_min_range(&self, v: u128, r: u128) -> (b: bool)
        ensures
            b == (v <= u128::MIN + r - 1),
    {
        v >= u128::MIN && v <= u128::MIN + r - 1
    }

    fn in_max_range(&self, v: u128, r: u128) -> (b: bool)
        ensures
            b == (v >= u128::MAX - r + 1),
    {
        v >= u128::MAX - r + 1 && v <= u128::MAX
    }

    fn cycle_partial_cmp(&self, v: &u128, r: u128) -> (o: Option<CycleOrder>)
        ensures
            o == Some(cycle_order_u128(*self, *v, r)),
    {
        Some(self.cycle_cmp(v, r))
    }

    fn cycle_cmp(&self, v: &u128, r: u128) -> (o: CycleOrder)
        ensures
            o == cycle_order_u128(*self, *v, r),
    {
        if self.in_min_range(*self, r) && self.in_max_range(*v, r) {
            CycleOrder::Greater
        } else if self.in_max_range(*self, r) && self.in_min_range(*v, r) {
            CycleOrder::Less
        } else if *self < *v {
            CycleOrder::Less
        } else if *self == *v {
            CycleOrder::Equal
        } else {
            CycleOrder::Greater
        }
    }
}

/// A counter `d` steps ahead of another (`0 < d < r`), wrapping or not, compares
/// after it, when the range is at most a third of the values.
pub proof fn lemma_cycle_ahead_u32(x: u32, d: u32, r: u32)
    requires
        1 <= d < r,
        3 * r <= u32::MAX,
    ensures
        cycle_order_u32(x, ((x + d) % (u32::MAX as int + 1)) as u32, r) == CycleOrder::Less,
{
}

/// `x` after `k` wrapping additions of `s`, as `add_assign` makes them.
pub open spec fn added_k(x: u32, s: u32, k: nat) -> u32
    decreases k,
{
    if k == 0 {
        x
    } else {
        <u32 as CycleNum>::wrap_add(added_k(x, s, (k - 1) as nat), s)
    }
}

/// Counters advanced alike keep their distance: of two counters, one `d` steps ahead
/// of the other (`0 < d < r`, the range at most a third of the values), it stays `d`
/// steps ahead and compares after the other once both have been advanced by `s` any
/// number `k` of times, whether or not either has wrapped.
pub proof fn lemma_advanced_alike(x: u32, d: u32, r: u32, s: u32, k: nat)
    requires
        1 <= d < r,
        3 * r <= u32::MAX,
    ensures
        added_k(((x + d) % (u32::MAX as int + 1)) as u32, s, k) == ((added_k(x, s, k) + d) % (
        u32::MAX as int + 1)) as u32,
        cycle_order_u32(added_k(x, s, k), added_k(((x + d) % (u32::MAX as int + 1)) as u32, s, k), r)
            == CycleOrder::Less,
    decreases k,
{
    let m: int = u32::MAX as int + 1;
    if k > 0 {
        lemma_advanced_alike(x, d, r, s, (k - 1) as nat);
        let y = added_k(x, s, (k - 1) as nat);
        let z = ((y + d) % m) as u32;
        assert(added_k(((x + d) % m) as u32, s, k) == <u32 as CycleNum>::wrap_add(z, s));
        assert(<u32 as CycleNum>::wrap_add(z, s) == (z + s) % m);
        assert(added_k(x, s, k) == (y + s) % m);
        assert((z + s) % m == (((y + s) % m) + d) % m) by {
            if y + d >= m {
                assert(z == y + d - m);
            } else {
                assert(z == y + d);
            }
        }
    }
    lemma_cycle_ahead_u32(added_k(x, s, k), d, r);
}

/// A wrapping counter with its comparison range.
#[derive(Clone, Copy)]
pub struct CycleCount<T> {
    val: T,
    cycle_range: T,
}

impl<T: CycleNum + Copy> CycleCount<T> {
    pub fn new(v: T, r: T) -> (c: CycleCount<T>)
        ensures
            c.value() == v,
            c.range() == r,
    {
        CycleCount { val: v, cycle_range: r }
    }

    pub closed spec fn value(&self) -> T {
        self.val
    }

    pub closed spec fn range(&self) -> T {
        self.cycle_range
    }

    /// The current value.
    pub fn get(&self) -> (v: T)
        ensures
            v == self.value(),
    {
        self.val
    }

    /// Adds `rhs`, wrapping around.
    pub fn add_assign(&mut self, rhs: T)
        ensures
            final(self).range() == old(self).range(),
            final(self).value() == T::wrap_add(old(self).value(), rhs),
    {
        self.val.uncheck_add_assign(rhs);
    }

    /// Compares with `other` as wrapping counters, under this counter's range.
    pub fn cycle_cmp(&self, other: &Self) -> (o: CycleOrder)
        requires
            T::range_ok(self.range()),
        ensures
            o == T::order(self.value(), other.value(), self.range()),
    {
        self.val.cycle_cmp(&other.val, self.cycle_range)
    }

    /// Whether this counter comes before `other`.
    pub fn lt(&self, other: &Self) -> (b: bool)
        requires
            T::range_ok(self.range()),
        ensures
            b == (T::order(self.value(), other.value(), self.range()) == CycleOrder::Less),
    {
        match self.val.cycle_partial_cmp(&other.val, self.cycle_range) {
            Some(CycleOrder::Less) => true,
            _ => false,
        }
    }
}

/// How `u8` counters compare, for a range `r` at most half the values: away from the
/// wrap (neither value within `r` of an end) as plain numbers; a value within `r` of
/// the top before one within `r` of the bottom; equal only when the same; and `b`
/// against `a` the reverse of `a` against `b`.
pub proof fn lemma_order_u8(a: u8, b: u8, r: u8)
    requires
        1 <= r,
        2 * r <= u8::MAX,
    ensures
        r <= a <= u8::MAX - r && r <= b <= u8::MAX - r ==> (a < b ==> <u8 as CycleNum>::order(a, b, r)
            == CycleOrder::Less) && (a > b ==> <u8 as CycleNum>::order(a, b, r) == CycleOrder::Greater),
        a > u8::MAX - r && b < r ==> <u8 as CycleNum>::order(a, b, r) == CycleOrder::Less,
        <u8 as CycleNum>::order(a, b, r) == CycleOrder::Equal <==> a == b,
        <u8 as CycleNum>::order(a, b, r) == CycleOrder::Less <==> <u8 as CycleNum>::order(b, a, r)
            == CycleOrder::Greater,
{
}

/// How `u16` counters compare, for a range `r` at most half the values: away from the
/// wrap (neither value within `r` of an end) as plain numbers; a value within `r` of
/// the top before one within `r` of the bottom; equal only when the same; and `b`
/// against `a` the reverse of `a` against `b`.
pub proof fn lemma_order_u16(a: u16, b: u16, r: u16)
    requires
        1 <= r,
        2 * r <= u16::MAX,
    ensures
        r <= a <= u16::MAX - r && r <= b <= u16::MAX - r ==> (a < b ==> <u16 as CycleNum>::order(a, b, r)
            == CycleOrder::Less) && (a > b ==> <u16 as CycleNum>::order(a, b, r) == CycleOrder::Greater),
        a > u16::MAX - r && b < r ==> <u16 as CycleNum>::order(a, b, r) == CycleOrder::Less,
        <u16 as CycleNum>::order(a, b, r) == CycleOrder::Equal <==> a == b,
        <u16 as CycleNum>::order(a, b, r) == CycleOrder::Less <==> <u16 as CycleNum>::order(b, a, r)
            == CycleOrder::Greater,
{
}

/// How `u32` counters compare, for a range `r` at most half the values: away from the
/// wrap (neither value within `r` of an end) as plain numbers; a value within `r` of
/// the top before one within `r` of the bottom; equal only when the same; and `b`
/// against `a` the reverse of `a` against `b`.
pub proof fn lemma_order_u32(a: u32, b: u32, r: u32)
    requires
        1 <= r,
        2 * r <= u32::MAX,
    ensures
        r <= a <= u32::MAX - r && r <= b <= u32::MAX - r ==> (a < b ==> <u32 as CycleNum>::order(a, b, r)
            == CycleOrder::Less) && (a > b ==> <u32 as CycleNum>::order(a, b, r) == CycleOrder::Greater),
        a > u32::MAX - r && b < r ==> <u32 as CycleNum>::order(a, b, r) == CycleOrder::Less,
        <u32 as CycleNum>::order(a, b, r) == CycleOrder::Equal <==> a == b,
        <u32 as CycleNum>::order(a, b, r) == CycleOrder::Less <==> <u32 as CycleNum>::order(b, a, r)
            == CycleOrder::Greater,
{
}

/// How `u64` counters compare, for a range `r` at most half the values: away from the
/// wrap (neither value within `r` of an end) as plain numbers; a value within `r` of
/// the top before one within `r` of the bottom; equal only when the same; and `b`
/// against `a` the reverse of `a` against `b`.
pub proof fn lemma_order_u64(a: u64, b: u64, r: u64)
    requires
        1 <= r,
        2 * r <= u64::MAX,
    ensures
        r <= a <= u64::MAX - r && r <= b <= u64::MAX - r ==> (a < b ==> <u64 as CycleNum>::order(a, b, r)
            == CycleOrder::Less) && (a > b ==> <u64 as CycleNum>::order(a, b, r) == CycleOrder::Greater),
        a > u64::MAX - r && b < r ==> <u64 as CycleNum>::order(a, b, r) == CycleOrder::Less,
        <u64 as CycleNum>::order(a, b, r) == CycleOrder::Equal <==> a == b,
        <u64 as CycleNum>::order(a, b, r) == CycleOrder::Less <==> <u64 as CycleNum>::order(b, a, r)
            == CycleOrder::Greater,
{
}

/// How `usize` counters compare, for a range `r` at most half the values: away from the
/// wrap (neither value within `r` of an end) as plain numbers; a value within `r` of
/// the top before one within `r` of the bottom; equal only when the same; and `b`
/// against `a` the reverse of `a` against `b`.
pub proof fn lemma_order_usize(a: usize, b: usize, r: usize)
    requires
        1 <= r,
        2 * r <= usize::MAX,
    ensures
        r <= a <= usize::MAX - r && r <= b <= usize::MAX - r ==> (a < b ==> <usize as CycleNum>::order(a, b, r)
            == CycleOrder::Less) && (a > b ==> <usize as CycleNum>::order(a, b, r) == CycleOrder::Greater),
        a > usize::MAX - r && b < r ==> <usize as CycleNum>::order(a, b, r) == CycleOrder::Less,
        <usize as CycleNum>::order(a, b, r) == CycleOrder::Equal <==> a == b,
        <usize as CycleNum>::order(a, b, r) == CycleOrder::Less <==> <usize as CycleNum>::order(b, a, r)
            == CycleOrder::Greater,
{
}

/// How `u128` counters compare, for a range `r` at most half the values: away from the
/// wrap (neither value within `r` of an end) as plain numbers; a value within `r` of
/// the top before one within `r` of the bottom; equal only when the same; and `b`
/// against `a` the reverse of `a` against `b`.
pub proof fn lemma_order_u128(a: u128, b: u128, r: u128)
    requires
        1 <= r,
        2 * r <= u128::MAX,
    ensures
        r <= a <= u128::MAX - r && r <= b <= u128::MAX - r ==> (a < b ==> <u128 as CycleNum>::order(a, b, r)
            == CycleOrder::Less) && (a > b ==> <u128 as CycleNum>::order(a, b, r) == CycleOrder::Greater),
        a > u128::MAX - r && b < r ==> <u128 as CycleNum>::order(a, b, r) == CycleOrder::Less,
        <u128 as CycleNum>::order(a, b, r) == CycleOrder::Equal <==> a == b,
        <u128 as CycleNum>::order(a, b, r) == CycleOrder::Less <==> <u128 as CycleNum>::order(b, a, r)
            == CycleOrder::Greater,
{
}

/// Adding to a `u8` counter wraps around: the sum taken modulo the number of
/// `u8` values.
pub proof fn lemma_wrap_add_u8(a: u8, b: u8)
    ensures
        <u8 as CycleNum>::wrap_add(a, b) as int == (a + b) % (u8::MAX as int + 1),
{
}

/// Adding to a `u16` counter wraps around: the sum taken modulo the number of
/// `u16` values.
pub proof fn lemma_wrap_add_u16(a: u16, b: u16)
    ensures
        <u16 as CycleNum>::wrap_add(a, b) as int == (a + b) % (u16::MAX as int + 1),
{
}

/// Adding to a `u32` counter wraps around: the sum taken modulo the number of
/// `u32` values.
pub proof fn lemma_wrap_add_u32(a: u32, b: u32)
    ensures
        <u32 as CycleNum>::wrap_add(a, b) as int == (a + b) % (u32::MAX as int + 1),
{
}

/// Adding to a `u64` counter wraps around: the sum taken modulo the number of
/// `u64` values.
pub proof fn lemma_wrap_add_u64(a: u64, b: u64)
    ensures
        <u64 as CycleNum>::wrap_add(a, b) as int == (a + b) % (u64::MAX as int + 1),
{
}

/// Adding to a `usize` counter wraps around: the sum taken modulo the number of
/// `usize` values.
pub proof fn lemma_wrap_add_usize(a: usize, b: usize)
    ensures
        <usize as CycleNum>::wrap_add(a, b) as int == (a + b) % (usize::MAX as int + 1),
{
    let m = usize::MAX as int + 1;
    if a + b > usize::MAX {
        vstd::arithmetic::div_mod::lemma_mod_add_multiples_vanish(a + b - m, m);
        vstd::arithmetic::div_mod::lemma_small_mod((a + b - m) as nat, m as nat);
    } else {
        vstd::arithmetic::div_mod::lemma_small_mod((a + b) as nat, m as nat);
    }
}

/// Adding to a `u128` counter wraps around: the sum taken modulo the number of
/// `u128` values.
pub proof fn lemma_wrap_add_u128(a: u128, b: u128)
    ensures
        <u128 as CycleNum>::wrap_add(a, b) as int == (a + b) % (u128::MAX as int + 1),
{
}

} // verus!
