//! The value algebra: what a type must offer so that its values can be
//! animated. Amounts are fixed-point numbers in millionths.
use vstd::prelude::*;

verus! {

/// The amount that stands for the whole: an animation that has run to its
/// end. Amounts count millionths; a curve may leave the range from zero to
/// `UNIT`.
pub const UNIT: i64 = 1_000_000;

/// `span * amount / UNIT`, rounded toward zero: the part of `span` that the
/// amount stands for.
pub open spec fn scaled(span: int, amount: int) -> int {
    let product = span * amount;
    if product >= 0 {
        product / (UNIT as int)
    } else {
        -((-product) / (UNIT as int))
    }
}

/// `x` kept within the range of `i64`.
pub open spec fn clamp_i64(x: int) -> i64 {
    if x > i64::MAX {
        i64::MAX
    } else if x < i64::MIN {
        i64::MIN
    } else {
        x as i64
    }
}

/// `x` kept within the range of `i32`.
pub open spec fn clamp_i32(x: int) -> i32 {
    if x > i32::MAX {
        i32::MAX
    } else if x < i32::MIN {
        i32::MIN
    } else {
        x as i32
    }
}

/// `x` brought into the range of `i64` by adding or subtracting 2^64 once.
pub open spec fn wrap_i64(x: int) -> i64 {
    if x > i64::MAX {
        (x - 0x1_0000_0000_0000_0000) as i64
    } else if x < i64::MIN {
        (x + 0x1_0000_0000_0000_0000) as i64
    } else {
        x as i64
    }
}

/// `x` brought into the range of `i32` by adding or subtracting 2^32 once.
pub open spec fn wrap_i32(x: int) -> i32 {
    if x > i32::MAX {
        (x - 0x1_0000_0000) as i32
    } else if x < i32::MIN {
        (x + 0x1_0000_0000) as i32
    } else {
        x as i32
    }
}

/// The whole of a span is the span, and none of it is nothing.
pub proof fn lemma_scaled_ends(span: int)
    ensures
        scaled(span, 0) == 0,
        scaled(span, UNIT as int) == span,
{
}

/// The part of a span of at most 65 bits that an amount stands for.
pub(crate) fn scale(span: i128, amount: i64) -> (part: i128)
    requires
        -0xffff_ffff_ffff_ffff <= span <= 0xffff_ffff_ffff_ffff,
    ensures
        part == scaled(span as int, amount as int),
        -0x7fff_ffff_ffff_ffff_8000_0000_0000_0000 <= part <= 0x7fff_ffff_ffff_ffff_8000_0000_0000_0000,
{
    assert(-0x7fff_ffff_ffff_ffff_8000_0000_0000_0000 <= span * amount <= 0x7fff_ffff_ffff_ffff_8000_0000_0000_0000)
        by (nonlinear_arith)
        requires
            -0xffff_ffff_ffff_ffff <= span <= 0xffff_ffff_ffff_ffff,
            -0x8000_0000_0000_0000 <= amount <= 0x7fff_ffff_ffff_ffff,
    ;
    let product: i128 = span * (amount as i128);
    if product >= 0 {
        let part: i128 = product / 1_000_000;
        assert(0 <= part <= product) by (nonlinear_arith)
            requires
                part == product / 1_000_000,
                product >= 0,
        ;
        part
    } else {
        let opposite: i128 = -product;
        let part: i128 = opposite / 1_000_000;
        assert(0 <= part <= opposite) by (nonlinear_arith)
            requires
                part == opposite / 1_000_000,
                opposite >= 0,
        ;
        -part
    }
}

/// A type whose values can be animated.
///
/// `accumulate` is the type's way of adding, `difference` its way of
/// subtracting; for a type that composes rather than adds, the two are
/// composition and composition with the inverse. `identity` is the value that
/// stands for no change: the delta evaluator measures every offset from it.
pub trait AnimationLerp: Sized {
    /// The value that lies `amount` of the way from `self` to `other`.
    spec fn lerp_spec(&self, other: &Self, amount: i64) -> Self;

    /// What has to be accumulated onto `other` to arrive at `self`.
    spec fn difference_spec(&self, other: &Self) -> Self;

    /// `self` with `value` added in.
    spec fn accumulate_spec(&self, value: &Self) -> Self;

    /// The value that stands for no change.
    spec fn identity_spec() -> Self;

    /// Accumulating the difference between `b` and `a` onto `a` gives `b`.
    proof fn lemma_round_trip(a: &Self, b: &Self)
        ensures
            a.accumulate_spec(&b.difference_spec(a)) == *b,
    ;

    /// Accumulating the identity changes nothing, the difference from the
    /// identity is the value itself, and a value does not differ from itself.
    proof fn lemma_identity(a: &Self)
        ensures
            a.accumulate_spec(&Self::identity_spec()) == *a,
            a.difference_spec(&Self::identity_spec()) == *a,
            a.difference_spec(a) == Self::identity_spec(),
    ;

    /// Differences chain: to accumulate the difference between `c` and `d`
    /// and then that between `b` and `c` is to accumulate the difference
    /// between `b` and `d`.
    proof fn lemma_differences_chain(a: &Self, b: &Self, c: &Self, d: &Self)
        ensures
            a.accumulate_spec(&c.difference_spec(d)).accumulate_spec(&b.difference_spec(c)) == a.accumulate_spec(
                &b.difference_spec(d),
            ),
    ;

    /// None of the way is the start, and the whole way is the end.
    proof fn lemma_lerp_ends(a: &Self, b: &Self)
        ensures
            a.lerp_spec(b, 0) == *a,
            a.lerp_spec(b, UNIT) == *b,
    ;

    fn animation_lerp(&self, other: &Self, amount: i64) -> (value: Self)
        ensures
            value == self.lerp_spec(other, amount),
    ;

    fn difference(&self, other: &Self) -> (value: Self)
        ensures
            value == self.difference_spec(other),
    ;

    fn accumulate(&mut self, value: &Self)
        ensures
            *final(self) == old(self).accumulate_spec(value),
    ;

    fn identity() -> (value: Self)
        ensures
            value == Self::identity_spec(),
    ;
}

/// Whole numbers of 64 bits: interpolation keeps within the range of the
/// type, sums and differences wrap around it.
impl AnimationLerp for i64 {
    open spec fn lerp_spec(&self, other: &Self, amount: i64) -> Self {
        clamp_i64(*self + scaled(*other - *self, amount as int))
    }

    open spec fn difference_spec(&self, other: &Self) -> Self {
        wrap_i64(*self - *other)
    }

    open spec fn accumulate_spec(&self, value: &Self) -> Self {
        wrap_i64(*self + *value)
    }

    open spec fn identity_spec() -> Self {
        0
    }

    proof fn lemma_round_trip(a: &Self, b: &Self) {
    }

    proof fn lemma_identity(a: &Self) {
    }

    proof fn lemma_differences_chain(a: &Self, b: &Self, c: &Self, d: &Self) {
    }

    proof fn lemma_lerp_ends(a: &Self, b: &Self) {
        lemma_scaled_ends(*b - *a);
    }

    fn animation_lerp(&self, other: &Self, amount: i64) -> (value: Self) {
        let span: i128 = *other as i128 - *self as i128;
        let reached: i128 = *self as i128 + scale(span, amount);
        if reached > i64::MAX as i128 {
            i64::MAX
        } else if reached < i64::MIN as i128 {
            i64::MIN
        } else {
            reached as i64
        }
    }

    fn difference(&self, other: &Self) -> (value: Self) {
        self.wrapping_sub(*other)
    }

    fn accumulate(&mut self, value: &Self) {
        *self = self.wrapping_add(*value);
    }

    fn identity() -> (value: Self) {
        0
    }
}

/// Whole numbers of 32 bits, as those of 64 bits.
impl AnimationLerp for i32 {
    open spec fn lerp_spec(&self, other: &Self, amount: i64) -> Self {
        clamp_i32(*self + scaled(*other - *self, amount as int))
    }

    open spec fn difference_spec(&self, other: &Self) -> Self {
        wrap_i32(*self - *other)
    }

    open spec fn accumulate_spec(&self, value: &Self) -> Self {
        wrap_i32(*self + *value)
    }

    open spec fn identity_spec() -> Self {
        0
    }

    proof fn lemma_round_trip(a: &Self, b: &Self) {
    }

    proof fn lemma_identity(a: &Self) {
    }

    proof fn lemma_differences_chain(a: &Self, b: &Self, c: &Self, d: &Self) {
    }

    proof fn lemma_lerp_ends(a: &Self, b: &Self) {
        lemma_scaled_ends(*b - *a);
    }

    fn animation_lerp(&self, other: &Self, amount: i64) -> (value: Self) {
        let span: i128 = *other as i128 - *self as i128;
        let reached: i128 = *self as i128 + scale(span, amount);
        if reached > i32::MAX as i128 {
            i32::MAX
        } else if reached < i32::MIN as i128 {
            i32::MIN
        } else {
            reached as i32
        }
    }

    fn difference(&self, other: &Self) -> (value: Self) {
        self.wrapping_sub(*other)
    }

    fn accumulate(&mut self, value: &Self) {
        *self = self.wrapping_add(*value);
    }

    fn identity() -> (value: Self) {
        0
    }
}

/// Pairs are animated part by part: vectors are pairs of pairs.
impl<A: AnimationLerp, B: AnimationLerp> AnimationLerp for (A, B) {
    open spec fn lerp_spec(&self, other: &Self, amount: i64) -> Self {
        (self.0.lerp_spec(&other.0, amount), self.1.lerp_spec(&other.1, amount))
    }

    open spec fn difference_spec(&self, other: &Self) -> Self {
        (self.0.difference_spec(&other.0), self.1.difference_spec(&other.1))
    }

    open spec fn accumulate_spec(&self, value: &Self) -> Self {
        (self.0.accumulate_spec(&value.0), self.1.accumulate_spec(&value.1))
    }

    open spec fn identity_spec() -> Self {
        (A::identity_spec(), B::identity_spec())
    }

    proof fn lemma_round_trip(a: &Self, b: &Self) {
        A::lemma_round_trip(&a.0, &b.0);
        B::lemma_round_trip(&a.1, &b.1);
    }

    proof fn lemma_identity(a: &Self) {
        A::lemma_identity(&a.0);
        B::lemma_identity(&a.1);
    }

    proof fn lemma_differences_chain(a: &Self, b: &Self, c: &Self, d: &Self) {
        A::lemma_differences_chain(&a.0, &b.0, &c.0, &d.0);
        B::lemma_differences_chain(&a.1, &b.1, &c.1, &d.1);
    }

    proof fn lemma_lerp_ends(a: &Self, b: &Self) {
        A::lemma_lerp_ends(&a.0, &b.0);
        B::lemma_lerp_ends(&a.1, &b.1);
    }

    fn animation_lerp(&self, other: &Self, amount: i64) -> (value: Self) {
        (self.0.animation_lerp(&other.0, amount), self.1.animation_lerp(&other.1, amount))
    }

    fn difference(&self, other: &Self) -> (value: Self) {
        (self.0.difference(&other.0), self.1.difference(&other.1))
    }

    fn accumulate(&mut self, value: &Self) {
        self.0.accumulate(&value.0);
        self.1.accumulate(&value.1);
    }

    fn identity() -> (value: Self) {
        (A::identity(), B::identity())
    }
}

} // verus!
