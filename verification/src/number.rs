//! Mortar numbers.
//!
//! A Mortar number is an IEEE-754 binary64 value. The library holds it as its
//! bit pattern together with its display text, so that every operation the
//! dialogue logic performs on numbers (ordering, the tolerance comparison used
//! by `==`, truthiness and display) is plain integer and string work.

use vstd::prelude::*;
use vstd::arithmetic::power2::*;
use vstd::arithmetic::mul::*;

verus! {

/// Bit pattern of the binary64 number zero.
pub const ZERO_BITS: u64 = 0;

pub open spec fn exponent_field(b: u64) -> u64 {
    (b >> 52u64) & 0x7ffu64
}

pub open spec fn fraction_field(b: u64) -> u64 {
    b & 0xf_ffff_ffff_ffffu64
}

pub open spec fn sign_bit(b: u64) -> bool {
    (b >> 63u64) == 1u64
}

/// The magnitude part of a bit pattern (everything but the sign).
pub open spec fn magnitude_bits(b: u64) -> u64 {
    b & 0x7fff_ffff_ffff_ffffu64
}

pub open spec fn is_nan_bits(b: u64) -> bool {
    exponent_field(b) == 0x7ff && fraction_field(b) != 0
}

pub open spec fn is_finite_bits(b: u64) -> bool {
    exponent_field(b) != 0x7ff
}

/// A signed integer that orders non-NaN binary64 values exactly as the
/// IEEE-754 comparison does: `-0.0` and `+0.0` get the same key and the
/// infinities sit at both ends.
pub open spec fn order_key(b: u64) -> int {
    if sign_bit(b) {
        -(magnitude_bits(b) as int)
    } else {
        magnitude_bits(b) as int
    }
}

/// The significand of a finite value as an integer (the hidden bit included
/// for normal values).
pub open spec fn significand(b: u64) -> nat {
    if exponent_field(b) == 0 {
        fraction_field(b) as nat
    } else {
        (fraction_field(b) + pow2(52)) as nat
    }
}

/// The power of two that scales the significand, counted from the smallest
/// subnormal: `value * 2^1074 == significand * 2^scale`.
pub open spec fn scale(b: u64) -> nat {
    if exponent_field(b) == 0 {
        0
    } else {
        (exponent_field(b) - 1) as nat
    }
}

/// The exact value of a finite bit pattern, multiplied by `2^1074` (an integer).
pub open spec fn scaled_value(b: u64) -> int {
    let m = significand(b) * pow2(scale(b));
    if sign_bit(b) {
        -(m as int)
    } else {
        m as int
    }
}

pub open spec fn abs_int(x: int) -> int {
    if x < 0 {
        -x
    } else {
        x
    }
}

/// `a < b` in IEEE-754 binary64 arithmetic.
pub open spec fn less_than_bits(a: u64, b: u64) -> bool {
    !is_nan_bits(a) && !is_nan_bits(b) && order_key(a) < order_key(b)
}

/// `a <= b` in IEEE-754 binary64 arithmetic.
pub open spec fn less_equal_bits(a: u64, b: u64) -> bool {
    !is_nan_bits(a) && !is_nan_bits(b) && order_key(a) <= order_key(b)
}

/// `a != 0.0` in IEEE-754 binary64 arithmetic (NaN is not equal to zero).
pub open spec fn nonzero_bits(b: u64) -> bool {
    magnitude_bits(b) != 0
}

/// `(a - b).abs() < f64::EPSILON` in binary64 arithmetic, the tolerance
/// comparison that Mortar's `==` uses for numbers.
///
/// The difference is rounded to nearest-even; it lands below `2^-52` exactly
/// when the exact difference is below `2^-52 - 2^-106`. Infinite and NaN
/// operands give an infinite or NaN difference, which is never below it.
pub open spec fn nearly_equal_bits(a: u64, b: u64) -> bool {
    &&& is_finite_bits(a)
    &&& is_finite_bits(b)
    &&& abs_int(scaled_value(a) - scaled_value(b)) < (pow2(54) - 1) * pow2(968)
}

/// A Mortar number: an IEEE-754 binary64 value, held as its bit pattern
/// (`bits`) together with the text it displays as (`text`, the shortest
/// representation that reads back as the same value).
#[derive(Debug, Clone, PartialEq, Eq)]
pub struct MortarNumber {
    pub bits: u64,
    pub text: String,
}

/// The abstract content of a number: its bit pattern and display text.
pub struct NumberView {
    pub bits: u64,
    pub text: Seq<char>,
}

impl View for MortarNumber {
    type V = NumberView;

    open spec fn view(&self) -> NumberView {
        NumberView { bits: self.bits, text: self.text@ }
    }
}

impl MortarNumber {
    /// Builds a number from its bit pattern and its display text.
    pub fn new(bits: u64, text: String) -> (r: Self)
        ensures
            r.bits == bits,
            r.text@ == text@,
    {
        MortarNumber { bits, text }
    }

    /// The bit pattern of the value.
    pub fn to_bits(&self) -> (r: u64)
        ensures
            r == self.bits,
    {
        self.bits
    }

    /// The display text of the value.
    pub fn as_str(&self) -> (r: &str)
        ensures
            r@ == self.text@,
    {
        self.text.as_str()
    }

    /// The display text of the value, as an owned string.
    pub fn to_display_string(&self) -> (r: String)
        ensures
            r@ == self.text@,
    {
        self.text.clone()
    }

    /// Whether the value is NaN.
    pub fn is_nan(&self) -> (r: bool)
        ensures
            r == is_nan_bits(self.bits),
    {
        ((self.bits >> 52u64) & 0x7ffu64) == 0x7ffu64 && (self.bits & 0xf_ffff_ffff_ffffu64) != 0
    }

    /// `self != 0.0`.
    pub fn is_nonzero(&self) -> (r: bool)
        ensures
            r == nonzero_bits(self.bits),
    {
        (self.bits & 0x7fff_ffff_ffff_ffffu64) != 0
    }

    /// `self < other`.
    pub fn less_than(&self, other: &MortarNumber) -> (r: bool)
        ensures
            r == less_than_bits(self.bits, other.bits),
    {
        if self.is_nan() || other.is_nan() {
            return false;
        }
        let a = key_of(self.bits);
        let b = key_of(other.bits);
        a < b
    }

    /// `self <= other`.
    pub fn less_equal(&self, other: &MortarNumber) -> (r: bool)
        ensures
            r == less_equal_bits(self.bits, other.bits),
    {
        if self.is_nan() || other.is_nan() {
            return false;
        }
        let a = key_of(self.bits);
        let b = key_of(other.bits);
        a <= b
    }

    /// `self > other`.
    pub fn greater_than(&self, other: &MortarNumber) -> (r: bool)
        ensures
            r == less_than_bits(other.bits, self.bits),
    {
        other.less_than(self)
    }

    /// `self >= other`.
    pub fn greater_equal(&self, other: &MortarNumber) -> (r: bool)
        ensures
            r == less_equal_bits(other.bits, self.bits),
    {
        other.less_equal(self)
    }
}

/// Concrete powers of two used by the tolerance comparison.
proof fn lemma_pow2_consts()
    ensures
        pow2(0) == 1,
        pow2(1) == 2,
        pow2(2) == 4,
        pow2(3) == 8,
        pow2(52) == 0x10_0000_0000_0000,
        pow2(53) == 0x20_0000_0000_0000,
        pow2(54) == 0x40_0000_0000_0000,
        pow2(70) == 0x40_0000_0000_0000_0000,
        pow2(71) == 0x80_0000_0000_0000_0000,
        pow2(72) == 0x100_0000_0000_0000_0000,
        pow2(127) == 0x8000_0000_0000_0000_0000_0000_0000_0000,
{
    lemma2_to64();
    lemma2_to64_rest();
    lemma_pow2_adds(64, 6);
    lemma_pow2_adds(64, 7);
    lemma_pow2_adds(64, 8);
    lemma_pow2_adds(64, 63);
}

/// `2^e` as a `u128`.
fn pow2_u128(e: u64) -> (r: u128)
    requires
        e < 127,
    ensures
        r as int == pow2(e as nat),
        r > 0,
{
    let mut r: u128 = 1;
    let mut i: u64 = 0;
    proof {
        lemma_pow2_consts();
    }
    while i < e
        invariant
            i <= e,
            e < 127,
            r as int == pow2(i as nat),
            r > 0,
        decreases e - i,
    {
        proof {
            lemma_pow2_unfold((i + 1) as nat);
            lemma_pow2_strictly_increases((i + 1) as nat, 127);
            lemma_pow2_consts();
        }
        r = r * 2;
        i = i + 1;
    }
    r
}

/// Splits a finite bit pattern into its significand and scale.
fn decode(b: u64) -> (r: (u64, u64))
    requires
        is_finite_bits(b),
    ensures
        r.0 as nat == significand(b),
        r.1 as nat == scale(b),
        r.0 < 0x20_0000_0000_0000,
        r.1 <= 2045,
        r.1 > 0 ==> r.0 >= 0x10_0000_0000_0000,
{
    let e = (b >> 52u64) & 0x7ffu64;
    let f = b & 0xf_ffff_ffff_ffffu64;
    assert(f <= 0xf_ffff_ffff_ffffu64) by (bit_vector)
        requires
            f == b & 0xf_ffff_ffff_ffffu64,
    ;
    assert(e <= 0x7ff) by (bit_vector)
        requires
            e == (b >> 52u64) & 0x7ffu64,
    ;
    proof {
        lemma_pow2_consts();
    }
    if e == 0 {
        (f, 0)
    } else {
        (f + 0x10_0000_0000_0000u64, e - 1)
    }
}

proof fn lemma_mul_pow2_split(m: int, x: nat, y: nat)
    ensures
        m * pow2(x + y) == (m * pow2(x)) * pow2(y),
{
    lemma_pow2_adds(x, y);
    lemma_mul_is_associative(m, pow2(x) as int, pow2(y) as int);
}

proof fn lemma_mul_lt_cancel(x: int, y: int, p: int)
    requires
        p > 0,
    ensures
        (x * p < y * p) <==> (x < y),
{
    if x < y {
        lemma_mul_strict_inequality(x, y, p);
    } else {
        lemma_mul_inequality(y, x, p);
    }
}

/// The difference of two values whose scales are close, computed at the
/// smaller scale, decides the tolerance comparison.
proof fn lemma_close_scales(a: u64, b: u64, lo: nat, ia: int, ib: int)
    requires
        is_finite_bits(a),
        is_finite_bits(b),
        lo <= scale(a),
        lo <= scale(b),
        ia == (if sign_bit(a) { -1int } else { 1int }) * (significand(a) * pow2((scale(a) - lo) as nat)),
        ib == (if sign_bit(b) { -1int } else { 1int }) * (significand(b) * pow2((scale(b) - lo) as nat)),
    ensures
        scaled_value(a) - scaled_value(b) == (ia - ib) * pow2(lo),
{
    lemma_signed_rescale(a, lo, ia);
    lemma_signed_rescale(b, lo, ib);
    lemma_mul_is_distributive_sub_other_way(pow2(lo) as int, ia, ib);
}

proof fn lemma_signed_rescale(a: u64, lo: nat, ia: int)
    requires
        lo <= scale(a),
        ia == (if sign_bit(a) { -1int } else { 1int }) * (significand(a) * pow2((scale(a) - lo) as nat)),
    ensures
        scaled_value(a) == ia * pow2(lo),
{
    let k = (scale(a) - lo) as nat;
    let x = significand(a) * pow2(k);
    lemma_mul_pow2_split(significand(a) as int, k, lo);
    assert(k + lo == scale(a));
    if sign_bit(a) {
        assert(ia == -x) by (nonlinear_arith)
            requires
                ia == (-1int) * x,
        ;
        lemma_mul_unary_negation(x as int, pow2(lo) as int);
    } else {
        assert(ia == x);
    }
}

proof fn lemma_significand_bounds(b: u64)
    requires
        is_finite_bits(b),
    ensures
        significand(b) < pow2(53),
        scale(b) > 0 ==> significand(b) >= pow2(52),
        scale(b) <= 2045,
{
    lemma_pow2_consts();
    let f = fraction_field(b);
    let e = exponent_field(b);
    assert(f <= 0xf_ffff_ffff_ffffu64) by (bit_vector)
        requires
            f == b & 0xf_ffff_ffff_ffffu64,
    ;
    assert(e <= 0x7ff) by (bit_vector)
        requires
            e == (b >> 52u64) & 0x7ffu64,
    ;
    lemma_pow2_adds(52, 1);
}

/// When the scale of `a` exceeds that of `b` by more than 70, `a` decides
/// the tolerance comparison alone.
proof fn lemma_dominant(a: u64, b: u64)
    requires
        is_finite_bits(a),
        is_finite_bits(b),
        scale(a) > scale(b) + 70,
    ensures
        scale(a) >= 971 ==> !nearly_equal_bits(a, b),
        scale(a) <= 968 ==> nearly_equal_bits(a, b),
        969 <= scale(a) <= 970 ==> (nearly_equal_bits(a, b) <==> significand(a) * pow2(
            (scale(a) - 968) as nat,
        ) <= pow2(54) - 2),
{
    let s = scale(a);
    let t = scale(b);
    let m = significand(a) as int;
    let n = significand(b) as int;
    let p = pow2(s) as int;
    let q = pow2(t) as int;
    let w = pow2(968) as int;
    lemma_significand_bounds(a);
    lemma_significand_bounds(b);
    lemma2_to64();
    lemma_pow2_pos(s);
    lemma_pow2_pos(t);
    lemma_pow2_pos(968);
    // |b| is below 2^-18 of the power of two that scales a.
    lemma_pow2_adds(t, 71);
    if t + 71 < s {
        lemma_pow2_strictly_increases((t + 71) as nat, s);
    }
    lemma_pow2_consts();
    lemma_pow2_consts();
    lemma_pow2_consts();
    lemma_pow2_consts();
    lemma_mul_strict_inequality(n, 0x20_0000_0000_0000, q);
    assert(n * q * 0x40000 < p) by {
        lemma_mul_inequality(n * q, 0x20_0000_0000_0000 * q, 0x40000);
        lemma_mul_is_associative(0x20_0000_0000_0000, q, 0x40000);
        lemma_mul_is_commutative(q, 0x80_0000_0000_0000_0000);
    }
    assert(m * p >= 0x10_0000_0000_0000 * p) by {
        lemma_mul_inequality(0x10_0000_0000_0000, m, p);
    }
    assert(m * p < 0x20_0000_0000_0000 * p) by {
        lemma_mul_strict_inequality(m, 0x20_0000_0000_0000, p);
    }
    let x = scaled_value(a);
    let y = scaled_value(b);
    assert(abs_int(x) == m * p);
    assert(abs_int(y) == n * q);
    assert(abs_int(x) - abs_int(y) <= abs_int(x - y) <= abs_int(x) + abs_int(y));
    if s >= 971 {
        lemma_pow2_adds(3, 968);
        lemma_pow2_consts();
        if s > 971 {
            lemma_pow2_strictly_increases(971, s);
        }
        assert(p >= 8 * w);
    } else if s <= 968 {
        if s < 968 {
            lemma_pow2_strictly_increases(s, 968);
        }
        assert(p <= w);
    } else {
        let k = (s - 968) as nat;
        lemma_pow2_adds(k, 968);
        assert(k + 968 == s);
        let pk = pow2(k) as int;
        assert(p == pk * w);
        assert(pk <= 4) by {
            lemma_pow2_consts();
            lemma_pow2_consts();
        }
        let big_x = m * pk;
        assert(m * p == big_x * w) by {
            lemma_mul_is_associative(m, pk, w);
        }
        assert(p <= 4 * w) by {
            lemma_mul_inequality(pk, 4, w);
        }
        assert(big_x % 2 == 0) by {
            assert(pk == 2 || pk == 4) by {
                lemma_pow2_consts();
                lemma_pow2_consts();
            }
            lemma_mul_is_commutative(m, pk);
        }
        if big_x <= 0x3f_ffff_ffff_fffe {
            lemma_mul_inequality(big_x + 1, 0x3f_ffff_ffff_ffff, w);
            lemma_mul_is_distributive_add_other_way(w, big_x, 1);
        } else {
            assert(big_x >= 0x40_0000_0000_0000);
            lemma_mul_inequality(0x40_0000_0000_0000, big_x, w);
        }
    }
}

proof fn lemma_far_scales(a: u64, b: u64)
    requires
        is_finite_bits(a),
        is_finite_bits(b),
        !(scale(a) <= scale(b) + 70 && scale(b) <= scale(a) + 70),
    ensures
        ({
            let (m, s) = if scale(a) > scale(b) {
                (significand(a), scale(a))
            } else {
                (significand(b), scale(b))
            };
            &&& s >= 971 ==> !nearly_equal_bits(a, b)
            &&& s <= 968 ==> nearly_equal_bits(a, b)
            &&& 969 <= s <= 970 ==> (nearly_equal_bits(a, b) <==> m * pow2((s - 968) as nat) <= pow2(
                54,
            ) - 2)
        }),
{
    if scale(a) > scale(b) {
        lemma_dominant(a, b);
    } else {
        lemma_dominant(b, a);
        assert(abs_int(scaled_value(a) - scaled_value(b)) == abs_int(scaled_value(b) - scaled_value(a)));
    }
}

impl MortarNumber {
    /// `(self - other).abs() < f64::EPSILON`: the tolerance comparison that
    /// Mortar's `==` applies to numbers.
    pub fn nearly_equal(&self, other: &MortarNumber) -> (r: bool)
        ensures
            r == nearly_equal_bits(self.bits, other.bits),
    {
        let a = self.bits;
        let b = other.bits;
        let ea = (a >> 52u64) & 0x7ffu64;
        let eb = (b >> 52u64) & 0x7ffu64;
        if ea == 0x7ffu64 || eb == 0x7ffu64 {
            return false;
        }
        let (ma, sa) = decode(a);
        let (mb, sb) = decode(b);
        let neg_a = (a >> 63u64) == 1u64;
        let neg_b = (b >> 63u64) == 1u64;
        let ghost thr: int = (pow2(54) - 1) * pow2(968);
        proof {
            lemma2_to64();
            lemma_pow2_pos(968);
        }
        if sa <= sb + 70 && sb <= sa + 70 {
            let lo = if sa < sb { sa } else { sb };
            let pa = pow2_u128(sa - lo);
            let pb = pow2_u128(sb - lo);
            proof {
                lemma_pow2_strictly_increases((sa - lo) as nat, 71);
                lemma_pow2_strictly_increases((sb - lo) as nat, 71);
                lemma_pow2_consts();
                lemma_mul_strict_inequality(ma as int, 0x20_0000_0000_0000, pa as int);
                lemma_mul_inequality(pa as int, 0x80_0000_0000_0000_0000, 0x20_0000_0000_0000);
                lemma_mul_strict_inequality(mb as int, 0x20_0000_0000_0000, pb as int);
                lemma_mul_inequality(pb as int, 0x80_0000_0000_0000_0000, 0x20_0000_0000_0000);
            }
            let xa = (ma as u128) * pa;
            let xb = (mb as u128) * pb;
            proof {
                lemma_mul_inequality(ma as int, 0x20_0000_0000_0000, pa as int);
                lemma_mul_inequality(mb as int, 0x20_0000_0000_0000, pb as int);
                assert((xa as int) < 0x1000_0000_0000_0000_0000_0000_0000_0000);
                assert((xb as int) < 0x1000_0000_0000_0000_0000_0000_0000_0000);
            }
            let ia: i128 = if neg_a { -(xa as i128) } else { xa as i128 };
            let ib: i128 = if neg_b { -(xb as i128) } else { xb as i128 };
            let d: i128 = ia - ib;
            let ad: u128 = if d < 0 { (-d) as u128 } else { d as u128 };
            proof {
                assert((ad as int) < 0x2000_0000_0000_0000_0000_0000_0000_0000);
                assert(ia as int == (if neg_a { -1int } else { 1int }) * ((ma as int) * (pa as int))) by (nonlinear_arith)
                    requires
                        ia as int == (if neg_a { -(xa as int) } else { xa as int }),
                        xa as int == (ma as int) * (pa as int),
                ;
                assert(ib as int == (if neg_b { -1int } else { 1int }) * ((mb as int) * (pb as int))) by (nonlinear_arith)
                    requires
                        ib as int == (if neg_b { -(xb as int) } else { xb as int }),
                        xb as int == (mb as int) * (pb as int),
                ;
                lemma_close_scales(a, b, lo as nat, ia as int, ib as int);
                lemma_pow2_pos(lo as nat);
                assert(abs_int(scaled_value(a) - scaled_value(b)) == (ad as int) * pow2(lo as nat)) by {
                    if d < 0 {
                        lemma_mul_unary_negation(d as int, pow2(lo as nat) as int);
                    }
                }
            }
            if lo >= 968 {
                let e = lo - 968;
                proof {
                    lemma_mul_pow2_split(ad as int, e as nat, 968);
                    lemma_mul_lt_cancel((ad as int) * pow2(e as nat), pow2(54) - 1, pow2(968) as int);
                }
                proof {
                    lemma_pow2_consts();
                    lemma_pow2_pos(e as nat);
                    lemma_mul_strictly_positive(pow2(54) - 1, pow2(968) as int);
                }
                if ad == 0 {
                    proof {
                        lemma_mul_basics(pow2(lo as nat) as int);
                    }
                    return true;
                }
                if ad >= 0x40_0000_0000_0000u128 || e >= 54 {
                    proof {
                        let pe = pow2(e as nat) as int;
                        if e >= 54 {
                            if e > 54 {
                                lemma_pow2_strictly_increases(54, e as nat);
                            }
                            assert((ad as int) * pe >= 0x40_0000_0000_0000) by (nonlinear_arith)
                                requires
                                    ad >= 1,
                                    pe >= 0x40_0000_0000_0000,
                            ;
                        } else {
                            assert((ad as int) * pe >= 0x40_0000_0000_0000) by (nonlinear_arith)
                                requires
                                    ad >= 0x40_0000_0000_0000,
                                    pe >= 1,
                            ;
                        }
                    }
                    return false;
                }
                let pe = pow2_u128(e);
                proof {
                    lemma_pow2_strictly_increases(e as nat, 54);
                    lemma_mul_strict_inequality(ad as int, 0x40_0000_0000_0000, pe as int);
                    lemma_mul_inequality(pe as int, 0x40_0000_0000_0000, 0x40_0000_0000_0000);
                }
                return ad * pe < 0x3f_ffff_ffff_ffffu128;
            } else {
                let e = 968 - lo;
                proof {
                    lemma_mul_pow2_split(pow2(54) - 1, e as nat, lo as nat);
                    assert((e + lo) as nat == 968);
                    lemma_mul_lt_cancel(ad as int, (pow2(54) - 1) * pow2(e as nat), pow2(lo as nat) as int);
                }
                if e >= 72 {
                    proof {
                        if e > 72 {
                            lemma_pow2_strictly_increases(72, e as nat);
                        }
                        lemma_pow2_consts();
                        assert((ad as int) < (pow2(54) - 1) * pow2(e as nat)) by (nonlinear_arith)
                            requires
                                (ad as int) < 0x2000_0000_0000_0000_0000_0000_0000_0000,
                                pow2(e as nat) >= 0x100_0000_0000_0000_0000,
                                pow2(54) == 0x40_0000_0000_0000,
                        ;
                    }
                    return true;
                }
                let pe = pow2_u128(e);
                proof {
                    if e < 71 {
                        lemma_pow2_strictly_increases(e as nat, 71);
                    }
                    lemma_pow2_consts();
                    if e == 71 {
                        assert(pe as int == pow2(71));
                    }
                    assert((pe as int) <= 0x80_0000_0000_0000_0000);
                    assert(0x3f_ffff_ffff_ffff * (pe as int) < 0x2000_0000_0000_0000_0000_0000_0000_0000);
                }
                return ad < 0x3f_ffff_ffff_ffffu128 * pe;
            }
        } else {
            // One value dominates: the other is below 2^-18 of it.
            let (m, s) = if sa > sb { (ma, sa) } else { (mb, sb) };
            proof {
                lemma_far_scales(a, b);
            }
            if s >= 971 {
                return false;
            }
            if s <= 968 {
                return true;
            }
            let p = pow2_u128(s - 968);
            proof {
                assert(p <= 4) by {
                    lemma_pow2_consts();
                    if s == 969 {
                    } else {
                        assert(s == 970);
                    }
                }
                lemma_pow2_consts();
                assert((m as int) * (p as int) <= 0x80_0000_0000_0000) by (nonlinear_arith)
                    requires
                        (m as int) < 0x20_0000_0000_0000,
                        (p as int) <= 4,
                ;
            }
            return (m as u128) * p <= 0x3f_ffff_ffff_fffeu128;
        }
    }
}

fn key_of(b: u64) -> (r: i128)
    ensures
        r as int == order_key(b),
{
    let m = b & 0x7fff_ffff_ffff_ffffu64;
    if (b >> 63u64) == 1u64 {
        -(m as i128)
    } else {
        m as i128
    }
}

} // verus!
