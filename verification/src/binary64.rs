//! IEEE 754 binary64 numbers, held as their 64-bit patterns.
//!
//! The engine never calculates with these numbers: it orders them, tests
//! them for equality and widens integers to them. All three are stated here
//! over the bit pattern, in which bit 63 is the sign, bits 62 to 52 the
//! biased exponent and bits 51 to 0 the fraction.
//!
//! What a pattern denotes is stated too, as [`number`], and two laws tie
//! the rest to it: the order of the patterns is the order of the numbers,
//! and widening gives the nearest number, ties to even.

use vstd::prelude::*;
use vstd::arithmetic::div_mod::{lemma_fundamental_div_mod, lemma_fundamental_div_mod_converse};
use vstd::arithmetic::power2::{
    lemma2_to64, lemma2_to64_rest, lemma_pow2_adds, lemma_pow2_pos,
    lemma_pow2_strictly_increases, lemma_pow2_unfold, pow2,
};

verus! {

/// The pattern with only the sign bit set: negative zero.
pub const SIGN_BIT: u64 = 0x8000_0000_0000_0000;

/// The pattern of positive infinity. Every larger magnitude is a NaN.
pub const INFINITY_BITS: u64 = 0x7ff0_0000_0000_0000;

/// Two to the power 52: the weight of the implicit leading bit of a
/// significand, and of one step of the exponent field.
pub const HIDDEN_BIT: u64 = 0x0010_0000_0000_0000;

/// The pattern without its sign bit.
pub open spec fn magnitude(bits: u64) -> int {
    if bits >= SIGN_BIT {
        bits - SIGN_BIT
    } else {
        bits as int
    }
}

/// Whether the pattern is a NaN: exponent all ones, fraction not zero.
pub open spec fn is_nan(bits: u64) -> bool {
    magnitude(bits) > INFINITY_BITS
}

/// Where a pattern that is no NaN stands on the number line: for one sign,
/// a larger magnitude is a number further from zero, so the magnitude with
/// the sign applied orders the patterns as the numbers they denote. Both
/// zeros stand at 0.
pub open spec fn rank(bits: u64) -> int {
    if bits >= SIGN_BIT {
        -magnitude(bits)
    } else {
        magnitude(bits)
    }
}

/// The IEEE comparison `a > b`: false whenever either side is a NaN.
pub open spec fn greater(a: u64, b: u64) -> bool {
    !is_nan(a) && !is_nan(b) && rank(a) > rank(b)
}

/// The IEEE comparison `a < b`: false whenever either side is a NaN.
pub open spec fn less(a: u64, b: u64) -> bool {
    !is_nan(a) && !is_nan(b) && rank(a) < rank(b)
}

/// The IEEE comparison `a == b`: a NaN equals nothing, itself included, and
/// the two zeros are equal.
pub open spec fn equal(a: u64, b: u64) -> bool {
    !is_nan(a) && !is_nan(b) && rank(a) == rank(b)
}

/// The position of the highest set bit of `m`; 0 for 0 and 1.
pub open spec fn floor_log2(m: nat) -> nat
    decreases m,
{
    if m <= 1 {
        0
    } else {
        1 + floor_log2(m / 2)
    }
}

/// The 53-bit significand that a positive integer rounds to. An integer of
/// at most 53 bits is shifted up and kept exactly. A longer one is cut at
/// its 53rd bit and rounded to the nearest multiple of the weight of that
/// bit, a tie going to the even significand. The result may be two to the
/// power 53, which is the next exponent's smallest significand.
pub open spec fn rounded_significand(m: nat) -> nat {
    let e = floor_log2(m);
    if e <= 52 {
        m * pow2((52 - e) as nat)
    } else {
        let unit = pow2((e - 52) as nat);
        let q = m / unit;
        let r = m % unit;
        if 2 * r > unit || (2 * r == unit && q % 2 == 1) {
            q + 1
        } else {
            q
        }
    }
}

/// The pattern, sign bit clear, of the binary64 number nearest to the
/// natural number `m`.
pub open spec fn from_nat(m: nat) -> int {
    if m == 0 {
        0
    } else {
        (floor_log2(m) + 1023) * HIDDEN_BIT + rounded_significand(m) - HIDDEN_BIT
    }
}

/// The pattern of the binary64 number nearest to `i`, ties to even: what
/// the conversion of a 64-bit signed integer to binary64 gives.
pub open spec fn from_int(i: int) -> int {
    if i < 0 {
        SIGN_BIT + from_nat((-i) as nat)
    } else {
        from_nat(i as nat)
    }
}

/// Tells whether the pattern is a NaN.
pub fn nan(bits: u64) -> (r: bool)
    ensures
        r == is_nan(bits),
{
    if bits >= SIGN_BIT {
        bits - SIGN_BIT > INFINITY_BITS
    } else {
        bits > INFINITY_BITS
    }
}

fn position(bits: u64) -> (r: i64)
    requires
        !is_nan(bits),
    ensures
        r == rank(bits),
{
    if bits >= SIGN_BIT {
        let m: u64 = bits - SIGN_BIT;
        -(m as i64)
    } else {
        bits as i64
    }
}

/// Decides `a > b` as IEEE 754 orders the two numbers.
pub fn exceeds(a: u64, b: u64) -> (r: bool)
    ensures
        r == greater(a, b),
{
    if nan(a) || nan(b) {
        false
    } else {
        position(a) > position(b)
    }
}

/// Decides `a < b` as IEEE 754 orders the two numbers.
pub fn precedes(a: u64, b: u64) -> (r: bool)
    ensures
        r == less(a, b),
{
    if nan(a) || nan(b) {
        false
    } else {
        position(a) < position(b)
    }
}

/// Decides `a == b` as IEEE 754 compares the two numbers.
pub fn coincides(a: u64, b: u64) -> (r: bool)
    ensures
        r == equal(a, b),
{
    if nan(a) || nan(b) {
        false
    } else {
        position(a) == position(b)
    }
}

/// Finds the highest set bit of `m`: its position and its weight.
fn leading_bit(m: u64) -> (r: (u64, u64))
    requires
        m >= 1,
    ensures
        r.0 == floor_log2(m as nat),
        r.0 <= 63,
        r.1 == pow2(r.0 as nat),
        r.1 <= m < 2 * r.1,
{
    let mut e: u64 = 0;
    let mut top: u64 = 1;
    let mut rest: u64 = m;
    proof {
        lemma2_to64();
    }
    while rest > 1
        invariant
            rest >= 1,
            top >= 1,
            e <= 63,
            top == pow2(e as nat),
            top * rest <= m < top * (rest + 1),
            floor_log2(m as nat) == e + floor_log2(rest as nat),
        decreases rest,
    {
        let ghost half: int = rest as int / 2;
        proof {
            lemma_pow2_unfold((e + 1) as nat);
            assert(2 * top * half <= m < 2 * top * (half + 1)) by (nonlinear_arith)
                requires
                    top * rest <= m < top * (rest + 1),
                    top >= 1,
                    2 * half <= rest <= 2 * half + 1,
            ;
            assert(2 * top <= m) by (nonlinear_arith)
                requires
                    2 * top * half <= m,
                    half >= 1,
                    top >= 1,
            ;
            if e >= 63 {
                lemma2_to64_rest();
                if e > 63 {
                    lemma_pow2_strictly_increases(64, (e + 1) as nat);
                }
            }
        }
        rest = rest / 2;
        top = top * 2;
        e = e + 1;
    }
    proof {
        assert(top * 1 == top) by (nonlinear_arith);
        assert(top * 2 == 2 * top) by (nonlinear_arith);
    }
    (e, top)
}

/// Shifts an integer of at most 53 bits up until its highest bit is bit 52.
fn shift_up(m: u64, e: u64) -> (sig: u64)
    requires
        e <= 52,
        pow2(e as nat) <= m < 2 * pow2(e as nat),
    ensures
        sig == m * pow2((52 - e) as nat),
        HIDDEN_BIT <= sig < 2 * HIDDEN_BIT,
{
    let mut sig: u64 = m;
    let mut k: u64 = e;
    proof {
        lemma2_to64();
        lemma2_to64_rest();
        assert(m * 1 == m) by (nonlinear_arith);
    }
    while k < 52
        invariant
            e <= k <= 52,
            sig == m * pow2((k - e) as nat),
            pow2(k as nat) <= sig < 2 * pow2(k as nat),
        decreases 52 - k,
    {
        proof {
            lemma_pow2_unfold((k + 1) as nat);
            lemma_pow2_unfold((k + 1 - e) as nat);
            lemma_pow2_strictly_increases(k as nat, 52);
            lemma2_to64_rest();
            let p = pow2((k - e) as nat);
            assert(2 * (m * p) == m * (2 * p)) by (nonlinear_arith);
        }
        sig = sig * 2;
        k = k + 1;
    }
    proof {
        lemma2_to64_rest();
    }
    sig
}

/// Cuts an integer of more than 53 bits at its 53rd bit and rounds to
/// nearest, ties to even.
fn round_off(m: u64, e: u64) -> (sig: u64)
    requires
        52 < e <= 63,
        pow2(e as nat) <= m < 2 * pow2(e as nat),
    ensures
        sig == ({
            let unit = pow2((e - 52) as nat);
            let q = m as nat / unit;
            let r = m as nat % unit;
            if 2 * r > unit || (2 * r == unit && q % 2 == 1) {
                q + 1
            } else {
                q
            }
        }),
        HIDDEN_BIT <= sig <= 2 * HIDDEN_BIT,
{
    let mut unit: u64 = 1;
    let mut k: u64 = 52;
    proof {
        lemma2_to64();
    }
    while k < e
        invariant
            52 <= k <= e <= 63,
            unit == pow2((k - 52) as nat),
            1 <= unit <= 2048,
        decreases e - k,
    {
        proof {
            lemma_pow2_unfold((k + 1 - 52) as nat);
            lemma_pow2_strictly_increases((k + 1 - 52) as nat, 12);
            lemma2_to64();
        }
        unit = unit * 2;
        k = k + 1;
    }
    let q: u64 = m / unit;
    let r: u64 = m % unit;
    proof {
        lemma2_to64_rest();
        lemma_pow2_adds(52, (e - 52) as nat);
        let h: int = HIDDEN_BIT as int;
        lemma_fundamental_div_mod(m as int, unit as int);
        assert(h <= q < 2 * h) by (nonlinear_arith)
            requires
                h * unit <= m < 2 * (h * unit),
                m == unit * q + r,
                0 <= r < unit,
                h > 0,
        ;
    }
    if 2 * r > unit || (2 * r == unit && q % 2 == 1) {
        q + 1
    } else {
        q
    }
}

/// Widens a 64-bit signed integer to binary64, rounding to nearest with
/// ties to even where the integer has more than 53 significant bits.
pub fn widen(i: i64) -> (bits: u64)
    ensures
        bits == from_int(i as int),
{
    if i == 0 {
        return 0;
    }
    let m: u64 = if i > 0 {
        i as u64
    } else if i == i64::MIN {
        SIGN_BIT
    } else {
        (-i) as u64
    };
    let (e, _top) = leading_bit(m);
    let sig: u64 = if e <= 52 {
        shift_up(m, e)
    } else {
        round_off(m, e)
    };
    let unsigned: u64 = (e + 1023) * HIDDEN_BIT + sig - HIDDEN_BIT;
    if i < 0 {
        unsigned + SIGN_BIT
    } else {
        unsigned
    }
}

/// The biased exponent of a pattern: its bits 62 to 52.
pub open spec fn biased_exponent(bits: u64) -> int {
    magnitude(bits) / (HIDDEN_BIT as int)
}

/// The fraction of a pattern: its bits 51 to 0.
pub open spec fn fraction(bits: u64) -> int {
    magnitude(bits) % (HIDDEN_BIT as int)
}

/// The absolute value of the number that a pattern denotes, counted in
/// units of two to the power -1074, the smallest positive binary64 number.
/// A pattern with biased exponent 0 denotes its fraction in these units; one
/// with biased exponent `e` above 0 denotes its fraction with the implicit
/// leading bit, times two to the power `e - 1`. For the pattern of infinity
/// this gives two to the power 2098, which is above every finite number.
pub open spec fn size(bits: u64) -> nat {
    let e = biased_exponent(bits);
    let f = fraction(bits);
    if e == 0 {
        f as nat
    } else {
        ((HIDDEN_BIT + f) * pow2((e - 1) as nat)) as nat
    }
}

/// The number that a pattern denotes, in units of two to the power -1074.
pub open spec fn number(bits: u64) -> int {
    if bits >= SIGN_BIT {
        -(size(bits) as int)
    } else {
        size(bits) as int
    }
}

proof fn lemma_pow2_increases(a: nat, b: nat)
    requires
        a <= b,
    ensures
        pow2(a) <= pow2(b),
{
    if a < b {
        lemma_pow2_strictly_increases(a, b);
    }
}

proof fn lemma_larger_magnitude_is_larger_size(a: u64, b: u64)
    requires
        magnitude(a) < magnitude(b),
    ensures
        size(a) < size(b),
{
    let h = HIDDEN_BIT as int;
    let ea = biased_exponent(a);
    let fa = fraction(a);
    let eb = biased_exponent(b);
    let fb = fraction(b);
    lemma_fundamental_div_mod(magnitude(a), h);
    lemma_fundamental_div_mod(magnitude(b), h);
    assert(0 <= fa < h && 0 <= fb < h);
    assert(ea >= 0 && eb >= 0) by (nonlinear_arith)
        requires
            magnitude(a) == h * ea + fa,
            magnitude(b) == h * eb + fb,
            0 <= fa < h,
            0 <= fb < h,
            magnitude(a) >= 0,
            magnitude(b) >= 0,
            h > 0,
    ;
    assert(ea <= eb) by (nonlinear_arith)
        requires
            h * ea + fa < h * eb + fb,
            0 <= fa < h,
            0 <= fb < h,
            h > 0,
    ;
    if ea == eb {
        assert(fa < fb) by (nonlinear_arith)
            requires
                h * ea + fa < h * eb + fb,
                ea == eb,
        ;
        if ea > 0 {
            let p = pow2((ea - 1) as nat) as int;
            lemma_pow2_pos((ea - 1) as nat);
            assert((h + fa) * p < (h + fb) * p) by (nonlinear_arith)
                requires
                    fa < fb,
                    p > 0,
            ;
        }
    } else {
        let pb = pow2((eb - 1) as nat) as int;
        lemma_pow2_pos((eb - 1) as nat);
        if ea == 0 {
            assert(h <= (h + fb) * pb) by (nonlinear_arith)
                requires
                    fb >= 0,
                    pb >= 1,
                    h > 0,
            ;
        } else {
            let pa = pow2((ea - 1) as nat) as int;
            lemma_pow2_pos((ea - 1) as nat);
            lemma_pow2_unfold(ea as nat);
            lemma_pow2_increases(ea as nat, (eb - 1) as nat);
            assert((h + fa) * pa < (h + fb) * pb) by (nonlinear_arith)
                requires
                    0 <= fa < h,
                    fb >= 0,
                    2 * pa <= pb,
                    pa > 0,
                    h > 0,
            ;
        }
    }
}

/// The rank of a pattern orders the patterns as the numbers that they
/// denote: a pattern has the lower rank exactly when it denotes the lesser
/// number, and two patterns have one rank exactly when they denote one
/// number. So the comparisons of this module, which go by the rank, are the
/// comparisons of the numbers.
pub proof fn law_rank_orders_the_numbers(a: u64, b: u64)
    ensures
        rank(a) < rank(b) <==> number(a) < number(b),
        rank(a) == rank(b) <==> number(a) == number(b),
{
    if magnitude(a) < magnitude(b) {
        lemma_larger_magnitude_is_larger_size(a, b);
    }
    if magnitude(b) < magnitude(a) {
        lemma_larger_magnitude_is_larger_size(b, a);
    }
    assert(size(0) == 0);
    if magnitude(a) > 0 {
        lemma_larger_magnitude_is_larger_size(0, a);
    } else {
        assert(size(a) == 0);
    }
    if magnitude(b) > 0 {
        lemma_larger_magnitude_is_larger_size(0, b);
    } else {
        assert(size(b) == 0);
    }
    if magnitude(a) == magnitude(b) {
        assert(size(a) == size(b));
    }
}

proof fn lemma_floor_log2(m: nat)
    requires
        m >= 1,
    ensures
        pow2(floor_log2(m)) <= m < 2 * pow2(floor_log2(m)),
    decreases m,
{
    lemma2_to64();
    if m > 1 {
        lemma_floor_log2(m / 2);
        lemma_pow2_unfold(floor_log2(m));
    }
}

/// The size of the pattern that a natural number from 1 to two to the
/// power 63 widens to, and the parity of its fraction.
proof fn lemma_widened_size(m: nat)
    requires
        1 <= m <= SIGN_BIT,
    ensures
        0 <= from_nat(m) < INFINITY_BITS,
        floor_log2(m) <= 63,
        HIDDEN_BIT <= rounded_significand(m) <= 2 * HIDDEN_BIT,
        size(from_nat(m) as u64) == rounded_significand(m) * pow2(floor_log2(m) + 1022),
        fraction(from_nat(m) as u64) % 2 == rounded_significand(m) % 2,
{
    let h = HIDDEN_BIT as int;
    let e = floor_log2(m);
    let sig = rounded_significand(m) as int;
    lemma2_to64();
    lemma2_to64_rest();
    lemma_floor_log2(m);
    if e > 63 {
        lemma_pow2_increases(64, e);
    }
    if e <= 52 {
        let up = pow2((52 - e) as nat) as int;
        lemma_pow2_adds(e, (52 - e) as nat);
        let low = pow2(e) as int;
        assert(h <= m * up < 2 * h) by (nonlinear_arith)
            requires
                low <= m < 2 * low,
                low * up == h,
                up > 0,
        ;
    } else {
        let unit = pow2((e - 52) as nat) as int;
        lemma_pow2_adds(52, (e - 52) as nat);
        lemma_pow2_pos((e - 52) as nat);
        lemma_fundamental_div_mod(m as int, unit);
        let q = m as int / unit;
        let r = m as int % unit;
        assert(h <= q < 2 * h) by (nonlinear_arith)
            requires
                h * unit <= m < 2 * (h * unit),
                m == unit * q + r,
                0 <= r < unit,
                h > 0,
        ;
    }
    assert(h <= sig <= 2 * h);
    let bits = from_nat(m);
    assert(bits == (e + 1023) * h + sig - h);
    assert(0 <= bits < INFINITY_BITS);
    let scale = pow2(e + 1022) as int;
    if sig < 2 * h {
        lemma_fundamental_div_mod_converse(
            bits,
            h,
            (e + 1023) as int,
            sig - h,
        );
        assert(biased_exponent(bits as u64) == e + 1023);
        assert(fraction(bits as u64) == sig - h);
    } else {
        lemma_fundamental_div_mod_converse(
            bits,
            h,
            (e + 1024) as int,
            0,
        );
        lemma_pow2_unfold(e + 1023);
        let half = pow2(e + 1022) as int;
        assert(h * (2 * half) == (2 * h) * half) by (nonlinear_arith);
        assert(biased_exponent(bits as u64) == e + 1024);
        assert(fraction(bits as u64) == 0);
    }
}

/// Widening gives the nearest binary64 number. The pattern that an integer
/// widens to is no NaN and has the integer's sign. An integer of at most 53
/// significant bits is denoted exactly. A longer one is denoted to within
/// half the weight of its 53rd bit, and where it lies just halfway between
/// two binary64 numbers, the one with the even fraction is taken.
pub proof fn law_widening_is_nearest(i: int)
    requires
        i64::MIN <= i <= i64::MAX,
    ensures
        0 <= from_int(i) <= u64::MAX,
        !is_nan(from_int(i) as u64),
        i < 0 ==> from_int(i) >= SIGN_BIT,
        i > 0 ==> from_int(i) < SIGN_BIT,
        ({
            let bits = from_int(i) as u64;
            let m = (if i < 0 {
                -i
            } else {
                i
            }) as nat;
            let exact = i * pow2(1074);
            let gap = if number(bits) < exact {
                exact - number(bits)
            } else {
                number(bits) - exact
            };
            let step = pow2((floor_log2(m) - 52) as nat) * pow2(1074);
            &&& floor_log2(m) <= 52 ==> number(bits) == exact
            &&& floor_log2(m) > 52 ==> 2 * gap <= step
            &&& floor_log2(m) > 52 && 2 * gap == step ==> fraction(bits) % 2 == 0
        }),
{
    let p = pow2(1074) as int;
    lemma_pow2_pos(1074);
    lemma2_to64();
    lemma2_to64_rest();
    if i == 0 {
        assert(from_int(i) == 0);
        assert(size(0) == 0);
        assert(0 * p == 0) by (nonlinear_arith);
    } else {
        let m = (if i < 0 {
            -i
        } else {
            i
        }) as nat;
        let h = HIDDEN_BIT as int;
        let e = floor_log2(m);
        let sig = rounded_significand(m) as int;
        lemma_widened_size(m);
        let low = from_nat(m) as u64;
        let bits = from_int(i) as u64;
        assert(magnitude(bits) == low);
        assert(size(bits) == size(low));
        assert(fraction(bits) == fraction(low));
        let scale = pow2(e + 1022) as int;
        assert(size(bits) == sig * scale);
        if e <= 52 {
            let up = pow2((52 - e) as nat) as int;
            lemma_pow2_adds((52 - e) as nat, e + 1022);
            assert(sig * scale == m * p) by (nonlinear_arith)
                requires
                    sig == m * up,
                    up * scale == p,
            ;
            assert((-(m as int)) * p == -(m * p)) by (nonlinear_arith);
        } else {
            let unit = pow2((e - 52) as nat) as int;
            lemma_pow2_pos((e - 52) as nat);
            lemma_pow2_adds((e - 52) as nat, 1074);
            lemma_fundamental_div_mod(m as int, unit);
            let q = m as int / unit;
            let r = m as int % unit;
            assert(scale == unit * p);
            assert((-(m as int)) * p == -(m * p)) by (nonlinear_arith);
            if sig == q {
                assert(m * p - sig * scale == r * p) by (nonlinear_arith)
                    requires
                        m == unit * q + r,
                        sig == q,
                        scale == unit * p,
                ;
                assert(2 * (r * p) <= unit * p) by (nonlinear_arith)
                    requires
                        2 * r <= unit,
                        p > 0,
                ;
                assert(r * p >= 0) by (nonlinear_arith)
                    requires
                        r >= 0,
                        p > 0,
                ;
                if 2 * (r * p) == unit * p {
                    assert(2 * r == unit) by (nonlinear_arith)
                        requires
                            2 * (r * p) == unit * p,
                            p > 0,
                    ;
                }
            } else {
                assert(sig == q + 1);
                assert(sig * scale - m * p == (unit - r) * p) by (nonlinear_arith)
                    requires
                        m == unit * q + r,
                        sig == q + 1,
                        scale == unit * p,
                ;
                assert(2 * ((unit - r) * p) <= unit * p) by (nonlinear_arith)
                    requires
                        2 * r >= unit,
                        p > 0,
                ;
                assert((unit - r) * p >= 0) by (nonlinear_arith)
                    requires
                        r < unit,
                        p > 0,
                ;
                if 2 * ((unit - r) * p) == unit * p {
                    assert(2 * r == unit) by (nonlinear_arith)
                        requires
                            2 * ((unit - r) * p) == unit * p,
                            p > 0,
                    ;
                }
            }
        }
    }
}

} // verus!
