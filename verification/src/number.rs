//! The numeric domain of the evaluator: a decimal floating-point value with a
//! 17-digit mantissa, a bounded decimal exponent, and the two non-finite
//! shapes (infinities and a not-a-number marker) that the evaluation rules
//! depend on (an infinite result is displayed as the division-by-zero token).
//!
//! Every operation is total: no input panics, and every result is returned in
//! normal form (no trailing zeros in the mantissa, a canonical zero). The
//! exec code mirrors the spec functions step for step, so each operation's
//! contract pins its result exactly.

use vstd::prelude::*;

verus! {

/// Exclusive bound on a normalized mantissa: 10^17.
pub const MANT_LIMIT: u64 = 100_000_000_000_000_000;

/// Inclusive bound on the decimal exponent of a normalized finite number.
/// Beyond it a value overflows to an infinity (or underflows to zero),
/// mirroring how a binary float saturates.
pub const EXP_LIMIT: i32 = 400;

/// A decimal floating-point number: `(-1)^neg * mant * 10^exp`, or an
/// infinity, or not-a-number.
#[derive(Clone, Copy, PartialEq, Eq, Structural, Debug)]
pub enum Num {
    Finite { neg: bool, mant: u64, exp: i32 },
    Infinite { neg: bool },
    NotANumber,
}

pub open spec fn sp_pow10(k: nat) -> nat
    decreases k,
{
    if k == 0 {
        1
    } else {
        10 * sp_pow10((k - 1) as nat)
    }
}

proof fn lemma_pow10_pos(k: nat)
    ensures
        sp_pow10(k) >= 1,
    decreases k,
{
    if k > 0 {
        lemma_pow10_pos((k - 1) as nat);
    }
}

proof fn lemma_pow10_add(a: nat, b: nat)
    ensures
        sp_pow10(a + b) == sp_pow10(a) * sp_pow10(b),
    decreases a,
{
    if a == 0 {
        assert(sp_pow10(0) == 1);
        assert(sp_pow10(a + b) == 1 * sp_pow10(b));
    } else {
        lemma_pow10_add((a - 1) as nat, b);
        assert((a - 1) as nat + b == (a + b - 1) as nat);
        assert(sp_pow10(a + b) == 10 * sp_pow10((a + b - 1) as nat));
        assert(sp_pow10(a) == 10 * sp_pow10((a - 1) as nat));
        assert(sp_pow10((a + b - 1) as nat) == sp_pow10((a - 1) as nat) * sp_pow10(b));
        assert(10 * (sp_pow10((a - 1) as nat) * sp_pow10(b)) == (10 * sp_pow10((a - 1) as nat))
            * sp_pow10(b)) by (nonlinear_arith);
        assert(sp_pow10(a + b) == sp_pow10(a) * sp_pow10(b));
    }
}

proof fn lemma_pow10_mono(a: nat, b: nat)
    requires
        a <= b,
    ensures
        sp_pow10(a) <= sp_pow10(b),
    decreases b,
{
    if a < b {
        lemma_pow10_mono(a, (b - 1) as nat);
        lemma_pow10_pos((b - 1) as nat);
    }
}

proof fn lemma_pow10_38()
    ensures
        sp_pow10(38) == 0x4B3B4CA85A86C47A098A224000000000u128,
{
    reveal_with_fuel(sp_pow10, 39);
}

/// 10^k as a `u128`; the whole table fits below 10^39.
pub fn pow10_u128(k: u32) -> (r: u128)
    requires
        k <= 38,
    ensures
        r == sp_pow10(k as nat),
        r >= 1,
{
    let mut i: u32 = 0;
    let mut acc: u128 = 1;
    while i < k
        invariant
            i <= k,
            k <= 38,
            acc == sp_pow10(i as nat),
            acc >= 1,
        decreases k - i,
    {
        proof {
            lemma_pow10_mono(i as nat + 1, 38);
            lemma_pow10_38();
        }
        acc = acc * 10;
        i = i + 1;
    }
    acc
}

/// Normal form of `(-1)^neg * m * 10^e`: the mantissa is rounded (half away
/// from zero, one digit at a time) below 10^17, trailing zeros are stripped,
/// zero is canonical, and an exponent out of range saturates to an infinity
/// or collapses to zero.
pub open spec fn sp_norm(neg: bool, m: nat, e: int) -> Num
    decreases m,
{
    if m >= MANT_LIMIT {
        sp_norm(neg, (m + 5) / 10, e + 1)
    } else if m > 0 && m % 10 == 0 {
        sp_norm(neg, m / 10, e + 1)
    } else if m == 0 {
        Num::Finite { neg: false, mant: 0, exp: 0 }
    } else if e > EXP_LIMIT as int {
        Num::Infinite { neg }
    } else if e < -(EXP_LIMIT as int) {
        Num::Finite { neg: false, mant: 0, exp: 0 }
    } else {
        Num::Finite { neg, mant: m as u64, exp: e as i32 }
    }
}

/// Whether a finite triple is in the normal form that `sp_norm` produces.
pub open spec fn sp_wf_fin(neg: bool, mant: u64, exp: i32) -> bool {
    mant < MANT_LIMIT && (mant == 0 ==> !neg && exp == 0) && (mant > 0 ==> mant % 10 != 0)
        && -(EXP_LIMIT as int) <= exp as int <= EXP_LIMIT as int
}

/// Every number in normal form: what all operations return.
pub open spec fn sp_wf(n: Num) -> bool {
    match n {
        Num::Finite { neg, mant, exp } => sp_wf_fin(neg, mant, exp),
        _ => true,
    }
}

proof fn lemma_norm_wf(neg: bool, m: nat, e: int)
    ensures
        sp_wf(sp_norm(neg, m, e)),
    decreases m,
{
    if m >= MANT_LIMIT {
        lemma_norm_wf(neg, (m + 5) / 10, e + 1);
    } else if m > 0 && m % 10 == 0 {
        lemma_norm_wf(neg, m / 10, e + 1);
    }
}

pub fn normalize(neg: bool, m0: u128, e0: i64) -> (r: Num)
    requires
        m0 < 0x4B3B4CA85A86C47A098A224000000000u128,  // 10^38
        -0x4_0000_0000 <= e0 <= 0x4_0000_0000,
    ensures
        r == sp_norm(neg, m0 as nat, e0 as int),
        sp_wf(r),
{
    proof {
        lemma_pow10_38();
    }
    let mut m = m0;
    let mut e = e0;
    while m >= MANT_LIMIT as u128
        invariant
            sp_norm(neg, m as nat, e as int) == sp_norm(neg, m0 as nat, e0 as int),
            e0 <= e,
            38 + e0 - e >= 0,
            -0x4_0000_0000 <= e0 <= 0x4_0000_0000,
            m as nat <= sp_pow10((38 + e0 - e) as nat),
        decreases m,
    {
        proof {
            lemma_pow10_38();
            assert(sp_pow10(0) == 1);
            assert(e < e0 + 38) by {
                if e == e0 + 38 {
                    assert(m as nat <= sp_pow10(0));
                }
            }
            let k = (38 + e0 - e) as nat;
            lemma_pow10_mono(k, 38);
            assert(sp_pow10(k) == 10 * sp_pow10((k - 1) as nat));
            assert((m as nat + 5) / 10 <= sp_pow10((k - 1) as nat)) by {
                let p = sp_pow10((k - 1) as nat);
                assert(m as nat <= 10 * p);
                assert((10 * p + 5) / 10 == p) by (nonlinear_arith)
                    requires
                        p >= 0,
                ;
            }
        }
        m = (m + 5) / 10;
        e = e + 1;
    }
    while m > 0 && m % 10 == 0
        invariant
            m < MANT_LIMIT as u128,
            sp_norm(neg, m as nat, e as int) == sp_norm(neg, m0 as nat, e0 as int),
            e0 <= e,
            38 + e0 - e >= 0,
            -0x4_0000_0000 <= e0 <= 0x4_0000_0000,
            m as nat <= sp_pow10((38 + e0 - e) as nat),
        decreases m,
    {
        proof {
            lemma_pow10_38();
            assert(sp_pow10(0) == 1);
            assert(e < e0 + 38) by {
                if e == e0 + 38 {
                    assert(m as nat <= sp_pow10(0));
                }
            }
            let k = (38 + e0 - e) as nat;
            assert(sp_pow10(k) == 10 * sp_pow10((k - 1) as nat));
            assert((m as nat) / 10 <= sp_pow10((k - 1) as nat)) by {
                let p = sp_pow10((k - 1) as nat);
                assert(m as nat <= 10 * p);
                assert((10 * p) / 10 == p) by (nonlinear_arith)
                    requires
                        p >= 0,
                ;
            }
        }
        m = m / 10;
        e = e + 1;
    }
    proof {
        lemma_norm_wf(neg, m0 as nat, e0 as int);
    }
    if m == 0 {
        Num::Finite { neg: false, mant: 0, exp: 0 }
    } else if e > EXP_LIMIT as i64 {
        Num::Infinite { neg }
    } else if e < -(EXP_LIMIT as i64) {
        Num::Finite { neg: false, mant: 0, exp: 0 }
    } else {
        Num::Finite { neg, mant: m as u64, exp: e as i32 }
    }
}

/// Re-normalization of an arbitrary `Num`; the identity on every value the
/// library itself produces.
pub open spec fn sp_renorm(a: Num) -> Num {
    match a {
        Num::Finite { neg, mant, exp } => sp_norm(neg, mant as nat, exp as int),
        _ => a,
    }
}

pub fn renorm(a: Num) -> (r: Num)
    ensures
        r == sp_renorm(a),
        sp_wf(r),
{
    match a {
        Num::Finite { neg, mant, exp } => normalize(neg, mant as u128, exp as i64),
        _ => a,
    }
}

impl Num {
    /// The canonical zero.
    pub fn zero() -> (r: Num)
        ensures
            r == (Num::Finite { neg: false, mant: 0, exp: 0 }),
    {
        Num::Finite { neg: false, mant: 0, exp: 0 }
    }

    /// The number one.
    pub fn one() -> (r: Num)
        ensures
            r == (Num::Finite { neg: false, mant: 1, exp: 0 }),
    {
        Num::Finite { neg: false, mant: 1, exp: 0 }
    }

    /// The value of a machine integer.
    pub fn from_i64(v: i64) -> (r: Num)
        ensures
            r == sp_from_i64(v),
    {
        if v < 0 {
            // -(i64::MIN) does not fit in i64; widen first.
            let m = (-(v as i128)) as u128;
            normalize(true, m, 0)
        } else {
            normalize(false, v as u128, 0)
        }
    }

    /// Whether this value is (exactly) zero, after normalization.
    pub fn is_zero(&self) -> (r: bool)
        ensures
            r == sp_is_zero(*self),
    {
        match renorm(*self) {
            Num::Finite { mant, .. } => mant == 0,
            _ => false,
        }
    }

    pub fn is_nan(&self) -> (r: bool)
        ensures
            r == (*self is NotANumber),
    {
        matches!(*self, Num::NotANumber)
    }

    pub fn is_infinite(&self) -> (r: bool)
        ensures
            r == (*self is Infinite),
    {
        matches!(*self, Num::Infinite { .. })
    }
}

pub open spec fn sp_from_i64(v: i64) -> Num {
    if v < 0 {
        sp_norm(true, (-(v as int)) as nat, 0)
    } else {
        sp_norm(false, v as nat, 0)
    }
}

pub open spec fn sp_is_zero(a: Num) -> bool {
    match sp_renorm(a) {
        Num::Finite { mant, .. } => mant == 0,
        _ => false,
    }
}

} // verus!

use vstd::prelude::*;

verus! {

/// Useful concrete powers of ten.
proof fn lemma_pow10_vals()
    ensures
        sp_pow10(0) == 1,
        sp_pow10(1) == 10,
        sp_pow10(16) == 10_000_000_000_000_000,
        sp_pow10(17) == 100_000_000_000_000_000,
        sp_pow10(18) == 1_000_000_000_000_000_000,
        sp_pow10(19) == 10_000_000_000_000_000_000,
        sp_pow10(30) == 1_000_000_000_000_000_000_000_000_000_000,
        sp_pow10(33) == 1_000_000_000_000_000_000_000_000_000_000_000,
        sp_pow10(34) == 10_000_000_000_000_000_000_000_000_000_000_000,
        sp_pow10(35) == 100_000_000_000_000_000_000_000_000_000_000_000,
        sp_pow10(36) == 1_000_000_000_000_000_000_000_000_000_000_000_000,
{
    reveal_with_fuel(sp_pow10, 37);
}

/// The number of decimal digits of `m` (one digit for zero).
pub open spec fn sp_ndigits(m: nat) -> nat
    decreases m,
{
    if m < 10 {
        1
    } else {
        1 + sp_ndigits(m / 10)
    }
}

proof fn lemma_ndigits_bounds(m: nat)
    ensures
        1 <= sp_ndigits(m),
        m < sp_pow10(sp_ndigits(m)),
        m >= 1 ==> m >= sp_pow10((sp_ndigits(m) - 1) as nat),
    decreases m,
{
    if m < 10 {
        assert(sp_pow10(1) == 10) by {
            reveal_with_fuel(sp_pow10, 2);
        }
    } else {
        lemma_ndigits_bounds(m / 10);
        let d = sp_ndigits(m / 10);
        assert(sp_pow10(d + 1) == 10 * sp_pow10(d));
        assert(m / 10 < sp_pow10(d) ==> m < 10 * sp_pow10(d)) by (nonlinear_arith);
        assert(m / 10 >= sp_pow10((d - 1) as nat) ==> m >= 10 * sp_pow10((d - 1) as nat))
            by (nonlinear_arith);
        assert(sp_pow10(d) == 10 * sp_pow10((d - 1) as nat));
    }
}

proof fn lemma_ndigits_le(m: nat, k: nat)
    requires
        m < sp_pow10(k),
        k >= 1,
    ensures
        sp_ndigits(m) <= k,
{
    lemma_ndigits_bounds(m);
    let d = sp_ndigits(m);
    if d > k {
        assert(m >= sp_pow10((d - 1) as nat));
        lemma_pow10_mono(k, (d - 1) as nat);
    }
}

pub fn ndigits_u128(m: u128) -> (r: u32)
    ensures
        r == sp_ndigits(m as nat),
        r <= 39,
{
    proof {
        lemma_pow10_38();
        lemma_pow10_mono(38, 39);
        lemma_pow10_pos(38);
        lemma_ndigits_le(m as nat, 39);
    }
    let mut x = m;
    let mut d: u32 = 1;
    while x >= 10
        invariant
            d >= 1,
            d as nat + sp_ndigits(x as nat) == 1 + sp_ndigits(m as nat),
            sp_ndigits(x as nat) >= 1,
            sp_ndigits(m as nat) <= 39,
        decreases x,
    {
        x = x / 10;
        d = d + 1;
    }
    d
}

/// Negation; zero stays the canonical zero.
pub open spec fn sp_neg_num(a: Num) -> Num {
    match a {
        Num::Finite { neg, mant, exp } => sp_norm(!neg, mant as nat, exp as int),
        Num::Infinite { neg } => Num::Infinite { neg: !neg },
        Num::NotANumber => Num::NotANumber,
    }
}

pub fn neg_num(a: Num) -> (r: Num)
    ensures
        r == sp_neg_num(a),
        sp_wf(r),
{
    match a {
        Num::Finite { neg, mant, exp } => normalize(!neg, mant as u128, exp as i64),
        Num::Infinite { neg } => Num::Infinite { neg: !neg },
        Num::NotANumber => Num::NotANumber,
    }
}

/// The sum of two finite normalized components.  Mantissas are aligned to a
/// common exponent; when the magnitudes are more than 18 decimal orders
/// apart the smaller operand vanishes (as it would after rounding), and an
/// alignment wider than 19 places truncates the smaller mantissa's lowest
/// digits, which the final rounding to 17 significant digits cannot see.
pub open spec fn sp_add_fin(n1: bool, m1: u64, e1: i32, n2: bool, m2: u64, e2: i32) -> Num {
    if m1 == 0 {
        Num::Finite { neg: n2, mant: m2, exp: e2 }
    } else if m2 == 0 {
        Num::Finite { neg: n1, mant: m1, exp: e1 }
    } else {
        let og1 = sp_ndigits(m1 as nat) + e1 as int;
        let og2 = sp_ndigits(m2 as nat) + e2 as int;
        if og1 >= og2 + 19 {
            Num::Finite { neg: n1, mant: m1, exp: e1 }
        } else if og2 >= og1 + 19 {
            Num::Finite { neg: n2, mant: m2, exp: e2 }
        } else if e1 >= e2 {
            sp_add_aligned(n1, m1 as nat, e1 as int, n2, m2 as nat, e2 as int)
        } else {
            sp_add_aligned(n2, m2 as nat, e2 as int, n1, m1 as nat, e1 as int)
        }
    }
}

/// Alignment step: `ea >= eb`, both mantissas nonzero, magnitudes within 18
/// orders of each other.
pub open spec fn sp_add_aligned(na: bool, ma: nat, ea: int, nb: bool, mb: nat, eb: int) -> Num {
    let s = ea - eb;
    let su = if s <= 19 {
        s
    } else {
        19
    };
    let sd = s - su;
    let big = ma * sp_pow10(su as nat);
    let small = mb / sp_pow10(sd as nat);
    let e = ea - su;
    if na == nb {
        sp_norm(na, big + small, e)
    } else if big == small {
        Num::Finite { neg: false, mant: 0, exp: 0 }
    } else if big > small {
        sp_norm(na, (big - small) as nat, e)
    } else {
        sp_norm(nb, (small - big) as nat, e)
    }
}

pub open spec fn sp_add(a: Num, b: Num) -> Num {
    match (sp_renorm(a), sp_renorm(b)) {
        (Num::NotANumber, _) => Num::NotANumber,
        (_, Num::NotANumber) => Num::NotANumber,
        (Num::Infinite { neg: x }, Num::Infinite { neg: y }) => if x == y {
            Num::Infinite { neg: x }
        } else {
            Num::NotANumber
        },
        (Num::Infinite { neg: x }, Num::Finite { .. }) => Num::Infinite { neg: x },
        (Num::Finite { .. }, Num::Infinite { neg: y }) => Num::Infinite { neg: y },
        (
            Num::Finite { neg: n1, mant: m1, exp: e1 },
            Num::Finite { neg: n2, mant: m2, exp: e2 },
        ) => sp_add_fin(n1, m1, e1, n2, m2, e2),
    }
}

pub open spec fn sp_sub(a: Num, b: Num) -> Num {
    sp_add(a, sp_neg_num(b))
}

fn add_aligned(na: bool, ma: u64, ea: i32, nb: bool, mb: u64, eb: i32) -> (r: Num)
    requires
        sp_wf_fin(na, ma, ea),
        sp_wf_fin(nb, mb, eb),
        ma > 0,
        mb > 0,
        ea >= eb,
        ea - eb < 19 + 17,
    ensures
        r == sp_add_aligned(na, ma as nat, ea as int, nb, mb as nat, eb as int),
        sp_wf(r),
{
    let s: i32 = ea - eb;
    let su: i32 = if s <= 19 {
        s
    } else {
        19
    };
    let sd: i32 = s - su;
    proof {
        lemma_pow10_vals();
        lemma_pow10_mono(su as nat, 19);
        assert((ma as u128) * sp_pow10(su as nat) <= (ma as u128) * sp_pow10(19))
            by (nonlinear_arith)
            requires
                sp_pow10(su as nat) <= sp_pow10(19),
        ;
        assert((ma as nat) * sp_pow10(19) < sp_pow10(17) * sp_pow10(19)) by (nonlinear_arith)
            requires
                (ma as nat) < sp_pow10(17),
                sp_pow10(19) > 0,
        ;
        lemma_pow10_add(17, 19);
        lemma_pow10_mono(36, 38);
        lemma_pow10_38();
    }
    let big: u128 = (ma as u128) * pow10_u128(su as u32);
    let small: u128 = (mb as u128) / pow10_u128(sd as u32);
    let e: i64 = ea as i64 - su as i64;
    if na == nb {
        normalize(na, big + small, e)
    } else if big == small {
        Num::Finite { neg: false, mant: 0, exp: 0 }
    } else if big > small {
        normalize(na, big - small, e)
    } else {
        normalize(nb, small - big, e)
    }
}

pub fn add_num(a: Num, b: Num) -> (r: Num)
    ensures
        r == sp_add(a, b),
        sp_wf(r),
{
    let ra = renorm(a);
    let rb = renorm(b);
    match (ra, rb) {
        (Num::NotANumber, _) => Num::NotANumber,
        (_, Num::NotANumber) => Num::NotANumber,
        (Num::Infinite { neg: x }, Num::Infinite { neg: y }) => {
            if x == y {
                Num::Infinite { neg: x }
            } else {
                Num::NotANumber
            }
        },
        (Num::Infinite { neg: x }, Num::Finite { .. }) => Num::Infinite { neg: x },
        (Num::Finite { .. }, Num::Infinite { neg: y }) => Num::Infinite { neg: y },
        (Num::Finite { neg: n1, mant: m1, exp: e1 }, Num::Finite { neg: n2, mant: m2, exp: e2 }) => {
            if m1 == 0 {
                Num::Finite { neg: n2, mant: m2, exp: e2 }
            } else if m2 == 0 {
                Num::Finite { neg: n1, mant: m1, exp: e1 }
            } else {
                let d1 = ndigits_u128(m1 as u128);
                let d2 = ndigits_u128(m2 as u128);
                let og1: i64 = d1 as i64 + e1 as i64;
                let og2: i64 = d2 as i64 + e2 as i64;
                proof {
                    lemma_ndigits_bounds(m1 as nat);
                    lemma_ndigits_bounds(m2 as nat);
                    lemma_pow10_vals();
                    lemma_ndigits_le(m1 as nat, 17);
                    lemma_ndigits_le(m2 as nat, 17);
                }
                if og1 >= og2 + 19 {
                    Num::Finite { neg: n1, mant: m1, exp: e1 }
                } else if og2 >= og1 + 19 {
                    Num::Finite { neg: n2, mant: m2, exp: e2 }
                } else if e1 >= e2 {
                    add_aligned(n1, m1, e1, n2, m2, e2)
                } else {
                    add_aligned(n2, m2, e2, n1, m1, e1)
                }
            }
        },
    }
}

pub fn sub_num(a: Num, b: Num) -> (r: Num)
    ensures
        r == sp_sub(a, b),
        sp_wf(r),
{
    add_num(a, neg_num(b))
}

pub open spec fn sp_mul(a: Num, b: Num) -> Num {
    match (sp_renorm(a), sp_renorm(b)) {
        (Num::NotANumber, _) => Num::NotANumber,
        (_, Num::NotANumber) => Num::NotANumber,
        (Num::Infinite { neg: x }, Num::Infinite { neg: y }) => Num::Infinite { neg: x != y },
        (Num::Infinite { neg: x }, Num::Finite { neg: n2, mant: m2, .. }) => if m2 == 0 {
            Num::NotANumber
        } else {
            Num::Infinite { neg: x != n2 }
        },
        (Num::Finite { neg: n1, mant: m1, .. }, Num::Infinite { neg: y }) => if m1 == 0 {
            Num::NotANumber
        } else {
            Num::Infinite { neg: n1 != y }
        },
        (
            Num::Finite { neg: n1, mant: m1, exp: e1 },
            Num::Finite { neg: n2, mant: m2, exp: e2 },
        ) => sp_norm(n1 != n2, (m1 as nat) * (m2 as nat), e1 as int + e2 as int),
    }
}

pub fn mul_num(a: Num, b: Num) -> (r: Num)
    ensures
        r == sp_mul(a, b),
        sp_wf(r),
{
    let ra = renorm(a);
    let rb = renorm(b);
    match (ra, rb) {
        (Num::NotANumber, _) => Num::NotANumber,
        (_, Num::NotANumber) => Num::NotANumber,
        (Num::Infinite { neg: x }, Num::Infinite { neg: y }) => Num::Infinite { neg: x != y },
        (Num::Infinite { neg: x }, Num::Finite { neg: n2, mant: m2, .. }) => {
            if m2 == 0 {
                Num::NotANumber
            } else {
                Num::Infinite { neg: x != n2 }
            }
        },
        (Num::Finite { neg: n1, mant: m1, .. }, Num::Infinite { neg: y }) => {
            if m1 == 0 {
                Num::NotANumber
            } else {
                Num::Infinite { neg: n1 != y }
            }
        },
        (Num::Finite { neg: n1, mant: m1, exp: e1 }, Num::Finite { neg: n2, mant: m2, exp: e2 }) => {
            proof {
                lemma_pow10_vals();
                assert((m1 as nat) * (m2 as nat) < sp_pow10(17) * sp_pow10(17))
                    by (nonlinear_arith)
                    requires
                        (m1 as nat) < sp_pow10(17),
                        (m2 as nat) < sp_pow10(17),
                ;
                lemma_pow10_add(17, 17);
                lemma_pow10_mono(34, 38);
                lemma_pow10_38();
            }
            normalize(n1 != n2, (m1 as u128) * (m2 as u128), e1 as i64 + e2 as i64)
        },
    }
}

} // verus!

verus! {

/// Quotient of two nonzero normalized finite mantissas, rounded half away
/// from zero at 18 significant digits and then normalized.
pub open spec fn sp_div_fin(n1: bool, m1: nat, e1: int, n2: bool, m2: nat, e2: int) -> Num {
    let k = 18 + sp_ndigits(m2) - sp_ndigits(m1);
    let kk = if k >= 0 {
        k
    } else {
        0
    };
    let num = m1 * sp_pow10(kk as nat);
    let q = num / m2;
    let rq = if 2 * (num % m2) >= m2 {
        q + 1
    } else {
        q
    };
    sp_norm(n1 != n2, rq, e1 - e2 - kk)
}

pub open spec fn sp_div(a: Num, b: Num) -> Num {
    match (sp_renorm(a), sp_renorm(b)) {
        (Num::NotANumber, _) => Num::NotANumber,
        (_, Num::NotANumber) => Num::NotANumber,
        (Num::Infinite { .. }, Num::Infinite { .. }) => Num::NotANumber,
        (Num::Infinite { neg: x }, Num::Finite { neg: n2, .. }) => Num::Infinite { neg: x != n2 },
        (Num::Finite { .. }, Num::Infinite { .. }) => Num::Finite {
            neg: false,
            mant: 0,
            exp: 0,
        },
        (
            Num::Finite { neg: n1, mant: m1, exp: e1 },
            Num::Finite { neg: n2, mant: m2, exp: e2 },
        ) => {
            if m2 == 0 {
                if m1 == 0 {
                    Num::NotANumber
                } else {
                    Num::Infinite { neg: n1 != n2 }
                }
            } else if m1 == 0 {
                Num::Finite { neg: false, mant: 0, exp: 0 }
            } else {
                sp_div_fin(n1, m1 as nat, e1 as int, n2, m2 as nat, e2 as int)
            }
        },
    }
}

pub fn div_num(a: Num, b: Num) -> (r: Num)
    ensures
        r == sp_div(a, b),
        sp_wf(r),
{
    let ra = renorm(a);
    let rb = renorm(b);
    match (ra, rb) {
        (Num::NotANumber, _) => Num::NotANumber,
        (_, Num::NotANumber) => Num::NotANumber,
        (Num::Infinite { .. }, Num::Infinite { .. }) => Num::NotANumber,
        (Num::Infinite { neg: x }, Num::Finite { neg: n2, .. }) => Num::Infinite { neg: x != n2 },
        (Num::Finite { .. }, Num::Infinite { .. }) => Num::Finite {
            neg: false,
            mant: 0,
            exp: 0,
        },
        (Num::Finite { neg: n1, mant: m1, exp: e1 }, Num::Finite { neg: n2, mant: m2, exp: e2 }) => {
            if m2 == 0 {
                if m1 == 0 {
                    Num::NotANumber
                } else {
                    Num::Infinite { neg: n1 != n2 }
                }
            } else if m1 == 0 {
                Num::Finite { neg: false, mant: 0, exp: 0 }
            } else {
                let d1 = ndigits_u128(m1 as u128);
                let d2 = ndigits_u128(m2 as u128);
                let k: i64 = 18 + d2 as i64 - d1 as i64;
                let kk: i64 = if k >= 0 {
                    k
                } else {
                    0
                };
                proof {
                    lemma_ndigits_bounds(m1 as nat);
                    lemma_ndigits_bounds(m2 as nat);
                    lemma_pow10_vals();
                    lemma_ndigits_le(m1 as nat, 17);
                    lemma_ndigits_le(m2 as nat, 17);
                    // m1 * 10^kk < 10^(d1 + kk) <= 10^(18 + d2) <= 10^35
                    let d1n = sp_ndigits(m1 as nat);
                    let d2n = sp_ndigits(m2 as nat);
                    lemma_pow10_add(d1n, (kk as nat));
                    lemma_pow10_pos(kk as nat);
                    assert((m1 as nat) * sp_pow10(kk as nat) < sp_pow10(d1n) * sp_pow10(kk as nat))
                        by (nonlinear_arith)
                        requires
                            (m1 as nat) < sp_pow10(d1n),
                            sp_pow10(kk as nat) > 0,
                    ;
                    lemma_pow10_mono(d1n + kk as nat, 35);
                    lemma_pow10_mono(35, 38);
                    lemma_pow10_38();
                }
                let num: u128 = (m1 as u128) * pow10_u128(kk as u32);
                let q: u128 = num / (m2 as u128);
                let rem: u128 = num % (m2 as u128);
                let rq: u128 = if 2 * rem >= m2 as u128 {
                    q + 1
                } else {
                    q
                };
                normalize(n1 != n2, rq, e1 as i64 - e2 as i64 - kk)
            }
        },
    }
}

/// Order of the magnitudes `m1 * 10^e1` and `m2 * 10^e2`, stated over the
/// exact integers obtained by scaling both to the smaller exponent.
pub open spec fn sp_cmp_mag(m1: nat, e1: int, m2: nat, e2: int) -> int {
    let em = if e1 <= e2 {
        e1
    } else {
        e2
    };
    let v1 = m1 * sp_pow10((e1 - em) as nat);
    let v2 = m2 * sp_pow10((e2 - em) as nat);
    if v1 < v2 {
        -1
    } else if v1 == v2 {
        0
    } else {
        1
    }
}

/// Sign-and-magnitude order on two normalized finite values: negative if
/// `a < b`, zero if equal, positive if `a > b`.
pub open spec fn sp_cmp_fin(n1: bool, m1: nat, e1: int, n2: bool, m2: nat, e2: int) -> int {
    if m1 == 0 && m2 == 0 {
        0
    } else if m1 == 0 {
        if n2 {
            1
        } else {
            -1
        }
    } else if m2 == 0 {
        if n1 {
            -1
        } else {
            1
        }
    } else if !n1 && n2 {
        1
    } else if n1 && !n2 {
        -1
    } else if n1 {
        -sp_cmp_mag(m1, e1, m2, e2)
    } else {
        sp_cmp_mag(m1, e1, m2, e2)
    }
}

/// Magnitude comparison helper: a nonzero value with a strictly greater
/// order of magnitude (digit count plus exponent) is strictly greater.
proof fn lemma_mag_gt(m1: nat, e1: int, m2: nat, e2: int, em: int)
    requires
        m1 >= 1,
        m2 >= 1,
        sp_ndigits(m1) + e1 > sp_ndigits(m2) + e2,
        em <= e1,
        em <= e2,
    ensures
        m1 * sp_pow10((e1 - em) as nat) > m2 * sp_pow10((e2 - em) as nat),
{
    let d1 = sp_ndigits(m1);
    let d2 = sp_ndigits(m2);
    lemma_ndigits_bounds(m1);
    lemma_ndigits_bounds(m2);
    let p1 = sp_pow10((e1 - em) as nat);
    let p2 = sp_pow10((e2 - em) as nat);
    // m1 * p1 >= 10^(d1 - 1) * p1 = 10^(d1 - 1 + e1 - em)
    lemma_pow10_add((d1 - 1) as nat, (e1 - em) as nat);
    lemma_pow10_add(d2, (e2 - em) as nat);
    lemma_pow10_pos((e1 - em) as nat);
    assert(m1 * p1 >= sp_pow10((d1 - 1) as nat) * p1) by (nonlinear_arith)
        requires
            m1 >= sp_pow10((d1 - 1) as nat),
            p1 > 0,
    ;
    lemma_pow10_pos((e2 - em) as nat);
    assert(m2 * p2 < sp_pow10(d2) * p2) by (nonlinear_arith)
        requires
            m2 < sp_pow10(d2),
            p2 > 0,
    ;
    assert(sp_pow10((d1 - 1) as nat + (e1 - em) as nat) >= sp_pow10(d2 + (e2 - em) as nat)) by {
        lemma_pow10_mono(d2 + (e2 - em) as nat, (d1 - 1) as nat + (e1 - em) as nat);
    }
}

/// Compares two normalized finite values exactly.
fn cmp_fin(n1: bool, m1: u64, e1: i32, n2: bool, m2: u64, e2: i32) -> (r: i8)
    requires
        sp_wf_fin(n1, m1, e1),
        sp_wf_fin(n2, m2, e2),
    ensures
        r as int == sp_cmp_fin(n1, m1 as nat, e1 as int, n2, m2 as nat, e2 as int),
{
    if m1 == 0 && m2 == 0 {
        0
    } else if m1 == 0 {
        if n2 {
            1
        } else {
            -1
        }
    } else if m2 == 0 {
        if n1 {
            -1
        } else {
            1
        }
    } else if !n1 && n2 {
        1
    } else if n1 && !n2 {
        -1
    } else {
        let mag = cmp_mag(m1, e1, m2, e2);
        if n1 {
            -mag
        } else {
            mag
        }
    }
}

/// Compares the magnitudes `m1 * 10^e1` and `m2 * 10^e2` of two nonzero
/// normalized mantissas.
fn cmp_mag(m1: u64, e1: i32, m2: u64, e2: i32) -> (r: i8)
    requires
        0 < m1 < MANT_LIMIT,
        0 < m2 < MANT_LIMIT,
        -(EXP_LIMIT as int) <= e1 as int <= EXP_LIMIT as int,
        -(EXP_LIMIT as int) <= e2 as int <= EXP_LIMIT as int,
    ensures
        r as int == sp_cmp_mag(m1 as nat, e1 as int, m2 as nat, e2 as int),
{
    let ghost em: int = if e1 <= e2 {
        e1 as int
    } else {
        e2 as int
    };
    let d1 = ndigits_u128(m1 as u128);
    let d2 = ndigits_u128(m2 as u128);
    let og1: i64 = d1 as i64 + e1 as i64;
    let og2: i64 = d2 as i64 + e2 as i64;
    proof {
        lemma_ndigits_bounds(m1 as nat);
        lemma_ndigits_bounds(m2 as nat);
        lemma_pow10_vals();
        lemma_ndigits_le(m1 as nat, 17);
        lemma_ndigits_le(m2 as nat, 17);
    }
    if og1 > og2 {
        proof {
            lemma_mag_gt(m1 as nat, e1 as int, m2 as nat, e2 as int, em);
        }
        1
    } else if og1 < og2 {
        proof {
            lemma_mag_gt(m2 as nat, e2 as int, m1 as nat, e1 as int, em);
        }
        -1
    } else {
        // same order of magnitude: the exponents are within 16 of each other
        let (hi, lo, swap) = if e1 >= e2 {
            (m1, m2, false)
        } else {
            (m2, m1, true)
        };
        let shift: i64 = if e1 >= e2 {
            e1 as i64 - e2 as i64
        } else {
            e2 as i64 - e1 as i64
        };
        proof {
            lemma_pow10_mono((shift as nat), 16);
            assert((hi as u128 as nat) * sp_pow10(shift as nat) <= (hi as nat) * sp_pow10(16))
                by (nonlinear_arith)
                requires
                    sp_pow10(shift as nat) <= sp_pow10(16),
                    hi as nat >= 0,
            ;
            assert((hi as nat) * sp_pow10(16) < sp_pow10(17) * sp_pow10(16)) by (nonlinear_arith)
                requires
                    (hi as nat) < sp_pow10(17),
                    sp_pow10(16) > 0,
            ;
            lemma_pow10_add(17, 16);
            lemma_pow10_mono(33, 38);
            lemma_pow10_38();
            lemma_pow10_pos(shift as nat);
        }
        let hv: u128 = (hi as u128) * pow10_u128(shift as u32);
        let lv: u128 = lo as u128;
        proof {
            assert(sp_pow10(0) == 1);
            assert((lo as nat) * 1 == lo as nat) by (nonlinear_arith);
        }
        let c: i8 = if hv < lv {
            -1
        } else if hv == lv {
            0
        } else {
            1
        };
        if swap {
            -c
        } else {
            c
        }
    }
}

} // verus!

verus! {

/// The integer square root: the unique `r` with `r^2 <= n < (r+1)^2`.
pub open spec fn sp_isqrt(n: nat) -> nat {
    choose|r: nat| #[trigger] (r * r) <= n < (r + 1) * (r + 1)
}

proof fn lemma_isqrt_exists(n: nat)
    ensures
        exists|r: nat| #[trigger] (r * r) <= n < (r + 1) * (r + 1),
    decreases n,
{
    if n == 0 {
        let r: nat = 0;
        assert(r * r <= n < (r + 1) * (r + 1)) by (nonlinear_arith)
            requires
                n == 0,
                r == 0,
        ;
    } else {
        lemma_isqrt_exists((n - 1) as nat);
        let r = choose|r: nat| #[trigger] (r * r) <= n - 1 < (r + 1) * (r + 1);
        if n < (r + 1) * (r + 1) {
            assert(r * r <= n < (r + 1) * (r + 1));
        } else {
            assert(n == (r + 1) * (r + 1));
            assert((r + 1) * (r + 1) < (r + 2) * (r + 2)) by (nonlinear_arith);
            assert((r + 1) * (r + 1) <= n < (r + 2) * (r + 2));
        }
    }
}

proof fn lemma_isqrt_unique(n: nat, r: nat)
    requires
        r * r <= n < (r + 1) * (r + 1),
    ensures
        r == sp_isqrt(n),
{
    lemma_isqrt_exists(n);
    let c = sp_isqrt(n);
    assert(c * c <= n < (c + 1) * (c + 1));
    if r < c {
        assert((r + 1) * (r + 1) <= c * c) by (nonlinear_arith)
            requires
                r + 1 <= c,
        ;
    }
    if c < r {
        assert((c + 1) * (c + 1) <= r * r) by (nonlinear_arith)
            requires
                c + 1 <= r,
        ;
    }
}

pub fn isqrt_u128(n: u128) -> (r: u128)
    requires
        n < 1_000_000_000_000_000_000_000_000_000_000_000_000u128,
    ensures
        r as nat == sp_isqrt(n as nat),
        r * r <= n,
        r <= 1_000_000_000_000_000_000u128,
{
    let mut lo: u128 = 0;
    let mut hi: u128 = 1_000_000_000_000_000_000u128;
    proof {
        assert((1_000_000_000_000_000_000u128 as nat + 1) * (1_000_000_000_000_000_000u128 as nat
            + 1) > 1_000_000_000_000_000_000_000_000_000_000_000_000u128 as nat)
            by (nonlinear_arith);
    }
    while lo < hi
        invariant
            lo <= hi <= 1_000_000_000_000_000_000u128,
            (lo as nat) * (lo as nat) <= n as nat,
            (hi as nat + 1) * (hi as nat + 1) > n as nat,
        decreases hi - lo,
    {
        let mid = lo + (hi - lo + 1) / 2;
        proof {
            assert((mid as nat) * (mid as nat) <= 1_000_000_000_000_000_000_000_000_000_000_000_000)
                by (nonlinear_arith)
                requires
                    mid as nat <= 1_000_000_000_000_000_000,
            ;
        }
        if mid * mid <= n {
            lo = mid;
        } else {
            hi = mid - 1;
        }
    }
    proof {
        lemma_isqrt_unique(n as nat, lo as nat);
    }
    lo
}

/// The square root, rounded to the nearest 17-digit mantissa.
pub open spec fn sp_sqrt(a: Num) -> Num {
    match sp_renorm(a) {
        Num::NotANumber => Num::NotANumber,
        Num::Infinite { neg } => if neg {
            Num::NotANumber
        } else {
            Num::Infinite { neg: false }
        },
        Num::Finite { neg, mant, exp } => {
            if mant == 0 {
                Num::Finite { neg: false, mant: 0, exp: 0 }
            } else if neg {
                Num::NotANumber
            } else {
                let d = sp_ndigits(mant as nat);
                let j0 = 34 - d;
                let j = if (exp - j0) % 2 == 0 {
                    j0
                } else {
                    j0 + 1
                };
                let mscaled = (mant as nat) * sp_pow10(j as nat);
                let e2 = exp - j;
                let r = sp_isqrt(mscaled);
                let rr = if mscaled - r * r > r {
                    r + 1
                } else {
                    r
                };
                sp_norm(false, rr, e2 / 2)
            }
        },
    }
}

pub fn sqrt_num(a: Num) -> (res: Num)
    ensures
        res == sp_sqrt(a),
        sp_wf(res),
{
    match renorm(a) {
        Num::NotANumber => Num::NotANumber,
        Num::Infinite { neg } => {
            if neg {
                Num::NotANumber
            } else {
                Num::Infinite { neg: false }
            }
        },
        Num::Finite { neg, mant, exp } => {
            if mant == 0 {
                Num::Finite { neg: false, mant: 0, exp: 0 }
            } else if neg {
                Num::NotANumber
            } else {
                let d = ndigits_u128(mant as u128);
                proof {
                    lemma_ndigits_bounds(mant as nat);
                    lemma_pow10_vals();
                    lemma_ndigits_le(mant as nat, 17);
                }
                let j0: i64 = 34 - d as i64;
                let par: i64 = exp as i64 - j0;
                // parity test without signed remainder
                let is_even = if par >= 0 {
                    par % 2 == 0
                } else {
                    (-par) % 2 == 0
                };
                proof {
                    assert(is_even == ((exp as int - j0 as int) % 2 == 0)) by {
                        if par < 0 {
                            assert(((-par) % 2 == 0) == (par % 2 == 0)) by (nonlinear_arith)
                                requires
                                    par < 0,
                            ;
                        }
                    }
                }
                let j: i64 = if is_even {
                    j0
                } else {
                    j0 + 1
                };
                proof {
                    let dn = sp_ndigits(mant as nat);
                    lemma_pow10_pos(j as nat);
                    assert((mant as nat) * sp_pow10(j as nat) < sp_pow10(dn) * sp_pow10(j as nat))
                        by (nonlinear_arith)
                        requires
                            (mant as nat) < sp_pow10(dn),
                            sp_pow10(j as nat) > 0,
                    ;
                    lemma_pow10_add(dn, j as nat);
                    lemma_pow10_mono(dn + j as nat, 35);
                }
                let mscaled: u128 = (mant as u128) * pow10_u128(j as u32);
                let e2: i64 = exp as i64 - j;
                let r = isqrt_u128(mscaled);
                proof {
                    lemma_isqrt_exists(mscaled as nat);
                }
                let rr: u128 = if mscaled - r * r > r {
                    r + 1
                } else {
                    r
                };
                // halve the even exponent without signed division
                let eh: i64 = if e2 >= 0 {
                    ((e2 as u64) / 2) as i64
                } else {
                    -(((-e2) as u64 / 2) as i64)
                };
                proof {
                    assert((e2 as int) % 2 == 0);
                    assert(2 * (eh as int) == e2 as int) by {
                        if e2 >= 0 {
                            assert(e2 as u64 == 2 * (e2 as u64 / 2) + (e2 as u64) % 2);
                        } else {
                            assert((-e2) as u64 == 2 * ((-e2) as u64 / 2) + ((-e2) as u64) % 2);
                            assert(((-e2) as int) % 2 == 0) by (nonlinear_arith)
                                requires
                                    (e2 as int) % 2 == 0,
                            ;
                        }
                    }
                    assert(eh as int == (e2 as int) / 2) by (nonlinear_arith)
                        requires
                            2 * (eh as int) == e2 as int,
                    ;
                }
                normalize(false, rr, eh)
            }
        },
    }
}

} // verus!

verus! {

pub open spec fn sp_one() -> Num {
    Num::Finite { neg: false, mant: 1, exp: 0 }
}

pub open spec fn sp_zero() -> Num {
    Num::Finite { neg: false, mant: 0, exp: 0 }
}

/// `a^n` for `n >= 1`, by squaring.
pub open spec fn sp_powi_pos(a: Num, n: nat) -> Num
    decreases n,
{
    if n <= 1 {
        sp_renorm(a)
    } else {
        let h = sp_powi_pos(a, n / 2);
        let s = sp_mul(h, h);
        if n % 2 == 0 {
            s
        } else {
            sp_mul(s, a)
        }
    }
}

pub fn powi_pos(a: Num, n: u64) -> (r: Num)
    requires
        n >= 1,
    ensures
        r == sp_powi_pos(a, n as nat),
        sp_wf(r),
    decreases n,
{
    if n == 1 {
        renorm(a)
    } else {
        let h = powi_pos(a, n / 2);
        let s = mul_num(h, h);
        if n % 2 == 0 {
            s
        } else {
            mul_num(s, a)
        }
    }
}

/// `a^n` for an astronomically large (and even) positive `n`: decided by
/// comparing `|a|` with one.
pub open spec fn sp_pow_huge(a: Num) -> Num {
    match sp_renorm(a) {
        Num::NotANumber => Num::NotANumber,
        Num::Infinite { .. } => Num::Infinite { neg: false },
        Num::Finite { neg, mant, exp } => {
            if mant == 0 {
                sp_zero()
            } else {
                let c = sp_cmp_mag(mant as nat, exp as int, 1, 0);
                if c > 0 {
                    Num::Infinite { neg: false }
                } else if c == 0 {
                    sp_one()
                } else {
                    sp_zero()
                }
            }
        },
    }
}

fn pow_huge(a: Num) -> (r: Num)
    ensures
        r == sp_pow_huge(a),
        sp_wf(r),
{
    match renorm(a) {
        Num::NotANumber => Num::NotANumber,
        Num::Infinite { .. } => Num::Infinite { neg: false },
        Num::Finite { neg, mant, exp } => {
            if mant == 0 {
                Num::Finite { neg: false, mant: 0, exp: 0 }
            } else {
                let c = cmp_mag(mant, exp, 1, 0);
                if c > 0 {
                    Num::Infinite { neg: false }
                } else if c == 0 {
                    Num::Finite { neg: false, mant: 1, exp: 0 }
                } else {
                    Num::Finite { neg: false, mant: 0, exp: 0 }
                }
            }
        },
    }
}

/// `a` raised to the integer `(-1)^nbneg * mb * 10^eb` (with `mb >= 1`,
/// `eb >= 0`); a negative exponent goes through the reciprocal.
pub open spec fn sp_pow_int(a: Num, nbneg: bool, mb: nat, eb: nat) -> Num {
    let p = if eb > 18 || mb * sp_pow10(eb) > 0x8000_0000_0000_0000 {
        sp_pow_huge(a)
    } else {
        sp_powi_pos(a, mb * sp_pow10(eb))
    };
    if nbneg {
        sp_div(sp_one(), p)
    } else {
        p
    }
}

fn pow_int(a: Num, nbneg: bool, mb: u64, eb: u32) -> (r: Num)
    requires
        1 <= mb < MANT_LIMIT,
    ensures
        r == sp_pow_int(a, nbneg, mb as nat, eb as nat),
        sp_wf(r),
{
    let p = if eb > 18 {
        proof {
            lemma_pow10_pos(eb as nat);
            lemma_pow10_mono(19, eb as nat);
            lemma_pow10_vals();
            assert((mb as nat) * sp_pow10(eb as nat) >= 1 * sp_pow10(19)) by (nonlinear_arith)
                requires
                    mb as nat >= 1,
                    sp_pow10(eb as nat) >= sp_pow10(19),
            ;
        }
        pow_huge(a)
    } else {
        proof {
            lemma_pow10_vals();
            lemma_pow10_add(17, 18);
            lemma_pow10_mono(35, 38);
            lemma_pow10_38();
            lemma_pow10_mono(eb as nat, 18);
            assert((mb as nat) * sp_pow10(eb as nat) <= (mb as nat) * sp_pow10(18))
                by (nonlinear_arith)
                requires
                    sp_pow10(eb as nat) <= sp_pow10(18),
                    mb as nat >= 0,
            ;
            assert((mb as nat) * sp_pow10(18) < sp_pow10(17) * sp_pow10(18)) by (nonlinear_arith)
                requires
                    (mb as nat) < sp_pow10(17),
                    sp_pow10(18) > 0,
            ;
        }
        let nval: u128 = (mb as u128) * pow10_u128(eb);
        if nval > 0x8000_0000_0000_0000u128 {
            pow_huge(a)
        } else {
            proof {
                lemma_pow10_pos(eb as nat);
                assert((mb as nat) * sp_pow10(eb as nat) >= 1) by (nonlinear_arith)
                    requires
                        mb as nat >= 1,
                        sp_pow10(eb as nat) >= 1,
                ;
            }
            powi_pos(a, nval as u64)
        }
    };
    if nbneg {
        div_num(Num::Finite { neg: false, mant: 1, exp: 0 }, p)
    } else {
        p
    }
}

/// One step per binary digit of the fractional exponent `fnum / pden`:
/// repeatedly take the square root of the base and multiply the digits that
/// are set into the accumulator.
pub open spec fn sp_pow_bits(s: Num, acc: Num, fnum: nat, pden: nat, count: nat) -> Num
    decreases count,
{
    if count == 0 || fnum == 0 {
        sp_renorm(acc)
    } else {
        let s2 = sp_sqrt(s);
        let f2 = 2 * fnum;
        if f2 >= pden {
            sp_pow_bits(s2, sp_mul(acc, s2), (f2 - pden) as nat, pden, (count - 1) as nat)
        } else {
            sp_pow_bits(s2, acc, f2, pden, (count - 1) as nat)
        }
    }
}

fn pow_bits(s: Num, acc: Num, fnum: u128, pden: u128, count: u32) -> (r: Num)
    requires
        fnum <= pden,
        pden <= 1_000_000_000_000_000_000_000_000_000_000u128,
    ensures
        r == sp_pow_bits(s, acc, fnum as nat, pden as nat, count as nat),
        sp_wf(r),
    decreases count,
{
    if count == 0 || fnum == 0 {
        renorm(acc)
    } else {
        let s2 = sqrt_num(s);
        let f2 = 2 * fnum;
        if f2 >= pden {
            pow_bits(s2, mul_num(acc, s2), f2 - pden, pden, count - 1)
        } else {
            pow_bits(s2, acc, f2, pden, count - 1)
        }
    }
}

/// `a` raised to `(-1)^nbneg * mb * 10^eb` with `eb < 0`: a power with a
/// fractional part.  A negative base yields not-a-number; the fractional
/// part is evaluated through 40 square-root steps (about 12 correct decimal
/// digits); fractions finer than 30 decimal places are truncated there.
pub open spec fn sp_pow_frac(a: Num, nbneg: bool, mb: nat, eb: int) -> Num {
    match sp_renorm(a) {
        Num::NotANumber => Num::NotANumber,
        Num::Infinite { .. } => if nbneg {
            sp_zero()
        } else {
            Num::Infinite { neg: false }
        },
        Num::Finite { neg, mant, exp } => {
            if mant == 0 {
                if nbneg {
                    Num::Infinite { neg: false }
                } else {
                    sp_zero()
                }
            } else if neg {
                Num::NotANumber
            } else {
                let base = Num::Finite { neg, mant, exp };
                let k = -eb;
                let ip = mb / sp_pow10(k as nat);
                let fnum0 = mb % sp_pow10(k as nat);
                let fnum = if k <= 30 {
                    fnum0
                } else {
                    fnum0 / sp_pow10((k - 30) as nat)
                };
                let kk: nat = if k <= 30 {
                    k as nat
                } else {
                    30
                };
                let ipart = if ip == 0 {
                    sp_one()
                } else {
                    sp_powi_pos(base, ip)
                };
                let fpart = sp_pow_bits(base, sp_one(), fnum, sp_pow10(kk), 40);
                let pos = sp_mul(ipart, fpart);
                if nbneg {
                    sp_div(sp_one(), pos)
                } else {
                    pos
                }
            }
        },
    }
}

#[verifier::rlimit(60)]
fn pow_frac(a: Num, nbneg: bool, mb: u64, eb: i32) -> (r: Num)
    requires
        1 <= mb < MANT_LIMIT,
        -(EXP_LIMIT as int) <= (eb as int) && (eb as int) < 0,
    ensures
        r == sp_pow_frac(a, nbneg, mb as nat, eb as int),
        sp_wf(r),
{
    let one = Num::Finite { neg: false, mant: 1, exp: 0 };
    match renorm(a) {
        Num::NotANumber => Num::NotANumber,
        Num::Infinite { .. } => {
            if nbneg {
                Num::Finite { neg: false, mant: 0, exp: 0 }
            } else {
                Num::Infinite { neg: false }
            }
        },
        Num::Finite { neg, mant, exp } => {
            if mant == 0 {
                if nbneg {
                    Num::Infinite { neg: false }
                } else {
                    Num::Finite { neg: false, mant: 0, exp: 0 }
                }
            } else if neg {
                Num::NotANumber
            } else {
                let base = Num::Finite { neg, mant, exp };
                let k: i64 = -(eb as i64);
                let (ip, fnum0): (u64, u64) = if k > 17 {
                    proof {
                        lemma_pow10_vals();
                        lemma_pow10_mono(18, k as nat);
                        lemma_pow10_pos(k as nat);
                        assert((mb as nat) / sp_pow10(k as nat) == 0) by (nonlinear_arith)
                            requires
                                (mb as nat) < sp_pow10(k as nat),
                                sp_pow10(k as nat) > 0,
                        ;
                        assert((mb as nat) % sp_pow10(k as nat) == mb as nat) by (nonlinear_arith)
                            requires
                                (mb as nat) < sp_pow10(k as nat),
                        ;
                    }
                    (0u64, mb)
                } else {
                    let p = pow10_u128(k as u32) as u64;
                    proof {
                        lemma_pow10_vals();
                        lemma_pow10_mono(k as nat, 17);
                    }
                    (mb / p, mb % p)
                };
                let (fnum, kk): (u64, i64) = if k <= 30 {
                    (fnum0, k)
                } else if k <= 47 {
                    proof {
                        lemma_pow10_mono((k - 30) as nat, 17);
                        lemma_pow10_vals();
                    }
                    (fnum0 / (pow10_u128((k - 30) as u32) as u64), 30)
                } else {
                    proof {
                        lemma_pow10_vals();
                        lemma_pow10_mono(18, (k - 30) as nat);
                        lemma_pow10_pos((k - 30) as nat);
                        assert((fnum0 as nat) < sp_pow10(18));
                        assert((fnum0 as nat) / sp_pow10((k - 30) as nat) == 0) by (
                        nonlinear_arith)
                            requires
                                (fnum0 as nat) < sp_pow10((k - 30) as nat),
                                sp_pow10((k - 30) as nat) > 0,
                        ;
                    }
                    (0u64, 30)
                };
                let ipart = if ip == 0 {
                    one
                } else {
                    powi_pos(base, ip)
                };
                let pden = pow10_u128(kk as u32);
                proof {
                    lemma_pow10_vals();
                    lemma_pow10_mono(kk as nat, 30);
                    assert((fnum as nat) < sp_pow10(kk as nat)) by {
                        if k <= 30 {
                            assert((mb as nat) % sp_pow10(k as nat) < sp_pow10(k as nat)) by (
                            nonlinear_arith)
                                requires
                                    sp_pow10(k as nat) > 0,
                            {
                                lemma_pow10_pos(k as nat);
                            }
                        } else {
                            lemma_div_bound_30(fnum0 as nat, k as nat);
                        }
                    }
                }
                let fpart = pow_bits(base, one, fnum as u128, pden, 40);
                let pos = mul_num(ipart, fpart);
                if nbneg {
                    div_num(one, pos)
                } else {
                    pos
                }
            }
        },
    }
}

/// Dividing a 17-digit number by `10^(k-30)` leaves fewer than 30 digits.
proof fn lemma_div_bound_30(f: nat, k: nat)
    requires
        f < sp_pow10(17),
        30 < k,
    ensures
        f / sp_pow10((k - 30) as nat) < sp_pow10(30),
{
    lemma_pow10_pos((k - 30) as nat);
    lemma_pow10_vals();
    assert(f / sp_pow10((k - 30) as nat) <= f) by (nonlinear_arith)
        requires
            sp_pow10((k - 30) as nat) >= 1,
            f >= 0,
    ;
    lemma_pow10_mono(17, 30);
}

/// `a^b` with the evaluator's dispatch rule: an exponent with no fractional
/// part is raised by integer powers, any other finite exponent through real
/// exponentiation; a non-finite exponent yields not-a-number, and an
/// exponent of zero yields one for every base.
pub open spec fn sp_pow(a: Num, b: Num) -> Num {
    match sp_renorm(b) {
        Num::NotANumber => Num::NotANumber,
        Num::Infinite { .. } => Num::NotANumber,
        Num::Finite { neg: nb, mant: mb, exp: eb } => {
            if mb == 0 {
                sp_one()
            } else if eb >= 0 {
                sp_pow_int(a, nb, mb as nat, eb as nat)
            } else {
                sp_pow_frac(a, nb, mb as nat, eb as int)
            }
        },
    }
}

pub fn pow_num(a: Num, b: Num) -> (r: Num)
    ensures
        r == sp_pow(a, b),
        sp_wf(r),
{
    match renorm(b) {
        Num::NotANumber => Num::NotANumber,
        Num::Infinite { .. } => Num::NotANumber,
        Num::Finite { neg: nb, mant: mb, exp: eb } => {
            if mb == 0 {
                Num::Finite { neg: false, mant: 1, exp: 0 }
            } else if eb >= 0 {
                pow_int(a, nb, mb, eb as u32)
            } else {
                pow_frac(a, nb, mb, eb)
            }
        },
    }
}

/// Equality in the evaluator's sense: both values finite and numerically
/// equal.  (Infinities are never equal, not even to themselves: their
/// difference is not a number.)
pub open spec fn sp_eq_num(a: Num, b: Num) -> bool {
    match (sp_renorm(a), sp_renorm(b)) {
        (
            Num::Finite { neg: n1, mant: m1, exp: e1 },
            Num::Finite { neg: n2, mant: m2, exp: e2 },
        ) => sp_cmp_fin(n1, m1 as nat, e1 as int, n2, m2 as nat, e2 as int) == 0,
        _ => false,
    }
}

pub fn eq_num(a: Num, b: Num) -> (r: bool)
    ensures
        r == sp_eq_num(a, b),
{
    match (renorm(a), renorm(b)) {
        (Num::Finite { neg: n1, mant: m1, exp: e1 }, Num::Finite { neg: n2, mant: m2, exp: e2 }) => {
            cmp_fin(n1, m1, e1, n2, m2, e2) == 0
        },
        _ => false,
    }
}

/// Inequality in the evaluator's sense (the absolute difference is a
/// positive number): finite values compare numerically, an infinity differs
/// from every finite value and from the opposite infinity, and nothing
/// differs from not-a-number.
pub open spec fn sp_neq_num(a: Num, b: Num) -> bool {
    match (sp_renorm(a), sp_renorm(b)) {
        (Num::NotANumber, _) => false,
        (_, Num::NotANumber) => false,
        (Num::Infinite { neg: x }, Num::Infinite { neg: y }) => x != y,
        (Num::Infinite { .. }, Num::Finite { .. }) => true,
        (Num::Finite { .. }, Num::Infinite { .. }) => true,
        (
            Num::Finite { neg: n1, mant: m1, exp: e1 },
            Num::Finite { neg: n2, mant: m2, exp: e2 },
        ) => sp_cmp_fin(n1, m1 as nat, e1 as int, n2, m2 as nat, e2 as int) != 0,
    }
}

pub fn neq_num(a: Num, b: Num) -> (r: bool)
    ensures
        r == sp_neq_num(a, b),
{
    match (renorm(a), renorm(b)) {
        (Num::NotANumber, _) => false,
        (_, Num::NotANumber) => false,
        (Num::Infinite { neg: x }, Num::Infinite { neg: y }) => x != y,
        (Num::Infinite { .. }, Num::Finite { .. }) => true,
        (Num::Finite { .. }, Num::Infinite { .. }) => true,
        (Num::Finite { neg: n1, mant: m1, exp: e1 }, Num::Finite { neg: n2, mant: m2, exp: e2 }) => {
            cmp_fin(n1, m1, e1, n2, m2, e2) != 0
        },
    }
}

/// The partial order on numbers: `None` when either side is not a number,
/// otherwise the sign of `a - b` (infinities of the same sign are equal
/// under this order).
pub open spec fn sp_ord_num(a: Num, b: Num) -> Option<i8> {
    match (sp_renorm(a), sp_renorm(b)) {
        (Num::NotANumber, _) => None,
        (_, Num::NotANumber) => None,
        (Num::Infinite { neg: x }, Num::Infinite { neg: y }) => if x == y {
            Some(0i8)
        } else if x {
            Some(-1i8)
        } else {
            Some(1i8)
        },
        (Num::Infinite { neg: x }, Num::Finite { .. }) => if x {
            Some(-1i8)
        } else {
            Some(1i8)
        },
        (Num::Finite { .. }, Num::Infinite { neg: y }) => if y {
            Some(1i8)
        } else {
            Some(-1i8)
        },
        (
            Num::Finite { neg: n1, mant: m1, exp: e1 },
            Num::Finite { neg: n2, mant: m2, exp: e2 },
        ) => {
            let c = sp_cmp_fin(n1, m1 as nat, e1 as int, n2, m2 as nat, e2 as int);
            if c < 0 {
                Some(-1i8)
            } else if c == 0 {
                Some(0i8)
            } else {
                Some(1i8)
            }
        },
    }
}

pub fn ord_num(a: Num, b: Num) -> (r: Option<i8>)
    ensures
        r == sp_ord_num(a, b),
{
    match (renorm(a), renorm(b)) {
        (Num::NotANumber, _) => None,
        (_, Num::NotANumber) => None,
        (Num::Infinite { neg: x }, Num::Infinite { neg: y }) => {
            if x == y {
                Some(0)
            } else if x {
                Some(-1)
            } else {
                Some(1)
            }
        },
        (Num::Infinite { neg: x }, Num::Finite { .. }) => {
            if x {
                Some(-1)
            } else {
                Some(1)
            }
        },
        (Num::Finite { .. }, Num::Infinite { neg: y }) => {
            if y {
                Some(1)
            } else {
                Some(-1)
            }
        },
        (Num::Finite { neg: n1, mant: m1, exp: e1 }, Num::Finite { neg: n2, mant: m2, exp: e2 }) => {
            let c = cmp_fin(n1, m1, e1, n2, m2, e2);
            if c < 0 {
                Some(-1)
            } else if c == 0 {
                Some(0)
            } else {
                Some(1)
            }
        },
    }
}

/// The absolute value.
pub open spec fn sp_abs_num(a: Num) -> Num {
    match a {
        Num::Finite { neg, mant, exp } => sp_norm(false, mant as nat, exp as int),
        Num::Infinite { .. } => Num::Infinite { neg: false },
        Num::NotANumber => Num::NotANumber,
    }
}

pub fn abs_num(a: Num) -> (r: Num)
    ensures
        r == sp_abs_num(a),
        sp_wf(r),
{
    match a {
        Num::Finite { neg, mant, exp } => normalize(false, mant as u128, exp as i64),
        Num::Infinite { .. } => Num::Infinite { neg: false },
        Num::NotANumber => Num::NotANumber,
    }
}

} // verus!

verus! {

/// Appends one character.  Relies on `String::push`, which appends the given
/// character to the end of the string.
#[verifier::external_body]
pub(crate) fn push_char(s: &mut String, c: char)
    ensures
        final(s)@ == old(s)@.push(c),
{
    s.push(c);
}

pub open spec fn sp_digit_char(d: nat) -> char {
    if d == 0 {
        '0'
    } else if d == 1 {
        '1'
    } else if d == 2 {
        '2'
    } else if d == 3 {
        '3'
    } else if d == 4 {
        '4'
    } else if d == 5 {
        '5'
    } else if d == 6 {
        '6'
    } else if d == 7 {
        '7'
    } else if d == 8 {
        '8'
    } else {
        '9'
    }
}

/// The decimal digits of `m`, most significant first.
pub open spec fn sp_digits_seq(m: nat) -> Seq<char>
    decreases m,
{
    if m < 10 {
        seq![sp_digit_char(m)]
    } else {
        sp_digits_seq(m / 10).push(sp_digit_char(m % 10))
    }
}

pub open spec fn sp_zeros_seq(k: nat) -> Seq<char>
    decreases k,
{
    if k == 0 {
        Seq::empty()
    } else {
        sp_zeros_seq((k - 1) as nat).push('0')
    }
}

pub(crate) fn push_digit(s: &mut String, d: u64)
    requires
        d < 10,
    ensures
        final(s)@ == old(s)@.push(sp_digit_char(d as nat)),
{
    let c = if d == 0 {
        '0'
    } else if d == 1 {
        '1'
    } else if d == 2 {
        '2'
    } else if d == 3 {
        '3'
    } else if d == 4 {
        '4'
    } else if d == 5 {
        '5'
    } else if d == 6 {
        '6'
    } else if d == 7 {
        '7'
    } else if d == 8 {
        '8'
    } else {
        '9'
    };
    push_char(s, c);
}

pub(crate) fn push_digits(s: &mut String, m: u64)
    ensures
        final(s)@ == old(s)@ + sp_digits_seq(m as nat),
    decreases m,
{
    if m < 10 {
        push_digit(s, m);
        proof {
            assert(s@ =~= old(s)@ + sp_digits_seq(m as nat));
        }
    } else {
        push_digits(s, m / 10);
        push_digit(s, m % 10);
        proof {
            assert(s@ =~= old(s)@ + sp_digits_seq(m as nat));
        }
    }
}

pub(crate) fn push_zeros(s: &mut String, k: u32)
    ensures
        final(s)@ == old(s)@ + sp_zeros_seq(k as nat),
    decreases k,
{
    if k == 0 {
        proof {
            assert(s@ =~= old(s)@ + sp_zeros_seq(0));
        }
    } else {
        push_zeros(s, k - 1);
        push_char(s, '0');
        proof {
            assert(s@ =~= old(s)@ + sp_zeros_seq(k as nat));
        }
    }
}

/// The canonical decimal rendering of a normalized finite value: the
/// mantissa's digits with the decimal point placed by the exponent, a `-`
/// sign for negative values, and `0` for zero.
pub open spec fn sp_format_fin(neg: bool, mant: u64, exp: i32) -> Seq<char> {
    let sign: Seq<char> = if neg {
        seq!['-']
    } else {
        Seq::empty()
    };
    if mant == 0 {
        seq!['0']
    } else if exp >= 0 {
        sign + sp_digits_seq(mant as nat) + sp_zeros_seq(exp as nat)
    } else {
        let k = (-(exp as int)) as nat;
        let p = sp_pow10(k);
        if mant as nat >= p {
            let hi = (mant as nat) / p;
            let lo = (mant as nat) % p;
            sign + sp_digits_seq(hi) + seq!['.'] + sp_zeros_seq((k - sp_ndigits(lo)) as nat)
                + sp_digits_seq(lo)
        } else {
            sign + seq!['0', '.'] + sp_zeros_seq((k - sp_ndigits(mant as nat)) as nat)
                + sp_digits_seq(mant as nat)
        }
    }
}

pub open spec fn sp_format_num(a: Num) -> Seq<char> {
    match sp_renorm(a) {
        Num::Finite { neg, mant, exp } => sp_format_fin(neg, mant, exp),
        Num::Infinite { neg } => if neg {
            seq!['-', 'i', 'n', 'f']
        } else {
            seq!['i', 'n', 'f']
        },
        Num::NotANumber => seq!['N', 'a', 'N'],
    }
}

/// Renders a number as its decimal text.
pub fn format_num(a: Num) -> (r: String)
    ensures
        r@ == sp_format_num(a),
{
    let mut s = String::new();
    match renorm(a) {
        Num::NotANumber => {
            push_char(&mut s, 'N');
            push_char(&mut s, 'a');
            push_char(&mut s, 'N');
            proof {
                assert(s@ =~= sp_format_num(a));
            }
        },
        Num::Infinite { neg } => {
            if neg {
                push_char(&mut s, '-');
            }
            push_char(&mut s, 'i');
            push_char(&mut s, 'n');
            push_char(&mut s, 'f');
            proof {
                assert(s@ =~= sp_format_num(a));
            }
        },
        Num::Finite { neg, mant, exp } => {
            if mant == 0 {
                push_char(&mut s, '0');
                proof {
                    assert(s@ =~= sp_format_num(a));
                }
            } else {
                if neg {
                    push_char(&mut s, '-');
                }
                if exp >= 0 {
                    push_digits(&mut s, mant);
                    push_zeros(&mut s, exp as u32);
                    proof {
                        assert(s@ =~= sp_format_num(a));
                    }
                } else {
                    let k: u32 = (-(exp as i64)) as u32;
                    if k <= 38 {
                        let p = pow10_u128(k);
                        if mant as u128 >= p {
                            let hi = (mant as u128 / p) as u64;
                            let lo = (mant as u128 % p) as u64;
                            proof {
                                lemma_pow10_pos(k as nat);
                                assert((mant as nat) % sp_pow10(k as nat) < sp_pow10(k as nat))
                                    by (nonlinear_arith)
                                    requires
                                        sp_pow10(k as nat) > 0,
                                ;
                                assert((mant as nat) / sp_pow10(k as nat) <= mant as nat)
                                    by (nonlinear_arith)
                                    requires
                                        sp_pow10(k as nat) >= 1,
                                ;
                                lemma_ndigits_le((mant as nat) % sp_pow10(k as nat), k as nat);
                            }
                            let dlo = ndigits_u128(lo as u128);
                            push_digits(&mut s, hi);
                            push_char(&mut s, '.');
                            push_zeros(&mut s, k - dlo);
                            push_digits(&mut s, lo);
                            proof {
                                assert(s@ =~= sp_format_num(a));
                            }
                        } else {
                            let dm = ndigits_u128(mant as u128);
                            proof {
                                lemma_ndigits_le(mant as nat, k as nat);
                            }
                            push_char(&mut s, '0');
                            push_char(&mut s, '.');
                            push_zeros(&mut s, k - dm);
                            push_digits(&mut s, mant);
                            proof {
                                assert(s@ =~= sp_format_num(a));
                            }
                        }
                    } else {
                        // k > 38 cannot occur for a normalized value, but stay total
                        let dm = ndigits_u128(mant as u128);
                        proof {
                            lemma_pow10_vals();
                            lemma_pow10_mono(18, k as nat);
                            lemma_ndigits_le(mant as nat, 18);
                            lemma_pow10_mono(sp_ndigits(mant as nat), k as nat);
                            lemma_ndigits_bounds(mant as nat);
                        }
                        push_char(&mut s, '0');
                        push_char(&mut s, '.');
                        push_zeros(&mut s, k - dm);
                        push_digits(&mut s, mant);
                        proof {
                            assert(s@ =~= sp_format_num(a));
                        }
                    }
                }
            }
        },
    }
    s
}

/// The value truncated toward zero and clamped into `i64` (not-a-number
/// becomes zero, infinities saturate).
pub open spec fn sp_trunc_i64(a: Num) -> i64 {
    match sp_renorm(a) {
        Num::NotANumber => 0,
        Num::Infinite { neg } => if neg {
            i64::MIN
        } else {
            i64::MAX
        },
        Num::Finite { neg, mant, exp } => {
            let t: int = if exp >= 0 {
                ((mant as nat) * sp_pow10(exp as nat)) as int
            } else {
                ((mant as nat) / sp_pow10((-(exp as int)) as nat)) as int
            };
            let v: int = if neg {
                -t
            } else {
                t
            };
            if v > i64::MAX {
                i64::MAX
            } else if v < i64::MIN {
                i64::MIN
            } else {
                v as i64
            }
        },
    }
}

#[verifier::rlimit(60)]
pub fn trunc_i64(a: Num) -> (r: i64)
    ensures
        r == sp_trunc_i64(a),
{
    match renorm(a) {
        Num::NotANumber => 0,
        Num::Infinite { neg } => {
            if neg {
                i64::MIN
            } else {
                i64::MAX
            }
        },
        Num::Finite { neg, mant, exp } => {
            let t: u128 = if exp >= 0 {
                if mant == 0 {
                    proof {
                        assert((mant as nat) * sp_pow10(exp as nat) == 0) by (nonlinear_arith)
                            requires
                                mant as nat == 0,
                        ;
                    }
                    0
                } else if exp > 19 {
                    proof {
                        lemma_pow10_vals();
                        lemma_pow10_mono(20, exp as nat);
                        assert((mant as nat) * sp_pow10(exp as nat) >= 1 * sp_pow10(20))
                            by (nonlinear_arith)
                            requires
                                mant as nat >= 1,
                                sp_pow10(exp as nat) >= sp_pow10(20),
                        ;
                        assert(sp_pow10(20) == 100_000_000_000_000_000_000) by {
                            reveal_with_fuel(sp_pow10, 21);
                        }
                    }
                    // far beyond the i64 range
                    100_000_000_000_000_000_000u128
                } else {
                    proof {
                        lemma_pow10_vals();
                        lemma_pow10_mono(exp as nat, 19);
                        assert((mant as nat) * sp_pow10(exp as nat) <= (mant as nat) * sp_pow10(19))
                            by (nonlinear_arith)
                            requires
                                sp_pow10(exp as nat) <= sp_pow10(19),
                                mant as nat >= 0,
                        ;
                        assert((mant as nat) * sp_pow10(19) < sp_pow10(17) * sp_pow10(19))
                            by (nonlinear_arith)
                            requires
                                (mant as nat) < sp_pow10(17),
                                sp_pow10(19) > 0,
                        ;
                        lemma_pow10_add(17, 19);
                        lemma_pow10_mono(36, 38);
                        lemma_pow10_38();
                    }
                    (mant as u128) * pow10_u128(exp as u32)
                }
            } else {
                let k: u32 = (-(exp as i64)) as u32;
                if k > 17 {
                    proof {
                        lemma_pow10_vals();
                        lemma_pow10_mono(18, k as nat);
                        lemma_pow10_pos(k as nat);
                        assert((mant as nat) / sp_pow10(k as nat) == 0) by (nonlinear_arith)
                            requires
                                (mant as nat) < sp_pow10(k as nat),
                                sp_pow10(k as nat) > 0,
                        ;
                    }
                    0
                } else {
                    (mant as u128) / (pow10_u128(k) as u128)
                }
            };
            if !neg {
                if t > i64::MAX as u128 {
                    proof {
                        assert(sp_trunc_i64(a) == i64::MAX);
                    }
                    i64::MAX
                } else {
                    proof {
                        assert(sp_trunc_i64(a) == t as i64);
                    }
                    t as i64
                }
            } else {
                if t >= 0x8000_0000_0000_0000u128 {
                    proof {
                        assert(sp_trunc_i64(a) == i64::MIN);
                    }
                    i64::MIN
                } else {
                    proof {
                        assert(sp_trunc_i64(a) == -(t as i64));
                    }
                    -(t as i64)
                }
            }
        },
    }
}

} // verus!

verus! {

/// Case-folded character code (ASCII case only).
pub open spec fn sp_fold_u(c: char) -> u32 {
    if 65 <= c as u32 <= 90 {
        (c as u32 + 32) as u32
    } else {
        c as u32
    }
}

pub fn fold_u_x(c: char) -> (r: u32)
    ensures
        r == sp_fold_u(c),
{
    let u = c as u32;
    if 65 <= u && u <= 90 {
        u + 32
    } else {
        u
    }
}

/// Whether the text from `i` on spells `inf` or `infinity`,
/// case-insensitively (as the float string parser accepts).
pub open spec fn sp_word_inf_at(s: Seq<char>, i: int) -> bool {
    (s.len() - i == 3 && sp_fold_u(s[i]) == 105 && sp_fold_u(s[i + 1]) == 110 && sp_fold_u(
        s[i + 2],
    ) == 102) || (s.len() - i == 8 && sp_fold_u(s[i]) == 105 && sp_fold_u(s[i + 1]) == 110
        && sp_fold_u(s[i + 2]) == 102 && sp_fold_u(s[i + 3]) == 105 && sp_fold_u(s[i + 4]) == 110
        && sp_fold_u(s[i + 5]) == 105 && sp_fold_u(s[i + 6]) == 116 && sp_fold_u(s[i + 7]) == 121)
}

/// Whether the text from `i` on spells `nan`, case-insensitively.
pub open spec fn sp_word_nan_at(s: Seq<char>, i: int) -> bool {
    s.len() - i == 3 && sp_fold_u(s[i]) == 110 && sp_fold_u(s[i + 1]) == 97 && sp_fold_u(
        s[i + 2],
    ) == 110
}

fn word_inf_at(v: &Vec<char>, i: usize) -> (r: bool)
    requires
        i <= v@.len(),
    ensures
        r == sp_word_inf_at(v@, i as int),
{
    let n = v.len();
    (n - i == 3 && fold_u_x(v[i]) == 105 && fold_u_x(v[i + 1]) == 110 && fold_u_x(v[i + 2]) == 102)
        || (n - i == 8 && fold_u_x(v[i]) == 105 && fold_u_x(v[i + 1]) == 110 && fold_u_x(v[i + 2])
        == 102 && fold_u_x(v[i + 3]) == 105 && fold_u_x(v[i + 4]) == 110 && fold_u_x(v[i + 5])
        == 105 && fold_u_x(v[i + 6]) == 116 && fold_u_x(v[i + 7]) == 121)
}

fn word_nan_at(v: &Vec<char>, i: usize) -> (r: bool)
    requires
        i <= v@.len(),
    ensures
        r == sp_word_nan_at(v@, i as int),
{
    let n = v.len();
    n - i == 3 && fold_u_x(v[i]) == 110 && fold_u_x(v[i + 1]) == 97 && fold_u_x(v[i + 2]) == 110
}

pub open spec fn sp_isdig(c: char) -> bool {
    48 <= c as u32 <= 57
}

pub open spec fn sp_dval(c: char) -> nat {
    (c as u32 - 48) as nat
}

/// Cap on the accumulated mantissa while parsing: 10^29.
pub const PARSE_ACC_CAP: u128 = 100_000_000_000_000_000_000_000_000_000;

/// Exponent-part digits, after the optional sign: at least one digit, the
/// accumulated exponent saturating at 100000.
pub open spec fn sp_parse_exp(
    s: Seq<char>,
    i: int,
    neg: bool,
    acc: nat,
    e0: int,
    esign: bool,
    eacc: nat,
    seen: bool,
) -> Option<Num>
    decreases s.len() - i,
{
    if i >= s.len() {
        if seen {
            Some(
                sp_norm(
                    neg,
                    acc,
                    e0 + (if esign {
                        -(eacc as int)
                    } else {
                        eacc as int
                    }),
                ),
            )
        } else {
            None
        }
    } else if sp_isdig(s[i]) {
        let en = if eacc < 100_000 {
            eacc * 10 + sp_dval(s[i])
        } else {
            eacc
        };
        sp_parse_exp(s, i + 1, neg, acc, e0, esign, en, true)
    } else {
        None
    }
}

/// Fraction digits: each accepted digit scales the value down one place;
/// digits beyond 29 significant places (or a fraction finer than 10^-100000)
/// are dropped, where they can no longer affect the normalized result.
pub open spec fn sp_parse_frac(
    s: Seq<char>,
    i: int,
    neg: bool,
    acc: nat,
    extra: nat,
    fexp: nat,
    sawdig: bool,
) -> Option<Num>
    decreases s.len() - i,
{
    if i >= s.len() {
        if sawdig {
            Some(sp_norm(neg, acc, extra - fexp))
        } else {
            None
        }
    } else if sp_isdig(s[i]) {
        if acc < PARSE_ACC_CAP && fexp < 100_000 {
            sp_parse_frac(s, i + 1, neg, acc * 10 + sp_dval(s[i]), extra, fexp + 1, true)
        } else {
            sp_parse_frac(s, i + 1, neg, acc, extra, fexp, true)
        }
    } else if (s[i] == 'e' || s[i] == 'E') && sawdig {
        if i + 1 < s.len() && s[i + 1] == '+' {
            sp_parse_exp(s, i + 2, neg, acc, extra - fexp, false, 0, false)
        } else if i + 1 < s.len() && s[i + 1] == '-' {
            sp_parse_exp(s, i + 2, neg, acc, extra - fexp, true, 0, false)
        } else {
            sp_parse_exp(s, i + 1, neg, acc, extra - fexp, false, 0, false)
        }
    } else {
        None
    }
}

/// Integer digits: digits beyond 29 significant places only shift the
/// exponent (saturating, far past the overflow threshold).
pub open spec fn sp_parse_int(
    s: Seq<char>,
    i: int,
    neg: bool,
    acc: nat,
    extra: nat,
    sawdig: bool,
) -> Option<Num>
    decreases s.len() - i,
{
    if i >= s.len() {
        if sawdig {
            Some(sp_norm(neg, acc, extra as int))
        } else {
            None
        }
    } else if sp_isdig(s[i]) {
        if acc < PARSE_ACC_CAP {
            sp_parse_int(s, i + 1, neg, acc * 10 + sp_dval(s[i]), extra, true)
        } else {
            let ex = if extra < 100_000 {
                extra + 1
            } else {
                extra
            };
            sp_parse_int(s, i + 1, neg, acc, ex, true)
        }
    } else if s[i] == '.' {
        sp_parse_frac(s, i + 1, neg, acc, extra, 0, sawdig)
    } else if (s[i] == 'e' || s[i] == 'E') && sawdig {
        if i + 1 < s.len() && s[i + 1] == '+' {
            sp_parse_exp(s, i + 2, neg, acc, extra as int, false, 0, false)
        } else if i + 1 < s.len() && s[i + 1] == '-' {
            sp_parse_exp(s, i + 2, neg, acc, extra as int, true, 0, false)
        } else {
            sp_parse_exp(s, i + 1, neg, acc, extra as int, false, 0, false)
        }
    } else {
        None
    }
}

/// Parses decimal text (`-12`, `3.5`, `.5`, `1.`, `2e-3`, and the float
/// parser's `inf`, `infinity` and `nan` words, case-insensitively) into a
/// number; `None` on anything else, as the numeric string parser would
/// fail.
pub open spec fn sp_parse_num(s: Seq<char>) -> Option<Num> {
    let st: int = if s.len() > 0 && (s[0] == '-' || s[0] == '+') {
        1
    } else {
        0
    };
    let neg = s.len() > 0 && s[0] == '-';
    if sp_word_inf_at(s, st) {
        Some(Num::Infinite { neg })
    } else if sp_word_nan_at(s, st) {
        Some(Num::NotANumber)
    } else {
        sp_parse_int(s, st, neg, 0, 0, false)
    }
}

fn dval_x(c: char) -> (d: u64)
    requires
        sp_isdig(c),
    ensures
        d == sp_dval(c),
        d < 10,
{
    (c as u32 - 48) as u64
}

fn isdig_x(c: char) -> (b: bool)
    ensures
        b == sp_isdig(c),
{
    let u = c as u32;
    48 <= u && u <= 57
}

fn parse_exp_x(
    v: &Vec<char>,
    i: usize,
    neg: bool,
    acc: u128,
    e0: i64,
    esign: bool,
    eacc: u64,
    seen: bool,
) -> (r: Option<Num>)
    requires
        acc < 10 * PARSE_ACC_CAP,
        -200_001 <= e0 <= 200_001,
        eacc <= 1_100_000,
    ensures
        r == sp_parse_exp(v@, i as int, neg, acc as nat, e0 as int, esign, eacc as nat, seen),
    decreases v.len() - i,
{
    if i >= v.len() {
        if seen {
            let e = if esign {
                e0 - eacc as i64
            } else {
                e0 + eacc as i64
            };
            proof {
                lemma_pow10_vals();
                assert(10 * PARSE_ACC_CAP < sp_pow10(38)) by {
                    lemma_pow10_38();
                }
            }
            Some(normalize(neg, acc, e))
        } else {
            None
        }
    } else {
        let c = v[i];
        if isdig_x(c) {
            let en = if eacc < 100_000 {
                eacc * 10 + dval_x(c)
            } else {
                eacc
            };
            parse_exp_x(v, i + 1, neg, acc, e0, esign, en, true)
        } else {
            None
        }
    }
}

fn parse_frac_x(
    v: &Vec<char>,
    i: usize,
    neg: bool,
    acc: u128,
    extra: u64,
    fexp: u64,
    sawdig: bool,
) -> (r: Option<Num>)
    requires
        acc < 10 * PARSE_ACC_CAP,
        extra <= 100_000,
        fexp <= 100_000,
    ensures
        r == sp_parse_frac(v@, i as int, neg, acc as nat, extra as nat, fexp as nat, sawdig),
    decreases v.len() - i,
{
    if i >= v.len() {
        if sawdig {
            proof {
                lemma_pow10_vals();
                assert(10 * PARSE_ACC_CAP < sp_pow10(38)) by {
                    lemma_pow10_38();
                }
            }
            Some(normalize(neg, acc, extra as i64 - fexp as i64))
        } else {
            None
        }
    } else {
        let c = v[i];
        if isdig_x(c) {
            if acc < PARSE_ACC_CAP && fexp < 100_000 {
                parse_frac_x(v, i + 1, neg, acc * 10 + dval_x(c) as u128, extra, fexp + 1, true)
            } else {
                parse_frac_x(v, i + 1, neg, acc, extra, fexp, true)
            }
        } else if (c == 'e' || c == 'E') && sawdig {
            if i + 1 < v.len() && v[i + 1] == '+' {
                parse_exp_x(v, i + 2, neg, acc, extra as i64 - fexp as i64, false, 0, false)
            } else if i + 1 < v.len() && v[i + 1] == '-' {
                parse_exp_x(v, i + 2, neg, acc, extra as i64 - fexp as i64, true, 0, false)
            } else {
                parse_exp_x(v, i + 1, neg, acc, extra as i64 - fexp as i64, false, 0, false)
            }
        } else {
            None
        }
    }
}

fn parse_int_x(v: &Vec<char>, i: usize, neg: bool, acc: u128, extra: u64, sawdig: bool) -> (r:
    Option<Num>)
    requires
        acc < 10 * PARSE_ACC_CAP,
        extra <= 100_000,
    ensures
        r == sp_parse_int(v@, i as int, neg, acc as nat, extra as nat, sawdig),
    decreases v.len() - i,
{
    if i >= v.len() {
        if sawdig {
            proof {
                lemma_pow10_vals();
                assert(10 * PARSE_ACC_CAP < sp_pow10(38)) by {
                    lemma_pow10_38();
                }
            }
            Some(normalize(neg, acc, extra as i64))
        } else {
            None
        }
    } else {
        let c = v[i];
        if isdig_x(c) {
            if acc < PARSE_ACC_CAP {
                parse_int_x(v, i + 1, neg, acc * 10 + dval_x(c) as u128, extra, true)
            } else {
                let ex = if extra < 100_000 {
                    extra + 1
                } else {
                    extra
                };
                parse_int_x(v, i + 1, neg, acc, ex, true)
            }
        } else if c == '.' {
            parse_frac_x(v, i + 1, neg, acc, extra, 0, sawdig)
        } else if (c == 'e' || c == 'E') && sawdig {
            if i + 1 < v.len() && v[i + 1] == '+' {
                parse_exp_x(v, i + 2, neg, acc, extra as i64, false, 0, false)
            } else if i + 1 < v.len() && v[i + 1] == '-' {
                parse_exp_x(v, i + 2, neg, acc, extra as i64, true, 0, false)
            } else {
                parse_exp_x(v, i + 1, neg, acc, extra as i64, false, 0, false)
            }
        } else {
            None
        }
    }
}

/// Parses decimal text into a number; `None` where the text is not numeric.
pub fn parse_num_chars(v: &Vec<char>) -> (r: Option<Num>)
    ensures
        r == sp_parse_num(v@),
{
    let st: usize = if v.len() > 0 && (v[0] == '-' || v[0] == '+') {
        1
    } else {
        0
    };
    let neg = v.len() > 0 && v[0] == '-';
    if word_inf_at(v, st) {
        Some(Num::Infinite { neg })
    } else if word_nan_at(v, st) {
        Some(Num::NotANumber)
    } else {
        parse_int_x(v, st, neg, 0, 0, false)
    }
}

/// The characters of a string, in order.
pub fn str_chars(s: &str) -> (v: Vec<char>)
    ensures
        v@ == s@,
{
    let n = s.unicode_len();
    let mut v: Vec<char> = Vec::new();
    let mut i: usize = 0;
    while i < n
        invariant
            i <= n,
            n == s@.len(),
            v@ == s@.subrange(0, i as int),
        decreases n - i,
    {
        let c = s.get_char(i);
        v.push(c);
        i = i + 1;
        proof {
            assert(v@ =~= s@.subrange(0, i as int));
        }
    }
    proof {
        assert(v@ =~= s@);
    }
    v
}

} // verus!
