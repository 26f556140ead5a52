//! How a count compares with a number read as an `f64`, computed exactly on the
//! value of that `f64`.
//!
//! Reading a number text as an `f64` is floating-point work and is done by the
//! caller, which hands over the exact value of the result as `±mant · 2^exp`.
//! Everything after that is integer arithmetic here: the count (below 2^53, so
//! exactly an `f64` itself) is compared with that value as `f64` comparisons do,
//! and `=` follows the `f64` test `(count - value).abs() < f64::EPSILON`.
use vstd::prelude::*;

verus! {

pub open spec fn p2(k: nat) -> nat
    decreases k,
{
    if k == 0 { 1 } else { 2 * p2((k - 1) as nat) }
}

pub proof fn lemma_p2_add(a: nat, b: nat)
    ensures
        p2(a + b) == p2(a) * p2(b),
    decreases a,
{
    if a > 0 {
        let a1 = (a - 1) as nat;
        lemma_p2_add(a1, b);
        assert((a + b - 1) as nat == a1 + b);
        assert(p2(a + b) == 2 * p2(a1 + b));
        let x = p2(a1);
        let y = p2(b);
        assert(p2(a) == 2 * x);
        assert(2 * (x * y) == (2 * x) * y) by (nonlinear_arith);
    } else {
        assert(a + b == b);
        assert(p2(a) == 1);
        assert(1 * p2(b) == p2(b));
    }
}

pub proof fn lemma_p2_pos(a: nat)
    ensures
        p2(a) >= 1,
    decreases a,
{
    if a > 0 {
        lemma_p2_pos((a - 1) as nat);
    }
}

pub proof fn lemma_p2_lt(a: nat, b: nat)
    requires
        a < b,
    ensures
        p2(a) < p2(b),
    decreases b,
{
    lemma_p2_pos((b - 1) as nat);
    if a < b - 1 {
        lemma_p2_lt(a, (b - 1) as nat);
    }
}

pub proof fn lemma_p2_le(a: nat, b: nat)
    requires
        a <= b,
    ensures
        p2(a) <= p2(b),
{
    if a < b {
        lemma_p2_lt(a, b);
    }
}

/// The powers of two that bound the arithmetic below.
pub proof fn lemma_p2_values()
    ensures
        p2(53) == 9007199254740992,
        p2(54) == 18014398509481984,
        p2(106) == 81129638414606681695789005144064,
        p2(107) == 162259276829213363391578010288128,
{
    reveal_with_fuel(p2, 12);
    assert(p2(10) == 1024);
    assert(p2(3) == 8);
    assert(p2(1) == 2);
    lemma_p2_add(10, 10);
    let c10 = p2(10);
    assert(c10 * c10 == 1048576) by (nonlinear_arith)
        requires
            c10 == 1024;
    lemma_p2_add(20, 20);
    let c20 = p2(20);
    assert(c20 * c20 == 1099511627776) by (nonlinear_arith)
        requires
            c20 == 1048576;
    lemma_p2_add(40, 10);
    let c40 = p2(40);
    assert(c40 * c10 == 1125899906842624) by (nonlinear_arith)
        requires
            c40 == 1099511627776,
            c10 == 1024;
    lemma_p2_add(50, 3);
    let c50 = p2(50);
    assert(c50 * 8 == 9007199254740992) by (nonlinear_arith)
        requires
            c50 == 1125899906842624;
    lemma_p2_add(53, 1);
    lemma_p2_add(53, 53);
    let c = p2(53);
    assert(p2(106) == c * c);
    assert(c * c == 81129638414606681695789005144064) by (nonlinear_arith)
        requires
            c == 9007199254740992;
    lemma_p2_add(106, 1);
}

/// The value of an `f64`: not a number, an infinity, or `±mant · 2^exp`.
#[derive(Debug, Clone, Copy, PartialEq, Eq, Structural)]
pub enum F64Value {
    NaN,
    Inf { neg: bool },
    Finite { neg: bool, mant: u64, exp: i32 },
}

/// The parts of a finite `f64`: a significand below 2^53 and an exponent in the
/// range of `f64` values (subnormals included).
pub open spec fn f64_wf(v: F64Value) -> bool {
    match v {
        F64Value::Finite { mant, exp, .. } => mant < p2(53) && -1074 <= exp <= 971,
        _ => true,
    }
}

/// A finite value as a fraction: its numerator...
pub open spec fn f64_num(neg: bool, mant: u64, exp: i32) -> int {
    let m: int = if neg { -(mant as int) } else { mant as int };
    if exp >= 0 { m * p2(exp as nat) } else { m }
}

/// ...and its denominator.
pub open spec fn f64_den(exp: i32) -> nat {
    if exp >= 0 { 1 } else { p2((-exp) as nat) }
}

/// How a count stands to a number.
#[derive(Debug, Clone, Copy, PartialEq, Eq, Structural)]
pub enum Rel {
    Less,
    Equal,
    Greater,
    /// Not a number: no comparison holds.
    Unordered,
}

/// How the count `a` stands to the value `v`, as `f64` comparison orders them.
pub open spec fn f64_rel(a: nat, v: F64Value) -> Rel {
    match v {
        F64Value::NaN => Rel::Unordered,
        F64Value::Inf { neg } => if neg { Rel::Greater } else { Rel::Less },
        F64Value::Finite { neg, mant, exp } => {
            let l = a * f64_den(exp);
            let r = f64_num(neg, mant, exp);
            if l < r { Rel::Less } else if l == r { Rel::Equal } else { Rel::Greater }
        },
    }
}

/// `(a - v).abs() < f64::EPSILON` in `f64` arithmetic. The subtraction rounds the
/// exact difference to the nearest `f64` (ties to even), and a difference rounds
/// below `f64::EPSILON = 2^-52` exactly when it is below `2^-52 - 2^-106`, the
/// midpoint between 2^-52 and the `f64` just below it (which rounds up to 2^-52).
pub open spec fn f64_near(a: nat, v: F64Value) -> bool {
    match v {
        F64Value::Finite { neg, mant, exp } => {
            let d = a * f64_den(exp) - f64_num(neg, mant, exp);
            let ad: int = if d < 0 { -d } else { d };
            ad * p2(106) < (p2(54) - 1) * f64_den(exp)
        },
        _ => false,
    }
}

fn pow2_u128(k: u32) -> (r: u128)
    requires
        k <= 107,
    ensures
        r == p2(k as nat),
{
    let mut r: u128 = 1;
    let mut i: u32 = 0;
    while i < k
        invariant
            i <= k <= 107,
            r == p2(i as nat),
        decreases k - i,
    {
        proof {
            lemma_p2_le((i + 1) as nat, 107);
            lemma_p2_values();
        }
        r = r * 2;
        i = i + 1;
    }
    r
}

proof fn lemma_mul_lt(x: int, y: int, c: int)
    requires
        x < y,
        c > 0,
    ensures
        x * c < y * c,
{
    assert(x * c < y * c) by (nonlinear_arith)
        requires
            x < y,
            c > 0;
}

proof fn lemma_mul_le(x: int, y: int, c: int)
    requires
        x <= y,
        c >= 0,
    ensures
        x * c <= y * c,
{
    assert(x * c <= y * c) by (nonlinear_arith)
        requires
            x <= y,
            c >= 0;
}

/// With a denominator of 1, the difference is within the bound only when it is 0.
proof fn lemma_near_integer(d: int)
    ensures
        ({
            let ad: int = if d < 0 { -d } else { d };
            (ad * p2(106) < (p2(54) - 1) * 1) == (d == 0)
        }),
{
    lemma_p2_values();
    let ad: int = if d < 0 { -d } else { d };
    if d != 0 {
        lemma_mul_le(1, ad, p2(106) as int);
    }
}

/// How the count `a` (below 2^53) stands to the `f64` value `v`, and whether
/// `(a - v).abs() < f64::EPSILON` holds.
pub fn f64_compare(a: u64, v: &F64Value) -> (r: (Rel, bool))
    requires
        a < p2(53),
        f64_wf(*v),
    ensures
        r.0 == f64_rel(a as nat, *v),
        r.1 == f64_near(a as nat, *v),
{
    proof {
        lemma_p2_values();
    }
    match *v {
        F64Value::NaN => (Rel::Unordered, false),
        F64Value::Inf { neg } => (if neg { Rel::Greater } else { Rel::Less }, false),
        F64Value::Finite { neg, mant, exp } => {
            let ghost num = f64_num(neg, mant, exp);
            let ghost den = f64_den(exp);
            if exp >= 0 {
                let e: u32 = exp as u32;
                assert(den == 1);
                proof {
                    lemma_near_integer(a * den - num);
                }
                if mant == 0 {
                    assert(num == 0) by {
                        assert(0 * p2(e as nat) == 0);
                    }
                    if a > 0 { (Rel::Greater, false) } else { (Rel::Equal, true) }
                } else if e >= 53 {
                    proof {
                        lemma_p2_le(53, e as nat);
                        lemma_mul_le(1, mant as int, p2(e as nat) as int);
                    }
                    if neg {
                        assert(num == -(mant * p2(e as nat))) by {
                            let x = mant as int;
                            let y = p2(e as nat) as int;
                            assert((-x) * y == -(x * y)) by (nonlinear_arith);
                        }
                        (Rel::Greater, false)
                    } else {
                        (Rel::Less, false)
                    }
                } else {
                    let pw = pow2_u128(e);
                    proof {
                        lemma_p2_pos(e as nat);
                        lemma_p2_le(e as nat, 52);
                        lemma_p2_add(53, 52);
                        lemma_p2_lt(105, 107);
                        lemma_mul_lt(mant as int, p2(53) as int, pw as int);
                        lemma_mul_le(pw as int, p2(52) as int, p2(53) as int);
                    }
                    let t: u128 = (mant as u128) * pw;
                    if neg {
                        assert(num == -(t as int)) by {
                            let x = mant as int;
                            let y = pw as int;
                            assert((-x) * y == -(x * y)) by (nonlinear_arith);
                        }
                        assert(t >= 1) by {
                            lemma_p2_pos(e as nat);
                            lemma_mul_le(1, mant as int, pw as int);
                        }
                        (Rel::Greater, false)
                    } else {
                        assert(num == t as int);
                        let aa = a as u128;
                        if aa < t {
                            (Rel::Less, false)
                        } else if aa == t {
                            (Rel::Equal, true)
                        } else {
                            (Rel::Greater, false)
                        }
                    }
                }
            } else {
                let k: u32 = (0 - (exp as i64)) as u32;
                assert(den == p2(k as nat));
                assert(num == if neg { -(mant as int) } else { mant as int });
                proof {
                    lemma_p2_pos(k as nat);
                }
                let rel = if neg {
                    if a == 0 && mant == 0 {
                        assert(a * den == 0) by (nonlinear_arith)
                            requires
                                a == 0;
                        Rel::Equal
                    } else {
                        proof {
                            if a > 0 {
                                lemma_mul_le(1, a as int, den as int);
                            }
                        }
                        Rel::Greater
                    }
                } else if a == 0 {
                    assert(a * den == 0) by (nonlinear_arith)
                        requires
                            a == 0;
                    if mant == 0 { Rel::Equal } else { Rel::Less }
                } else if k >= 53 {
                    proof {
                        lemma_p2_le(53, k as nat);
                        lemma_mul_le(1, a as int, den as int);
                    }
                    Rel::Greater
                } else {
                    let pw = pow2_u128(k);
                    proof {
                        lemma_p2_le(k as nat, 52);
                        lemma_p2_add(53, 52);
                        lemma_p2_lt(105, 107);
                        lemma_mul_lt(a as int, p2(53) as int, pw as int);
                        lemma_mul_le(pw as int, p2(52) as int, p2(53) as int);
                    }
                    let x: u128 = (a as u128) * pw;
                    assert(x == a * den);
                    if x < mant as u128 {
                        Rel::Less
                    } else if x == mant as u128 {
                        Rel::Equal
                    } else {
                        Rel::Greater
                    }
                };
                let near = near_fraction(a, neg, mant, k);
                (rel, near)
            }
        },
    }
}

/// `f64_near` for a value `±mant / 2^k` with `k >= 1`.
fn near_fraction(a: u64, neg: bool, mant: u64, k: u32) -> (r: bool)
    requires
        a < p2(53),
        mant < p2(53),
        1 <= k <= 1074,
    ensures
        ({
            let m: int = if neg { -(mant as int) } else { mant as int };
            let d = a * p2(k as nat) - m;
            let ad: int = if d < 0 { -d } else { d };
            r == (ad * p2(106) < (p2(54) - 1) * p2(k as nat))
        }),
{
    let ghost m: int = if neg { -(mant as int) } else { mant as int };
    let ghost pk = p2(k as nat);
    let ghost d = a * pk - m;
    let ghost ad: int = if d < 0 { -d } else { d };
    let ghost rhs = (p2(54) - 1) * pk;
    proof {
        lemma_p2_values();
        lemma_p2_pos(k as nat);
    }
    if a == 0 {
        assert(a * pk == 0) by (nonlinear_arith)
            requires
                a == 0;
        assert(ad == mant);
        if mant == 0 {
            assert(rhs > 0) by {
                lemma_mul_lt(0, p2(54) - 1, pk as int);
            }
            return true;
        }
        if k >= 107 {
            proof {
                lemma_mul_lt(mant as int, p2(53) as int, p2(106) as int);
                lemma_p2_add(53, 106);
                lemma_p2_le(159, (53 + k) as nat);
                lemma_p2_add(53, k as nat);
                lemma_mul_le(p2(53) as int, p2(54) - 1, pk as int);
            }
            return true;
        }
        let j: u32 = 106 - k;
        proof {
            lemma_p2_add(j as nat, k as nat);
            assert(mant * p2(106) == (mant * p2(j as nat)) * pk) by (nonlinear_arith)
                requires
                    p2(106) == p2(j as nat) * pk;
        }
        if j >= 54 {
            proof {
                lemma_p2_le(54, j as nat);
                lemma_mul_le(1, mant as int, p2(j as nat) as int);
                lemma_mul_le(p2(54) as int, mant * p2(j as nat), pk as int);
                lemma_mul_lt(p2(54) - 1, p2(54) as int, pk as int);
            }
            return false;
        }
        let pw = pow2_u128(j);
        proof {
            lemma_p2_le(j as nat, 53);
            lemma_p2_add(53, 53);
            lemma_p2_lt(106, 107);
            lemma_mul_lt(mant as int, p2(53) as int, pw as int);
            lemma_mul_le(pw as int, p2(53) as int, p2(53) as int);
        }
        let mj: u128 = (mant as u128) * pw;
        let lim: u128 = 18014398509481983;
        proof {
            if mj < lim {
                lemma_mul_lt(mj as int, lim as int, pk as int);
            } else {
                lemma_mul_le(lim as int, mj as int, pk as int);
            }
        }
        return mj < lim;
    }
    if k >= 54 {
        proof {
            let k1 = (k - 1) as nat;
            assert(pk == 2 * p2(k1));
            lemma_p2_le(53, k1);
            lemma_mul_le(1, a as int, pk as int);
            assert(ad >= p2(k1));
            lemma_mul_le(p2(k1) as int, ad, p2(106) as int);
            lemma_p2_add(k1, 106);
            lemma_p2_add(k as nat, 105);
            assert(k1 + 106 == k + 105);
            lemma_p2_le(54, 105);
            lemma_mul_le(p2(54) as int, p2(105) as int, pk as int);
            lemma_mul_lt(p2(54) - 1, p2(54) as int, pk as int);
        }
        return false;
    }
    let pw = pow2_u128(k);
    proof {
        lemma_p2_le(k as nat, 53);
        lemma_p2_add(53, 53);
        lemma_p2_lt(106, 107);
        lemma_mul_lt(a as int, p2(53) as int, pw as int);
        lemma_mul_le(pw as int, p2(53) as int, p2(53) as int);
    }
    let x: u128 = (a as u128) * pw;
    let dd: u128 = if neg { x + mant as u128 } else if x >= mant as u128 { x - mant as u128 } else { mant as u128 - x };
    assert(dd == ad);
    proof {
        lemma_p2_add(54, k as nat);
        lemma_p2_le((54 + k) as nat, 107);
        lemma_mul_lt(p2(54) - 1, p2(54) as int, pk as int);
        assert(p2(107) == 2 * p2(106));
    }
    if dd == 0 {
        assert(rhs > 0) by {
            lemma_mul_lt(0, p2(54) - 1, pk as int);
        }
        return true;
    }
    if dd >= 2 {
        proof {
            lemma_mul_le(2, dd as int, p2(106) as int);
        }
        return false;
    }
    if k == 53 {
        proof {
            lemma_p2_add(54, 53);
            lemma_p2_lt(53, 106);
            assert((p2(54) - 1) * pk == p2(54) * pk - pk) by (nonlinear_arith);
        }
        true
    } else {
        proof {
            lemma_p2_add(54, k as nat);
            lemma_p2_le((54 + k) as nat, 106);
        }
        false
    }
}

} // verus!
