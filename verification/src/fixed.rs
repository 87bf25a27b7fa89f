//! Fixed-point scalars.
//!
//! Every scalar value of the scene language is held in an `i64` counting
//! millionths of a unit ("micros"): the value `0.25` is stored as `250_000`.
//! Decimal literals of the source text are converted exactly into this
//! representation (truncating toward zero below the sixth fractional digit,
//! and saturating at the bounds of `i64`).

use vstd::arithmetic::div_mod::lemma_basic_div;
use vstd::arithmetic::mul::lemma_mul_inequality;
use vstd::arithmetic::mul::lemma_mul_upper_bound;
use vstd::prelude::*;

verus! {

/// Clamp an unbounded integer into the range of `i64`.
pub open spec fn sat64(x: int) -> int {
    if x > i64::MAX as int {
        i64::MAX as int
    } else if x < i64::MIN as int {
        i64::MIN as int
    } else {
        x
    }
}

pub open spec fn abs_int(x: int) -> int {
    if x < 0 {
        -x
    } else {
        x
    }
}

/// Division truncated toward zero, the rounding every generator uses.
pub open spec fn tdiv(a: int, b: int) -> int
    recommends
        b != 0,
{
    if (a < 0) != (b < 0) {
        -(abs_int(a) / abs_int(b))
    } else {
        abs_int(a) / abs_int(b)
    }
}

pub open spec fn pow10(n: nat) -> int
    decreases n,
{
    if n == 0 {
        1
    } else {
        10 * pow10((n - 1) as nat)
    }
}

pub proof fn lemma_pow10_pos(n: nat)
    ensures
        pow10(n) >= 1,
    decreases n,
{
    if n > 0 {
        lemma_pow10_pos((n - 1) as nat);
    }
}

pub proof fn lemma_pow10_mono(a: nat, b: nat)
    requires
        a <= b,
    ensures
        pow10(a) <= pow10(b),
    decreases b,
{
    if a < b {
        lemma_pow10_mono(a, (b - 1) as nat);
        lemma_pow10_pos((b - 1) as nat);
    }
}

pub proof fn lemma_pow10_38_value()
    ensures
        pow10(38) == 100_000_000_000_000_000_000_000_000_000_000_000_000int,
        pow10(30) == 1_000_000_000_000_000_000_000_000_000_000int,
        pow10(19) == 10_000_000_000_000_000_000int,
        pow10(6) == 1_000_000int,
{
    reveal_with_fuel(pow10, 40);
}

/// 10^n for exponents small enough that the result fits a `u128`.
pub fn pow10_u128(n: usize) -> (r: u128)
    requires
        n <= 38,
    ensures
        r as int == pow10(n as nat),
{
    proof {
        lemma_pow10_38_value();
    }
    let mut r: u128 = 1;
    let mut j: usize = 0;
    while j < n
        invariant
            j <= n <= 38,
            r as int == pow10(j as nat),
        decreases n - j,
    {
        proof {
            lemma_pow10_mono(j as nat, 37);
            lemma_pow10_38_value();
            reveal_with_fuel(pow10, 40);
        }
        r = r * 10;
        j = j + 1;
    }
    r
}

/// The product of two values in `i64` range stays well inside `i128`.
pub proof fn lemma_i64_mul_fits(a: int, b: int)
    requires
        i64::MIN as int <= a <= i64::MAX as int,
        i64::MIN as int <= b <= i64::MAX as int,
    ensures
        -85070591730234615865843651857942052864int <= a * b
            <= 85070591730234615865843651857942052864int,
{
    assert(-85070591730234615865843651857942052864int <= a * b
        <= 85070591730234615865843651857942052864int) by (nonlinear_arith)
        requires
            -9223372036854775808int <= a <= 9223372036854775807int,
            -9223372036854775808int <= b <= 9223372036854775807int,
    ;
}

/// Clamp a value into `i64`.
pub(crate) fn sat_to_i64(x: i128) -> (r: i64)
    ensures
        r as int == sat64(x as int),
{
    if x > i64::MAX as i128 {
        i64::MAX
    } else if x < i64::MIN as i128 {
        i64::MIN
    } else {
        x as i64
    }
}

/// `tdiv` on machine integers.
pub(crate) fn tdiv_i128(a: i128, b: i128) -> (r: i128)
    requires
        b != 0,
        a != i128::MIN,
        b != i128::MIN,
    ensures
        r as int == tdiv(a as int, b as int),
        abs_int(r as int) <= abs_int(a as int),
{
    let na: u128 = if a < 0 {
        (-a) as u128
    } else {
        a as u128
    };
    let nb: u128 = if b < 0 {
        (-b) as u128
    } else {
        b as u128
    };
    let q = na / nb;
    proof {
        vstd::arithmetic::div_mod::lemma_div_nonincreasing(na as int, nb as int);
        vstd::arithmetic::div_mod::lemma_div_pos_is_pos(na as int, nb as int);
    }
    if (a < 0) != (b < 0) {
        -(q as i128)
    } else {
        q as i128
    }
}

/// `sat64(tdiv(a, b))` in one step.
pub(crate) fn tdiv_sat64(a: i128, b: i128) -> (r: i64)
    requires
        b != 0,
        a != i128::MIN,
        b != i128::MIN,
    ensures
        r as int == sat64(tdiv(a as int, b as int)),
{
    sat_to_i64(tdiv_i128(a, b))
}

// ---------------------------------------------------------------------------
// Decimal literals
// ---------------------------------------------------------------------------
pub open spec fn is_digit(c: char) -> bool {
    '0' as u32 <= c as u32 && c as u32 <= '9' as u32
}

pub open spec fn digit_val(c: char) -> int {
    c as u32 - '0' as u32
}

/// First index at or after `i` that does not hold a digit.
pub open spec fn scan_digits(s: Seq<char>, i: int) -> int
    decreases s.len() - i,
{
    if i < 0 || i >= s.len() || !is_digit(s[i]) {
        i
    } else {
        scan_digits(s, i + 1)
    }
}

pub proof fn lemma_scan_digits_digits(s: Seq<char>, i: int)
    requires
        0 <= i <= s.len(),
    ensures
        forall|q: int| i <= q < scan_digits(s, i) ==> is_digit(s[q]),
    decreases s.len() - i,
{
    if i < s.len() && is_digit(s[i]) {
        lemma_scan_digits_digits(s, i + 1);
    }
}

/// Index just past the optional leading sign of a literal.
pub open spec fn lit_sign_end(s: Seq<char>) -> int {
    if s.len() > 0 && (s[0] == '+' || s[0] == '-') {
        1int
    } else {
        0int
    }
}

/// Does the tail beginning at `i` hold a well-formed exponent part, or nothing?
pub open spec fn lit_exp_ok(s: Seq<char>, i: int) -> bool {
    if i == s.len() {
        true
    } else if 0 <= i < s.len() && (s[i] == 'e' || s[i] == 'E') {
        let j = if i + 1 < s.len() && (s[i + 1] == '+' || s[i + 1] == '-') {
            i + 2
        } else {
            i + 1
        };
        let k = scan_digits(s, j);
        k > j && k == s.len()
    } else {
        false
    }
}

/// Is `s`, as a whole, a floating-point literal: an optional sign, then
/// digits with an optional fractional part (or a fractional part alone),
/// then an optional exponent.
pub open spec fn is_float_lit(s: Seq<char>) -> bool {
    let i0 = lit_sign_end(s);
    let i1 = scan_digits(s, i0);
    if i1 == i0 {
        i1 < s.len() && s[i1] == '.' && {
            let i2 = scan_digits(s, i1 + 1);
            i2 > i1 + 1 && lit_exp_ok(s, i2)
        }
    } else {
        if i1 < s.len() && s[i1] == '.' {
            lit_exp_ok(s, scan_digits(s, i1 + 1))
        } else {
            lit_exp_ok(s, i1)
        }
    }
}

/// Fold the digits of `s[i..j]` into a mantissa accumulator `m`.  Only the
/// first 38 significant digits are folded in; each further digit is dropped
/// and counted in `t`, standing for a factor of ten apiece.
pub open spec fn fold_mant(s: Seq<char>, i: int, j: int, m: int, t: int) -> (int, int)
    decreases j - i,
{
    if i < 0 || i >= j {
        (m, t)
    } else if m < pow10(37) {
        fold_mant(s, i + 1, j, m * 10 + digit_val(s[i]), t)
    } else {
        fold_mant(s, i + 1, j, m, t + 1)
    }
}

/// Fold the digits of `s[i..j]` into an exponent magnitude, clamped at
/// 10^30; a clamped exponent saturates or flushes the result to zero in
/// exactly the way the true exponent would.
pub open spec fn fold_exp(s: Seq<char>, i: int, j: int, e: int) -> int
    decreases j - i,
{
    if i < 0 || i >= j {
        e
    } else {
        let e2 = e * 10 + digit_val(s[i]);
        fold_exp(s, i + 1, j, if e2 > pow10(30) { pow10(30) } else { e2 })
    }
}

/// The signed value of the exponent part beginning at `i` (zero if absent).
pub open spec fn lit_exp_value(s: Seq<char>, i: int) -> int {
    if i >= s.len() {
        0int
    } else {
        let eneg = i + 1 < s.len() && s[i + 1] == '-';
        let j = if i + 1 < s.len() && (s[i + 1] == '+' || s[i + 1] == '-') {
            i + 2
        } else {
            i + 1
        };
        let m = fold_exp(s, j, scan_digits(s, j), 0);
        if eneg {
            -m
        } else {
            m
        }
    }
}

/// `m` shifted by `k` decimal places, truncating toward zero (`m >= 0`).
pub open spec fn shift10(m: int, k: int) -> int {
    if k >= 0 {
        m * pow10(k as nat)
    } else {
        m / pow10((-k) as nat)
    }
}

/// The value of a floating-point literal in micros, saturated to `i64`.
pub open spec fn lit_micros(s: Seq<char>) -> int
    recommends
        is_float_lit(s),
{
    let neg = s.len() > 0 && s[0] == '-';
    let i0 = lit_sign_end(s);
    let i1 = scan_digits(s, i0);
    let has_dot = i1 < s.len() && s[i1] == '.';
    let i2 = if has_dot {
        scan_digits(s, i1 + 1)
    } else {
        i1
    };
    let fcount = if has_dot {
        i2 - (i1 + 1)
    } else {
        0int
    };
    let mt1 = fold_mant(s, i0, i1, 0, 0);
    let mt = if has_dot {
        fold_mant(s, i1 + 1, i2, mt1.0, mt1.1)
    } else {
        mt1
    };
    let e = lit_exp_value(s, i2);
    let k = 6 + e - fcount + mt.1;
    let mag = shift10(mt.0, k);
    sat64(
        if neg {
            -mag
        } else {
            mag
        },
    )
}

// ---------------------------------------------------------------------------
// Executable conversion
// ---------------------------------------------------------------------------
fn is_digit_x(c: char) -> (b: bool)
    ensures
        b == is_digit(c),
{
    let u = c as u32;
    '0' as u32 <= u && u <= '9' as u32
}

/// First index at or after `from` that does not hold a digit.
pub(crate) fn scan_digits_x(s: &[char], from: usize) -> (r: usize)
    requires
        from <= s@.len(),
    ensures
        r as int == scan_digits(s@, from as int),
        from <= r <= s@.len(),
{
    let n = s.len();
    let mut p = from;
    while p < n && is_digit_x(*vstd::slice::slice_index_get(s, p))
        invariant
            from <= p <= n == s@.len(),
            scan_digits(s@, from as int) == scan_digits(s@, p as int),
            p < n ==> scan_digits(s@, p as int) == if is_digit(s@[p as int]) {
                scan_digits(s@, p as int + 1)
            } else {
                p as int
            },
        decreases n - p,
    {
        p = p + 1;
    }
    p
}

fn fold_mant_x(s: &[char], i: usize, j: usize, m0: u128, t0: usize) -> (r: (u128, usize))
    requires
        i <= j <= s@.len(),
        forall|p: int| i <= p < j ==> is_digit(s@[p]),
        (m0 as int) < pow10(38),
        t0 as int + (j - i) <= usize::MAX as int,
    ensures
        (r.0 as int, r.1 as int) == fold_mant(s@, i as int, j as int, m0 as int, t0 as int),
        (r.0 as int) < pow10(38),
        r.1 <= t0 + (j - i),
{
    proof {
        lemma_pow10_38_value();
    }
    let mut m = m0;
    let mut t = t0;
    let mut p = i;
    while p < j
        invariant
            i <= p <= j <= s@.len(),
            forall|q: int| i <= q < j ==> is_digit(s@[q]),
            (m as int) < pow10(38),
            t <= t0 + (p - i),
            t0 as int + (j - i) <= usize::MAX as int,
            fold_mant(s@, i as int, j as int, m0 as int, t0 as int) == fold_mant(
                s@,
                p as int,
                j as int,
                m as int,
                t as int,
            ),
            pow10(38) == 100_000_000_000_000_000_000_000_000_000_000_000_000int,
            pow10(37) == 10_000_000_000_000_000_000_000_000_000_000_000_000int,
        decreases j - p,
    {
        let c = *vstd::slice::slice_index_get(s, p);
        proof {
            assert(is_digit(s@[p as int]));
        }
        if m < 10_000_000_000_000_000_000_000_000_000_000_000_000u128 {
            let d = (c as u32 - '0' as u32) as u128;
            proof {
                assert(digit_val(s@[p as int]) == d as int || !is_digit(s@[p as int]));
            }
            m = m * 10 + d;
        } else {
            t = t + 1;
        }
        p = p + 1;
    }
    (m, t)
}

fn fold_exp_x(s: &[char], i: usize, j: usize) -> (r: u128)
    requires
        i <= j <= s@.len(),
        forall|p: int| i <= p < j ==> is_digit(s@[p]),
    ensures
        r as int == fold_exp(s@, i as int, j as int, 0),
        r as int <= pow10(30),
{
    proof {
        lemma_pow10_38_value();
    }
    let mut e: u128 = 0;
    let mut p = i;
    while p < j
        invariant
            i <= p <= j <= s@.len(),
            forall|q: int| i <= q < j ==> is_digit(s@[q]),
            e as int <= pow10(30),
            fold_exp(s@, i as int, j as int, 0) == fold_exp(s@, p as int, j as int, e as int),
            pow10(30) == 1_000_000_000_000_000_000_000_000_000_000int,
        decreases j - p,
    {
        let c = *vstd::slice::slice_index_get(s, p);
        proof {
            assert(is_digit(s@[p as int]));
        }
        let d = (c as u32 - '0' as u32) as u128;
        proof {
            assert(digit_val(s@[p as int]) == d as int || !is_digit(s@[p as int]));
        }
        let e2 = e * 10 + d;
        e = if e2 > 1_000_000_000_000_000_000_000_000_000_000u128 {
            1_000_000_000_000_000_000_000_000_000_000u128
        } else {
            e2
        };
        p = p + 1;
    }
    e
}

/// Is `s`, as a whole, a floating-point literal?
pub(crate) fn is_float_lit_x(s: &[char]) -> (b: bool)
    ensures
        b == is_float_lit(s@),
{
    let n = s.len();
    let i0: usize = if n > 0 && {
        let c = *vstd::slice::slice_index_get(s, 0);
        c == '+' || c == '-'
    } {
        1
    } else {
        0
    };
    let i1 = scan_digits_x(s, i0);
    if i1 == i0 {
        if i1 < n && *vstd::slice::slice_index_get(s, i1) == '.' {
            let i2 = scan_digits_x(s, i1 + 1);
            i2 > i1 + 1 && lit_exp_ok_x(s, i2)
        } else {
            false
        }
    } else {
        if i1 < n && *vstd::slice::slice_index_get(s, i1) == '.' {
            let i2 = scan_digits_x(s, i1 + 1);
            lit_exp_ok_x(s, i2)
        } else {
            lit_exp_ok_x(s, i1)
        }
    }
}

/// `m` shifted by `k128` decimal places, truncated toward zero.  A result
/// beyond `i64::MAX` comes back as the saturation sentinel `2^63`.
fn shift_mag(m: u128, k128: i128) -> (mag: u128)
    requires
        (m as int) < pow10(38),
    ensures
        shift10(m as int, k128 as int) >= 0,
        mag as int == shift10(m as int, k128 as int) || (mag == 9_223_372_036_854_775_808u128
            && shift10(m as int, k128 as int) > i64::MAX as int),
{
    proof {
        lemma_pow10_38_value();
    }
    if m == 0 {
        proof {
            if k128 < 0 {
                lemma_pow10_pos((-k128) as nat);
                lemma_basic_div(0, pow10((-k128) as nat));
            }
        }
        0
    } else if k128 >= 19 {
        proof {
            lemma_pow10_mono(19, k128 as nat);
            lemma_pow10_pos(k128 as nat);
            lemma_mul_inequality(1, m as int, pow10(k128 as nat));
        }
        9_223_372_036_854_775_808u128
    } else if k128 >= 0 {
        let p = pow10_u128(k128 as usize);
        if m >= 10_000_000_000_000_000_000u128 {
            proof {
                lemma_pow10_pos(k128 as nat);
                lemma_mul_inequality(1, p as int, m as int);
                vstd::arithmetic::mul::lemma_mul_is_commutative(m as int, p as int);
            }
            9_223_372_036_854_775_808u128
        } else {
            proof {
                lemma_pow10_mono(k128 as nat, 18);
                lemma_pow10_pos(k128 as nat);
                lemma_mul_upper_bound(
                    m as int,
                    10_000_000_000_000_000_000int - 1,
                    p as int,
                    1_000_000_000_000_000_000int,
                );
                vstd::arithmetic::mul::lemma_mul_nonnegative(m as int, p as int);
            }
            m * p
        }
    } else {
        if k128 <= -38 {
            proof {
                lemma_pow10_mono(38, (-k128) as nat);
                lemma_pow10_pos((-k128) as nat);
                lemma_basic_div(m as int, pow10((-k128) as nat));
            }
            0
        } else {
            let q = (-k128) as usize;
            let p = pow10_u128(q);
            proof {
                lemma_pow10_pos(q as nat);
                vstd::arithmetic::div_mod::lemma_div_pos_is_pos(m as int, p as int);
            }
            m / p
        }
    }
}

/// Apply the sign and clamp into `i64`.  A magnitude beyond `i64::MAX` may
/// arrive as the saturation sentinel `2^63` in place of its true value.
fn sign_and_sat(mag: u128, neg: bool, Ghost(realmag): Ghost<int>) -> (r: i64)
    requires
        realmag >= 0,
        mag as int == realmag || (mag == 9_223_372_036_854_775_808u128 && realmag > i64::MAX as int),
    ensures
        r as int == sat64(
            if neg {
                -realmag
            } else {
                realmag
            },
        ),
{
    if neg {
        if mag >= 9_223_372_036_854_775_808u128 {
            proof {
                assert(-realmag <= i64::MIN as int);
            }
            i64::MIN
        } else {
            -(mag as i64)
        }
    } else {
        if mag > 9_223_372_036_854_775_807u128 {
            proof {
                assert(realmag > i64::MAX as int);
            }
            i64::MAX
        } else {
            mag as i64
        }
    }
}

/// Convert a floating-point literal into its fixed-point value in micros.
#[verifier::rlimit(50)]
pub(crate) fn lit_to_micros(s: &[char]) -> (r: i64)
    requires
        is_float_lit(s@),
    ensures
        r as int == lit_micros(s@),
{
    proof {
        lemma_pow10_38_value();
    }
    let n = s.len();
    let neg = n > 0 && *vstd::slice::slice_index_get(s, 0) == '-';
    let i0: usize = if n > 0 && {
        let c = *vstd::slice::slice_index_get(s, 0);
        c == '+' || c == '-'
    } {
        1
    } else {
        0
    };
    let i1 = scan_digits_x(s, i0);
    proof {
        lemma_scan_digits_digits(s@, i0 as int);
    }
    let has_dot = i1 < n && *vstd::slice::slice_index_get(s, i1) == '.';
    let i2: usize = if has_dot {
        let r2 = scan_digits_x(s, i1 + 1);
        proof {
            lemma_scan_digits_digits(s@, i1 + 1);
        }
        r2
    } else {
        i1
    };
    let fcount: usize = if has_dot {
        i2 - (i1 + 1)
    } else {
        0
    };
    let mt1 = fold_mant_x(s, i0, i1, 0, 0);
    let mt = if has_dot {
        fold_mant_x(s, i1 + 1, i2, mt1.0, mt1.1)
    } else {
        mt1
    };
    let m = mt.0;
    let t = mt.1;
    proof {
        assert(lit_exp_ok(s@, i2 as int));
    }
    let e_mag: u128;
    let e_neg: bool;
    if i2 < n {
        e_neg = i2 + 1 < n && *vstd::slice::slice_index_get(s, i2 + 1) == '-';
        let j: usize = if i2 + 1 < n && {
            let c = *vstd::slice::slice_index_get(s, i2 + 1);
            c == '+' || c == '-'
        } {
            i2 + 2
        } else {
            i2 + 1
        };
        let k = scan_digits_x(s, j);
        proof {
            lemma_scan_digits_digits(s@, j as int);
        }
        e_mag = fold_exp_x(s, j, k);
    } else {
        e_mag = 0;
        e_neg = false;
    }
    let e: i128 = if e_neg {
        -(e_mag as i128)
    } else {
        e_mag as i128
    };
    let k128: i128 = 6 + e - (fcount as i128) + (t as i128);
    let ghost realmag: int = shift10(m as int, k128 as int);
    let mag = shift_mag(m, k128);
    proof {
        assert(lit_micros(s@) == sat64(
            if neg {
                -realmag
            } else {
                realmag
            },
        ));
    }
    sign_and_sat(mag, neg, Ghost(realmag))
}

fn lit_exp_ok_x(s: &[char], i: usize) -> (b: bool)
    requires
        i <= s@.len(),
    ensures
        b == lit_exp_ok(s@, i as int),
{
    let n = s.len();
    if i == n {
        true
    } else {
        let c = *vstd::slice::slice_index_get(s, i);
        if c == 'e' || c == 'E' {
            let j: usize = if i + 1 < n && {
                let c2 = *vstd::slice::slice_index_get(s, i + 1);
                c2 == '+' || c2 == '-'
            } {
                i + 2
            } else {
                i + 1
            };
            let k = scan_digits_x(s, j);
            k > j && k == n
        } else {
            false
        }
    }
}

} // verus!
