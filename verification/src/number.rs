use vstd::prelude::*;
use vstd::arithmetic::div_mod::{
    lemma_div_is_ordered, lemma_div_multiples_vanish, lemma_fundamental_div_mod,
    lemma_mod_multiples_basic,
};
use vstd::arithmetic::mul::{lemma_mul_basics, lemma_mul_inequality, lemma_mul_is_associative};

verus! {

/// Ten to the power `e`.
pub open spec fn pow10(e: nat) -> nat
    decreases e,
{
    if e == 0 {
        1
    } else {
        10 * pow10((e - 1) as nat)
    }
}

/// An ASCII decimal digit.
pub open spec fn is_digit(b: u8) -> bool {
    48 <= b <= 57
}

/// Positional value of the decimal digits `s[a..b)`.
pub open spec fn digits_val(s: Seq<u8>, a: int, b: int) -> nat
    decreases b - a,
{
    if a >= b || a < 0 || b > s.len() {
        0
    } else {
        digits_val(s, a, b - 1) * 10 + (if is_digit(s[b - 1]) {
            (s[b - 1] - 48) as nat
        } else {
            0
        })
    }
}

pub proof fn lemma_pow10_vals()
    ensures
        pow10(0) == 1,
        pow10(1) == 10,
        pow10(7) == 10_000_000,
        pow10(9) == 1_000_000_000,
        pow10(17) == 100_000_000_000_000_000,
        pow10(18) == 1_000_000_000_000_000_000,
        pow10(19) == 10_000_000_000_000_000_000,
        pow10(20) == 100_000_000_000_000_000_000,
{
    reveal_with_fuel(pow10, 21);
}

pub proof fn lemma_pow10_pos(e: nat)
    ensures
        pow10(e) >= 1,
    decreases e,
{
    if e > 0 {
        lemma_pow10_pos((e - 1) as nat);
    }
}

pub proof fn lemma_pow10_mono(a: nat, b: nat)
    requires
        a <= b,
    ensures
        pow10(a) <= pow10(b),
    decreases b,
{
    if a < b {
        lemma_pow10_mono(a, (b - 1) as nat);
    }
}

pub proof fn lemma_pow10_adds(a: nat, b: nat)
    ensures
        pow10(a + b) == pow10(a) * pow10(b),
    decreases a,
{
    if a == 0 {
        assert(pow10(0 + b) == 1 * pow10(b));
    } else {
        lemma_pow10_adds((a - 1) as nat, b);
        assert(pow10(a + b) == 10 * pow10((a + b - 1) as nat));
        assert((a + b - 1) as nat == (a - 1) as nat + b);
        lemma_mul_is_associative(10, pow10((a - 1) as nat) as int, pow10(b) as int);
    }
}

/// `n` decimal digits never reach `10^n`.
pub proof fn lemma_digits_val_upper(s: Seq<u8>, a: int, b: int)
    requires
        0 <= a <= b <= s.len(),
    ensures
        digits_val(s, a, b) < pow10((b - a) as nat),
    decreases b - a,
{
    if a < b {
        lemma_digits_val_upper(s, a, b - 1);
    }
}

/// A digit run with a nonzero leading digit reaches at least `10^(n-1)`.
pub proof fn lemma_digits_val_lower(s: Seq<u8>, a: int, b: int)
    requires
        0 <= a < b <= s.len(),
        is_digit(s[a]),
        s[a] != 48,
    ensures
        digits_val(s, a, b) >= pow10((b - a - 1) as nat),
    decreases b - a,
{
    if a < b - 1 {
        lemma_digits_val_lower(s, a, b - 1);
    }
}

/// A run of ASCII zeros has the value zero.
pub proof fn lemma_digits_val_all_zero(s: Seq<u8>, a: int, b: int)
    requires
        0 <= a <= b <= s.len(),
        forall|k: int| a <= k < b ==> s[k] == 48,
    ensures
        digits_val(s, a, b) == 0,
    decreases b - a,
{
    if a < b {
        lemma_digits_val_all_zero(s, a, b - 1);
    }
}

/// Leading zeros do not change a digit run's value.
pub proof fn lemma_digits_val_zero_prefix(s: Seq<u8>, a: int, z: int, b: int)
    requires
        0 <= a <= z <= b <= s.len(),
        forall|k: int| a <= k < z ==> s[k] == 48,
    ensures
        digits_val(s, a, b) == digits_val(s, z, b),
    decreases b - z,
{
    if z < b {
        lemma_digits_val_zero_prefix(s, a, z, b - 1);
    } else {
        lemma_digits_val_all_zero(s, a, z);
    }
}

/// A finite decimal: the value `(-1)^neg * mant * 10^exp`.
///
/// Request parameters that the distributions take as real numbers
/// are carried in this form, so that sign tests and comparisons against zero
/// and one are exact integer questions.
#[derive(Clone, Copy, Debug)]
pub struct Dec {
    pub neg: bool,
    pub mant: u64,
    pub exp: i32,
}

impl Dec {
    /// The value is exactly zero.
    pub open spec fn is_zero(self) -> bool {
        self.mant == 0
    }

    /// The value is at least zero.
    pub open spec fn nonneg(self) -> bool {
        !self.neg || self.mant == 0
    }

    /// The value is strictly above zero.
    pub open spec fn pos(self) -> bool {
        !self.neg && self.mant > 0
    }

    /// The magnitude is at most one.
    pub open spec fn le_one(self) -> bool {
        if self.exp >= 0 {
            self.mant * pow10(self.exp as nat) <= 1
        } else {
            self.mant <= pow10((-(self.exp as int)) as nat)
        }
    }

    /// The value is exactly one.
    pub open spec fn eq_one(self) -> bool {
        !self.neg && (if self.exp >= 0 {
            self.mant * pow10(self.exp as nat) == 1
        } else {
            self.mant == pow10((-(self.exp as int)) as nat)
        })
    }
}

/// `10^e` as a machine word, for the exponents that fit one.
pub fn pow10_u64(e: u32) -> (r: u64)
    requires
        e <= 19,
    ensures
        r == pow10(e as nat),
{
    let mut r: u64 = 1;
    let mut i: u32 = 0;
    while i < e
        invariant
            i <= e <= 19,
            r == pow10(i as nat),
        decreases e - i,
    {
        proof {
            lemma_pow10_mono(i as nat, 18);
            lemma_pow10_vals();
        }
        r = r * 10;
        i = i + 1;
    }
    r
}

/// Decides `0 <= d <= 1`, the domain of a probability parameter.
pub fn dec_in_unit(d: &Dec) -> (r: bool)
    ensures
        r == (d.nonneg() && d.le_one()),
{
    proof {
        if d.exp >= 0 {
            lemma_mul_basics(pow10(d.exp as nat) as int);
        }
    }
    if d.mant == 0 {
        return true;
    }
    if d.neg {
        return false;
    }
    if d.exp > 0 {
        proof {
            lemma_pow10_mono(1, d.exp as nat);
            lemma_pow10_vals();
            lemma_mul_inequality(1, d.mant as int, pow10(d.exp as nat) as int);
        }
        return false;
    }
    if d.exp == 0 {
        proof {
            lemma_pow10_vals();
            lemma_mul_basics(d.mant as int);
        }
        return d.mant <= 1;
    }
    let ke: i64 = -(d.exp as i64);
    if ke >= 20 {
        proof {
            lemma_pow10_mono(20, ke as nat);
            lemma_pow10_vals();
        }
        true
    } else {
        let p = pow10_u64(ke as u32);
        d.mant <= p
    }
}

/// Decides `d > 0`, the domain of a standard deviation.
pub fn dec_pos(d: &Dec) -> (r: bool)
    ensures
        r == d.pos(),
{
    !d.neg && d.mant > 0
}

/// The probability `d`, rounded to a multiple of one billionth and scaled by
/// one billion; the numerator a Bernoulli draw pairs with the fixed
/// denominator `10^9`.
pub open spec fn bernoulli_num(d: Dec) -> nat {
    if d.mant == 0 {
        0
    } else if d.exp >= 0 {
        1_000_000_000
    } else {
        let k = (-(d.exp as int)) as nat;
        if k <= 9 {
            (d.mant * pow10((9 - k) as nat)) as nat
        } else if k <= 28 {
            let div = pow10((k - 9) as nat);
            let q = (d.mant as nat) / div;
            let rem = (d.mant as nat) % div;
            if rem >= (div + 1) / 2 {
                q + 1
            } else {
                q
            }
        } else {
            0
        }
    }
}

/// Scales a probability in `[0, 1]` to a numerator over `10^9`, rounding to
/// the nearest billionth.  Zero maps to zero and one maps to the full
/// denominator, exactly.
pub fn bernoulli_numerator(d: &Dec) -> (r: u32)
    requires
        d.nonneg(),
        d.le_one(),
    ensures
        r == bernoulli_num(*d),
        r <= 1_000_000_000,
        d.is_zero() ==> r == 0,
        d.eq_one() ==> r == 1_000_000_000,
{
    proof {
        lemma_pow10_vals();
        if d.exp < 0 {
            lemma_pow10_pos((-(d.exp as int)) as nat);
        }
    }
    if d.mant == 0 {
        return 0;
    }
    if d.exp >= 0 {
        return 1_000_000_000;
    }
    let ke: i64 = -(d.exp as i64);
    let ghost k = ke as nat;
    if ke <= 9 {
        let f = pow10_u64((9 - ke) as u32);
        proof {
            lemma_pow10_adds(k, (9 - ke) as nat);
            lemma_mul_inequality(d.mant as int, pow10(k) as int, f as int);
            if d.eq_one() {
                assert(d.mant == pow10(k));
            }
        }
        (d.mant * f) as u32
    } else if ke <= 28 {
        let div = pow10_u64((ke - 9) as u32);
        proof {
            lemma_pow10_pos((ke - 9) as nat);
        }
        let q = d.mant / div;
        let rem = d.mant % div;
        proof {
            lemma_pow10_adds((ke - 9) as nat, 9);
            // q <= 10^9 because mant <= 10^k == div * 10^9
            lemma_div_is_ordered(d.mant as int, pow10(k) as int, div as int);
            lemma_div_multiples_vanish(1_000_000_000, div as int);
            lemma_fundamental_div_mod(d.mant as int, div as int);
            if d.eq_one() {
                assert(d.mant == pow10(k));
                lemma_mod_multiples_basic(1_000_000_000, div as int);
            }
        }
        if rem >= (div + 1) / 2 {
            proof {
                // a bump past 10^9 would need mant > div * 10^9 == 10^k
                if q == 1_000_000_000 {
                    assert(d.mant as int == div * 1_000_000_000 + rem);
                    assert(false);
                }
            }
            (q + 1) as u32
        } else {
            q as u32
        }
    } else {
        proof {
            if d.eq_one() {
                lemma_pow10_mono(20, k);
                assert(false);
            }
        }
        0
    }
}

} // verus!
