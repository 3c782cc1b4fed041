use vstd::prelude::*;
use crate::sampler::RngRequest;
use vstd::string::StringSliceAdditionalSpecFns;
use crate::number::{
    digits_val, is_digit, lemma_digits_val_lower, lemma_digits_val_upper, lemma_pow10_mono,
    lemma_pow10_vals, pow10, Dec,
};
use vstd::arithmetic::mul::{lemma_mul_basics, lemma_mul_is_associative};

verus! {

/// The longest request body the parser accepts; far beyond any real body,
/// this bound only keeps index arithmetic inside the machine integers.
pub open spec fn max_body_len() -> int {
    10_000_000_000_000_000
}

/// JSON insignificant whitespace.
pub open spec fn is_ws(b: u8) -> bool {
    b == 32 || b == 9 || b == 10 || b == 13
}

/// The first position at or after `i` that does not hold whitespace.
pub open spec fn ws_end(s: Seq<u8>, i: int) -> int
    decreases s.len() - i,
{
    if 0 <= i < s.len() && is_ws(s[i]) {
        ws_end(s, i + 1)
    } else {
        i
    }
}

/// The first position at or after `i` that does not hold a digit.
pub open spec fn digits_end(s: Seq<u8>, i: int) -> int
    decreases s.len() - i,
{
    if 0 <= i < s.len() && is_digit(s[i]) {
        digits_end(s, i + 1)
    } else {
        i
    }
}

/// The first position in `[i, b)` that does not hold an ASCII zero.
pub open spec fn zeros_end(s: Seq<u8>, i: int, b: int) -> int
    decreases b - i,
{
    if 0 <= i < b && i < s.len() && s[i] == 48 {
        zeros_end(s, i + 1, b)
    } else {
        i
    }
}

/// A byte that may stand unescaped inside the strict strings the protocol
/// reads: anything but a quote, a backslash, or a control byte.
pub open spec fn is_plain_str_byte(b: u8) -> bool {
    b != 34 && b != 92 && b >= 32
}

/// The first position at or after `i` that ends a plain string run.
pub open spec fn str_end(s: Seq<u8>, i: int) -> int
    decreases s.len() - i,
{
    if 0 <= i < s.len() && is_plain_str_byte(s[i]) {
        str_end(s, i + 1)
    } else {
        i
    }
}

/// A strict JSON string at `i`: an opening quote, plain bytes, a closing
/// quote.  Yields the content span; the token ends one past the span.
pub open spec fn spec_parse_string(s: Seq<u8>, i: int) -> Option<(int, int)> {
    if 0 <= i < s.len() && s[i] == 34 {
        let e = str_end(s, i + 1);
        if e < s.len() && s[e] == 34 {
            Some((i + 1, e))
        } else {
            None
        }
    } else {
        None
    }
}

/// A member head at `i`: whitespace, a strict string key, whitespace, a
/// colon.  Yields the key span and the position of the member's value.
pub open spec fn spec_member_key(s: Seq<u8>, i: int) -> Option<(int, int, int)> {
    let j = ws_end(s, i);
    match spec_parse_string(s, j) {
        None => None,
        Some((a, b)) => {
            let j2 = ws_end(s, b + 1);
            if j2 < s.len() && s[j2] == 58 {
                Some((a, b, ws_end(s, j2 + 1)))
            } else {
                None
            }
        },
    }
}

/// The mantissa the digit spans `[a1, b1)` (integer part) and `[a2, b2)`
/// (fraction part) spell: leading zeros dropped, the rest read positionally.
pub open spec fn spec_mantissa(s: Seq<u8>, a1: int, b1: int, a2: int, b2: int) -> nat {
    if a1 < s.len() && s[a1] == 48 {
        digits_val(s, zeros_end(s, a2, b2), b2)
    } else {
        (digits_val(s, a1, b1) * pow10((b2 - a2) as nat) + digits_val(s, a2, b2)) as nat
    }
}

/// How many significant digits the two spans carry.
pub open spec fn spec_sig_count(s: Seq<u8>, a1: int, b1: int, a2: int, b2: int) -> int {
    if a1 < s.len() && s[a1] == 48 {
        b2 - zeros_end(s, a2, b2)
    } else {
        (b1 - a1) + (b2 - a2)
    }
}

/// An exponent marker's payload at `i` (one past the `e`): optional sign and
/// a nonempty digit run.  Yields the sign, the magnitude and the end.
pub open spec fn spec_exp_part(s: Seq<u8>, i: int) -> Option<(bool, nat, int)> {
    let len = s.len() as int;
    let eneg = i < len && s[i] == 45;
    let k = if i < len && (s[i] == 45 || s[i] == 43) {
        i + 1
    } else {
        i
    };
    if !(k < len && is_digit(s[k])) {
        None
    } else {
        let ee = digits_end(s, k);
        Some((eneg, digits_val(s, zeros_end(s, k, ee), ee), ee))
    }
}

/// Assembles a parsed number.  A zero mantissa collapses to the canonical
/// zero.  A decimal exponent above a million is rejected; one below minus a
/// million is clamped there, which leaves every sign test and every
/// comparison against one and against a billionth unchanged.
pub open spec fn spec_number_make(
    neg: bool,
    mant: nat,
    exp0: int,
    eneg: bool,
    emag: nat,
    isint: bool,
    after: int,
) -> Option<(Dec, bool, int)> {
    if mant == 0 {
        Some((Dec { neg, mant: 0, exp: 0 }, isint, after))
    } else {
        let e = if eneg {
            exp0 - emag
        } else {
            exp0 + emag
        };
        if e > 1_000_000 {
            None
        } else if e < -1_000_000 {
            Some((Dec { neg, mant: mant as u64, exp: -1_000_000int as i32 }, isint, after))
        } else {
            Some((Dec { neg, mant: mant as u64, exp: e as i32 }, isint, after))
        }
    }
}

/// A JSON number token at `i`, read into a `Dec`: optional minus, an integer
/// part without leading zeros, an optional fraction, an optional exponent.
/// Numbers carrying more than nineteen significant digits are rejected.
/// The boolean says whether the token was a plain integer.
pub open spec fn spec_parse_number(s: Seq<u8>, i: int) -> Option<(Dec, bool, int)> {
    let len = s.len() as int;
    let neg = i < len && s[i] == 45;
    let j = if neg {
        i + 1
    } else {
        i
    };
    if !(j < len && is_digit(s[j])) {
        None
    } else {
        let int_end = digits_end(s, j);
        if s[j] == 48 && int_end != j + 1 {
            None
        } else {
            let has_frac = int_end < len && s[int_end] == 46;
            let frac_start = if has_frac {
                int_end + 1
            } else {
                int_end
            };
            let frac_end = if has_frac {
                digits_end(s, frac_start)
            } else {
                int_end
            };
            if has_frac && frac_end == frac_start {
                None
            } else if spec_sig_count(s, j, int_end, frac_start, frac_end) > 19 {
                None
            } else {
                let mant = spec_mantissa(s, j, int_end, frac_start, frac_end);
                let exp0 = -(frac_end - frac_start);
                let has_exp = frac_end < len && (s[frac_end] == 101 || s[frac_end] == 69);
                if has_exp {
                    match spec_exp_part(s, frac_end + 1) {
                        None => None,
                        Some((eneg, emag, after)) => spec_number_make(
                            neg,
                            mant,
                            exp0,
                            eneg,
                            emag,
                            false,
                            after,
                        ),
                    }
                } else {
                    spec_number_make(neg, mant, exp0, false, 0, !has_frac, frac_end)
                }
            }
        }
    }
}

/// A digit run is made of digits and stays inside the sequence.
pub proof fn lemma_digits_run(s: Seq<u8>, i: int)
    requires
        0 <= i <= s.len(),
    ensures
        i <= digits_end(s, i) <= s.len(),
        forall|k: int| i <= k < digits_end(s, i) ==> is_digit(s[k]),
    decreases s.len() - i,
{
    if i < s.len() && is_digit(s[i]) {
        lemma_digits_run(s, i + 1);
    }
}

/// A digit run that starts on a digit reaches past it.
pub proof fn lemma_digits_end_step(s: Seq<u8>, i: int)
    requires
        0 <= i < s.len(),
        is_digit(s[i]),
    ensures
        i + 1 <= digits_end(s, i) <= s.len(),
{
    lemma_digits_run(s, i + 1);
}

/// A zero run is made of ASCII zeros and stays inside its bounds.
pub proof fn lemma_zeros_run(s: Seq<u8>, i: int, b: int)
    requires
        0 <= i <= b,
    ensures
        i <= zeros_end(s, i, b) <= b,
        forall|k: int| i <= k < zeros_end(s, i, b) ==> s[k] == 48,
        zeros_end(s, i, b) < b && zeros_end(s, i, b) < s.len() ==> s[zeros_end(s, i, b)] != 48,
    decreases b - i,
{
    if i < b && i < s.len() && s[i] == 48 {
        lemma_zeros_run(s, i + 1, b);
    }
}

/// Reads an exponent payload, saturating the magnitude at `10^17`: the
/// parser only compares exponents against a million, and a body can carry at
/// most `10^16` fraction digits, so every decision is unchanged.
fn exp_part(s: &[u8], i: usize) -> (r: Option<(bool, u64, usize)>)
    requires
        i <= s@.len(),
    ensures
        match r {
            Some((eneg, w, after)) => {
                &&& spec_exp_part(s@, i as int) matches Some((sneg, emag, safter)) && sneg == eneg
                    && safter == after as int && (w as nat == emag || (w
                    == 100_000_000_000_000_000u64 && emag >= 100_000_000_000_000_000))
                &&& w <= 100_000_000_000_000_000u64
                &&& i < after <= s@.len()
            },
            None => spec_exp_part(s@, i as int) is None,
        },
{
    let n = s.len();
    let eneg = i < n && s[i] == 45;
    let k = if i < n && (s[i] == 45 || s[i] == 43) {
        i + 1
    } else {
        i
    };
    if !(k < n && 48 <= s[k] && s[k] <= 57) {
        return None;
    }
    let ee = scan_digits(s, k);
    let ze = scan_zeros(s, k, ee);
    proof {
        lemma_digits_run(s@, k as int);
        lemma_digits_end_step(s@, k as int);
        lemma_zeros_run(s@, k as int, ee as int);
        lemma_pow10_vals();
    }
    if ee - ze > 17 {
        proof {
            lemma_digits_val_lower(s@, ze as int, ee as int);
            lemma_pow10_mono(17, (ee - ze - 1) as nat);
        }
        Some((eneg, 100_000_000_000_000_000u64, ee))
    } else {
        let w = digits_value(s, ze, ee);
        proof {
            lemma_pow10_mono((ee - ze) as nat, 17);
        }
        Some((eneg, w, ee))
    }
}

/// Finishes a number from its pieces, mirroring `spec_number_make`.
fn make_number(
    neg: bool,
    mant: u64,
    frac_len: usize,
    eneg: bool,
    w: u64,
    Ghost(emag): Ghost<nat>,
    isint: bool,
    after: usize,
) -> (r: Option<(Dec, bool, usize)>)
    requires
        frac_len <= max_body_len(),
        w as nat == emag || (w == 100_000_000_000_000_000u64 && emag >= 100_000_000_000_000_000),
        w <= 100_000_000_000_000_000u64,
    ensures
        match r {
            Some((d, isint2, after2)) => spec_number_make(
                neg,
                mant as nat,
                -(frac_len as int),
                eneg,
                emag,
                isint,
                after as int,
            ) == Some((d, isint2, after2 as int)) && after2 == after && isint2 == isint,
            None => spec_number_make(
                neg,
                mant as nat,
                -(frac_len as int),
                eneg,
                emag,
                isint,
                after as int,
            ) is None,
        },
{
    if mant == 0 {
        return Some((Dec { neg, mant: 0, exp: 0 }, isint, after));
    }
    let e: i64 = -(frac_len as i64) + (if eneg {
        -(w as i64)
    } else {
        w as i64
    });
    if e > 1_000_000 {
        return None;
    }
    if e < -1_000_000 {
        return Some((Dec { neg, mant, exp: -1_000_000 }, isint, after));
    }
    Some((Dec { neg, mant, exp: e as i32 }, isint, after))
}

/// Reads a JSON number token; the result mirrors `spec_parse_number`.
#[verifier::rlimit(60)]
pub fn parse_number(s: &[u8], i: usize) -> (r: Option<(Dec, bool, usize)>)
    requires
        i <= s@.len(),
        s@.len() <= max_body_len(),
    ensures
        match r {
            Some((d, isint, after)) => spec_parse_number(s@, i as int) == Some(
                (d, isint, after as int),
            ) && i < after <= s@.len(),
            None => spec_parse_number(s@, i as int) is None,
        },
{
    let n = s.len();
    let neg = i < n && s[i] == 45;
    let j = if neg {
        i + 1
    } else {
        i
    };
    if !(j < n && 48 <= s[j] && s[j] <= 57) {
        return None;
    }
    let int_end = scan_digits(s, j);
    proof {
        lemma_digits_run(s@, j as int);
        lemma_digits_end_step(s@, j as int);
    }
    if s[j] == 48 && int_end != j + 1 {
        return None;
    }
    let has_frac = int_end < n && s[int_end] == 46;
    let frac_start = if has_frac {
        int_end + 1
    } else {
        int_end
    };
    let frac_end = if has_frac {
        scan_digits(s, frac_start)
    } else {
        int_end
    };
    proof {
        lemma_digits_run(s@, frac_start as int);
    }
    if has_frac && frac_end == frac_start {
        return None;
    }
    let mant: u64;
    if s[j] == 48 {
        let zs = scan_zeros(s, frac_start, frac_end);
        if frac_end - zs > 19 {
            return None;
        }
        mant = digits_value(s, zs, frac_end);
    } else {
        if (int_end - j) + (frac_end - frac_start) > 19 {
            return None;
        }
        mant = mantissa_value(s, j, int_end, frac_start, frac_end);
    }
    proof {
        assert(mant == spec_mantissa(s@, j as int, int_end as int, frac_start as int,
            frac_end as int));
    }
    let has_exp = frac_end < n && (s[frac_end] == 101 || s[frac_end] == 69);
    if has_exp {
        match exp_part(s, frac_end + 1) {
            None => None,
            Some((eneg, w, after)) => {
                let ghost emag = spec_exp_part(s@, frac_end + 1)->Some_0.1;
                make_number(neg, mant, frac_end - frac_start, eneg, w, Ghost(emag), false, after)
            },
        }
    } else {
        make_number(neg, mant, frac_end - frac_start, false, 0, Ghost(0nat), !has_frac, frac_end)
    }
}

/// Skips whitespace.
pub fn skip_ws(s: &[u8], i: usize) -> (r: usize)
    requires
        i <= s@.len(),
    ensures
        r == ws_end(s@, i as int),
        i <= r <= s@.len(),
{
    let n = s.len();
    let mut j = i;
    while j < n && (s[j] == 32 || s[j] == 9 || s[j] == 10 || s[j] == 13)
        invariant
            n == s@.len(),
            i <= j <= n,
            ws_end(s@, i as int) == ws_end(s@, j as int),
        decreases n - j,
    {
        j = j + 1;
    }
    j
}

/// Skips a digit run.
pub fn scan_digits(s: &[u8], i: usize) -> (r: usize)
    requires
        i <= s@.len(),
    ensures
        r == digits_end(s@, i as int),
        i <= r <= s@.len(),
{
    let n = s.len();
    let mut j = i;
    while j < n && 48 <= s[j] && s[j] <= 57
        invariant
            n == s@.len(),
            i <= j <= n,
            digits_end(s@, i as int) == digits_end(s@, j as int),
        decreases n - j,
    {
        j = j + 1;
    }
    j
}

/// Skips a zero run below `b`.
pub fn scan_zeros(s: &[u8], i: usize, b: usize) -> (r: usize)
    requires
        i <= b <= s@.len(),
    ensures
        r == zeros_end(s@, i as int, b as int),
        i <= r <= b,
{
    let mut j = i;
    while j < b && s[j] == 48
        invariant
            i <= j <= b <= s@.len(),
            zeros_end(s@, i as int, b as int) == zeros_end(s@, j as int, b as int),
        decreases b - j,
    {
        j = j + 1;
    }
    j
}

/// Reads a strict string token.
pub fn parse_string(s: &[u8], i: usize) -> (r: Option<(usize, usize)>)
    requires
        i <= s@.len(),
    ensures
        match r {
            Some((a, b)) => spec_parse_string(s@, i as int) == Some((a as int, b as int)) && i < a
                <= b < s@.len(),
            None => spec_parse_string(s@, i as int) is None,
        },
{
    let n = s.len();
    if !(i < n && s[i] == 34) {
        return None;
    }
    let mut j = i + 1;
    while j < n && s[j] != 34 && s[j] != 92 && s[j] >= 32
        invariant
            n == s@.len(),
            i + 1 <= j <= n,
            str_end(s@, i + 1) == str_end(s@, j as int),
        decreases n - j,
    {
        j = j + 1;
    }
    if j < n && s[j] == 34 {
        Some((i + 1, j))
    } else {
        None
    }
}

/// Reads a member head: key string, colon, and the value's position.
pub fn member_key(s: &[u8], i: usize) -> (r: Option<(usize, usize, usize)>)
    requires
        i <= s@.len(),
    ensures
        match r {
            Some((a, b, v)) => spec_member_key(s@, i as int) == Some(
                (a as int, b as int, v as int),
            ) && i < a <= b < s@.len() && i < v <= s@.len(),
            None => spec_member_key(s@, i as int) is None,
        },
{
    let j = skip_ws(s, i);
    match parse_string(s, j) {
        None => None,
        Some((a, b)) => {
            proof {
                assert(b < s@.len());
            }
            let n = s.len();
            let j2 = skip_ws(s, b + 1);
            if j2 < n && s[j2] == 58 {
                let v = skip_ws(s, j2 + 1);
                Some((a, b, v))
            } else {
                None
            }
        },
    }
}

/// Reads the positional value of the digit run `s[a..b)`.
pub fn digits_value(s: &[u8], a: usize, b: usize) -> (r: u64)
    requires
        a <= b <= s@.len(),
        b - a <= 19,
        forall|j: int| a <= j < b ==> is_digit(s@[j]),
    ensures
        r == digits_val(s@, a as int, b as int),
        r < pow10((b - a) as nat),
{
    proof {
        lemma_pow10_vals();
    }
    let mut acc: u64 = 0;
    let mut j = a;
    while j < b
        invariant
            a <= j <= b <= s@.len(),
            b - a <= 19,
            forall|k: int| a <= k < b ==> is_digit(s@[k]),
            acc == digits_val(s@, a as int, j as int),
            acc < pow10((j - a) as nat),
        decreases b - j,
    {
        proof {
            lemma_pow10_mono((j - a) as nat, 18);
            lemma_pow10_vals();
        }
        acc = acc * 10 + (s[j] - 48) as u64;
        j = j + 1;
    }
    proof {
        lemma_digits_val_upper(s@, a as int, b as int);
    }
    acc
}

/// Reads the mantissa spelled by an integer-part span and a fraction span.
pub fn mantissa_value(s: &[u8], a1: usize, b1: usize, a2: usize, b2: usize) -> (r: u64)
    requires
        a1 <= b1 <= s@.len(),
        a2 <= b2 <= s@.len(),
        (b1 - a1) + (b2 - a2) <= 19,
        forall|j: int| a1 <= j < b1 ==> is_digit(s@[j]),
        forall|j: int| a2 <= j < b2 ==> is_digit(s@[j]),
    ensures
        r == digits_val(s@, a1 as int, b1 as int) * pow10((b2 - a2) as nat) + digits_val(
            s@,
            a2 as int,
            b2 as int,
        ),
{
    let v1 = digits_value(s, a1, b1);
    let ghost n1 = (b1 - a1) as nat;
    let mut acc: u64 = v1;
    let mut j = a2;
    proof {
        lemma_mul_basics(v1 as int);
    }
    while j < b2
        invariant
            a1 <= b1 <= s@.len(),
            a2 <= j <= b2 <= s@.len(),
            (b1 - a1) + (b2 - a2) <= 19,
            n1 == (b1 - a1) as nat,
            forall|k: int| a2 <= k < b2 ==> is_digit(s@[k]),
            v1 == digits_val(s@, a1 as int, b1 as int),
            acc == v1 * pow10((j - a2) as nat) + digits_val(s@, a2 as int, j as int),
            acc < pow10((n1 + (j - a2)) as nat),
        decreases b2 - j,
    {
        proof {
            lemma_pow10_mono((n1 + (j - a2)) as nat, 18);
            lemma_pow10_vals();
            lemma_mul_is_associative(v1 as int, pow10((j - a2) as nat) as int, 10);
        }
        acc = acc * 10 + (s[j] - 48) as u64;
        j = j + 1;
    }
    acc
}

/// Skips a string body with escapes allowed, from one past the opening quote
/// to one past the closing quote.  Only used to pass over a member that will
/// be parsed again or ignored.
pub open spec fn spec_skip_string(s: Seq<u8>, i: int) -> Option<int>
    decreases s.len() - i,
{
    if !(0 <= i < s.len()) {
        None
    } else if s[i] == 34 {
        Some(i + 1)
    } else if s[i] == 92 {
        if i + 1 < s.len() {
            spec_skip_string(s, i + 2)
        } else {
            None
        }
    } else {
        spec_skip_string(s, i + 1)
    }
}

/// Skips one JSON value of any kind, to a bounded nesting depth.
pub open spec fn spec_skip_value(s: Seq<u8>, i: int, depth: nat) -> Option<int>
    decreases depth, s.len() - i, 0int,
{
    if !(0 <= i < s.len()) {
        None
    } else {
        let b = s[i];
        if b == 123 {
            if depth == 0 {
                None
            } else {
                spec_skip_members(s, i + 1, (depth - 1) as nat)
            }
        } else if b == 91 {
            if depth == 0 {
                None
            } else {
                spec_skip_elems(s, i + 1, (depth - 1) as nat)
            }
        } else if b == 34 {
            spec_skip_string(s, i + 1)
        } else if b == 116 {
            if i + 4 <= s.len() && s[i + 1] == 114 && s[i + 2] == 117 && s[i + 3] == 101 {
                Some(i + 4)
            } else {
                None
            }
        } else if b == 102 {
            if i + 5 <= s.len() && s[i + 1] == 97 && s[i + 2] == 108 && s[i + 3] == 115 && s[i + 4]
                == 101 {
                Some(i + 5)
            } else {
                None
            }
        } else if b == 110 {
            if i + 4 <= s.len() && s[i + 1] == 117 && s[i + 2] == 108 && s[i + 3] == 108 {
                Some(i + 4)
            } else {
                None
            }
        } else {
            match spec_parse_number(s, i) {
                Some((d, isint, after)) => Some(after),
                None => None,
            }
        }
    }
}

/// Skips the members of an object, from one past the opening brace to one
/// past the closing brace.
pub open spec fn spec_skip_members(s: Seq<u8>, i: int, depth: nat) -> Option<int>
    decreases depth, s.len() - i, 1int,
{
    let j = ws_end(s, i);
    if j < i {
        None
    } else if j < s.len() && s[j] == 125 {
        Some(j + 1)
    } else {
        match spec_member_key(s, i) {
            None => None,
            Some((a, b, v)) => {
                if v < i || v > s.len() {
                    None
                } else {
                    match spec_skip_value(s, v, depth) {
                        None => None,
                        Some(after) => {
                            let j2 = ws_end(s, after);
                            if j2 < s.len() && s[j2] == 44 {
                                if j2 + 1 <= i {
                                    None
                                } else {
                                    spec_skip_members(s, j2 + 1, depth)
                                }
                            } else if j2 < s.len() && s[j2] == 125 {
                                Some(j2 + 1)
                            } else {
                                None
                            }
                        },
                    }
                }
            },
        }
    }
}

/// Skips the elements of an array, from one past the opening bracket to one
/// past the closing bracket.
pub open spec fn spec_skip_elems(s: Seq<u8>, i: int, depth: nat) -> Option<int>
    decreases depth, s.len() - i, 1int,
{
    let j = ws_end(s, i);
    if j < i || j > s.len() {
        None
    } else if j < s.len() && s[j] == 93 {
        Some(j + 1)
    } else {
        match spec_skip_value(s, j, depth) {
            None => None,
            Some(after) => {
                let j2 = ws_end(s, after);
                if j2 < s.len() && s[j2] == 44 {
                    if j2 + 1 <= i {
                        None
                    } else {
                        spec_skip_elems(s, j2 + 1, depth)
                    }
                } else if j2 < s.len() && s[j2] == 93 {
                    Some(j2 + 1)
                } else {
                    None
                }
            },
        }
    }
}

/// Skips a string body, mirroring `spec_skip_string`.
fn skip_string(s: &[u8], i: usize) -> (r: Option<usize>)
    requires
        i <= s@.len(),
    ensures
        match r {
            Some(a) => spec_skip_string(s@, i as int) == Some(a as int) && i < a <= s@.len(),
            None => spec_skip_string(s@, i as int) is None,
        },
{
    let n = s.len();
    let mut j = i;
    loop
        invariant
            i <= j <= n,
            n == s@.len(),
            spec_skip_string(s@, i as int) == spec_skip_string(s@, j as int),
        decreases n - j,
    {
        if j >= n {
            return None;
        }
        let b = s[j];
        if b == 34 {
            return Some(j + 1);
        }
        if b == 92 {
            if j + 1 < n {
                j = j + 2;
            } else {
                return None;
            }
        } else {
            j = j + 1;
        }
    }
}

/// Skips one JSON value, mirroring `spec_skip_value`.
fn skip_value(s: &[u8], i: usize, depth: u32) -> (r: Option<usize>)
    requires
        i <= s@.len(),
        s@.len() <= max_body_len(),
    ensures
        match r {
            Some(a) => spec_skip_value(s@, i as int, depth as nat) == Some(a as int) && i < a
                <= s@.len(),
            None => spec_skip_value(s@, i as int, depth as nat) is None,
        },
    decreases depth, s@.len() - i, 0int,
{
    let n = s.len();
    if i >= n {
        return None;
    }
    let b = s[i];
    if b == 123 {
        if depth == 0 {
            None
        } else {
            skip_members(s, i + 1, depth - 1)
        }
    } else if b == 91 {
        if depth == 0 {
            None
        } else {
            skip_elems(s, i + 1, depth - 1)
        }
    } else if b == 34 {
        skip_string(s, i + 1)
    } else if b == 116 {
        if n - i >= 4 && s[i + 1] == 114 && s[i + 2] == 117 && s[i + 3] == 101 {
            Some(i + 4)
        } else {
            None
        }
    } else if b == 102 {
        if n - i >= 5 && s[i + 1] == 97 && s[i + 2] == 108 && s[i + 3] == 115 && s[i + 4] == 101 {
            Some(i + 5)
        } else {
            None
        }
    } else if b == 110 {
        if n - i >= 4 && s[i + 1] == 117 && s[i + 2] == 108 && s[i + 3] == 108 {
            Some(i + 4)
        } else {
            None
        }
    } else {
        match parse_number(s, i) {
            Some((d, isint, after)) => Some(after),
            None => None,
        }
    }
}

/// Skips an object body, mirroring `spec_skip_members`.
fn skip_members(s: &[u8], i0: usize, depth: u32) -> (r: Option<usize>)
    requires
        i0 <= s@.len(),
        s@.len() <= max_body_len(),
    ensures
        match r {
            Some(a) => spec_skip_members(s@, i0 as int, depth as nat) == Some(a as int) && i0 < a
                <= s@.len(),
            None => spec_skip_members(s@, i0 as int, depth as nat) is None,
        },
    decreases depth, s@.len() - i0, 1int,
{
    let n = s.len();
    let mut i = i0;
    loop
        invariant
            i0 <= i <= n,
            n == s@.len(),
            s@.len() <= max_body_len(),
            spec_skip_members(s@, i0 as int, depth as nat) == spec_skip_members(
                s@,
                i as int,
                depth as nat,
            ),
        decreases n - i,
    {
        let j = skip_ws(s, i);
        if j < n && s[j] == 125 {
            return Some(j + 1);
        }
        match member_key(s, i) {
            None => {
                return None;
            },
            Some((a, b, v)) => {
                match skip_value(s, v, depth) {
                    None => {
                        return None;
                    },
                    Some(after) => {
                        let j2 = skip_ws(s, after);
                        if j2 < n && s[j2] == 44 {
                            i = j2 + 1;
                        } else if j2 < n && s[j2] == 125 {
                            return Some(j2 + 1);
                        } else {
                            return None;
                        }
                    },
                }
            },
        }
    }
}

/// Skips an array body, mirroring `spec_skip_elems`.
fn skip_elems(s: &[u8], i0: usize, depth: u32) -> (r: Option<usize>)
    requires
        i0 <= s@.len(),
        s@.len() <= max_body_len(),
    ensures
        match r {
            Some(a) => spec_skip_elems(s@, i0 as int, depth as nat) == Some(a as int) && i0 < a
                <= s@.len(),
            None => spec_skip_elems(s@, i0 as int, depth as nat) is None,
        },
    decreases depth, s@.len() - i0, 1int,
{
    let n = s.len();
    let mut i = i0;
    loop
        invariant
            i0 <= i <= n,
            n == s@.len(),
            s@.len() <= max_body_len(),
            spec_skip_elems(s@, i0 as int, depth as nat) == spec_skip_elems(
                s@,
                i as int,
                depth as nat,
            ),
        decreases n - i,
    {
        let j = skip_ws(s, i);
        if j < n && s[j] == 93 {
            return Some(j + 1);
        }
        match skip_value(s, j, depth) {
            None => {
                return None;
            },
            Some(after) => {
                let j2 = skip_ws(s, after);
                if j2 < n && s[j2] == 44 {
                    i = j2 + 1;
                } else if j2 < n && s[j2] == 93 {
                    return Some(j2 + 1);
                } else {
                    return None;
                }
            },
        }
    }
}

/// The key naming the tagged variant.
pub open spec fn name_distribution() -> Seq<u8> {
    "distribution".spec_bytes()
}

/// The key naming the variant's payload.
pub open spec fn name_parameters() -> Seq<u8> {
    "parameters".spec_bytes()
}

/// A comma after optional whitespace; yields the position past it.
pub open spec fn spec_comma(s: Seq<u8>, i: int) -> Option<int> {
    let j = ws_end(s, i);
    if j < s.len() && s[j] == 44 {
        Some(j + 1)
    } else {
        None
    }
}

/// A closing brace after optional whitespace; yields the position past it.
pub open spec fn spec_close_brace(s: Seq<u8>, i: int) -> Option<int> {
    let j = ws_end(s, i);
    if j < s.len() && s[j] == 125 {
        Some(j + 1)
    } else {
        None
    }
}

/// A plain integer token that fits a machine word; fraction or exponent
/// parts, and magnitudes past `i64::MAX`, are rejected.
pub open spec fn spec_parse_int(s: Seq<u8>, i: int) -> Option<(i64, int)> {
    match spec_parse_number(s, i) {
        None => None,
        Some((d, isint, after)) => {
            if isint && d.mant <= 0x7fff_ffff_ffff_ffff {
                Some(
                    (
                        if d.neg {
                            (-(d.mant as int)) as i64
                        } else {
                            d.mant as i64
                        },
                        after,
                    ),
                )
            } else {
                None
            }
        },
    }
}

/// The range object `{"start": int, "end": int}`, fields in either order,
/// each exactly once.
pub open spec fn spec_parse_range(s: Seq<u8>, i: int) -> Option<(i64, i64, int)> {
    if !(0 <= i < s.len() && s[i] == 123) {
        None
    } else {
        match spec_member_key(s, i + 1) {
            None => None,
            Some((a, b, v)) => {
                let first_is_start = s.subrange(a, b) == "start".spec_bytes();
                let first_is_end = s.subrange(a, b) == "end".spec_bytes();
                if !first_is_start && !first_is_end {
                    None
                } else {
                    match spec_parse_int(s, v) {
                        None => None,
                        Some((x, af)) => match spec_comma(s, af) {
                            None => None,
                            Some(i2) => match spec_member_key(s, i2) {
                                None => None,
                                Some((a2, b2, v2)) => {
                                    let want = if first_is_start {
                                        "end".spec_bytes()
                                    } else {
                                        "start".spec_bytes()
                                    };
                                    if s.subrange(a2, b2) != want {
                                        None
                                    } else {
                                        match spec_parse_int(s, v2) {
                                            None => None,
                                            Some((y, af2)) => match spec_close_brace(s, af2) {
                                                None => None,
                                                Some(end) => if first_is_start {
                                                    Some((x, y, end))
                                                } else {
                                                    Some((y, x, end))
                                                },
                                            },
                                        }
                                    }
                                },
                            },
                        },
                    }
                }
            },
        }
    }
}

/// The uniform payload `{"range": {...}}`.
pub open spec fn spec_parse_uniform(s: Seq<u8>, i: int) -> Option<(i64, i64, int)> {
    if !(0 <= i < s.len() && s[i] == 123) {
        None
    } else {
        match spec_member_key(s, i + 1) {
            None => None,
            Some((a, b, v)) => {
                if s.subrange(a, b) != "range".spec_bytes() {
                    None
                } else {
                    match spec_parse_range(s, v) {
                        None => None,
                        Some((x, y, af)) => match spec_close_brace(s, af) {
                            None => None,
                            Some(end) => Some((x, y, end)),
                        },
                    }
                }
            },
        }
    }
}

/// The normal payload `{"mean": number, "std_dev": number}`, fields in
/// either order, each exactly once.
pub open spec fn spec_parse_normal(s: Seq<u8>, i: int) -> Option<(Dec, Dec, int)> {
    if !(0 <= i < s.len() && s[i] == 123) {
        None
    } else {
        match spec_member_key(s, i + 1) {
            None => None,
            Some((a, b, v)) => {
                let first_is_mean = s.subrange(a, b) == "mean".spec_bytes();
                let first_is_sd = s.subrange(a, b) == "std_dev".spec_bytes();
                if !first_is_mean && !first_is_sd {
                    None
                } else {
                    match spec_parse_number(s, v) {
                        None => None,
                        Some((x, xi, af)) => match spec_comma(s, af) {
                            None => None,
                            Some(i2) => match spec_member_key(s, i2) {
                                None => None,
                                Some((a2, b2, v2)) => {
                                    let want = if first_is_mean {
                                        "std_dev".spec_bytes()
                                    } else {
                                        "mean".spec_bytes()
                                    };
                                    if s.subrange(a2, b2) != want {
                                        None
                                    } else {
                                        match spec_parse_number(s, v2) {
                                            None => None,
                                            Some((y, yi, af2)) => match spec_close_brace(s, af2) {
                                                None => None,
                                                Some(end) => if first_is_mean {
                                                    Some((x, y, end))
                                                } else {
                                                    Some((y, x, end))
                                                },
                                            },
                                        }
                                    }
                                },
                            },
                        },
                    }
                }
            },
        }
    }
}

/// The Bernoulli payload `{"p": number}`.
pub open spec fn spec_parse_bernoulli(s: Seq<u8>, i: int) -> Option<(Dec, int)> {
    if !(0 <= i < s.len() && s[i] == 123) {
        None
    } else {
        match spec_member_key(s, i + 1) {
            None => None,
            Some((a, b, v)) => {
                if s.subrange(a, b) != "p".spec_bytes() {
                    None
                } else {
                    match spec_parse_number(s, v) {
                        None => None,
                        Some((x, xi, af)) => match spec_close_brace(s, af) {
                            None => None,
                            Some(end) => Some((x, end)),
                        },
                    }
                }
            },
        }
    }
}

/// Dispatches a payload on the tag's name.
pub open spec fn spec_params_by_tag(s: Seq<u8>, i: int, tag: Seq<u8>) -> Option<(RngRequest, int)> {
    if tag == "uniform".spec_bytes() {
        match spec_parse_uniform(s, i) {
            None => None,
            Some((x, y, af)) => Some((RngRequest::Uniform { start: x, end: y }, af)),
        }
    } else if tag == "normal".spec_bytes() {
        match spec_parse_normal(s, i) {
            None => None,
            Some((m, sd, af)) => Some((RngRequest::Normal { mean: m, std_dev: sd }, af)),
        }
    } else if tag == "bernoulli".spec_bytes() {
        match spec_parse_bernoulli(s, i) {
            None => None,
            Some((x, af)) => Some((RngRequest::Bernoulli { p: x }, af)),
        }
    } else {
        None
    }
}

/// The top object's closing brace, then only whitespace to the end.
pub open spec fn spec_finish(s: Seq<u8>, i: int, q: RngRequest) -> Option<RngRequest> {
    match spec_close_brace(s, i) {
        None => None,
        Some(e) => if ws_end(s, e) == s.len() {
            Some(q)
        } else {
            None
        },
    }
}

/// A whole request body: `{"distribution": tag, "parameters": {...}}`, the
/// two members in either order, nothing but whitespace around the object.
pub open spec fn spec_parse_request(s: Seq<u8>) -> Option<RngRequest> {
    let i = ws_end(s, 0);
    if !(i < s.len() && s[i] == 123) {
        None
    } else {
        match spec_member_key(s, i + 1) {
            None => None,
            Some((a, b, v)) => {
                if s.subrange(a, b) == name_distribution() {
                    match spec_parse_string(s, v) {
                        None => None,
                        Some((ta, tb)) => match spec_comma(s, tb + 1) {
                            None => None,
                            Some(i2) => match spec_member_key(s, i2) {
                                None => None,
                                Some((a2, b2, v2)) => {
                                    if s.subrange(a2, b2) != name_parameters() {
                                        None
                                    } else {
                                        match spec_params_by_tag(s, v2, s.subrange(ta, tb)) {
                                            None => None,
                                            Some((q, af)) => spec_finish(s, af, q),
                                        }
                                    }
                                },
                            },
                        },
                    }
                } else if s.subrange(a, b) == name_parameters() {
                    match spec_skip_value(s, v, 100) {
                        None => None,
                        Some(afp) => match spec_comma(s, afp) {
                            None => None,
                            Some(i2) => match spec_member_key(s, i2) {
                                None => None,
                                Some((a2, b2, v2)) => {
                                    if s.subrange(a2, b2) != name_distribution() {
                                        None
                                    } else {
                                        match spec_parse_string(s, v2) {
                                            None => None,
                                            Some((ta, tb)) => {
                                                match spec_params_by_tag(
                                                    s,
                                                    v,
                                                    s.subrange(ta, tb),
                                                ) {
                                                    None => None,
                                                    Some((q, af)) => spec_finish(s, tb + 1, q),
                                                }
                                            },
                                        }
                                    }
                                },
                            },
                        },
                    }
                } else {
                    None
                }
            },
        }
    }
}

/// Reads a comma separator, mirroring `spec_comma`.
fn parse_comma(s: &[u8], i: usize) -> (r: Option<usize>)
    requires
        i <= s@.len(),
    ensures
        match r {
            Some(a) => spec_comma(s@, i as int) == Some(a as int) && i < a <= s@.len(),
            None => spec_comma(s@, i as int) is None,
        },
{
    let n = s.len();
    let j = skip_ws(s, i);
    if j < n && s[j] == 44 {
        Some(j + 1)
    } else {
        None
    }
}

/// Reads a closing brace, mirroring `spec_close_brace`.
fn parse_close_brace(s: &[u8], i: usize) -> (r: Option<usize>)
    requires
        i <= s@.len(),
    ensures
        match r {
            Some(a) => spec_close_brace(s@, i as int) == Some(a as int) && i < a <= s@.len(),
            None => spec_close_brace(s@, i as int) is None,
        },
{
    let n = s.len();
    let j = skip_ws(s, i);
    if j < n && s[j] == 125 {
        Some(j + 1)
    } else {
        None
    }
}

/// Reads an integer token, mirroring `spec_parse_int`.
fn parse_int(s: &[u8], i: usize) -> (r: Option<(i64, usize)>)
    requires
        i <= s@.len(),
        s@.len() <= max_body_len(),
    ensures
        match r {
            Some((x, after)) => spec_parse_int(s@, i as int) == Some((x, after as int)) && i
                < after <= s@.len(),
            None => spec_parse_int(s@, i as int) is None,
        },
{
    match parse_number(s, i) {
        None => None,
        Some((d, isint, after)) => {
            if isint && d.mant <= 0x7fff_ffff_ffff_ffffu64 {
                let x: i64 = if d.neg {
                    -(d.mant as i64)
                } else {
                    d.mant as i64
                };
                Some((x, after))
            } else {
                None
            }
        },
    }
}

/// Reads a range object, mirroring `spec_parse_range`.
fn parse_range(s: &[u8], i: usize) -> (r: Option<(i64, i64, usize)>)
    requires
        i <= s@.len(),
        s@.len() <= max_body_len(),
    ensures
        match r {
            Some((x, y, after)) => spec_parse_range(s@, i as int) == Some(
                (x, y, after as int),
            ) && i < after <= s@.len(),
            None => spec_parse_range(s@, i as int) is None,
        },
{
    let n = s.len();
    if !(i < n && s[i] == 123) {
        return None;
    }
    match member_key(s, i + 1) {
        None => None,
        Some((a, b, v)) => {
            let first_is_start = crate::bytes::span_is(s, a, b, "start");
            let first_is_end = crate::bytes::span_is(s, a, b, "end");
            if !first_is_start && !first_is_end {
                return None;
            }
            match parse_int(s, v) {
                None => None,
                Some((x, af)) => match parse_comma(s, af) {
                    None => None,
                    Some(i2) => match member_key(s, i2) {
                        None => None,
                        Some((a2, b2, v2)) => {
                            let ok2 = if first_is_start {
                                crate::bytes::span_is(s, a2, b2, "end")
                            } else {
                                crate::bytes::span_is(s, a2, b2, "start")
                            };
                            if !ok2 {
                                return None;
                            }
                            match parse_int(s, v2) {
                                None => None,
                                Some((y, af2)) => match parse_close_brace(s, af2) {
                                    None => None,
                                    Some(end) => if first_is_start {
                                        Some((x, y, end))
                                    } else {
                                        Some((y, x, end))
                                    },
                                },
                            }
                        },
                    },
                },
            }
        },
    }
}

/// Reads a uniform payload, mirroring `spec_parse_uniform`.
fn parse_uniform(s: &[u8], i: usize) -> (r: Option<(i64, i64, usize)>)
    requires
        i <= s@.len(),
        s@.len() <= max_body_len(),
    ensures
        match r {
            Some((x, y, after)) => spec_parse_uniform(s@, i as int) == Some(
                (x, y, after as int),
            ) && i < after <= s@.len(),
            None => spec_parse_uniform(s@, i as int) is None,
        },
{
    let n = s.len();
    if !(i < n && s[i] == 123) {
        return None;
    }
    match member_key(s, i + 1) {
        None => None,
        Some((a, b, v)) => {
            if !crate::bytes::span_is(s, a, b, "range") {
                return None;
            }
            match parse_range(s, v) {
                None => None,
                Some((x, y, af)) => match parse_close_brace(s, af) {
                    None => None,
                    Some(end) => Some((x, y, end)),
                },
            }
        },
    }
}

/// Reads a normal payload, mirroring `spec_parse_normal`.
fn parse_normal(s: &[u8], i: usize) -> (r: Option<(Dec, Dec, usize)>)
    requires
        i <= s@.len(),
        s@.len() <= max_body_len(),
    ensures
        match r {
            Some((m, sd, after)) => spec_parse_normal(s@, i as int) == Some(
                (m, sd, after as int),
            ) && i < after <= s@.len(),
            None => spec_parse_normal(s@, i as int) is None,
        },
{
    let n = s.len();
    if !(i < n && s[i] == 123) {
        return None;
    }
    match member_key(s, i + 1) {
        None => None,
        Some((a, b, v)) => {
            let first_is_mean = crate::bytes::span_is(s, a, b, "mean");
            let first_is_sd = crate::bytes::span_is(s, a, b, "std_dev");
            if !first_is_mean && !first_is_sd {
                return None;
            }
            match parse_number(s, v) {
                None => None,
                Some((x, xi, af)) => match parse_comma(s, af) {
                    None => None,
                    Some(i2) => match member_key(s, i2) {
                        None => None,
                        Some((a2, b2, v2)) => {
                            let ok2 = if first_is_mean {
                                crate::bytes::span_is(s, a2, b2, "std_dev")
                            } else {
                                crate::bytes::span_is(s, a2, b2, "mean")
                            };
                            if !ok2 {
                                return None;
                            }
                            match parse_number(s, v2) {
                                None => None,
                                Some((y, yi, af2)) => match parse_close_brace(s, af2) {
                                    None => None,
                                    Some(end) => if first_is_mean {
                                        Some((x, y, end))
                                    } else {
                                        Some((y, x, end))
                                    },
                                },
                            }
                        },
                    },
                },
            }
        },
    }
}

/// Reads a Bernoulli payload, mirroring `spec_parse_bernoulli`.
fn parse_bernoulli(s: &[u8], i: usize) -> (r: Option<(Dec, usize)>)
    requires
        i <= s@.len(),
        s@.len() <= max_body_len(),
    ensures
        match r {
            Some((x, after)) => spec_parse_bernoulli(s@, i as int) == Some((x, after as int)) && i
                < after <= s@.len(),
            None => spec_parse_bernoulli(s@, i as int) is None,
        },
{
    let n = s.len();
    if !(i < n && s[i] == 123) {
        return None;
    }
    match member_key(s, i + 1) {
        None => None,
        Some((a, b, v)) => {
            if !crate::bytes::span_is(s, a, b, "p") {
                return None;
            }
            match parse_number(s, v) {
                None => None,
                Some((x, xi, af)) => match parse_close_brace(s, af) {
                    None => None,
                    Some(end) => Some((x, end)),
                },
            }
        },
    }
}

/// Dispatches a payload on the tag span, mirroring `spec_params_by_tag`.
fn params_by_tag(s: &[u8], i: usize, ta: usize, tb: usize) -> (r: Option<(RngRequest, usize)>)
    requires
        i <= s@.len(),
        ta <= tb <= s@.len(),
        s@.len() <= max_body_len(),
    ensures
        match r {
            Some((q, after)) => spec_params_by_tag(
                s@,
                i as int,
                s@.subrange(ta as int, tb as int),
            ) == Some((q, after as int)) && i < after <= s@.len(),
            None => spec_params_by_tag(s@, i as int, s@.subrange(ta as int, tb as int)) is None,
        },
{
    if crate::bytes::span_is(s, ta, tb, "uniform") {
        match parse_uniform(s, i) {
            None => None,
            Some((x, y, af)) => Some((RngRequest::Uniform { start: x, end: y }, af)),
        }
    } else if crate::bytes::span_is(s, ta, tb, "normal") {
        match parse_normal(s, i) {
            None => None,
            Some((m, sd, af)) => Some((RngRequest::Normal { mean: m, std_dev: sd }, af)),
        }
    } else if crate::bytes::span_is(s, ta, tb, "bernoulli") {
        match parse_bernoulli(s, i) {
            None => None,
            Some((x, af)) => Some((RngRequest::Bernoulli { p: x }, af)),
        }
    } else {
        None
    }
}

/// Reads the object's end and the trailing whitespace, mirroring
/// `spec_finish`.
fn parse_finish(s: &[u8], i: usize, q: RngRequest) -> (r: Option<RngRequest>)
    requires
        i <= s@.len(),
    ensures
        r == spec_finish(s@, i as int, q),
{
    match parse_close_brace(s, i) {
        None => None,
        Some(e) => {
            let j = skip_ws(s, e);
            if j == s.len() {
                Some(q)
            } else {
                None
            }
        },
    }
}

/// Reads a whole request body into a distribution descriptor, mirroring
/// `spec_parse_request`: `{"distribution": tag, "parameters": {...}}`, the
/// members in either order, whitespace free, anything else rejected.
#[verifier::rlimit(60)]
pub fn parse_rng_request(s: &[u8]) -> (r: Option<RngRequest>)
    requires
        s@.len() <= max_body_len(),
    ensures
        r == spec_parse_request(s@),
{
    let n = s.len();
    let i = skip_ws(s, 0);
    if !(i < n && s[i] == 123) {
        return None;
    }
    match member_key(s, i + 1) {
        None => None,
        Some((a, b, v)) => {
            if crate::bytes::span_is(s, a, b, "distribution") {
                match parse_string(s, v) {
                    None => None,
                    Some((ta, tb)) => match parse_comma(s, tb + 1) {
                        None => None,
                        Some(i2) => match member_key(s, i2) {
                            None => None,
                            Some((a2, b2, v2)) => {
                                if !crate::bytes::span_is(s, a2, b2, "parameters") {
                                    return None;
                                }
                                match params_by_tag(s, v2, ta, tb) {
                                    None => None,
                                    Some((q, af)) => parse_finish(s, af, q),
                                }
                            },
                        },
                    },
                }
            } else if crate::bytes::span_is(s, a, b, "parameters") {
                match skip_value(s, v, 100) {
                    None => None,
                    Some(afp) => match parse_comma(s, afp) {
                        None => None,
                        Some(i2) => match member_key(s, i2) {
                            None => None,
                            Some((a2, b2, v2)) => {
                                if !crate::bytes::span_is(s, a2, b2, "distribution") {
                                    return None;
                                }
                                match parse_string(s, v2) {
                                    None => None,
                                    Some((ta, tb)) => {
                                        match params_by_tag(s, v, ta, tb) {
                                            None => None,
                                            Some((q, af)) => parse_finish(s, tb + 1, q),
                                        }
                                    },
                                }
                            },
                        },
                    },
                }
            } else {
                None
            }
        },
    }
}

} // verus!
