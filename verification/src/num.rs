//! Exact decimal numbers.
//!
//! The numeric sort of the expression language holds decimal values parsed
//! from text: a sign, a normalised digit string and a decimal exponent, so
//! that the denoted value is `0.d1..dk * 10^exp` (negated when `neg`).
//! Comparison is exact decimal comparison; no floating point is involved.

use vstd::prelude::*;

verus! {

/// The mathematical content of a decimal value.
pub ghost struct DecV {
    pub neg: bool,
    pub digits: Seq<u8>,
    pub exp: int,
}

/// An exact decimal number. Zero is represented with an empty digit string,
/// a positive sign and exponent 0.
pub struct Dec {
    pub neg: bool,
    pub digits: Vec<u8>,
    pub exp: i128,
}

impl View for Dec {
    type V = DecV;

    open spec fn view(&self) -> DecV {
        DecV { neg: self.neg, digits: self.digits@, exp: self.exp as int }
    }
}

impl DeepView for Dec {
    type V = DecV;

    open spec fn deep_view(&self) -> DecV {
        self@
    }
}

/// A well-formed decimal: no leading or trailing zero digit, zero itself
/// written in one canonical way, every digit below ten.
pub open spec fn dec_normalized(d: DecV) -> bool {
    &&& (if d.digits.len() == 0 {
        !d.neg && d.exp == 0
    } else {
        d.digits[0] != 0 && d.digits.last() != 0
    })
    &&& forall|i: int| 0 <= i < d.digits.len() ==> #[trigger] d.digits[i] < 10
}

/// Drops leading zero digits.
pub open spec fn strip_lead(ds: Seq<u8>) -> Seq<u8>
    decreases ds.len(),
{
    if ds.len() > 0 && ds[0] == 0 {
        strip_lead(ds.drop_first())
    } else {
        ds
    }
}

/// Drops trailing zero digits.
pub open spec fn strip_trail(ds: Seq<u8>) -> Seq<u8>
    decreases ds.len(),
{
    if ds.len() > 0 && ds.last() == 0 {
        strip_trail(ds.drop_last())
    } else {
        ds
    }
}

/// The normalised decimal with sign `neg` and value `0.ds * 10^p`.
pub open spec fn norm_dec(neg: bool, ds: Seq<u8>, p: int) -> DecV {
    let stripped = strip_lead(ds);
    let lead = ds.len() - stripped.len();
    let core = strip_trail(stripped);
    if core.len() == 0 {
        DecV { neg: false, digits: Seq::empty(), exp: 0 }
    } else {
        DecV { neg, digits: core, exp: p - lead }
    }
}

proof fn lemma_strip_lead_shape(ds: Seq<u8>)
    ensures
        strip_lead(ds).len() <= ds.len(),
        strip_lead(ds) == ds.skip(ds.len() - strip_lead(ds).len()),
        strip_lead(ds).len() > 0 ==> strip_lead(ds)[0] != 0,
        forall|j: int|
            0 <= j < ds.len() - strip_lead(ds).len() ==> #[trigger] ds[j] == 0,
    decreases ds.len(),
{
    if ds.len() > 0 && ds[0] == 0 {
        lemma_strip_lead_shape(ds.drop_first());
        let r = strip_lead(ds);
        assert(ds.drop_first().skip(ds.drop_first().len() - r.len()) =~= ds.skip(
            ds.len() - r.len(),
        ));
        assert forall|j: int| 0 <= j < ds.len() - r.len() implies #[trigger] ds[j] == 0 by {
            if j > 0 {
                assert(ds.drop_first()[j - 1] == 0);
            }
        }
    } else {
        assert(ds.skip(0) =~= ds);
    }
}

proof fn lemma_strip_trail_shape(ds: Seq<u8>)
    ensures
        strip_trail(ds).len() <= ds.len(),
        strip_trail(ds) == ds.take(strip_trail(ds).len() as int),
        strip_trail(ds).len() > 0 ==> strip_trail(ds).last() != 0,
        forall|j: int|
            strip_trail(ds).len() <= j < ds.len() ==> #[trigger] ds[j] == 0,
    decreases ds.len(),
{
    if ds.len() > 0 && ds.last() == 0 {
        lemma_strip_trail_shape(ds.drop_last());
        let r = strip_trail(ds);
        assert(ds.drop_last().take(r.len() as int) =~= ds.take(r.len() as int));
        assert forall|j: int| r.len() <= j < ds.len() implies #[trigger] ds[j] == 0 by {
            if j < ds.len() - 1 {
                assert(ds.drop_last()[j] == 0);
            }
        }
    } else {
        assert(ds.take(ds.len() as int) =~= ds);
    }
}

/// Normalisation yields a well-formed decimal.
pub proof fn lemma_norm_dec_normalized(neg: bool, ds: Seq<u8>, p: int)
    requires
        forall|i: int| 0 <= i < ds.len() ==> #[trigger] ds[i] < 10,
    ensures
        dec_normalized(norm_dec(neg, ds, p)),
{
    lemma_strip_lead_shape(ds);
    let stripped = strip_lead(ds);
    lemma_strip_trail_shape(stripped);
    let core = strip_trail(stripped);
    if core.len() > 0 {
        assert(core[0] == stripped[0]);
        assert forall|i: int| 0 <= i < core.len() implies #[trigger] core[i] < 10 by {
            assert(core[i] == stripped[i]);
            assert(stripped[i] == ds[ds.len() - stripped.len() + i]);
        }
    }
}

/// Normalisation keeps the sign of a non-zero value and never raises the
/// exponent.
pub proof fn lemma_norm_dec_bounds(neg: bool, ds: Seq<u8>, p: int)
    ensures
        norm_dec(neg, ds, p).digits.len() == 0 ==> norm_dec(neg, ds, p) == (DecV {
            neg: false,
            digits: Seq::<u8>::empty(),
            exp: 0,
        }),
        norm_dec(neg, ds, p).digits.len() > 0 ==> norm_dec(neg, ds, p).neg == neg && norm_dec(
            neg,
            ds,
            p,
        ).exp <= p,
{
    lemma_strip_lead_shape(ds);
    lemma_strip_trail_shape(strip_lead(ds));
}

/// Builds the normalised decimal from raw digits.
pub fn make_dec(neg: bool, digits: Vec<u8>, p: i128) -> (d: Dec)
    requires
        forall|i: int| 0 <= i < digits@.len() ==> #[trigger] digits@[i] < 10,
        -0x1_0000_0000_0000_0000_0000i128 <= p <= 0x1_0000_0000_0000_0000_0000i128,
    ensures
        d@ == norm_dec(neg, digits@, p as int),
        dec_normalized(d@),
{
    proof {
        lemma_strip_lead_shape(digits@);
        lemma_norm_dec_normalized(neg, digits@, p as int);
    }
    let mut a: usize = 0;
    while a < digits.len() && digits[a] == 0
        invariant
            0 <= a <= digits@.len(),
            forall|j: int| 0 <= j < a ==> #[trigger] digits@[j] == 0,
        decreases digits@.len() - a,
    {
        a = a + 1;
    }
    proof {
        assert(strip_lead(digits@).len() <= digits@.len() - a || strip_lead(digits@)
            == digits@.skip(a as int)) by {
            if a < digits@.len() {
                assert(digits@[a as int] != 0);
                if digits@.len() - strip_lead(digits@).len() > a {
                    assert(digits@[a as int] == 0);
                }
                if digits@.len() - strip_lead(digits@).len() < a {
                    let k = digits@.len() - strip_lead(digits@).len();
                    assert(strip_lead(digits@)[0] == digits@[k]);
                    assert(digits@[k] == 0);
                    assert(strip_lead(digits@)[0] != 0);
                }
                assert(digits@.len() - strip_lead(digits@).len() == a);
                assert(strip_lead(digits@) == digits@.skip(a as int));
            } else {
                if strip_lead(digits@).len() > 0 {
                    let k = digits@.len() - strip_lead(digits@).len();
                    assert(strip_lead(digits@)[0] == digits@[k]);
                    assert(digits@[k] == 0);
                }
                assert(strip_lead(digits@) =~= digits@.skip(a as int));
            }
        }
        assert(strip_lead(digits@) == digits@.skip(a as int));
    }
    let stripped = crate::strutil::subvec_u8(&digits, a, digits.len());
    proof {
        lemma_strip_trail_shape(stripped@);
    }
    let mut b: usize = stripped.len();
    while b > 0 && stripped[b - 1] == 0
        invariant
            0 <= b <= stripped@.len(),
            forall|j: int| b <= j < stripped@.len() ==> #[trigger] stripped@[j] == 0,
        decreases b,
    {
        b = b - 1;
    }
    proof {
        assert(strip_trail(stripped@) == stripped@.take(b as int)) by {
            if b > 0 {
                assert(stripped@[b - 1] != 0);
                if strip_trail(stripped@).len() > b {
                    assert(stripped@[b - 1] == 0) by {
                        assert(strip_trail(stripped@)[b - 1] == stripped@[b - 1]);
                    }
                    assert(false);
                }
                if strip_trail(stripped@).len() < b {
                    assert(stripped@[b - 1] == 0);
                    assert(false);
                }
                assert(strip_trail(stripped@) == stripped@.take(b as int));
            } else {
                if strip_trail(stripped@).len() > 0 {
                    assert(strip_trail(stripped@).last() == stripped@[strip_trail(
                        stripped@,
                    ).len() - 1]);
                    assert(stripped@[strip_trail(stripped@).len() - 1] == 0);
                }
                assert(strip_trail(stripped@) =~= stripped@.take(0));
            }
        }
    }
    let core = crate::strutil::subvec_u8(&stripped, 0, b);
    proof {
        assert(stripped@.subrange(0, b as int) =~= stripped@.take(b as int));
        assert(core@ == strip_trail(strip_lead(digits@)));
        assert(digits@.len() - strip_lead(digits@).len() == a);
    }
    if core.len() == 0 {
        proof {
            assert(core@ =~= Seq::<u8>::empty());
        }
        Dec { neg: false, digits: core, exp: 0 }
    } else {
        let lead = a as i128;
        Dec { neg, digits: core, exp: p - lead }
    }
}

/// A decimal digit character.
pub open spec fn is_digit_char(c: char) -> bool {
    '0' <= c && c <= '9'
}

/// The first index at or after `i` that does not hold a digit.
pub open spec fn digits_end(s: Seq<char>, i: int) -> int
    decreases s.len() + 1 - i,
{
    if i < 0 || i >= s.len() || !is_digit_char(s[i]) {
        i
    } else {
        digits_end(s, i + 1)
    }
}

proof fn lemma_digits_end_bounds(s: Seq<char>, i: int)
    requires
        0 <= i <= s.len(),
    ensures
        i <= digits_end(s, i) <= s.len(),
        forall|j: int| i <= j < digits_end(s, i) ==> is_digit_char(#[trigger] s[j]),
    decreases s.len() + 1 - i,
{
    if !(i >= s.len() || !is_digit_char(s[i])) {
        lemma_digits_end_bounds(s, i + 1);
    }
}

/// The digit values of the characters of `s` in `[a, b)`.
pub open spec fn digit_seq(s: Seq<char>, a: int, b: int) -> Seq<u8> {
    s.subrange(a, b).map_values(|c: char| (c as int - 48) as u8)
}

/// The natural number denoted by a digit string.
pub open spec fn to_nat_digits(ds: Seq<u8>) -> int
    decreases ds.len(),
{
    if ds.len() == 0 {
        0
    } else {
        to_nat_digits(ds.drop_last()) * 10 + ds.last()
    }
}

/// Powers of ten.
pub open spec fn pow10(n: nat) -> int
    decreases n,
{
    if n == 0 {
        1
    } else {
        10 * pow10((n - 1) as nat)
    }
}

proof fn lemma_to_nat_digits_bound(ds: Seq<u8>)
    requires
        forall|i: int| 0 <= i < ds.len() ==> #[trigger] ds[i] < 10,
    ensures
        0 <= to_nat_digits(ds) < pow10(ds.len()),
    decreases ds.len(),
{
    if ds.len() > 0 {
        assert forall|i: int| 0 <= i < ds.drop_last().len() implies #[trigger] ds.drop_last()[i]
            < 10 by {
            assert(ds.drop_last()[i] == ds[i]);
        }
        lemma_to_nat_digits_bound(ds.drop_last());
        assert(ds.last() < 10);
    }
}

/// The decimal denoted by a numeric literal: optional sign, digits with an
/// optional fraction part, and an optional exponent of at most sixteen
/// digits. `None` when the text is not such a literal.
pub open spec fn parse_dec(s: Seq<char>) -> Option<DecV> {
    let signed = s.len() > 0 && (s[0] == '+' || s[0] == '-');
    let neg = s.len() > 0 && s[0] == '-';
    let i0: int = if signed {
        1
    } else {
        0
    };
    let i1 = digits_end(s, i0);
    let dot = i1 < s.len() && s[i1] == '.';
    let fs: int = if dot {
        i1 + 1
    } else {
        i1
    };
    let i2 = digits_end(s, fs);
    let mantissa = digit_seq(s, i0, i1) + digit_seq(s, fs, i2);
    if mantissa.len() == 0 {
        None
    } else if i2 == s.len() {
        Some(norm_dec(neg, mantissa, i1 - i0))
    } else if s[i2] == 'e' || s[i2] == 'E' {
        let esigned = i2 + 1 < s.len() && (s[i2 + 1] == '+' || s[i2 + 1] == '-');
        let eneg = i2 + 1 < s.len() && s[i2 + 1] == '-';
        let e0: int = if esigned {
            i2 + 2
        } else {
            i2 + 1
        };
        let e1 = digits_end(s, e0);
        if e1 == s.len() && e1 > e0 && e1 - e0 <= 16 {
            let ev = to_nat_digits(digit_seq(s, e0, e1));
            Some(
                norm_dec(
                    neg,
                    mantissa,
                    i1 - i0 + (if eneg {
                        -ev
                    } else {
                        ev
                    }),
                ),
            )
        } else {
            None
        }
    } else {
        None
    }
}

/// Executable test for `is_digit_char`.
fn digit_char(c: char) -> (r: bool)
    ensures
        r == is_digit_char(c),
{
    '0' <= c && c <= '9'
}

/// Scans past digits, returning the first non-digit position.
fn scan_digits(s: &Vec<char>, i: usize) -> (r: usize)
    requires
        i <= s@.len(),
    ensures
        r == digits_end(s@, i as int),
        i <= r <= s@.len(),
{
    let mut k: usize = i;
    while k < s.len() && digit_char(s[k])
        invariant
            i <= k <= s@.len(),
            s@.len() == s.len(),
            digits_end(s@, i as int) == digits_end(s@, k as int),
        decreases s@.len() - k,
    {
        k = k + 1;
    }
    k
}

/// Collects the digit values of `s` in `[a, b)`.
fn collect_digits(s: &Vec<char>, a: usize, b: usize) -> (r: Vec<u8>)
    requires
        a <= b <= s@.len(),
        forall|j: int| a <= j < b ==> is_digit_char(#[trigger] s@[j]),
    ensures
        r@ == digit_seq(s@, a as int, b as int),
        forall|i: int| 0 <= i < r@.len() ==> #[trigger] r@[i] < 10,
{
    let mut r: Vec<u8> = Vec::new();
    let mut i: usize = a;
    proof {
        assert(r@ =~= digit_seq(s@, a as int, a as int));
    }
    while i < b
        invariant
            a <= i <= b <= s@.len(),
            forall|j: int| a <= j < b ==> is_digit_char(#[trigger] s@[j]),
            r@ == digit_seq(s@, a as int, i as int),
            forall|k: int| 0 <= k < r@.len() ==> #[trigger] r@[k] < 10,
        decreases b - i,
    {
        let c = s[i];
        proof {
            assert(is_digit_char(c));
        }
        let d: u8 = ((c as u32) - 48) as u8;
        proof {
            assert(c as int >= 48 && c as int <= 57);
            assert(d == (c as int - 48) as u8);
            assert(d < 10);
        }
        r.push(d);
        proof {
            assert(digit_seq(s@, a as int, i + 1) =~= digit_seq(s@, a as int, i as int).push(
                (s@[i as int] as int - 48) as u8,
            ));
        }
        i = i + 1;
    }
    r
}

proof fn lemma_pow10_mono(a: nat, b: nat)
    requires
        a <= b,
    ensures
        0 < pow10(a) <= pow10(b),
    decreases b,
{
    if b > 0 {
        if a == b {
            lemma_pow10_mono((a - 1) as nat, (b - 1) as nat);
        } else {
            lemma_pow10_mono(a, (b - 1) as nat);
        }
    }
}

/// Reads the value of a short digit string.
fn digits_value(ds: &Vec<u8>) -> (r: u64)
    requires
        ds@.len() <= 16,
        forall|i: int| 0 <= i < ds@.len() ==> #[trigger] ds@[i] < 10,
    ensures
        r == to_nat_digits(ds@),
        r < 0x2386F26FC10000u64,
{
    proof {
        reveal_with_fuel(pow10, 18);
        assert(pow10(16) == 0x2386F26FC10000);
    }
    let mut val: u64 = 0;
    let mut i: usize = 0;
    proof {
        assert(ds@.take(0) =~= Seq::<u8>::empty());
    }
    while i < ds.len()
        invariant
            0 <= i <= ds@.len(),
            ds@.len() <= 16,
            ds@.len() == ds.len(),
            forall|k: int| 0 <= k < ds@.len() ==> #[trigger] ds@[k] < 10,
            val == to_nat_digits(ds@.take(i as int)),
            val < 0x2386F26FC10000u64,
        decreases ds@.len() - i,
    {
        proof {
            assert forall|k: int| 0 <= k < ds@.take(i + 1).len() implies #[trigger] ds@.take(
                i + 1,
            )[k] < 10 by {
                assert(ds@.take(i + 1)[k] == ds@[k]);
            }
            assert(ds@.take(i + 1).drop_last() =~= ds@.take(i as int));
            assert(ds@.take(i + 1).last() == ds@[i as int]);
            lemma_to_nat_digits_bound(ds@.take(i as int));
            lemma_to_nat_digits_bound(ds@.take(i + 1));
            lemma_pow10_mono((i + 1) as nat, 16);
            reveal_with_fuel(pow10, 18);
            assert(to_nat_digits(ds@.take(i + 1)) < pow10(16));
        }
        val = val * 10 + (ds[i] as u64);
        i = i + 1;
    }
    proof {
        assert(ds@.take(ds@.len() as int) =~= ds@);
    }
    val
}

/// Parses a numeric literal into its exact decimal value.
#[verifier::rlimit(60)]
pub fn parse_dec_chars(s: &Vec<char>) -> (r: Option<Dec>)
    ensures
        match r {
            Some(d) => parse_dec(s@) == Some(d@) && dec_normalized(d@),
            None => parse_dec(s@) is None,
        },
{
    let n = s.len();
    let signed = n > 0 && (s[0] == '+' || s[0] == '-');
    let neg = n > 0 && s[0] == '-';
    let i0: usize = if signed {
        1
    } else {
        0
    };
    let i1 = scan_digits(s, i0);
    let dot = i1 < n && s[i1] == '.';
    let fs: usize = if dot {
        i1 + 1
    } else {
        i1
    };
    let i2 = scan_digits(s, fs);
    proof {
        lemma_digits_end_bounds(s@, i0 as int);
        lemma_digits_end_bounds(s@, fs as int);
    }
    let mut mantissa = collect_digits(s, i0, i1);
    let frac = collect_digits(s, fs, i2);
    let ghost m0 = mantissa@;
    let mut k: usize = 0;
    while k < frac.len()
        invariant
            0 <= k <= frac@.len(),
            mantissa@ == m0 + frac@.take(k as int),
        decreases frac@.len() - k,
    {
        mantissa.push(frac[k]);
        proof {
            assert(m0 + frac@.take(k + 1) =~= (m0 + frac@.take(k as int)).push(frac@[k as int]));
        }
        k = k + 1;
    }
    proof {
        assert(frac@.take(frac@.len() as int) =~= frac@);
        assert(mantissa@ == digit_seq(s@, i0 as int, i1 as int) + digit_seq(
            s@,
            fs as int,
            i2 as int,
        ));
        assert forall|j: int| 0 <= j < mantissa@.len() implies #[trigger] mantissa@[j] < 10 by {
            if j < m0.len() {
                assert(mantissa@[j] == m0[j]);
            } else {
                assert(mantissa@[j] == frac@[j - m0.len()]);
            }
        }
    }
    if mantissa.len() == 0 {
        return None;
    }
    if i2 == n {
        let d = make_dec(neg, mantissa, i1 as i128 - i0 as i128);
        return Some(d);
    }
    let ec = s[i2];
    if ec == 'e' || ec == 'E' {
        let esigned = i2 + 1 < n && (s[i2 + 1] == '+' || s[i2 + 1] == '-');
        let eneg = i2 + 1 < n && s[i2 + 1] == '-';
        let e0: usize = if esigned {
            i2 + 2
        } else {
            i2 + 1
        };
        if e0 > n {
            proof {
                assert(digits_end(s@, e0 as int) == e0);
            }
            return None;
        }
        let e1 = scan_digits(s, e0);
        proof {
            lemma_digits_end_bounds(s@, e0 as int);
        }
        if e1 == n && e1 > e0 && e1 - e0 <= 16 {
            let eds = collect_digits(s, e0, e1);
            let ev = digits_value(&eds);
            let expo: i128 = if eneg {
                i1 as i128 - i0 as i128 - ev as i128
            } else {
                i1 as i128 - i0 as i128 + ev as i128
            };
            let d = make_dec(neg, mantissa, expo);
            return Some(d);
        }
        return None;
    }
    None
}

/// Magnitude order on two normalised decimals of the same sign.
pub open spec fn digits_lt(a: Seq<u8>, b: Seq<u8>) -> bool
    decreases a.len(),
{
    if b.len() == 0 {
        false
    } else if a.len() == 0 {
        true
    } else if a[0] < b[0] {
        true
    } else if b[0] < a[0] {
        false
    } else {
        digits_lt(a.drop_first(), b.drop_first())
    }
}

/// `|a| < |b|` for normalised decimals.
pub open spec fn mag_lt(a: DecV, b: DecV) -> bool {
    if a.digits.len() == 0 {
        b.digits.len() > 0
    } else if b.digits.len() == 0 {
        false
    } else if a.exp != b.exp {
        a.exp < b.exp
    } else {
        digits_lt(a.digits, b.digits)
    }
}

/// Exact order on normalised decimals.
pub open spec fn dec_lt(a: DecV, b: DecV) -> bool {
    if a.neg != b.neg {
        a.neg
    } else if a.neg {
        mag_lt(b, a)
    } else {
        mag_lt(a, b)
    }
}

proof fn lemma_digits_lt_connected(a: Seq<u8>, b: Seq<u8>)
    ensures
        !digits_lt(a, b) && !digits_lt(b, a) ==> a == b,
        digits_lt(a, b) ==> !digits_lt(b, a),
    decreases a.len(),
{
    if a.len() > 0 && b.len() > 0 {
        lemma_digits_lt_connected(a.drop_first(), b.drop_first());
        if !digits_lt(a, b) && !digits_lt(b, a) {
            assert(a[0] == b[0]);
            assert(a.drop_first() == b.drop_first());
            assert(a =~= seq![a[0]] + a.drop_first());
            assert(b =~= seq![b[0]] + b.drop_first());
        }
    } else if a.len() == 0 && b.len() == 0 {
        assert(a =~= b);
    }
}

/// Three-way comparison of digit strings.
fn digits_cmp(a: &Vec<u8>, b: &Vec<u8>) -> (r: i8)
    ensures
        r == -1i8 <==> digits_lt(a@, b@),
        r == 1i8 <==> digits_lt(b@, a@),
        r == 0i8 <==> a@ == b@,
{
    let mut i: usize = 0;
    proof {
        assert(a@.skip(0) =~= a@);
        assert(b@.skip(0) =~= b@);
    }
    loop
        invariant
            0 <= i <= a.len(),
            i <= b.len(),
            a@.take(i as int) == b@.take(i as int),
            digits_lt(a@, b@) == digits_lt(a@.skip(i as int), b@.skip(i as int)),
            digits_lt(b@, a@) == digits_lt(b@.skip(i as int), a@.skip(i as int)),
        decreases a.len() - i,
    {
        proof {
            lemma_digits_lt_connected(a@, b@);
            lemma_digits_lt_connected(b@, a@);
        }
        if i == a.len() || i == b.len() {
            if a.len() == b.len() {
                proof {
                    assert(a@.take(i as int) =~= a@);
                    assert(b@.take(i as int) =~= b@);
                }
                return 0;
            } else if i == a.len() {
                proof {
                    assert(digits_lt(a@.skip(i as int), b@.skip(i as int)));
                }
                return -1;
            } else {
                proof {
                    assert(digits_lt(b@.skip(i as int), a@.skip(i as int)));
                }
                return 1;
            }
        }
        let x = a[i];
        let y = b[i];
        proof {
            assert(a@.skip(i as int)[0] == a@[i as int]);
            assert(b@.skip(i as int)[0] == b@[i as int]);
        }
        if x < y {
            return -1;
        } else if y < x {
            return 1;
        }
        proof {
            assert(a@.skip(i as int).drop_first() =~= a@.skip(i + 1));
            assert(b@.skip(i as int).drop_first() =~= b@.skip(i + 1));
            assert(a@.take(i + 1) =~= a@.take(i as int).push(x));
            assert(b@.take(i + 1) =~= b@.take(i as int).push(y));
        }
        i = i + 1;
    }
}

proof fn lemma_digits_lt_trans(a: Seq<u8>, b: Seq<u8>, c: Seq<u8>)
    ensures
        digits_lt(a, b) && digits_lt(b, c) ==> digits_lt(a, c),
    decreases a.len(),
{
    if a.len() > 0 && b.len() > 0 && c.len() > 0 {
        lemma_digits_lt_trans(a.drop_first(), b.drop_first(), c.drop_first());
    }
}

/// The decimal order is irreflexive.
pub proof fn lemma_dec_lt_irreflexive(a: DecV)
    ensures
        !dec_lt(a, a),
{
    lemma_digits_lt_connected(a.digits, a.digits);
}

proof fn lemma_mag_lt_trans(a: DecV, b: DecV, c: DecV)
    requires
        mag_lt(a, b),
        mag_lt(b, c),
    ensures
        mag_lt(a, c),
{
    if a.digits.len() == 0 {
        assert(b.digits.len() > 0);
        assert(c.digits.len() > 0);
    } else {
        assert(b.digits.len() > 0);
        assert(c.digits.len() > 0);
        if a.exp == b.exp && b.exp == c.exp {
            lemma_digits_lt_trans(a.digits, b.digits, c.digits);
        }
    }
}

/// The decimal order is transitive.
pub proof fn lemma_dec_lt_trans(a: DecV, b: DecV, c: DecV)
    requires
        dec_lt(a, b),
        dec_lt(b, c),
    ensures
        dec_lt(a, c),
{
    if a.neg == b.neg && b.neg == c.neg {
        if a.neg {
            lemma_mag_lt_trans(c, b, a);
        } else {
            lemma_mag_lt_trans(a, b, c);
        }
    }
}

/// A successfully parsed literal is normalised.
pub proof fn lemma_parse_dec_normalized(s: Seq<char>)
    ensures
        parse_dec(s) matches Some(d) ==> dec_normalized(d),
{
    if parse_dec(s) is Some {
        let signed = s.len() > 0 && (s[0] == '+' || s[0] == '-');
        let i0: int = if signed {
            1
        } else {
            0
        };
        let i1 = digits_end(s, i0);
        let dot = i1 < s.len() && s[i1] == '.';
        let fs: int = if dot {
            i1 + 1
        } else {
            i1
        };
        let i2 = digits_end(s, fs);
        lemma_digits_end_bounds(s, i0);
        lemma_digits_end_bounds(s, fs);
        let mantissa = digit_seq(s, i0, i1) + digit_seq(s, fs, i2);
        assert forall|k: int| 0 <= k < mantissa.len() implies #[trigger] mantissa[k] < 10 by {
            if k < digit_seq(s, i0, i1).len() {
                assert(mantissa[k] == (s.subrange(i0, i1)[k] as int - 48) as u8);
                assert(is_digit_char(s[i0 + k]));
            } else {
                let k2 = k - digit_seq(s, i0, i1).len();
                assert(mantissa[k] == (s.subrange(fs, i2)[k2] as int - 48) as u8);
                assert(is_digit_char(s[fs + k2]));
            }
        }
        lemma_norm_dec_normalized(false, mantissa, i1 - i0);
        lemma_norm_dec_normalized(true, mantissa, i1 - i0);
        if !(i2 == s.len()) {
            let esigned = i2 + 1 < s.len() && (s[i2 + 1] == '+' || s[i2 + 1] == '-');
            let eneg = i2 + 1 < s.len() && s[i2 + 1] == '-';
            let e0: int = if esigned {
                i2 + 2
            } else {
                i2 + 1
            };
            let e1 = digits_end(s, e0);
            let ev = to_nat_digits(digit_seq(s, e0, e1));
            lemma_norm_dec_normalized(
                false,
                mantissa,
                i1 - i0 + (if eneg {
                    -ev
                } else {
                    ev
                }),
            );
            lemma_norm_dec_normalized(
                true,
                mantissa,
                i1 - i0 + (if eneg {
                    -ev
                } else {
                    ev
                }),
            );
        }
    }
}

/// Three-way comparison of two normalised decimals: -1, 0 or 1 as `a` is
/// below, equal to, or above `b`.
pub fn dec_cmp(a: &Dec, b: &Dec) -> (r: i8)
    requires
        dec_normalized(a@),
        dec_normalized(b@),
    ensures
        r == -1i8 <==> dec_lt(a@, b@),
        r == 1i8 <==> dec_lt(b@, a@),
        r == 0i8 <==> a@ == b@,
{
    proof {
        lemma_digits_lt_connected(a@.digits, b@.digits);
        lemma_digits_lt_connected(b@.digits, a@.digits);
    }
    if a.neg != b.neg {
        if a.neg {
            return -1;
        } else {
            return 1;
        }
    }
    let m = if a.digits.len() == 0 && b.digits.len() == 0 {
        0
    } else if a.digits.len() == 0 {
        -1
    } else if b.digits.len() == 0 {
        1
    } else if a.exp < b.exp {
        -1
    } else if a.exp > b.exp {
        1
    } else {
        digits_cmp(&a.digits, &b.digits)
    };
    proof {
        if m == 0 {
            assert(a@ =~= b@);
        }
    }
    if a.neg {
        if m == -1 {
            return 1;
        } else if m == 1 {
            return -1;
        } else {
            return 0;
        }
    }
    m
}

} // verus!
