//! Exact decimal numbers.
//!
//! Every number this library compares was written down in decimal: a numeral in prose, a
//! figure in a fixture, a number in a JSON document. So they are held as exactly what was
//! written — a sign, a run of digits and a power of ten — and compared exactly. Rounding a
//! recorded figure to the precision a writer used is then a question about integers, with no
//! binary fraction in between to make `0.125` round differently from how it reads.

use vstd::arithmetic::div_mod::{lemma_div_denominator, lemma_fundamental_div_mod};
use vstd::arithmetic::mul::{lemma_mul_strictly_positive, lemma_mul_is_commutative};
use crate::ledger::{nat_digits, push_digits};
use crate::text::push_char;
use vstd::prelude::*;
use vstd::string::StrSliceExecFns;

verus! {

/// Ten to the power `n`.
pub open spec fn pow10(n: nat) -> int
    decreases n,
{
    if n == 0 {
        1
    } else {
        10 * pow10((n - 1) as nat)
    }
}

pub proof fn lemma_pow10_positive(n: nat)
    ensures
        pow10(n) > 0,
    decreases n,
{
    if n > 0 {
        lemma_pow10_positive((n - 1) as nat);
    }
}

pub proof fn lemma_pow10_monotone(a: nat, b: nat)
    requires
        a <= b,
    ensures
        pow10(a) <= pow10(b),
    decreases b,
{
    if a < b {
        lemma_pow10_monotone(a, (b - 1) as nat);
        lemma_pow10_positive((b - 1) as nat);
    }
}

/// `10^39` exceeds every `u128`, so a mantissa is always below it.
pub proof fn lemma_pow10_exceeds_u128(n: nat)
    requires
        n >= 39,
    ensures
        pow10(n) > u128::MAX,
{
    reveal_with_fuel(pow10, 40);
    assert(pow10(39) > u128::MAX);
    lemma_pow10_monotone(39, n);
}

/// Dividing by ten once more is dividing by the next power of ten.
pub proof fn lemma_div_pow10_step(x: int, n: nat)
    requires
        x >= 0,
    ensures
        (x / pow10(n)) / 10 == x / pow10(n + 1),
        (x / pow10(n)) >= 0,
{
    lemma_pow10_positive(n);
    lemma_div_denominator(x, pow10(n), 10);
    assert(pow10(n + 1) == 10 * pow10(n));
    lemma_mul_is_commutative(pow10(n), 10);
    assert(x / pow10(n) >= 0) by (nonlinear_arith)
        requires
            x >= 0,
            pow10(n) > 0,
    ;
}

/// Once the quotient is zero it stays zero, for every larger power.
pub proof fn lemma_div_pow10_zero(x: int, n: nat, m: nat)
    requires
        x >= 0,
        x / pow10(n) == 0,
        n <= m,
    ensures
        x / pow10(m) == 0,
{
    lemma_pow10_positive(n);
    lemma_pow10_positive(m);
    lemma_pow10_monotone(n, m);
    vstd::arithmetic::div_mod::lemma_small_div_converse(x, pow10(n));
    assert(x < pow10(m));
    vstd::arithmetic::div_mod::lemma_basic_div(x, pow10(m));
}

/// A number written as a sign, a run of digits and a power of ten:
/// `(-1)^negative * mantissa * 10^exponent`.
#[derive(Clone, Copy, Debug, PartialEq, Eq, Structural)]
pub struct Decimal {
    pub negative: bool,
    pub mantissa: u128,
    pub exponent: i32,
}

/// A magnitude with a sign, as an integer.
pub open spec fn signed(negative: bool, magnitude: int) -> int {
    if negative {
        -magnitude
    } else {
        magnitude
    }
}

/// The magnitude of `d * 10^places`, rounded half away from zero to an integer.
pub open spec fn rounded_magnitude(d: Decimal, places: int) -> int {
    let e = d.exponent + places;
    if e >= 0 {
        (d.mantissa as int) * pow10(e as nat)
    } else {
        let j = (-e) as nat;
        (d.mantissa as int) / pow10(j) + if ((d.mantissa as int) / pow10((j - 1) as nat)) % 10 >= 5 {
            1int
        } else {
            0int
        }
    }
}

/// `d * 10^places`, rounded half away from zero to an integer.
///
/// This is what "rounded to `places` decimals" means once the decimal point is moved out of
/// the way: `512.4` rounded to 0 places is `512`, to 1 place is `5124` tenths.
pub open spec fn rounded_scaled(d: Decimal, places: int) -> int {
    signed(d.negative, rounded_magnitude(d, places))
}

/// The value of a decimal scaled to the power `lo`, which must not exceed its exponent:
/// `d = scaled_to(d, lo) * 10^lo`.
pub open spec fn scaled_to(d: Decimal, lo: int) -> int
    recommends
        lo <= d.exponent,
{
    signed(d.negative, (d.mantissa as int) * pow10((d.exponent - lo) as nat))
}

/// Whether two decimals are the same number, however they are spelled.
pub open spec fn same_value(a: Decimal, b: Decimal) -> bool {
    let lo = if a.exponent <= b.exponent {
        a.exponent as int
    } else {
        b.exponent as int
    };
    scaled_to(a, lo) == scaled_to(b, lo)
}

/// Whether `units == m * 10^e`, decided without computing a product that might not fit.
pub fn is_scaled(units: u128, m: u128, e: u64) -> (r: bool)
    ensures
        r == (units == (m as int) * pow10(e as nat)),
{
    if m == 0 {
        proof {
            assert((m as int) * pow10(e as nat) == 0);
        }
        return units == 0;
    }
    let mut u = units;
    let mut k: u64 = 0;
    while k < e && u != 0
        invariant
            k <= e,
            m > 0,
            (u as int) * pow10(k as nat) == units,
            // All the powers of ten divided off so far were exact.
            (units == (m as int) * pow10(e as nat)) == (u == (m as int) * pow10((e - k) as nat)),
        decreases u,
    {
        if u % 10 != 0 {
            proof {
                // u == m * 10^(e-k) with e - k >= 1 would make u a multiple of ten.
                if u == (m as int) * pow10((e - k) as nat) {
                    let rest = (m as int) * pow10((e - k - 1) as nat);
                    assert(pow10((e - k) as nat) == 10 * pow10((e - k - 1) as nat));
                    assert(u == rest * 10) by (nonlinear_arith)
                        requires
                            u == (m as int) * pow10((e - k) as nat),
                            pow10((e - k) as nat) == 10 * pow10((e - k - 1) as nat),
                            rest == (m as int) * pow10((e - k - 1) as nat),
                    ;
                    assert(u % 10 == 0) by (nonlinear_arith)
                        requires
                            u == rest * 10,
                    ;
                }
            }
            return false;
        }
        let next = u / 10;
        proof {
            assert(u == next * 10) by (nonlinear_arith)
                requires
                    u % 10 == 0,
                    next == u / 10,
            ;
            assert(pow10((k + 1) as nat) == 10 * pow10(k as nat));
            assert((next as int) * pow10((k + 1) as nat) == units) by (nonlinear_arith)
                requires
                    (u as int) * pow10(k as nat) == units,
                    u == next * 10,
                    pow10((k + 1) as nat) == 10 * pow10(k as nat),
            ;
            let big = pow10((e - k) as nat);
            let small = pow10((e - k - 1) as nat);
            assert(big == 10 * small);
            lemma_pow10_positive((e - k - 1) as nat);
            assert((u == m * big) == (next == m * small)) by (nonlinear_arith)
                requires
                    u == next * 10,
                    big == 10 * small,
            ;
        }
        u = next;
        k = k + 1;
    }
    proof {
        assert(pow10(0) == 1);
    }
    if k < e {
        // u reached zero while units was m * 10^(e-k) for a positive m: impossible.
        proof {
            lemma_pow10_positive((e - k) as nat);
            assert((m as int) * pow10((e - k) as nat) > 0) by (nonlinear_arith)
                requires
                    m > 0,
                    pow10((e - k) as nat) > 0,
            ;
        }
        assert(!(u == (m as int) * pow10((e - k) as nat)));
        false
    } else {
        assert(k == e);
        assert(((e - k) as nat) == 0nat);
        assert(pow10(((e - k) as nat)) == 1);
        assert((m as int) * pow10((e - k) as nat) == m);
        u == m
    }
}

/// The magnitude of `d * 10^places` rounded half away from zero, computed by dropping digits.
///
/// Only defined for the case where digits are dropped (`exponent + places < 0`).
fn drop_digits_rounded(m: u128, j: u64) -> (r: u128)
    requires
        j >= 1,
    ensures
        r == (m as int) / pow10(j as nat) + if ((m as int) / pow10((j - 1) as nat)) % 10 >= 5 {
            1int
        } else {
            0int
        },
{
    let mut q = m;
    let mut last: u128 = 0;
    let mut s: u64 = 0;
    proof {
        reveal_with_fuel(pow10, 1);
    }
    while s < j && q != 0
        invariant
            s <= j,
            q == (m as int) / pow10(s as nat),
            s >= 1 ==> last == ((m as int) / pow10((s - 1) as nat)) % 10,
        decreases q,
    {
        proof {
            lemma_div_pow10_step(m as int, s as nat);
        }
        last = q % 10;
        q = q / 10;
        s = s + 1;
    }
    if s < j {
        // The quotient ran out before the digits did: everything left to drop is zero.
        proof {
            lemma_div_pow10_zero(m as int, s as nat, j as nat);
            lemma_div_pow10_zero(m as int, s as nat, (j - 1) as nat);
        }
        last = 0;
    }
    proof {
        // The quotient is at most m / 10, so adding one cannot overflow.
        lemma_pow10_positive(j as nat);
        assert(q <= m / 10) by {
            lemma_div_pow10_step(m as int, 0);
            lemma_div_pow10_step(m as int, (j - 1) as nat);
            vstd::arithmetic::div_mod::lemma_div_is_ordered_by_denominator(
                m as int,
                10,
                pow10(j as nat),
            );
            lemma_pow10_monotone(1, j as nat);
        }
    }
    if last >= 5 {
        q + 1
    } else {
        q
    }
}

impl Decimal {
    /// Whether `self * 10^places`, rounded half away from zero, is the integer
    /// `(-1)^negative * units`.
    ///
    /// This is the test a written figure passes against a recorded one: the figure was written
    /// with `places` decimals, so it is `units / 10^places`, and it is accounted for when the
    /// recorded value rounds to it at that precision.
    pub fn rounds_to(&self, negative: bool, units: u128, places: u64) -> (r: bool)
        ensures
            r == (rounded_scaled(*self, places as int) == signed(negative, units as int)),
    {
        let e: i128 = self.exponent as i128 + places as i128;
        let ghost mag = rounded_magnitude(*self, places as int);
        let magnitude_matches: bool;
        let magnitude_is_zero: bool;
        if e >= 0 {
            if e > 64 {
                // Ten to the 64th already exceeds every u128, so only zero can match.
                proof {
                    lemma_pow10_exceeds_u128(e as nat);
                    assert(self.mantissa > 0 ==> (self.mantissa as int) * pow10(e as nat) > u128::MAX)
                        by (nonlinear_arith)
                        requires
                            pow10(e as nat) > u128::MAX,
                    ;
                }
                magnitude_matches = self.mantissa == 0 && units == 0;
            } else {
                magnitude_matches = is_scaled(units, self.mantissa, e as u64);
            }
            magnitude_is_zero = self.mantissa == 0;
            proof {
                lemma_pow10_positive(e as nat);
                assert(((self.mantissa as int) * pow10(e as nat) == 0) == (self.mantissa == 0))
                    by (nonlinear_arith)
                    requires
                        pow10(e as nat) > 0,
                        self.mantissa >= 0,
                ;
            }
        } else {
            let j: u64 = (-e) as u64;
            let rounded = drop_digits_rounded(self.mantissa, j);
            magnitude_matches = rounded == units;
            magnitude_is_zero = rounded == 0;
        }
        assert(magnitude_matches == (mag == units));
        assert(magnitude_is_zero == (mag == 0));
        assert(mag >= 0) by (nonlinear_arith)
            requires
                mag == rounded_magnitude(*self, places as int),
                self.mantissa >= 0,
        {
            lemma_pow10_positive(((self.exponent + places) as int) as nat);
            lemma_pow10_positive((-(self.exponent + places) as int) as nat);
        }
        if magnitude_is_zero {
            units == 0
        } else {
            magnitude_matches && negative == self.negative
        }
    }

    /// Whether two decimals denote the same number: `1,234` and `1234.0` do, `-0` and `0` do.
    pub fn same_value_as(&self, other: &Decimal) -> (r: bool)
        ensures
            r == same_value(*self, *other),
    {
        let (magnitudes_match, zero) = if self.exponent <= other.exponent {
            let diff = (other.exponent as i64 - self.exponent as i64) as u64;
            (is_scaled(self.mantissa, other.mantissa, diff), self.mantissa == 0)
        } else {
            let diff = (self.exponent as i64 - other.exponent as i64) as u64;
            (is_scaled(other.mantissa, self.mantissa, diff), other.mantissa == 0)
        };
        proof {
            lemma_pow10_positive(((other.exponent - self.exponent) as int) as nat);
            lemma_pow10_positive(((self.exponent - other.exponent) as int) as nat);
            assert(pow10(0) == 1);
        }
        if zero {
            magnitudes_match
        } else {
            magnitudes_match && self.negative == other.negative
        }
    }
}


// ----------------------------------------------------------------------------- as text

/// `n` zeros.
pub open spec fn zeros(n: nat) -> Seq<char> {
    Seq::new(n, |i: int| '0')
}

/// A decimal written out in full, the way it was spelled: `512.4`, `40.0`, `0.005`, `-3`,
/// `1000` for one written with an exponent. Zero is never signed.
pub open spec fn plain_text(d: Decimal) -> Seq<char> {
    let sign = if d.negative && d.mantissa != 0 {
        seq!['-']
    } else {
        seq![]
    };
    let ds = nat_digits(d.mantissa as nat);
    if d.exponent >= 0 {
        sign + ds + if d.mantissa == 0 {
            seq![]
        } else {
            zeros(d.exponent as nat)
        }
    } else {
        let k = -d.exponent;
        let padded = if ds.len() <= k {
            zeros((k + 1 - ds.len()) as nat) + ds
        } else {
            ds
        };
        sign + padded.subrange(0, padded.len() - k) + seq!['.'] + padded.subrange(
            padded.len() - k,
            padded.len() as int,
        )
    }
}

fn push_zeros(out: &mut String, n: u64)
    ensures
        final(out)@ == old(out)@ + zeros(n as nat),
{
    let mut i: u64 = 0;
    while i < n
        invariant
            i <= n,
            out@ == old(out)@ + zeros(i as nat),
        decreases n - i,
    {
        push_char(out, '0');
        proof {
            assert(old(out)@ + zeros((i + 1) as nat) =~= (old(out)@ + zeros(i as nat)).push('0'));
        }
        i = i + 1;
    }
}

/// Appends the characters `s[lo..hi]`.
fn push_range(out: &mut String, s: &str, lo: usize, hi: usize)
    requires
        lo <= hi <= s@.len(),
    ensures
        final(out)@ == old(out)@ + s@.subrange(lo as int, hi as int),
{
    let mut i = lo;
    while i < hi
        invariant
            lo <= i <= hi <= s@.len(),
            out@ == old(out)@ + s@.subrange(lo as int, i as int),
        decreases hi - i,
    {
        let c = s.get_char(i);
        push_char(out, c);
        proof {
            assert(old(out)@ + s@.subrange(lo as int, i + 1) =~= (old(out)@ + s@.subrange(
                lo as int,
                i as int,
            )).push(c));
        }
        i = i + 1;
    }
}

impl Decimal {
    /// Appends the decimal written out in full.
    #[verifier::spinoff_prover]
    #[verifier::rlimit(30)]
    pub fn write(&self, out: &mut String)
        ensures
            final(out)@ == old(out)@ + plain_text(*self),
    {
        let ghost start = out@;
        if self.negative && self.mantissa != 0 {
            push_char(out, '-');
        }
        let ghost sign = if self.negative && self.mantissa != 0 {
            seq!['-']
        } else {
            seq![]
        };
        assert(out@ == start + sign);
        let mut ds = String::new();
        push_digits(&mut ds, self.mantissa);
        assert(ds@ == seq![] + nat_digits(self.mantissa as nat));
        assert(ds@ =~= nat_digits(self.mantissa as nat));
        let n = ds.as_str().unicode_len();
        if self.exponent >= 0 {
            push_range(out, ds.as_str(), 0, n);
            assert(ds@.subrange(0, n as int) =~= ds@);
            if self.mantissa != 0 {
                push_zeros(out, self.exponent as u64);
            }
            proof {
                if self.mantissa == 0 {
                    assert(out@ =~= start + sign + ds@ + seq![]);
                }
            }
        } else {
            let k: u64 = (-(self.exponent as i64)) as u64;
            let ghost padded = if ds@.len() <= k {
                zeros((k + 1 - ds@.len()) as nat) + ds@
            } else {
                ds@
            };
            if (n as u64) <= k {
                // Leading zeros, then every digit after the point.
                push_char(out, '0');
                push_char(out, '.');
                push_zeros(out, k - n as u64);
                push_range(out, ds.as_str(), 0, n);
                proof {
                    assert(padded.len() == k + 1);
                    assert(padded.subrange(0, padded.len() - k) =~= seq!['0']);
                    assert(padded.subrange(padded.len() - k, padded.len() as int) =~= zeros(
                        (k - n) as nat,
                    ) + ds@.subrange(0, n as int));
                    assert(out@ =~= start + sign + padded.subrange(0, padded.len() - k) + seq!['.']
                        + padded.subrange(padded.len() - k, padded.len() as int));
                }
            } else {
                let split = n - k as usize;
                push_range(out, ds.as_str(), 0, split);
                push_char(out, '.');
                push_range(out, ds.as_str(), split, n);
                proof {
                    assert(out@ =~= start + sign + padded.subrange(0, padded.len() - k) + seq!['.']
                        + padded.subrange(padded.len() - k, padded.len() as int));
                }
            }
        }
    }

    /// The decimal written out in full.
    pub fn to_text(&self) -> (r: String)
        ensures
            r@ == plain_text(*self),
    {
        let mut r = String::new();
        self.write(&mut r);
        assert(r@ =~= plain_text(*self));
        r
    }
}


// --------------------------------------------------------------------------- from text

pub open spec fn is_digit_char(c: char) -> bool {
    '0' <= c <= '9'
}

/// The end of the run of digits starting at `i`.
pub open spec fn digit_run_end(s: Seq<char>, i: int) -> int
    decreases s.len() - i,
{
    if 0 <= i < s.len() && is_digit_char(s[i]) {
        digit_run_end(s, i + 1)
    } else {
        i
    }
}

/// The digits `s[lo..hi]` read as one number.
pub open spec fn chars_value(s: Seq<char>, lo: int, hi: int) -> int
    decreases hi - lo,
{
    if hi <= lo {
        0
    } else {
        chars_value(s, lo, hi - 1) * 10 + (s[hi - 1] as int - '0' as int)
    }
}

/// The decimal a JSON number spells: `-?(0|[1-9][0-9]*)(\.[0-9]+)?([eE][+-]?[0-9]+)?`, its
/// digits (integer and fraction together) as the mantissa and its exponent less the number of
/// fraction digits as the exponent. `None` for text that is not a number, and for one whose
/// digits or exponent do not fit.
pub open spec fn json_number(s: Seq<char>) -> Option<Decimal> {
    if number_well_formed(s) && number_mantissa(s) <= u128::MAX && i32::MIN <= number_exponent(s)
        <= i32::MAX {
        Some(
            Decimal {
                negative: number_negative(s),
                mantissa: number_mantissa(s) as u128,
                exponent: number_exponent(s) as i32,
            },
        )
    } else {
        None
    }
}

pub open spec fn number_negative(s: Seq<char>) -> bool {
    s.len() > 0 && s[0] == '-'
}

/// Where the integer digits start.
pub open spec fn number_a(s: Seq<char>) -> int {
    if number_negative(s) { 1 } else { 0 }
}

/// Where the integer digits end.
pub open spec fn number_b(s: Seq<char>) -> int {
    digit_run_end(s, number_a(s))
}

pub open spec fn number_has_fraction(s: Seq<char>) -> bool {
    number_b(s) < s.len() && s[number_b(s)] == '.'
}

/// Where the fraction digits end.
pub open spec fn number_c(s: Seq<char>) -> int {
    if number_has_fraction(s) { digit_run_end(s, number_b(s) + 1) } else { number_b(s) }
}

pub open spec fn number_has_exponent(s: Seq<char>) -> bool {
    number_c(s) < s.len() && (s[number_c(s)] == 'e' || s[number_c(s)] == 'E')
}

pub open spec fn number_exponent_negative(s: Seq<char>) -> bool {
    number_has_exponent(s) && number_c(s) + 1 < s.len() && s[number_c(s) + 1] == '-'
}

pub open spec fn number_exponent_signed(s: Seq<char>) -> bool {
    number_has_exponent(s) && number_c(s) + 1 < s.len() && (s[number_c(s) + 1] == '-' || s[number_c(s) + 1] == '+')
}

/// Where the exponent's digits start.
pub open spec fn number_d0(s: Seq<char>) -> int {
    if number_has_exponent(s) {
        number_c(s) + 1 + if number_exponent_signed(s) { 1int } else { 0int }
    } else {
        number_c(s)
    }
}

/// Where the exponent's digits end.
pub open spec fn number_d(s: Seq<char>) -> int {
    if number_has_exponent(s) { digit_run_end(s, number_d0(s)) } else { number_c(s) }
}

pub open spec fn number_fraction_len(s: Seq<char>) -> int {
    if number_has_fraction(s) { number_c(s) - (number_b(s) + 1) } else { 0 }
}

/// The integer and fraction digits, read as one number.
pub open spec fn number_mantissa(s: Seq<char>) -> int {
    chars_value(s, number_a(s), number_b(s)) * pow10(number_fraction_len(s) as nat) + if number_has_fraction(s) {
        chars_value(s, number_b(s) + 1, number_c(s))
    } else {
        0
    }
}

/// The written exponent, less the number of fraction digits.
pub open spec fn number_exponent(s: Seq<char>) -> int {
    let written = if number_has_exponent(s) { chars_value(s, number_d0(s), number_d(s)) } else { 0 };
    (if number_exponent_negative(s) { -written } else { written }) - number_fraction_len(s)
}

/// `-?(0|[1-9][0-9]*)(\.[0-9]+)?([eE][+-]?[0-9]+)?` and nothing else.
pub open spec fn number_well_formed(s: Seq<char>) -> bool {
    let a = number_a(s);
    let b = number_b(s);
    &&& b > a
    &&& (b == a + 1 || s[a] != '0')
    &&& (!number_has_fraction(s) || number_c(s) > b + 1)
    &&& (!number_has_exponent(s) || number_d(s) > number_d0(s))
    &&& number_d(s) == s.len()
}

proof fn lemma_digit_run_end_bounds(s: Seq<char>, i: int)
    requires
        0 <= i <= s.len(),
    ensures
        i <= digit_run_end(s, i) <= s.len(),
        forall|k: int| i <= k < digit_run_end(s, i) ==> is_digit_char(#[trigger] s[k]),
        digit_run_end(s, i) < s.len() ==> !is_digit_char(s[digit_run_end(s, i)]),
    decreases s.len() - i,
{
    if i < s.len() && is_digit_char(s[i]) {
        lemma_digit_run_end_bounds(s, i + 1);
    }
}

/// Reads the digits `s[lo..hi]` into `acc * 10^(hi - lo) + value`, if that fits in `limit`.
pub(crate) fn read_chars(s: &str, lo: usize, hi: usize, acc: u128, limit: u128) -> (r: Option<u128>)
    requires
        lo <= hi <= s@.len(),
        acc <= limit,
        forall|k: int| lo <= k < hi ==> is_digit_char(#[trigger] s@[k]),
    ensures
        ({
            let v = acc * pow10((hi - lo) as nat) + chars_value(s@, lo as int, hi as int);
            match r {
                Some(x) => x == v && v <= limit,
                None => v > limit,
            }
        }),
{
    let mut i = lo;
    let mut x: u128 = acc;
    proof {
        assert(pow10(0) == 1);
    }
    while i < hi
        invariant
            lo <= i <= hi <= s@.len(),
            forall|k: int| lo <= k < hi ==> is_digit_char(#[trigger] s@[k]),
            x <= limit,
            x == acc * pow10((i - lo) as nat) + chars_value(s@, lo as int, i as int),
        decreases hi - i,
    {
        let c = s.get_char(i);
        let digit = (c as u32 - '0' as u32) as u128;
        proof {
            assert(is_digit_char(s@[i as int]));
            assert(pow10((i + 1 - lo) as nat) == 10 * pow10((i - lo) as nat));
            assert(chars_value(s@, lo as int, i + 1) == chars_value(s@, lo as int, i as int) * 10 + digit);
            assert(acc * pow10((i + 1 - lo) as nat) + chars_value(s@, lo as int, i + 1) == x * 10 + digit)
                by (nonlinear_arith)
                requires
                    x == acc * pow10((i - lo) as nat) + chars_value(s@, lo as int, i as int),
                    pow10((i + 1 - lo) as nat) == 10 * pow10((i - lo) as nat),
                    chars_value(s@, lo as int, i + 1) == chars_value(s@, lo as int, i as int) * 10 + digit,
            ;
        }
        if x > limit / 10 || (x == limit / 10 && digit > limit % 10) {
            proof {
                assert(x * 10 + digit > limit) by (nonlinear_arith)
                    requires
                        x > limit / 10 || (x == limit / 10 && digit > limit % 10),
                        limit >= 0,
                        digit >= 0,
                ;
                lemma_value_stays_above(s@, acc as int, lo as int, i + 1, hi as int, limit as int);
            }
            return None;
        }
        assert(x * 10 + digit <= limit) by (nonlinear_arith)
            requires
                !(x > limit / 10 || (x == limit / 10 && digit > limit % 10)),
                limit >= 0,
                0 <= digit <= 9,
                x >= 0,
                limit == 10 * (limit / 10) + limit % 10,
                0 <= limit % 10 < 10,
        ;
        x = x * 10 + digit;
        i = i + 1;
    }
    Some(x)
}

/// Once a prefix of the digits exceeds a bound, so does the whole run.
proof fn lemma_value_stays_above(s: Seq<char>, acc: int, lo: int, mid: int, hi: int, limit: int)
    requires
        lo <= mid <= hi,
        acc >= 0,
        forall|k: int| lo <= k < hi ==> is_digit_char(#[trigger] s[k]),
        acc * pow10((mid - lo) as nat) + chars_value(s, lo, mid) > limit,
        limit >= 0,
    ensures
        acc * pow10((hi - lo) as nat) + chars_value(s, lo, hi) > limit,
    decreases hi - mid,
{
    if mid < hi {
        let v = acc * pow10((mid - lo) as nat) + chars_value(s, lo, mid);
        assert(pow10((mid + 1 - lo) as nat) == 10 * pow10((mid - lo) as nat));
        assert(is_digit_char(s[mid]));
        assert(chars_value(s, lo, mid + 1) == chars_value(s, lo, mid) * 10 + (s[mid] as int - '0' as int));
        assert(acc * pow10((mid + 1 - lo) as nat) + chars_value(s, lo, mid + 1) >= v * 10)
            by (nonlinear_arith)
            requires
                v == acc * pow10((mid - lo) as nat) + chars_value(s, lo, mid),
                pow10((mid + 1 - lo) as nat) == 10 * pow10((mid - lo) as nat),
                chars_value(s, lo, mid + 1) == chars_value(s, lo, mid) * 10 + (s[mid] as int - '0' as int),
                s[mid] as int - '0' as int >= 0,
        ;
        assert(v * 10 > limit) by (nonlinear_arith)
            requires
                v > limit,
                limit >= 0,
        ;
        lemma_value_stays_above(s, acc, lo, mid + 1, hi, limit);
    }
}


/// The end of the run of digits starting at `i`.
fn digit_run(s: &str, n: usize, i: usize) -> (r: usize)
    requires
        n == s@.len(),
        i <= n,
    ensures
        r == digit_run_end(s@, i as int),
{
    proof {
        lemma_digit_run_end_bounds(s@, i as int);
    }
    let mut j = i;
    while j < n && is_digit(s.get_char(j))
        invariant
            i <= j <= n,
            n == s@.len(),
            digit_run_end(s@, j as int) == digit_run_end(s@, i as int),
        decreases n - j,
    {
        j = j + 1;
    }
    j
}

fn is_digit(c: char) -> (r: bool)
    ensures
        r == is_digit_char(c),
{
    '0' <= c && c <= '9'
}

impl Decimal {
    /// The decimal a JSON number spells, exactly: `512.4`, `-3`, `1.5e-7`. `None` for text
    /// that is not a JSON number, and for one whose digits or exponent do not fit.
    #[verifier::spinoff_prover]
    pub fn parse(s: &str) -> (r: Option<Decimal>)
        ensures
            r == json_number(s@),
    {
        let n = s.unicode_len();
        let negative = n > 0 && s.get_char(0) == '-';
        let a: usize = if negative { 1 } else { 0 };
        let b = digit_run(s, n, a);
        proof {
            lemma_digit_run_end_bounds(s@, a as int);
        }
        if !(b > a && (b == a + 1 || s.get_char(a) != '0')) {
            return None;
        }
        let has_fraction = b < n && s.get_char(b) == '.';
        let c = if has_fraction { digit_run(s, n, b + 1) } else { b };
        proof {
            if has_fraction {
                lemma_digit_run_end_bounds(s@, b + 1);
            }
        }
        if has_fraction && c <= b + 1 {
            return None;
        }
        let has_exponent = c < n && (s.get_char(c) == 'e' || s.get_char(c) == 'E');
        let exponent_negative = has_exponent && c + 1 < n && s.get_char(c + 1) == '-';
        let exponent_signed = has_exponent && c + 1 < n && (s.get_char(c + 1) == '-' || s.get_char(
            c + 1,
        ) == '+');
        let d0 = if has_exponent {
            c + 1 + if exponent_signed { 1 } else { 0 }
        } else {
            c
        };
        if d0 > n {
            return None;
        }
        let d = if has_exponent { digit_run(s, n, d0) } else { c };
        proof {
            if has_exponent {
                lemma_digit_run_end_bounds(s@, d0 as int);
            }
        }
        if (has_exponent && d <= d0) || d != n {
            return None;
        }
        let fraction_len: usize = if has_fraction { c - (b + 1) } else { 0 };
        // The digits before the point, then those after it.
        let whole = match read_chars(s, a, b, 0, u128::MAX) {
            Some(x) => x,
            None => {
                proof {
                    assert(0 * pow10((b - a) as nat) == 0);
                    lemma_pow10_positive(fraction_len as nat);
                    lemma_mul_grows(chars_value(s@, a as int, b as int), pow10(fraction_len as nat));
                    lemma_chars_value_nonnegative(s@, b + 1, c as int);
                }
                return None;
            },
        };
        let mantissa = if has_fraction {
            match read_chars(s, b + 1, c, whole, u128::MAX) {
                Some(x) => x,
                None => {
                    return None;
                },
            }
        } else {
            whole
        };
        proof {
            assert(0 * pow10((b - a) as nat) == 0);
            assert(pow10(0) == 1);
        }
        let limit: u128 = 0x10_0000_0000_0000_0000_0000_0000;
        let written: u128 = if has_exponent {
            match read_chars(s, d0, d, 0, limit) {
                Some(x) => x,
                None => {
                    proof {
                        assert(0 * pow10((d - d0) as nat) == 0);
                    }
                    return None;
                },
            }
        } else {
            0
        };
        proof {
            assert(0 * pow10((d - d0) as nat) == 0);
        }
        let exponent: i128 = (if exponent_negative { -(written as i128) } else { written as i128 })
            - fraction_len as i128;
        if exponent < i32::MIN as i128 || exponent > i32::MAX as i128 {
            return None;
        }
        proof {
            let ss = s@;
            assert(b == digit_run_end(ss, a as int));
            assert(whole == chars_value(ss, a as int, b as int));
            if has_fraction {
                assert(mantissa == chars_value(ss, a as int, b as int) * pow10(fraction_len as nat) + chars_value(ss, b + 1, c as int));
            } else {
                assert(fraction_len == 0);
                assert(pow10(fraction_len as nat) == 1);
                assert(mantissa == chars_value(ss, a as int, b as int) * pow10(fraction_len as nat));
            }
            assert(written == if has_exponent { chars_value(ss, d0 as int, d as int) } else { 0 });
        }
        Some(Decimal { negative, mantissa, exponent: exponent as i32 })
    }
}

proof fn lemma_chars_value_nonnegative(s: Seq<char>, lo: int, hi: int)
    requires
        forall|k: int| lo <= k < hi ==> is_digit_char(#[trigger] s[k]),
    ensures
        chars_value(s, lo, hi) >= 0,
    decreases hi - lo,
{
    if hi > lo {
        lemma_chars_value_nonnegative(s, lo, hi - 1);
    }
}

proof fn lemma_mul_grows(x: int, p: int)
    requires
        x >= 0,
        p >= 1,
    ensures
        x * p >= x,
{
    assert(x * p >= x) by (nonlinear_arith)
        requires
            x >= 0,
            p >= 1,
    ;
}


/// An integer as a decimal.
pub open spec fn decimal_of_int(v: int) -> Decimal {
    Decimal { negative: v < 0, mantissa: (if v < 0 { -v } else { v }) as u128, exponent: 0 }
}

impl Decimal {
    pub fn from_i64(v: i64) -> (d: Decimal)
        ensures
            d == decimal_of_int(v as int),
    {
        let m: u128 = if v < 0 { (-(v as i128)) as u128 } else { v as u128 };
        Decimal { negative: v < 0, mantissa: m, exponent: 0 }
    }

    pub fn from_u64(v: u64) -> (d: Decimal)
        ensures
            d == decimal_of_int(v as int),
    {
        Decimal { negative: false, mantissa: v as u128, exponent: 0 }
    }
}

} // verus!
