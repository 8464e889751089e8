//! Reconciling prose against the ledger.
//!
//! The runtime can guarantee its own output. It cannot guarantee what an agent writes
//! afterwards — a transposed digit, a wrong unit, a total the model helpfully recomputed, a
//! figure carried over from an earlier turn. This module closes that gap.
//!
//! **No model is involved.** Every numeral in the text is extracted and checked against the
//! numbers the ledger recorded. It is string and number handling, nothing more.
//!
//! Order matters: a numeral is matched against the ledger *first*, and only if that fails is
//! it tested against the ignore rules. That way an over-broad ignore rule can never suppress
//! a figure that genuinely came from a node — it can only soften a miss.

use crate::decimal::{lemma_pow10_positive, pow10, rounded_magnitude, rounded_scaled, same_value, scaled_to, signed, Decimal};
use crate::json::Json;
use crate::ledger::{leaves, nat_digits};
use crate::scalar_map::{last_assigned, last_number, lemma_lookup_take_step, lookup, ScalarMap};
use crate::text::{is_continuation, trimmed, ascii_chars, ascii_string, is_ascii_alnum, is_ascii_alpha, is_ascii_digit, to_ascii_lower, COMMA, DOT, LOWER_A, LOWER_Z, MINUS, NEWLINE, NINE, PERCENT, PLUS, SPACE, UPPER_A, UPPER_Z, ZERO};

use vstd::prelude::*;
use vstd::string::StringSliceAdditionalSpecFns;

verus! {

// ------------------------------------------------------------------- the grammar of a numeral

/// The end of the run of digits starting at `i`.
pub open spec fn digits_end(b: Seq<u8>, i: int) -> int
    decreases b.len() - i,
{
    if 0 <= i < b.len() && is_ascii_digit(b[i]) {
        digits_end(b, i + 1)
    } else {
        i
    }
}

/// Whether a thousands group starts at `i`: a comma followed by exactly three digits. `1,234`
/// is one number; `1, 234` is two, and so is `1,2345`.
pub open spec fn group_at(b: Seq<u8>, i: int) -> bool {
    &&& 0 <= i
    &&& i + 3 < b.len()
    &&& b[i] == COMMA
    &&& is_ascii_digit(b[i + 1])
    &&& is_ascii_digit(b[i + 2])
    &&& is_ascii_digit(b[i + 3])
    &&& !(i + 4 < b.len() && is_ascii_digit(b[i + 4]))
}

/// The end of the thousands groups starting at `i`.
pub open spec fn groups_end(b: Seq<u8>, i: int) -> int
    decreases b.len() - i,
{
    if group_at(b, i) {
        groups_end(b, i + 4)
    } else {
        i
    }
}

/// Where the integer part of the numeral whose digits start at `ds` ends.
pub open spec fn integer_end(b: Seq<u8>, ds: int) -> int {
    groups_end(b, digits_end(b, ds))
}

/// Whether the numeral has a fraction: a `.` directly followed by a digit.
pub open spec fn has_fraction(b: Seq<u8>, ds: int) -> bool {
    let i = integer_end(b, ds);
    0 <= i && i + 1 < b.len() && b[i] == DOT && is_ascii_digit(b[i + 1])
}

/// Where the numeral whose digits start at `ds` ends.
pub open spec fn numeral_end(b: Seq<u8>, ds: int) -> int {
    if has_fraction(b, ds) {
        digits_end(b, integer_end(b, ds) + 1)
    } else {
        integer_end(b, ds)
    }
}

/// Digits written after the decimal point. `512` has 0; `512.4` has 1.
pub open spec fn numeral_precision(b: Seq<u8>, ds: int) -> int {
    if has_fraction(b, ds) {
        numeral_end(b, ds) - (integer_end(b, ds) + 1)
    } else {
        0
    }
}

/// A `-` counts as a sign only when nothing word-like precedes it, so `T-1001` yields 1001
/// rather than -1001, while `remaining -250` yields -250.
pub open spec fn sign_boundary(c: u8) -> bool {
    !is_ascii_alnum(c) && c != DOT && c != MINUS
}

/// Where the numeral starts: at its digits, or one earlier when a sign is really acting as one.
pub open spec fn numeral_start(b: Seq<u8>, ds: int) -> int {
    if ds > 0 && (b[ds - 1] == MINUS || b[ds - 1] == PLUS) && sign_boundary(
        if ds >= 2 {
            b[ds - 2]
        } else {
            SPACE
        },
    ) {
        ds - 1
    } else {
        ds
    }
}

/// The digits of `b[lo..hi]`, read as one integer, skipping everything that is not a digit.
pub open spec fn digit_value(b: Seq<u8>, lo: int, hi: int) -> int
    decreases hi - lo,
{
    if hi <= lo {
        0
    } else if is_ascii_digit(b[hi - 1]) {
        digit_value(b, lo, hi - 1) * 10 + (b[hi - 1] - ZERO)
    } else {
        digit_value(b, lo, hi - 1)
    }
}

/// The value a numeral was written as: its digits, scaled down by its precision, negative when
/// it carries a minus sign. `None` only for a numeral too long to hold exactly — which then
/// matches nothing and is excused by nothing, so it is reported rather than waved through.
pub open spec fn numeral_value(b: Seq<u8>, ds: int) -> Option<Decimal> {
    let start = numeral_start(b, ds);
    let m = digit_value(b, ds, numeral_end(b, ds));
    let p = numeral_precision(b, ds);
    if m <= u128::MAX && p <= i32::MAX {
        Some(Decimal { negative: b[start] == MINUS, mantissa: m as u128, exponent: -p as i32 })
    } else {
        None
    }
}

/// A currency symbol directly before the numeral: `$`, `£`, `€` or `¥`, spelled in UTF-8.
pub open spec fn currency_before(b: Seq<u8>, start: int) -> bool {
    ||| (start >= 1 && b[start - 1] == 0x24u8)
    ||| (start >= 2 && b[start - 2] == 0xC2u8 && (b[start - 1] == 0xA3u8 || b[start - 1] == 0xA5u8))
    ||| (start >= 3 && b[start - 3] == 0xE2u8 && b[start - 2] == 0x82u8 && b[start - 1] == 0xACu8)
}

/// The first index at or after `i` that is not a space.
pub open spec fn spaces_end(b: Seq<u8>, i: int) -> int
    decreases b.len() - i,
{
    if 0 <= i < b.len() && b[i] == SPACE {
        spaces_end(b, i + 1)
    } else {
        i
    }
}

/// A `%` after the numeral, possibly after spaces.
pub open spec fn percent_after(b: Seq<u8>, end: int) -> bool {
    let i = spaces_end(b, end);
    0 <= i < b.len() && b[i] == PERCENT
}

/// The end of the run of ASCII letters starting at `i`.
pub open spec fn letters_end(b: Seq<u8>, i: int) -> int
    decreases b.len() - i,
{
    if 0 <= i < b.len() && is_ascii_alpha(b[i]) {
        letters_end(b, i + 1)
    } else {
        i
    }
}

/// The short words that are never a unit.
pub open spec fn prose_words() -> Seq<Seq<char>> {
    seq![
        "of"@, "in"@, "the"@, "a"@, "an"@, "and"@, "or"@, "to"@, "for"@, "at"@, "on"@, "by"@,
        "is"@, "are"@, "was"@, "it"@, "its"@, "no"@, "not"@, "if"@, "as"@, "so"@, "but"@,
        "out"@, "up"@, "off"@, "who"@,
    ]
}

/// Whether the text from `at` on reads as the unit of the number just before it: a letter
/// glued on (`40kg`), or a short word after a single space (`40 kg`, `512 AR`) that is not
/// ordinary prose. A longer word is prose, not a unit.
pub open spec fn unit_suffix_at(b: Seq<u8>, at: int) -> bool {
    if 0 <= at < b.len() && is_ascii_alpha(b[at]) {
        true
    } else if 0 <= at < b.len() && b[at] == SPACE {
        let word = b.subrange(at + 1, letters_end(b, at + 1));
        1 <= word.len() <= 4 && !prose_words().contains(
            ascii_chars(word.map_values(|c: u8| to_ascii_lower(c))),
        )
    } else {
        false
    }
}

/// The number of newlines in `b[..n]`.
pub open spec fn newlines(b: Seq<u8>, n: int) -> int
    decreases n,
{
    if n <= 0 {
        0
    } else {
        newlines(b, n - 1) + if b[n - 1] == NEWLINE {
            1int
        } else {
            0int
        }
    }
}

/// The index of the last newline in `b[..n]`, or -1.
pub open spec fn last_newline(b: Seq<u8>, n: int) -> int
    decreases n,
{
    if n <= 0 {
        -1
    } else if b[n - 1] == NEWLINE {
        n - 1
    } else {
        last_newline(b, n - 1)
    }
}

/// Where the digits of every numeral in `b[i..]` start, in order.
pub open spec fn numeral_digits(b: Seq<u8>, i: int) -> Seq<int>
    decreases b.len() - i,
{
    if i < 0 || i >= b.len() {
        seq![]
    } else if !is_ascii_digit(b[i]) {
        numeral_digits(b, i + 1)
    } else {
        proof {
            lemma_numeral_end_bounds(b, i);
        }
        seq![i] + numeral_digits(b, numeral_end(b, i))
    }
}

// ------------------------------------------------------------------------- numerals

/// A number as it appears in prose, with everything needed to compare it fairly.
#[derive(Debug, Clone)]
pub struct Numeral {
    /// Exactly as written, including separators and sign.
    pub raw: String,
    /// The value written; `None` only for a numeral too long to hold exactly.
    pub value: Option<Decimal>,
    /// Digits written after the decimal point. `512` has 0; `512.4` has 1.
    pub precision: usize,
    pub percent: bool,
    /// A currency symbol before, or a word or `%` immediately after. `40 kg` has one; a bare
    /// `40` does not.
    pub has_unit: bool,
    /// Byte offset of the numeral's first character.
    pub offset: usize,
    pub line: usize,
    pub column: usize,
}

/// `n` is the numeral of `b` whose digits start at `ds`.
pub open spec fn is_numeral_at(b: Seq<u8>, ds: int, n: Numeral) -> bool {
    let start = numeral_start(b, ds);
    let end = numeral_end(b, ds);
    &&& n.raw@ == ascii_chars(b.subrange(start, end))
    &&& n.value == numeral_value(b, ds)
    &&& n.precision == numeral_precision(b, ds)
    &&& n.percent == percent_after(b, end)
    &&& n.has_unit == (currency_before(b, start) || percent_after(b, end) || unit_suffix_at(b, end))
    &&& n.offset == start
    &&& n.line == newlines(b, start) + 1
    &&& n.column == start - last_newline(b, start)
}

// ----------------------------------------------------------------------- extraction

pub proof fn lemma_digits_end_bounds(b: Seq<u8>, i: int)
    requires
        0 <= i <= b.len(),
    ensures
        i <= digits_end(b, i) <= b.len(),
        forall|k: int| i <= k < digits_end(b, i) ==> is_ascii_digit(#[trigger] b[k]),
    decreases b.len() - i,
{
    if i < b.len() && is_ascii_digit(b[i]) {
        lemma_digits_end_bounds(b, i + 1);
    }
}

pub proof fn lemma_groups_end_bounds(b: Seq<u8>, i: int)
    requires
        0 <= i <= b.len(),
    ensures
        i <= groups_end(b, i) <= b.len(),
    decreases b.len() - i,
{
    if group_at(b, i) {
        lemma_groups_end_bounds(b, i + 4);
    }
}

pub proof fn lemma_numeral_end_bounds(b: Seq<u8>, ds: int)
    requires
        0 <= ds < b.len(),
        is_ascii_digit(b[ds]),
    ensures
        ds < digits_end(b, ds) <= integer_end(b, ds) <= numeral_end(b, ds) <= b.len(),
        numeral_start(b, ds) <= ds,
        numeral_start(b, ds) >= 0,
{
    lemma_digits_end_bounds(b, ds);
    lemma_digits_end_bounds(b, ds + 1);
    lemma_groups_end_bounds(b, digits_end(b, ds));
    if has_fraction(b, ds) {
        lemma_digits_end_bounds(b, integer_end(b, ds) + 1);
    }
}

/// The end of the run of digits starting at `i`.
fn scan_digits(b: &[u8], i: usize) -> (r: usize)
    requires
        i <= b@.len(),
    ensures
        r == digits_end(b@, i as int),
        i <= r <= b@.len(),
{
    proof {
        lemma_digits_end_bounds(b@, i as int);
    }
    let mut k = i;
    while k < b.len() && b[k] >= ZERO && b[k] <= NINE
        invariant
            i <= k <= b@.len(),
            digits_end(b@, i as int) == digits_end(b@, k as int),
        decreases b@.len() - k,
    {
        k = k + 1;
    }
    k
}

fn scan_groups(b: &[u8], i: usize) -> (r: usize)
    requires
        i <= b@.len(),
    ensures
        r == groups_end(b@, i as int),
{
    let mut k = i;
    while k < b.len() && b.len() - k > 3 && b[k] == COMMA && b[k + 1] >= ZERO && b[k + 1] <= NINE && b[k + 2]
        >= ZERO && b[k + 2] <= NINE && b[k + 3] >= ZERO && b[k + 3] <= NINE && !(k + 4 < b.len()
        && b[k + 4] >= ZERO && b[k + 4] <= NINE)
        invariant
            i <= k <= b@.len(),
            groups_end(b@, i as int) == groups_end(b@, k as int),
        decreases b@.len() - k,
    {
        k = k + 4;
    }
    k
}

fn scan_spaces(b: &[u8], i: usize) -> (r: usize)
    requires
        i <= b@.len(),
    ensures
        r == spaces_end(b@, i as int),
        i <= r <= b@.len(),
{
    let mut k = i;
    while k < b.len() && b[k] == SPACE
        invariant
            i <= k <= b@.len(),
            spaces_end(b@, i as int) == spaces_end(b@, k as int),
        decreases b@.len() - k,
    {
        k = k + 1;
    }
    k
}

fn scan_letters(b: &[u8], i: usize) -> (r: usize)
    requires
        i <= b@.len(),
    ensures
        r == letters_end(b@, i as int),
        i <= r <= b@.len(),
{
    let mut k = i;
    while k < b.len() && ((b[k] >= LOWER_A && b[k] <= LOWER_Z) || (b[k] >= UPPER_A && b[k] <= UPPER_Z))
        invariant
            i <= k <= b@.len(),
            letters_end(b@, i as int) == letters_end(b@, k as int),
        decreases b@.len() - k,
    {
        k = k + 1;
    }
    k
}

/// Whether a byte, before a `-` or `+`, lets that character act as a sign.
pub fn is_sign_boundary(byte: u8) -> (r: bool)
    ensures
        r == sign_boundary(byte),
{
    !((byte >= ZERO && byte <= NINE) || (byte >= LOWER_A && byte <= LOWER_Z) || (byte >= UPPER_A && byte
        <= UPPER_Z)) && byte != DOT && byte != MINUS
}


/// Whether a lower-case word is one of the prose words that never act as a unit.
fn is_prose_word(word: &String) -> (r: bool)
    ensures
        r == prose_words().contains(word@),
{
    let words: [&str; 27] = [
        "of", "in", "the", "a", "an", "and", "or", "to", "for", "at", "on", "by", "is", "are",
        "was", "it", "its", "no", "not", "if", "as", "so", "but", "out", "up", "off", "who",
    ];
    assert(words@.map_values(|w: &str| w@) =~= prose_words());
    let mut j: usize = 0;
    while j < 27
        invariant
            j <= 27,
            words@.map_values(|w: &str| w@) == prose_words(),
            forall|k: int| 0 <= k < j ==> prose_words()[k] != word@,
        decreases 27 - j,
    {
        let candidate = crate::text::owned(words[j]);
        if candidate == *word {
            assert(prose_words()[j as int] == word@);
            return true;
        }
        j = j + 1;
    }
    false
}

/// Whether the text from `at` on reads as a unit for the number just before it.
fn unit_suffix_bytes(b: &[u8], at: usize) -> (r: bool)
    requires
        at <= b@.len(),
    ensures
        r == unit_suffix_at(b@, at as int),
{
    if at < b.len() && ((b[at] >= LOWER_A && b[at] <= LOWER_Z) || (b[at] >= UPPER_A && b[at] <= UPPER_Z)) {
        return true;
    }
    if at < b.len() && b[at] == SPACE {
        let we = scan_letters(b, at + 1);
        let len = we - (at + 1);
        if len < 1 || len > 4 {
            return false;
        }
        let mut word = String::new();
        let mut k = at + 1;
        while k < we
            invariant
                at + 1 <= k <= we <= b@.len(),
                word@ == ascii_chars(
                    b@.subrange(at + 1, k as int).map_values(|c: u8| to_ascii_lower(c)),
                ),
            decreases we - k,
        {
            let c = b[k];
            let lower = if c >= UPPER_A && c <= UPPER_Z { c + 32 } else { c };
            crate::text::push_char(&mut word, lower as char);
            proof {
                assert(ascii_chars(b@.subrange(at + 1, k + 1).map_values(|c: u8| to_ascii_lower(c)))
                    =~= ascii_chars(b@.subrange(at + 1, k as int).map_values(|c: u8| to_ascii_lower(c))).push(
                    lower as char,
                ));
            }
            k = k + 1;
        }
        return !is_prose_word(&word);
    }
    false
}

/// Whether the text right after a number reads as that number's unit.
///
/// This is a heuristic, and deliberately a conservative one. It only decides which
/// *unmatched* numerals get excused by the ignore rules — a numeral that the ledger accounts
/// for is matched before any of this is consulted. So a missed unit costs a little detection
/// in a narrow band; a spurious one would suppress the ignore rules on ordinary prose, which
/// is far worse.
pub fn has_unit_suffix(tail: &str) -> (r: bool)
    ensures
        r == unit_suffix_at(tail.spec_bytes(), 0),
{
    unit_suffix_bytes(tail.as_bytes(), 0)
}

/// The line and column of byte `offset`, both counted from 1.
fn line_col(b: &[u8], offset: usize) -> (r: (usize, usize))
    requires
        offset <= b@.len() < usize::MAX,
    ensures
        r.0 == newlines(b@, offset as int) + 1,
        r.1 == offset - last_newline(b@, offset as int),
{
    let mut lines: usize = 0;
    let mut last: Option<usize> = None;
    let mut k: usize = 0;
    while k < offset
        invariant
            k <= offset <= b@.len(),
            lines == newlines(b@, k as int),
            lines <= k,
            match last {
                Some(j) => j < k && last_newline(b@, k as int) == j,
                None => last_newline(b@, k as int) == -1,
            },
        decreases offset - k,
    {
        if b[k] == NEWLINE {
            lines = lines + 1;
            last = Some(k);
        }
        k = k + 1;
    }
    let column = match last {
        Some(j) => offset - j,
        None => offset + 1,
    };
    (lines + 1, column)
}

/// The line and column of byte `offset` in `text`, both counted from 1.
pub fn line_and_column(text: &str, offset: usize) -> (r: (usize, usize))
    requires
        offset <= text.spec_bytes().len() < usize::MAX,
    ensures
        r.0 == newlines(text.spec_bytes(), offset as int) + 1,
        r.1 == offset - last_newline(text.spec_bytes(), offset as int),
{
    line_col(text.as_bytes(), offset)
}

proof fn lemma_digit_value_grows(b: Seq<u8>, lo: int, hi: int)
    ensures
        digit_value(b, lo, hi) >= 0,
        lo < hi ==> digit_value(b, lo, hi) >= digit_value(b, lo, hi - 1),
    decreases hi - lo,
{
    if lo < hi {
        lemma_digit_value_grows(b, lo, hi - 1);
    }
}

/// The digits of `b[lo..hi]` as one integer, or `None` when they do not fit.
fn read_digits(b: &[u8], lo: usize, hi: usize) -> (r: Option<u128>)
    requires
        lo <= hi <= b@.len(),
    ensures
        match r {
            Some(m) => m == digit_value(b@, lo as int, hi as int),
            None => digit_value(b@, lo as int, hi as int) > u128::MAX,
        },
{
    let mut acc: u128 = 0;
    let mut k = lo;
    while k < hi
        invariant
            lo <= k <= hi <= b@.len(),
            acc == digit_value(b@, lo as int, k as int),
        decreases hi - k,
    {
        let c = b[k];
        proof {
            lemma_digit_value_grows(b@, lo as int, k as int);
        }
        if c >= ZERO && c <= NINE {
            let d = (c - ZERO) as u128;
            match acc.checked_mul(10) {
                Some(times) => match times.checked_add(d) {
                    Some(next) => {
                        acc = next;
                    },
                    None => {
                        proof {
                            lemma_digit_value_stays_big(b@, lo as int, (k + 1) as int, hi as int);
                        }
                        return None;
                    },
                },
                None => {
                    proof {
                        lemma_digit_value_stays_big(b@, lo as int, (k + 1) as int, hi as int);
                    }
                    return None;
                },
            }
        }
        k = k + 1;
    }
    Some(acc)
}

proof fn lemma_digit_value_stays_big(b: Seq<u8>, lo: int, mid: int, hi: int)
    requires
        lo <= mid <= hi,
        digit_value(b, lo, mid) > u128::MAX,
    ensures
        digit_value(b, lo, hi) > u128::MAX,
    decreases hi - mid,
{
    if mid < hi {
        lemma_digit_value_stays_big(b, lo, mid, hi - 1);
        lemma_digit_value_grows(b, lo, hi);
    }
}

/// Whether a currency symbol ends right before `start`.
fn currency_at(b: &[u8], start: usize) -> (r: bool)
    requires
        start <= b@.len(),
    ensures
        r == currency_before(b@, start as int),
{
    (start >= 1 && b[start - 1] == 0x24) || (start >= 2 && b[start - 2] == 0xC2 && (b[start - 1]
        == 0xA3 || b[start - 1] == 0xA5)) || (start >= 3 && b[start - 3] == 0xE2 && b[start - 2]
        == 0x82 && b[start - 1] == 0xAC)
}

/// The numeral whose digits start at `ds`.
fn numeral_at(b: &[u8], ds: usize) -> (r: (Numeral, usize))
    requires
        ds < b@.len() < usize::MAX,
        is_ascii_digit(b@[ds as int]),
    ensures
        is_numeral_at(b@, ds as int, r.0),
        r.1 == numeral_end(b@, ds as int),
{
    proof {
        lemma_numeral_end_bounds(b@, ds as int);
    }
    let de = scan_digits(b, ds);
    let ie = scan_groups(b, de);
    let fraction = ie < b.len() && b.len() - ie > 1 && b[ie] == DOT && b[ie + 1] >= ZERO && b[ie
        + 1] <= NINE;
    let (end, precision) = if fraction {
        let fe = scan_digits(b, ie + 1);
        (fe, fe - (ie + 1))
    } else {
        (ie, 0)
    };
    let before = if ds >= 2 {
        b[ds - 2]
    } else {
        SPACE
    };
    let start = if ds > 0 && (b[ds - 1] == MINUS || b[ds - 1] == PLUS) && is_sign_boundary(before) {
        ds - 1
    } else {
        ds
    };
    let raw = ascii_string(b, start, end);
    let value = match read_digits(b, ds, end) {
        Some(m) if precision <= 0x7fff_ffff => Some(
            Decimal { negative: b[start] == MINUS, mantissa: m, exponent: -(precision as i32) },
        ),
        _ => None,
    };
    let sp = scan_spaces(b, end);
    let percent = sp < b.len() && b[sp] == PERCENT;
    let has_unit = currency_at(b, start) || percent || unit_suffix_bytes(b, end);
    let (line, column) = line_col(b, start);
    (Numeral { raw, value, precision, percent, has_unit, offset: start, line, column }, end)
}

/// Pull every number out of a block of text.
pub fn extract(text: &str) -> (out: Vec<Numeral>)
    requires
        text.spec_bytes().len() < usize::MAX,
    ensures
        out@.len() == numeral_digits(text.spec_bytes(), 0).len(),
        forall|k: int|
            0 <= k < out@.len() ==> is_numeral_at(
                text.spec_bytes(),
                numeral_digits(text.spec_bytes(), 0)[k],
                #[trigger] out@[k],
            ),
{
    let b = text.as_bytes();
    let mut out: Vec<Numeral> = Vec::new();
    let ghost mut found: Seq<int> = seq![];
    let mut i: usize = 0;
    while i < b.len()
        invariant
            i <= b@.len() < usize::MAX,
            b@ == text.spec_bytes(),
            numeral_digits(b@, 0) == found + numeral_digits(b@, i as int),
            out@.len() == found.len(),
            forall|k: int| 0 <= k < out@.len() ==> is_numeral_at(b@, found[k], #[trigger] out@[k]),
        decreases b@.len() - i,
    {
        if !(b[i] >= ZERO && b[i] <= NINE) {
            i = i + 1;
        } else {
            let (numeral, end) = numeral_at(b, i);
            proof {
                lemma_numeral_end_bounds(b@, i as int);
                assert(numeral_digits(b@, i as int) == seq![i as int] + numeral_digits(b@, end as int));
                assert(found + numeral_digits(b@, i as int) =~= found.push(i as int) + numeral_digits(b@, end as int));
                found = found.push(i as int);
            }
            out.push(numeral);
            i = end;
        }
    }
    proof {
        assert(numeral_digits(b@, i as int) =~= seq![]);
        assert(found + seq![] =~= found);
    }
    out
}


// ------------------------------------------------------------------------- context

/// How many characters of context to show on each side of an unmatched numeral.
pub const WINDOW: usize = 36;

/// Where the character containing byte `pos - 1` starts.
pub open spec fn char_start_before(b: Seq<u8>, pos: int) -> int
    decreases pos,
{
    if pos <= 1 || !is_continuation(b[pos - 1]) {
        pos - 1
    } else {
        char_start_before(b, pos - 1)
    }
}

/// The position `k` characters back from `pos`, or the start of the text.
pub open spec fn back_chars(b: Seq<u8>, pos: int, k: nat) -> int
    decreases k,
{
    if k == 0 || pos <= 0 {
        pos
    } else {
        back_chars(b, char_start_before(b, pos), (k - 1) as nat)
    }
}

/// The end of the continuation bytes starting at `j`.
pub open spec fn continuation_end(b: Seq<u8>, j: int) -> int
    decreases b.len() - j,
{
    if 0 <= j < b.len() && is_continuation(b[j]) {
        continuation_end(b, j + 1)
    } else {
        j
    }
}

/// The position `k` characters on from `pos`, or the end of the text.
pub open spec fn forward_chars(b: Seq<u8>, pos: int, k: nat) -> int
    decreases k,
{
    if k == 0 || pos >= b.len() || pos < 0 {
        pos
    } else {
        forward_chars(b, continuation_end(b, pos + 1), (k - 1) as nat)
    }
}

/// `b[lo..hi]` with every newline turned into a space.
pub open spec fn flattened(b: Seq<u8>, lo: int, hi: int) -> Seq<u8> {
    b.subrange(lo, hi).map_values(|c: u8| if c == NEWLINE { SPACE } else { c })
}

/// The words around an unmatched numeral, on one line, marked with `…` where the text goes on.
///
/// The window is `WINDOW` characters either side of the numeral. It is cut at character
/// boundaries of the UTF-8 text, so on any text the window decodes exactly; on bytes that were
/// never UTF-8 the decoding substitutes U+FFFD and the rest of the statement holds as stated
/// for the decoded window.
pub open spec fn context_of(b: Seq<u8>, start: int, after: int, window_text: Seq<char>) -> Seq<char> {
    let lo = back_chars(b, start, WINDOW as nat);
    let hi = forward_chars(b, after, WINDOW as nat);
    (if lo > 0 { "…"@ } else { seq![] }) + trimmed(window_text) + (if hi < b.len() { "…"@ } else { seq![] })
}

proof fn lemma_char_start_before_bounds(b: Seq<u8>, pos: int)
    requires
        0 < pos <= b.len(),
    ensures
        0 <= char_start_before(b, pos) < pos,
    decreases pos,
{
    if pos > 1 && is_continuation(b[pos - 1]) {
        lemma_char_start_before_bounds(b, pos - 1);
    }
}

proof fn lemma_continuation_end_bounds(b: Seq<u8>, j: int)
    requires
        0 <= j <= b.len(),
    ensures
        j <= continuation_end(b, j) <= b.len(),
    decreases b.len() - j,
{
    if j < b.len() && is_continuation(b[j]) {
        lemma_continuation_end_bounds(b, j + 1);
    }
}

fn step_back(b: &[u8], pos: usize) -> (r: usize)
    requires
        0 < pos <= b@.len(),
    ensures
        r == char_start_before(b@, pos as int),
        r < pos,
{
    proof {
        lemma_char_start_before_bounds(b@, pos as int);
    }
    let mut p = pos;
    while p > 1 && b[p - 1] >= 0x80 && b[p - 1] < 0xC0
        invariant
            0 < p <= pos <= b@.len(),
            char_start_before(b@, pos as int) == char_start_before(b@, p as int),
        decreases p,
    {
        p = p - 1;
    }
    p - 1
}

fn step_forward(b: &[u8], pos: usize) -> (r: usize)
    requires
        pos < b@.len() < usize::MAX,
    ensures
        r == continuation_end(b@, pos + 1),
        pos < r <= b@.len(),
{
    proof {
        lemma_continuation_end_bounds(b@, pos + 1);
    }
    let mut j = pos + 1;
    while j < b.len() && b[j] >= 0x80 && b[j] < 0xC0
        invariant
            pos < j <= b@.len(),
            continuation_end(b@, pos + 1) == continuation_end(b@, j as int),
        decreases b@.len() - j,
    {
        j = j + 1;
    }
    j
}

/// The context shown beside an unmatched numeral that starts at byte `start` and ends at
/// byte `after`.
pub fn context(text: &str, start: usize, after: usize) -> (r: String)
    requires
        start <= after <= text.spec_bytes().len() < usize::MAX,
    ensures
        ({
            let b = text.spec_bytes();
            let lo = back_chars(b, start as int, WINDOW as nat);
            let hi = forward_chars(b, after as int, WINDOW as nat);
            vstd::utf8::valid_utf8(flattened(b, lo, hi)) ==> r@ == context_of(
                b,
                start as int,
                after as int,
                vstd::utf8::decode_utf8(flattened(b, lo, hi)),
            )
        }),
{
    let b = text.as_bytes();
    let mut lo = start;
    let mut k: usize = 0;
    while k < WINDOW && lo > 0
        invariant
            k <= WINDOW,
            lo <= start <= b@.len(),
            b@ == text.spec_bytes(),
            back_chars(b@, start as int, WINDOW as nat) == back_chars(b@, lo as int, (WINDOW - k) as nat),
        decreases lo,
    {
        lo = step_back(b, lo);
        k = k + 1;
    }
    let mut hi = after;
    let mut k: usize = 0;
    while k < WINDOW && hi < b.len()
        invariant
            k <= WINDOW,
            after <= hi <= b@.len() < usize::MAX,
            b@ == text.spec_bytes(),
            forward_chars(b@, after as int, WINDOW as nat) == forward_chars(b@, hi as int, (WINDOW - k) as nat),
        decreases b@.len() - hi,
    {
        hi = step_forward(b, hi);
        k = k + 1;
    }
    let mut window: Vec<u8> = Vec::new();
    let mut j = lo;
    while j < hi
        invariant
            lo <= j <= hi <= b@.len(),
            window@ == flattened(b@, lo as int, j as int),
        decreases hi - j,
    {
        let c = b[j];
        window.push(if c == NEWLINE { SPACE } else { c });
        proof {
            assert(flattened(b@, lo as int, j + 1) =~= flattened(b@, lo as int, j as int).push(
                if c == NEWLINE { SPACE } else { c },
            ));
        }
        j = j + 1;
    }
    let decoded = crate::text::decode_lossy(window.as_slice());
    let mut r = String::new();
    if lo > 0 {
        crate::text::push_str(&mut r, "…");
    }
    crate::text::push_trimmed(&mut r, decoded.as_str());
    if hi < b.len() {
        crate::text::push_str(&mut r, "…");
    }
    proof {
        assert(seq![] + trimmed(decoded@) =~= trimmed(decoded@));
        assert(trimmed(decoded@) + seq![] =~= trimmed(decoded@));
    }
    r
}


// ------------------------------------------------------------------------- matching

/// The most paths listed for one numeral. Past this the list has stopped being evidence and
/// started being a census; `accounted_by` still carries the real number.
pub const MAX_PATHS: usize = 8;

/// Whether a recorded figure accounts for a written one.
///
/// The written figure has `precision` decimals, so its digits are the recorded value rounded
/// to that many places: `512` is accounted for by a recorded `512.4`, because the writer
/// rounded rather than made it up. A percent can stand for either form of the recorded
/// figure — `12.3%` is a fair rendering of both 12.3 and 0.123 — so it is also checked at two
/// more places, the precision that dividing by a hundred implies.
pub open spec fn accounts_for(value: Option<Decimal>, precision: int, percent: bool, scalar: Decimal) -> bool {
    match value {
        Some(v) => {
            ||| rounded_scaled(scalar, precision) == signed(v.negative, v.mantissa as int)
            ||| (percent && rounded_scaled(scalar, precision + 2) == signed(v.negative, v.mantissa as int))
        },
        None => false,
    }
}

/// Reasons a written figure need not appear in the ledger, consulted only once matching has
/// failed: it repeats a number from the user's own question, or it is a bare number with no
/// decimals that reads as a year (1000 to 2999) or as a small count (0 to 10).
pub open spec fn excused(value: Option<Decimal>, precision: int, has_unit: bool, question: Seq<Option<Decimal>>) -> bool {
    match value {
        Some(v) => {
            let whole = signed(v.negative, v.mantissa as int);
            ||| exists|i: int| 0 <= i < question.len() && (#[trigger] question[i] matches Some(q) && same_value(q, v))
            ||| (!has_unit && precision == 0 && (1000 <= whole <= 2999 || 0 <= whole <= 10))
        },
        None => false,
    }
}

/// Whether the numeral's text is followed by a `%`.
pub open spec fn numeral_percent(b: Seq<u8>, ds: int) -> bool {
    percent_after(b, numeral_end(b, ds))
}

/// Whether the numeral carries a unit: a currency symbol before it, or a `%` or a unit word
/// after it.
pub open spec fn numeral_has_unit(b: Seq<u8>, ds: int) -> bool {
    currency_before(b, numeral_start(b, ds)) || percent_after(b, numeral_end(b, ds))
        || unit_suffix_at(b, numeral_end(b, ds))
}

/// Whether `scalar` accounts for the numeral whose digits start at `ds`.
pub open spec fn accounted_at(b: Seq<u8>, ds: int, scalar: Decimal) -> bool {
    accounts_for(numeral_value(b, ds), numeral_precision(b, ds), numeral_percent(b, ds), scalar)
}

/// Every recorded path whose value accounts for the numeral whose digits start at `ds`, in the
/// order the map keeps them.
pub open spec fn paths_at(b: Seq<u8>, ds: int, entries: Seq<(String, Decimal)>) -> Seq<Seq<char>> {
    entries.filter(|e: (String, Decimal)| accounted_at(b, ds, e.1)).map_values(
        |e: (String, Decimal)| e.0@,
    )
}

/// The values of every numeral written in `b`, in order.
pub open spec fn written_values(b: Seq<u8>) -> Seq<Option<Decimal>> {
    numeral_digits(b, 0).map_values(|ds: int| numeral_value(b, ds))
}

/// Whether the numeral whose digits start at `ds` is excused when nothing accounts for it.
pub open spec fn excused_at(b: Seq<u8>, ds: int, question: Seq<Option<Decimal>>) -> bool {
    excused(numeral_value(b, ds), numeral_precision(b, ds), numeral_has_unit(b, ds), question)
}

/// The numerals the ledger accounts for.
pub open spec fn is_matched(b: Seq<u8>, entries: Seq<(String, Decimal)>) -> spec_fn(int) -> bool {
    |ds: int| paths_at(b, ds, entries).len() > 0
}

/// The numerals nothing accounts for but an ignore rule excuses.
pub open spec fn is_ignored(b: Seq<u8>, entries: Seq<(String, Decimal)>, question: Seq<Option<Decimal>>) -> spec_fn(int) -> bool {
    |ds: int| paths_at(b, ds, entries).len() == 0 && excused_at(b, ds, question)
}

/// The numerals nothing accounts for and nothing excuses.
pub open spec fn is_unmatched(b: Seq<u8>, entries: Seq<(String, Decimal)>, question: Seq<Option<Decimal>>) -> spec_fn(int) -> bool {
    |ds: int| paths_at(b, ds, entries).len() == 0 && !excused_at(b, ds, question)
}

pub open spec fn numeral_accounts(n: Numeral, scalar: Decimal) -> bool {
    accounts_for(n.value, n.precision as int, n.percent, scalar)
}

/// Whether `scalar` accounts for `n`.
fn accounts(n: &Numeral, scalar: &Decimal) -> (r: bool)
    requires
        n.precision + 2 <= u64::MAX,
    ensures
        r == numeral_accounts(*n, *scalar),
{
    match n.value {
        Some(v) => {
            let places = n.precision as u64;
            scalar.rounds_to(v.negative, v.mantissa, places) || (n.percent && scalar.rounds_to(
                v.negative,
                v.mantissa,
                places + 2,
            ))
        },
        None => false,
    }
}

/// Every recorded path whose value could account for `n`, in the map's order.
///
/// Empty means unmatched. More than one means the match is ambiguous, which is worth knowing.
fn matching_paths(n: &Numeral, scalars: &ScalarMap) -> (r: Vec<String>)
    requires
        n.precision + 2 <= u64::MAX,
    ensures
        r@.map_values(|s: String| s@) == scalars.entries@.filter(
            |e: (String, Decimal)| numeral_accounts(*n, e.1),
        ).map_values(|e: (String, Decimal)| e.0@),
{
    let ghost entries = scalars.entries@;
    let ghost pred = |e: (String, Decimal)| numeral_accounts(*n, e.1);
    let mut r: Vec<String> = Vec::new();
    let mut i: usize = 0;
    while i < scalars.entries.len()
        invariant
            entries == scalars.entries@,
            pred == (|e: (String, Decimal)| numeral_accounts(*n, e.1)),
            n.precision + 2 <= u64::MAX,
            i <= entries.len(),
            r@.map_values(|s: String| s@) == entries.take(i as int).filter(pred).map_values(
                |e: (String, Decimal)| e.0@,
            ),
        decreases entries.len() - i,
    {
        let hit = accounts(n, &scalars.entries[i].1);
        proof {
            assert(entries.take(i + 1) =~= entries.take(i as int).push(entries[i as int]));
            entries.take(i as int).lemma_filter_push(entries[i as int], pred);
        }
        if hit {
            r.push(scalars.entries[i].0.clone());
            proof {
                let f = entries.take(i as int).filter(pred);
                assert(f.push(entries[i as int]).map_values(|e: (String, Decimal)| e.0@) =~= f.map_values(
                    |e: (String, Decimal)| e.0@,
                ).push(entries[i as int].0@));
                assert(r@.map_values(|s: String| s@) =~= r@.drop_last().map_values(|s: String| s@).push(
                    r@.last()@,
                ));
            }
        }
        i = i + 1;
    }
    assert(entries.take(i as int) =~= entries);
    r
}

/// Whether `n`, which nothing in the ledger accounts for, is excused by an ignore rule.
fn ignorable(n: &Numeral, question: &Vec<Option<Decimal>>) -> (r: bool)
    ensures
        r == excused(n.value, n.precision as int, n.has_unit, question@),
{
    let v = match n.value {
        Some(v) => v,
        None => {
            return false;
        },
    };
    // Quoting the user's own question back at them is not fabrication.
    let mut i: usize = 0;
    while i < question.len()
        invariant
            i <= question@.len(),
            n.value == Some(v),
            forall|j: int| 0 <= j < i ==> !(#[trigger] question@[j] matches Some(q) && same_value(q, v)),
        decreases question@.len() - i,
    {
        if let Some(q) = question[i] {
            if q.same_value_as(&v) {
                return true;
            }
        }
        i = i + 1;
    }
    if n.has_unit || n.precision != 0 {
        return false;
    }
    // A bare four-digit year, or a small bare integer: ordinals, list counts, "one or two
    // things". A negative number is neither.
    if v.negative && v.mantissa != 0 {
        return false;
    }
    let m = v.mantissa;
    (1000 <= m && m <= 2999) || m <= 10
}

/// A numeral the ledger does not account for, with the text around it.
#[derive(Debug)]
pub struct Unmatched {
    pub numeral: Numeral,
    pub context: String,
}

/// A numeral that the ledger accounts for, and the recorded values that account for it.
///
/// A figure matched by several unrelated values is matched just as firmly as one matched by
/// exactly the value it is about. Naming the paths does not close that hole; it makes it
/// visible: `512 AR` accounted for by `result.attack_rating` reads differently from the same
/// numeral accounted for by `result.rows[7].weight`, and only one of those is worth acting on.
#[derive(Debug)]
pub struct Accounted {
    pub numeral: Numeral,
    /// Dotted ledger paths, prefixed by the entry they came from. Sorted, and capped at
    /// `MAX_PATHS`.
    pub paths: Vec<String>,
    /// How many paths there were before the cap.
    pub accounted_by: usize,
}

#[derive(Debug)]
pub struct Report {
    pub checked: usize,
    pub matched: usize,
    pub ignored: usize,
    pub unmatched: Vec<Unmatched>,
    /// Every matched numeral and what accounted for it, in the order they appear in the text.
    pub accounted: Vec<Accounted>,
}

/// `a` reports the numeral of `b` whose digits start at `ds`, and every path that accounts
/// for it, up to the cap.
pub open spec fn accounted_is(b: Seq<u8>, ds: int, entries: Seq<(String, Decimal)>, a: Accounted) -> bool {
    let paths = paths_at(b, ds, entries);
    &&& is_numeral_at(b, ds, a.numeral)
    &&& a.accounted_by == paths.len()
    &&& a.paths@.map_values(|s: String| s@) == paths.take(
        if paths.len() <= MAX_PATHS {
            paths.len() as int
        } else {
            MAX_PATHS as int
        },
    )
}

/// `u` reports the numeral of `b` whose digits start at `ds`, with its context.
pub open spec fn unmatched_is(b: Seq<u8>, ds: int, u: Unmatched) -> bool {
    let start = numeral_start(b, ds);
    let end = numeral_end(b, ds);
    let lo = back_chars(b, start, WINDOW as nat);
    let hi = forward_chars(b, end, WINDOW as nat);
    &&& is_numeral_at(b, ds, u.numeral)
    &&& vstd::utf8::valid_utf8(flattened(b, lo, hi)) ==> u.context@ == context_of(
        b,
        start,
        end,
        vstd::utf8::decode_utf8(flattened(b, lo, hi)),
    )
}

/// Whether more than one recorded value accounts for a numeral.
pub open spec fn ambiguous_pred() -> spec_fn(Accounted) -> bool {
    |a: Accounted| a.accounted_by > 1
}

impl Report {
    /// Numerals that more than one recorded value could account for.
    ///
    /// A count of how loose this particular attestation was. Zero means every figure in the
    /// prose traces to exactly one thing the ledger recorded, which is the strong reading of
    /// "attested".
    pub fn ambiguous(&self) -> (r: usize)
        ensures
            r == self.accounted@.filter(ambiguous_pred()).len(),
    {
        let ghost pred = ambiguous_pred();
        let mut count: usize = 0;
        let mut i: usize = 0;
        while i < self.accounted.len()
            invariant
                i <= self.accounted@.len(),
                pred == ambiguous_pred(),
                count == self.accounted@.take(i as int).filter(pred).len(),
            decreases self.accounted@.len() - i,
        {
            proof {
                assert(self.accounted@.take(i + 1) =~= self.accounted@.take(i as int).push(
                    self.accounted@[i as int],
                ));
                self.accounted@.take(i as int).lemma_filter_push(self.accounted@[i as int], pred);
                self.accounted@.take(i as int).lemma_filter_len(pred);
            }
            if self.accounted[i].accounted_by > 1 {
                count = count + 1;
            }
            i = i + 1;
        }
        assert(self.accounted@.take(i as int) =~= self.accounted@);
        count
    }

    /// Whether every numeral was accounted for or excused.
    pub fn is_clean(&self) -> (r: bool)
        ensures
            r == (self.unmatched@.len() == 0),
    {
        self.unmatched.len() == 0
    }
}


/// Every numeral the grammar finds starts at a digit inside the text.
pub proof fn numeral_digits_facts(b: Seq<u8>, k: int)
    requires
        0 <= k < numeral_digits(b, 0).len(),
    ensures
        0 <= numeral_digits(b, 0)[k] < b.len(),
        is_ascii_digit(b[numeral_digits(b, 0)[k]]),
{
    lemma_numeral_digits_from(b, 0);
}

proof fn lemma_numeral_digits_from(b: Seq<u8>, i: int)
    requires
        0 <= i,
    ensures
        forall|k: int|
            0 <= k < numeral_digits(b, i).len() ==> i <= #[trigger] numeral_digits(b, i)[k] < b.len()
                && is_ascii_digit(b[numeral_digits(b, i)[k]]),
    decreases b.len() - i,
{
    if i < b.len() {
        if !is_ascii_digit(b[i]) {
            lemma_numeral_digits_from(b, i + 1);
            assert(numeral_digits(b, i) == numeral_digits(b, i + 1));
        } else {
            lemma_numeral_end_bounds(b, i);
            lemma_numeral_digits_from(b, numeral_end(b, i));
            let rest = numeral_digits(b, numeral_end(b, i));
            assert(numeral_digits(b, i) == seq![i] + rest);
            assert forall|k: int| 0 <= k < numeral_digits(b, i).len() implies i <= #[trigger] numeral_digits(b, i)[k] < b.len()
                && is_ascii_digit(b[numeral_digits(b, i)[k]]) by {
                if k > 0 {
                    assert(numeral_digits(b, i)[k] == rest[k - 1]);
                } else {
                    assert(numeral_digits(b, i)[k] == i);
                }
            }
        }
    } else {
        assert(numeral_digits(b, i).len() == 0);
    }
}

impl Numeral {
    /// A copy of the numeral.
    pub fn clone_numeral(&self) -> (r: Numeral)
        ensures
            r.raw@ == self.raw@,
            r.value == self.value,
            r.precision == self.precision,
            r.percent == self.percent,
            r.has_unit == self.has_unit,
            r.offset == self.offset,
            r.line == self.line,
            r.column == self.column,
    {
        Numeral {
            raw: self.raw.clone(),
            value: self.value,
            precision: self.precision,
            percent: self.percent,
            has_unit: self.has_unit,
            offset: self.offset,
            line: self.line,
            column: self.column,
        }
    }
}

/// A figure written exactly as it was recorded is accounted for: rounding a recorded value to
/// the precision it was written at gives the written figure back, whichever way either of them
/// spells it (`500` against a recorded `500.0`, `1,234.5` against `1234.50`).
pub proof fn an_exact_figure_is_accounted_for(v: Decimal, precision: nat, percent: bool, scalar: Decimal)
    requires
        v.exponent == -precision,
        same_value(scalar, v),
    ensures
        accounts_for(Some(v), precision as int, percent, scalar),
{
    let p = precision as int;
    let e = scalar.exponent + p;
    let a = v.mantissa as int;
    assert(pow10(0) == 1);
    if e >= 0 {
        assert(scaled_to(v, v.exponent as int) == signed(v.negative, a));
    } else {
        let j = (-e) as nat;
        let sm = scalar.mantissa as int;
        assert(scaled_to(scalar, scalar.exponent as int) == signed(scalar.negative, sm));
        assert(scaled_to(v, scalar.exponent as int) == signed(v.negative, a * pow10(j)));
        lemma_pow10_positive(j);
        lemma_pow10_positive((j - 1) as nat);
        assert(a * pow10(j) >= 0) by (nonlinear_arith)
            requires
                a >= 0,
                pow10(j) > 0,
        ;
        assert(sm == a * pow10(j));
        assert(pow10(j) == 10 * pow10((j - 1) as nat));
        vstd::arithmetic::mul::lemma_mul_is_commutative(a, pow10(j));
        vstd::arithmetic::div_mod::lemma_div_multiples_vanish(a, pow10(j));
        assert(sm / pow10(j) == a);
        vstd::arithmetic::mul::lemma_mul_is_associative(a, 10, pow10((j - 1) as nat));
        vstd::arithmetic::mul::lemma_mul_is_commutative(a * 10, pow10((j - 1) as nat));
        vstd::arithmetic::div_mod::lemma_div_multiples_vanish(a * 10, pow10((j - 1) as nat));
        assert(sm / pow10((j - 1) as nat) == a * 10);
        vstd::arithmetic::div_mod::lemma_mod_multiples_basic(a, 10);
        assert(rounded_magnitude(scalar, p) == a);
    }
}

/// Three predicates that split every element between them split every sequence's length.
proof fn lemma_three_way_split(ds: Seq<int>, pm: spec_fn(int) -> bool, pi: spec_fn(int) -> bool, pu: spec_fn(int) -> bool)
    requires
        forall|d: int| #[trigger] pm(d) as int + pi(d) as int + pu(d) as int == 1,
    ensures
        ds.filter(pm).len() + ds.filter(pi).len() + ds.filter(pu).len() == ds.len(),
    decreases ds.len(),
{
    if ds.len() > 0 {
        let init = ds.drop_last();
        lemma_three_way_split(init, pm, pi, pu);
        assert(ds =~= init.push(ds.last()));
        init.lemma_filter_push(ds.last(), pm);
        init.lemma_filter_push(ds.last(), pi);
        init.lemma_filter_push(ds.last(), pu);
        assert(pm(ds.last()) as int + pi(ds.last()) as int + pu(ds.last()) as int == 1);
    } else {
        reveal(Seq::filter);
    }
}

/// Matching comes first: a numeral that some recorded value accounts for is reported as
/// matched, and neither an ignore rule nor its absence can move it elsewhere.
pub proof fn matching_precedes_ignoring(b: Seq<u8>, ds: int, entries: Seq<(String, Decimal)>, question: Seq<Option<Decimal>>)
    requires
        exists|i: int| 0 <= i < entries.len() && accounted_at(b, ds, #[trigger] entries[i].1),
    ensures
        is_matched(b, entries)(ds),
        !is_ignored(b, entries, question)(ds),
        !is_unmatched(b, entries, question)(ds),
{
    let i = choose|i: int| 0 <= i < entries.len() && accounted_at(b, ds, #[trigger] entries[i].1);
    let pred = |e: (String, Decimal)| accounted_at(b, ds, e.1);
    entries.lemma_filter_contains(pred, i);
}

/// A figure the user stated in the question is theirs, not a fabrication: a numeral of the
/// same value is never reported as unmatched, whatever the ledger holds.
pub proof fn a_figure_from_the_question_is_not_fabrication(
    b: Seq<u8>,
    ds: int,
    entries: Seq<(String, Decimal)>,
    question: Seq<Option<Decimal>>,
    i: int,
)
    requires
        0 <= i < question.len(),
        numeral_value(b, ds) matches Some(v) && question[i] matches Some(q) && same_value(q, v),
    ensures
        !is_unmatched(b, entries, question)(ds),
{
}

/// More evidence never takes an account away: recording more values, or stating more figures
/// in the question, never turns a numeral that was matched or excused into an unmatched one.
pub proof fn more_evidence_never_unmatches(
    b: Seq<u8>,
    ds: int,
    entries: Seq<(String, Decimal)>,
    more: Seq<(String, Decimal)>,
    question: Seq<Option<Decimal>>,
    asked: Seq<Option<Decimal>>,
)
    requires
        forall|i: int| 0 <= i < entries.len() ==> more.contains(#[trigger] entries[i]),
        forall|i: int| 0 <= i < question.len() ==> asked.contains(#[trigger] question[i]),
        !is_unmatched(b, entries, question)(ds),
    ensures
        !is_unmatched(b, more, asked)(ds),
{
    let pred = |e: (String, Decimal)| accounted_at(b, ds, e.1);
    if paths_at(b, ds, entries).len() > 0 {
        let found = entries.filter(pred);
        assert(found.len() > 0);
        let x = found[0];
        entries.lemma_filter_pred(pred, 0);
        assert(found.contains(x));
        entries.lemma_filter_contains_rev(pred, x);
        let i = choose|i: int| 0 <= i < entries.len() && entries[i] == x;
        assert(more.contains(entries[i]));
        let j = choose|j: int| 0 <= j < more.len() && more[j] == x;
        more.lemma_filter_contains(pred, j);
        assert(more.filter(pred).len() > 0);
    } else {
        assert(excused_at(b, ds, question));
        match numeral_value(b, ds) {
            Some(v) => {
                if exists|i: int| 0 <= i < question.len() && (#[trigger] question[i] matches Some(q) && same_value(q, v)) {
                    let i = choose|i: int| 0 <= i < question.len() && (#[trigger] question[i] matches Some(q) && same_value(q, v));
                    assert(asked.contains(question[i]));
                    let j = choose|j: int| 0 <= j < asked.len() && asked[j] == question[i];
                    assert(asked[j] matches Some(q) && same_value(q, v));
                }
            },
            None => {},
        }
    }
}

/// What a filter keeps of a map with sorted keys is itself sorted, and drawn from the map.
proof fn lemma_filter_sorted(s: Seq<(String, Decimal)>, pred: spec_fn((String, Decimal)) -> bool)
    requires
        crate::scalar_map::sorted_keys(s),
    ensures
        crate::scalar_map::sorted_keys(s.filter(pred)),
        forall|x: (String, Decimal)| #[trigger] s.filter(pred).contains(x) ==> exists|k: int| 0 <= k < s.len() && s[k] == x && pred(x),
    decreases s.len(),
{
    reveal(Seq::filter);
    if s.len() > 0 {
        let init = s.drop_last();
        assert(crate::scalar_map::sorted_keys(init)) by {
            assert forall|i: int, j: int| 0 <= i < j < init.len() implies crate::text::lex_lt(
                crate::scalar_map::key_bytes((#[trigger] init[i]).0@),
                crate::scalar_map::key_bytes((#[trigger] init[j]).0@),
            ) by {
                assert(init[i] == s[i] && init[j] == s[j]);
            }
        }
        lemma_filter_sorted(init, pred);
        let f = init.filter(pred);
        if pred(s.last()) {
            assert(s.filter(pred) == f.push(s.last()));
            assert forall|i: int, j: int| 0 <= i < j < f.push(s.last()).len() implies crate::text::lex_lt(
                crate::scalar_map::key_bytes((#[trigger] f.push(s.last())[i]).0@),
                crate::scalar_map::key_bytes((#[trigger] f.push(s.last())[j]).0@),
            ) by {
                if j == f.len() {
                    assert(f.contains(f[i]));
                    let k = choose|k: int| 0 <= k < init.len() && init[k] == f[i] && pred(f[i]);
                    assert(s[k] == f[i] && s[s.len() - 1] == s.last());
                } else {
                    assert(f.push(s.last())[i] == f[i] && f.push(s.last())[j] == f[j]);
                }
            }
            assert forall|x: (String, Decimal)| #[trigger] s.filter(pred).contains(x) implies exists|k: int|
                0 <= k < s.len() && s[k] == x && pred(x) by {
                let m = choose|m: int| 0 <= m < f.push(s.last()).len() && f.push(s.last())[m] == x;
                if m == f.len() {
                    assert(s[s.len() - 1] == x);
                } else {
                    assert(f.contains(f[m]));
                    let k = choose|k: int| 0 <= k < init.len() && init[k] == f[m] && pred(f[m]);
                    assert(s[k] == x);
                }
            }
        } else {
            assert(s.filter(pred) == f);
            assert forall|x: (String, Decimal)| #[trigger] s.filter(pred).contains(x) implies exists|k: int|
                0 <= k < s.len() && s[k] == x && pred(x) by {
                let k = choose|k: int| 0 <= k < init.len() && init[k] == x && pred(x);
                assert(s[k] == x);
            }
        }
    }
}

/// `path` is a key of `entries` whose value accounts for the numeral whose digits start at `ds`.
pub open spec fn key_accounting(b: Seq<u8>, ds: int, entries: Seq<(String, Decimal)>, path: Seq<char>) -> bool {
    exists|k: int| 0 <= k < entries.len() && entries[k].0@ == path && accounted_at(b, ds, entries[k].1)
}

/// What accounts for a numeral, in a map with sorted keys: keys of that map, each holding a
/// value that accounts for the numeral, in strictly ascending order.
pub proof fn accounting_paths_are_ascending_keys(b: Seq<u8>, ds: int, entries: Seq<(String, Decimal)>)
    requires
        crate::scalar_map::sorted_keys(entries),
    ensures
        forall|i: int, j: int| 0 <= i < j < paths_at(b, ds, entries).len() ==> crate::text::lex_lt(
            crate::scalar_map::key_bytes(#[trigger] paths_at(b, ds, entries)[i]),
            crate::scalar_map::key_bytes(#[trigger] paths_at(b, ds, entries)[j]),
        ),
        forall|i: int| 0 <= i < paths_at(b, ds, entries).len() ==> key_accounting(b, ds, entries, #[trigger] paths_at(b, ds, entries)[i]),
{
    let pred = |e: (String, Decimal)| accounted_at(b, ds, e.1);
    lemma_filter_sorted(entries, pred);
    let f = entries.filter(pred);
    assert forall|i: int| 0 <= i < paths_at(b, ds, entries).len() implies key_accounting(b, ds, entries, #[trigger] paths_at(b, ds, entries)[i]) by {
        assert(f.contains(f[i]));
        let k = choose|k: int| 0 <= k < entries.len() && entries[k] == f[i] && pred(f[i]);
        assert(entries[k].0@ == paths_at(b, ds, entries)[i]);
    }
    assert forall|i: int, j: int| 0 <= i < j < paths_at(b, ds, entries).len() implies crate::text::lex_lt(
        crate::scalar_map::key_bytes(#[trigger] paths_at(b, ds, entries)[i]),
        crate::scalar_map::key_bytes(#[trigger] paths_at(b, ds, entries)[j]),
    ) by {
        assert(crate::text::lex_lt(crate::scalar_map::key_bytes(f[i].0@), crate::scalar_map::key_bytes(f[j].0@)));
    }
}

/// Only two kinds of bare integer are excused when nothing accounts for them and the question
/// does not state them: a four-digit year from 1000 to 2999, and a small count from 0 to 10.
/// Any other numeral is unmatched: an integer outside those ranges (5000 and 42 alike), a
/// negative one, a figure written with decimals, and a figure with a unit.
pub proof fn only_a_year_or_a_small_count_is_excused(b: Seq<u8>, ds: int, entries: Seq<(String, Decimal)>, question: Seq<Option<Decimal>>)
    requires
        numeral_value(b, ds) is Some,
        paths_at(b, ds, entries).len() == 0,
        forall|i: int| 0 <= i < question.len() ==> !(#[trigger] question[i] matches Some(q) && same_value(q, numeral_value(b, ds)->0)),
    ensures
        ({
            let v = numeral_value(b, ds)->0;
            let n = if v.negative { -(v.mantissa as int) } else { v.mantissa as int };
            is_unmatched(b, entries, question)(ds) <==> !(numeral_precision(b, ds) == 0 && !numeral_has_unit(b, ds) && (
            (1000 <= n && n <= 2999) || (0 <= n && n <= 10)))
        }),
{
}

/// Keeping what a weaker test keeps keeps no fewer.
pub proof fn lemma_filter_len_mono(s: Seq<int>, p: spec_fn(int) -> bool, q: spec_fn(int) -> bool)
    requires
        forall|x: int| #[trigger] p(x) ==> q(x),
    ensures
        s.filter(p).len() <= s.filter(q).len(),
    decreases s.len(),
{
    reveal(Seq::filter);
    if s.len() > 0 {
        lemma_filter_len_mono(s.drop_last(), p, q);
    }
}

/// The same law counted over a whole answer: with more recorded values and more figures in
/// the question, no more numerals are unmatched and no fewer matched, so an answer that was
/// clean stays clean.
pub proof fn more_evidence_never_adds_unmatched(
    b: Seq<u8>,
    entries: Seq<(String, Decimal)>,
    more: Seq<(String, Decimal)>,
    question: Seq<Option<Decimal>>,
    asked: Seq<Option<Decimal>>,
)
    requires
        forall|i: int| 0 <= i < entries.len() ==> more.contains(#[trigger] entries[i]),
        forall|i: int| 0 <= i < question.len() ==> asked.contains(#[trigger] question[i]),
    ensures
        numeral_digits(b, 0).filter(is_unmatched(b, more, asked)).len() <= numeral_digits(b, 0).filter(
            is_unmatched(b, entries, question),
        ).len(),
        numeral_digits(b, 0).filter(is_matched(b, entries)).len() <= numeral_digits(b, 0).filter(
            is_matched(b, more),
        ).len(),
{
    assert forall|ds: int| #[trigger] is_unmatched(b, more, asked)(ds) implies is_unmatched(b, entries, question)(ds) by {
        if !is_unmatched(b, entries, question)(ds) {
            more_evidence_never_unmatches(b, ds, entries, more, question, asked);
        }
    }
    lemma_filter_len_mono(numeral_digits(b, 0), is_unmatched(b, more, asked), is_unmatched(b, entries, question));
    assert forall|ds: int| #[trigger] is_matched(b, entries)(ds) implies is_matched(b, more)(ds) by {
        let pred = |e: (String, Decimal)| accounted_at(b, ds, e.1);
        let found = entries.filter(pred);
        let x = found[0];
        entries.lemma_filter_pred(pred, 0);
        assert(found.contains(x));
        entries.lemma_filter_contains_rev(pred, x);
        let i = choose|i: int| 0 <= i < entries.len() && entries[i] == x;
        assert(more.contains(entries[i]));
        let j = choose|j: int| 0 <= j < more.len() && more[j] == x;
        more.lemma_filter_contains(pred, j);
    }
    lemma_filter_len_mono(numeral_digits(b, 0), is_matched(b, entries), is_matched(b, more));
}

/// The values of the numerals in `text`.
fn values_in(text: &str) -> (r: Vec<Option<Decimal>>)
    requires
        text.spec_bytes().len() < usize::MAX,
    ensures
        r@ == written_values(text.spec_bytes()),
{
    let found = extract(text);
    let ghost ds = numeral_digits(text.spec_bytes(), 0);
    let mut r: Vec<Option<Decimal>> = Vec::new();
    let mut k: usize = 0;
    while k < found.len()
        invariant
            found@.len() == ds.len(),
            ds == numeral_digits(text.spec_bytes(), 0),
            forall|j: int| 0 <= j < found@.len() ==> is_numeral_at(text.spec_bytes(), ds[j], #[trigger] found@[j]),
            k <= found@.len(),
            r@ == ds.take(k as int).map_values(|d: int| numeral_value(text.spec_bytes(), d)),
        decreases found@.len() - k,
    {
        r.push(found[k].value);
        proof {
            assert(is_numeral_at(text.spec_bytes(), ds[k as int], found@[k as int]));
            assert(ds.take(k + 1).map_values(|d: int| numeral_value(text.spec_bytes(), d)) =~= ds.take(
                k as int,
            ).map_values(|d: int| numeral_value(text.spec_bytes(), d)).push(
                numeral_value(text.spec_bytes(), ds[k as int]),
            ));
        }
        k = k + 1;
    }
    assert(ds.take(k as int) =~= ds);
    r
}

/// The question's numerals, or none when there is no question.
pub open spec fn question_values(question: Option<&str>) -> Seq<Option<Decimal>> {
    match question {
        Some(q) => written_values(q.spec_bytes()),
        None => seq![],
    }
}

/// Check every numeral in `text` against the ledger's recorded values.
///
/// Each numeral is matched first: it is accounted for when some recorded value rounds to it.
/// Only a numeral nothing accounts for is tested against the ignore rules (a number from the
/// user's own `question`, a bare year, a small bare count), so an ignore rule can never hide a
/// figure that did come from a node. What neither accounts for nor excuses is unmatched, and
/// reported with the text around it.
pub fn attest(text: &str, scalars: &ScalarMap, question: Option<&str>) -> (r: Report)
    requires
        text.spec_bytes().len() < usize::MAX,
        question matches Some(q) ==> q.spec_bytes().len() < usize::MAX,
    ensures
        ({
            let b = text.spec_bytes();
            let ds = numeral_digits(b, 0);
            let entries = scalars.entries@;
            let qv = question_values(question);
            let matched = ds.filter(is_matched(b, entries));
            let unmatched = ds.filter(is_unmatched(b, entries, qv));
            &&& r.checked == ds.len()
            &&& r.checked == r.matched + r.ignored + r.unmatched@.len()
            &&& r.matched == matched.len()
            &&& r.ignored == ds.filter(is_ignored(b, entries, qv)).len()
            &&& r.accounted@.len() == matched.len()
            &&& forall|j: int| 0 <= j < matched.len() ==> accounted_is(b, matched[j], entries, #[trigger] r.accounted@[j])
            &&& r.unmatched@.len() == unmatched.len()
            &&& forall|j: int| 0 <= j < unmatched.len() ==> unmatched_is(b, unmatched[j], #[trigger] r.unmatched@[j])
        }),
{
    let qv: Vec<Option<Decimal>> = match question {
        Some(q) => values_in(q),
        None => Vec::new(),
    };
    let ghost b = text.spec_bytes();
    let ghost entries = scalars.entries@;
    let ghost ds = numeral_digits(b, 0);
    let ghost pm = is_matched(b, entries);
    let ghost pi = is_ignored(b, entries, qv@);
    let ghost pu = is_unmatched(b, entries, qv@);
    assert(qv@ == question_values(question));
    let found = extract(text);
    let mut report = Report {
        checked: 0,
        matched: 0,
        ignored: 0,
        unmatched: Vec::new(),
        accounted: Vec::new(),
    };
    let mut k: usize = 0;
    while k < found.len()
        invariant
            b == text.spec_bytes(),
            b.len() < usize::MAX,
            entries == scalars.entries@,
            ds == numeral_digits(b, 0),
            pm == is_matched(b, entries),
            pi == is_ignored(b, entries, qv@),
            pu == is_unmatched(b, entries, qv@),
            found@.len() == ds.len(),
            forall|j: int| 0 <= j < found@.len() ==> is_numeral_at(b, ds[j], #[trigger] found@[j]),
            k <= found@.len(),
            report.checked == k,
            report.matched == ds.take(k as int).filter(pm).len(),
            report.ignored == ds.take(k as int).filter(pi).len(),
            report.accounted@.len() == ds.take(k as int).filter(pm).len(),
            forall|j: int|
                0 <= j < report.accounted@.len() ==> accounted_is(
                    b,
                    ds.take(k as int).filter(pm)[j],
                    entries,
                    #[trigger] report.accounted@[j],
                ),
            report.unmatched@.len() == ds.take(k as int).filter(pu).len(),
            forall|j: int|
                0 <= j < report.unmatched@.len() ==> unmatched_is(
                    b,
                    ds.take(k as int).filter(pu)[j],
                    #[trigger] report.unmatched@[j],
                ),
        decreases found@.len() - k,
    {
        let numeral = found[k].clone_numeral();
        let ghost d = ds[k as int];
        proof {
            assert(is_numeral_at(b, d, found@[k as int]));
            numeral_digits_facts(b, k as int);
            lemma_numeral_end_bounds(b, d);
            assert(ds.take(k + 1) =~= ds.take(k as int).push(d));
            ds.take(k as int).lemma_filter_push(d, pm);
            ds.take(k as int).lemma_filter_push(d, pi);
            ds.take(k as int).lemma_filter_push(d, pu);
            ds.take(k as int).lemma_filter_len(pm);
            ds.take(k as int).lemma_filter_len(pi);
            assert((|e: (String, Decimal)| numeral_accounts(numeral, e.1)) =~= (|e: (String, Decimal)| accounted_at(b, d, e.1)));
        }
        let mut paths = matching_paths(&numeral, scalars);
        report.checked = report.checked + 1;
        if paths.len() > 0 {
            report.matched = report.matched + 1;
            let accounted_by = paths.len();
            paths.truncate(MAX_PATHS);
            proof {
                let full = paths_at(b, d, entries);
                assert(paths@.map_values(|s: String| s@) =~= full.take(
                    if full.len() <= MAX_PATHS { full.len() as int } else { MAX_PATHS as int },
                ));
            }
            report.accounted.push(Accounted { numeral, paths, accounted_by });
        } else if ignorable(&numeral, &qv) {
            report.ignored = report.ignored + 1;
        } else {
            let after = numeral.offset + numeral.raw.as_str().unicode_len();
            let context = context(text, numeral.offset, after);
            report.unmatched.push(Unmatched { numeral, context });
        }
        k = k + 1;
    }
    assert(ds.take(k as int) =~= ds);
    proof {
        lemma_three_way_split(ds, pm, pi, pu);
    }
    report
}


// ------------------------------------------------------------------- the ledger's figures

/// The rest of `k` after `prefix`, when `k` starts with it.
pub open spec fn after_prefix(k: Seq<char>, prefix: Seq<char>) -> Option<Seq<char>> {
    if k.len() >= prefix.len() && k.subrange(0, prefix.len() as int) == prefix {
        Some(k.subrange(prefix.len() as int, k.len() as int))
    } else {
        None
    }
}

/// The figure a ledger entry's recorded `scalars` hold under `path`.
pub open spec fn result_figure(entry: Json, path: Seq<char>) -> Option<Decimal> {
    match entry.get_spec("scalars"@) {
        Some(Json::Object(fields)) => last_number(fields@, path),
        _ => None,
    }
}

/// The figure a ledger entry's input holds under `path`, as `input.…` paths.
pub open spec fn input_figure(entry: Json, path: Seq<char>) -> Option<Decimal> {
    match entry.get_spec("input"@) {
        Some(input) => last_assigned(leaves(input, "input"@), path),
        None => None,
    }
}

/// The prefix that names the `i`th entry: `3:`.
pub open spec fn entry_prefix(i: nat) -> Seq<char> {
    nat_digits(i) + seq![':']
}

/// What the `i`th entry records under `k`: its input's figure when inputs count and it has
/// one, else its result's.
pub open spec fn entry_figure(entry: Json, i: nat, include_inputs: bool, k: Seq<char>) -> Option<Decimal> {
    match after_prefix(k, entry_prefix(i)) {
        Some(path) => match (if include_inputs { input_figure(entry, path) } else { None }) {
            Some(d) => Some(d),
            None => result_figure(entry, path),
        },
        None => None,
    }
}

/// What a ledger records under `k`, the later entry winning.
pub open spec fn recorded(entries: Seq<Json>, include_inputs: bool, k: Seq<char>) -> Option<Decimal>
    decreases entries.len(),
{
    if entries.len() == 0 {
        None
    } else {
        match entry_figure(entries.last(), (entries.len() - 1) as nat, include_inputs, k) {
            Some(d) => Some(d),
            None => recorded(entries.drop_last(), include_inputs, k),
        }
    }
}

proof fn lemma_prefixed_key(prefix: Seq<char>, path: Seq<char>, k: Seq<char>)
    ensures
        (k == prefix + path) == (after_prefix(k, prefix) == Some(path)),
{
    if k == prefix + path {
        assert(k.subrange(0, prefix.len() as int) =~= prefix);
        assert(k.subrange(prefix.len() as int, k.len() as int) =~= path);
    }
    if after_prefix(k, prefix) == Some(path) {
        assert(k =~= prefix + path);
    }
}

/// Inputs are not provenance: unless inputs are admitted, what a ledger accounts for depends
/// on nothing but the `scalars` each line recorded from its result. Two ledgers whose lines
/// recorded the same scalars account for the same figures, whatever their inputs were.
pub proof fn an_input_is_not_provenance(a: Seq<Json>, b: Seq<Json>, k: Seq<char>)
    requires
        a.len() == b.len(),
        forall|i: int| 0 <= i < a.len() ==> (#[trigger] a[i]).get_spec("scalars"@) == b[i].get_spec("scalars"@),
    ensures
        recorded(a, false, k) == recorded(b, false, k),
    decreases a.len(),
{
    if a.len() > 0 {
        an_input_is_not_provenance(a.drop_last(), b.drop_last(), k);
        assert(a.last().get_spec("scalars"@) == b.last().get_spec("scalars"@)) by {
            assert(a[a.len() - 1] == a.last());
        }
    }
}

/// The `scalars` of a ledger line are its seventh field.
proof fn lemma_entry_scalars(
    fs: Seq<(String, Json)>,
    name: Seq<char>,
    version: Seq<char>,
    input: Json,
    outcome: Seq<char>,
    code: int,
    r: Json,
    ts: Seq<char>,
    reads: Seq<Json>,
)
    requires
        crate::ledger::entry_fields(fs, name, version, input, outcome, code, Some(r), ts, reads),
    ensures
        crate::json::field(fs, "scalars"@) == Some(fs[6].1),
{
    reveal_strlit("code");
    reveal_strlit("input");
    reveal_strlit("node");
    reveal_strlit("outcome");
    reveal_strlit("reads");
    reveal_strlit("result");
    reveal_strlit("scalars");
    let key = "scalars"@;
    assert(key.len() == 7);
    assert("code"@.len() == 4);
    assert("input"@.len() == 5);
    assert("node"@.len() == 4);
    assert("outcome"@[0] != key[0]);
    assert("reads"@.len() == 5);
    assert("result"@.len() == 6);
    assert(fs[0].0@ != key);
    assert(fs[1].0@ != key);
    assert(fs[2].0@ != key);
    assert(fs[3].0@ != key);
    assert(fs[4].0@ != key);
    assert(fs[5].0@ != key);
    assert(fs.skip(6)[0] == fs[6]);
    assert(crate::json::field(fs.skip(6), key) == Some(fs[6].1));
    assert(fs.skip(5).drop_first() =~= fs.skip(6));
    assert(fs.skip(5)[0] == fs[5]);
    assert(crate::json::field(fs.skip(5), key) == Some(fs[6].1));
    assert(fs.skip(4).drop_first() =~= fs.skip(5));
    assert(fs.skip(4)[0] == fs[4]);
    assert(crate::json::field(fs.skip(4), key) == Some(fs[6].1));
    assert(fs.skip(3).drop_first() =~= fs.skip(4));
    assert(fs.skip(3)[0] == fs[3]);
    assert(crate::json::field(fs.skip(3), key) == Some(fs[6].1));
    assert(fs.skip(2).drop_first() =~= fs.skip(3));
    assert(fs.skip(2)[0] == fs[2]);
    assert(crate::json::field(fs.skip(2), key) == Some(fs[6].1));
    assert(fs.skip(1).drop_first() =~= fs.skip(2));
    assert(fs.skip(1)[0] == fs[1]);
    assert(crate::json::field(fs.skip(1), key) == Some(fs[6].1));
    assert(fs.drop_first() =~= fs.skip(1));
}

/// A figure a call returned is on record for attestation: whatever the latest ledger line's
/// result holds under a path, the ledger gives back under that path prefixed with the line's
/// index (`3:result.attack_rating`).
pub proof fn a_returned_figure_is_on_record(
    entries: Seq<Json>,
    name: Seq<char>,
    version: Seq<char>,
    input: Json,
    outcome: Seq<char>,
    code: int,
    r: Json,
    ts: Seq<char>,
    reads: Seq<Json>,
    path: Seq<char>,
)
    requires
        entries.len() > 0,
        entries.last() matches Json::Object(fs) && crate::ledger::entry_fields(
            fs@,
            name,
            version,
            input,
            outcome,
            code,
            Some(r),
            ts,
            reads,
        ),
    ensures
        last_assigned(leaves(r, "result"@), path) matches Some(d) ==> recorded(
            entries,
            false,
            entry_prefix((entries.len() - 1) as nat) + path,
        ) == Some(d),
{
    let n = (entries.len() - 1) as nat;
    let k = entry_prefix(n) + path;
    lemma_prefixed_key(entry_prefix(n), path, k);
    let fs = entries.last()->Object_0@;
    lemma_entry_scalars(fs, name, version, input, outcome, code, r, ts, reads);
}

/// Every scalar the ledger recorded, ready to check against, each under the index of its
/// entry: `0:result.attack_rating`.
///
/// By default only the results' recorded `scalars` count. Inputs are recorded in the ledger
/// and can be admitted with `include_inputs`, but they are not provenanced the way a result
/// is: an agent chose them, so treating them as verified would launder a fabricated argument
/// into an attested one.
pub fn ledger_scalars(entries: &[Json], include_inputs: bool) -> (r: ScalarMap)
    ensures
        r.wf(),
        forall|k: Seq<char>| r.get_spec(k) == recorded(entries@, include_inputs, k),
{
    let mut out = ScalarMap::new();
    let mut i: usize = 0;
    while i < entries.len()
        invariant
            out.wf(),
            i <= entries@.len(),
            forall|k: Seq<char>| out.get_spec(k) == recorded(entries@.take(i as int), include_inputs, k),
        decreases entries@.len() - i,
    {
        let entry = &entries[i];
        let ghost base = out;
        let mut prefix = crate::ledger::digits(i);
        crate::text::push_char(&mut prefix, ':');
        assert(prefix@ == entry_prefix(i as nat));
        let ghost fields_seen: Seq<(String, Json)> = seq![];
        match entry.get("scalars") {
            Some(Json::Object(fields)) => {
                let mut j: usize = 0;
                while j < fields.len()
                    invariant
                        out.wf(),
                        j <= fields@.len(),
                        prefix@ == entry_prefix(i as nat),
                        forall|k: Seq<char>|
                            out.get_spec(k) == match after_prefix(k, prefix@) {
                                Some(path) => match last_number(fields@.take(j as int), path) {
                                    Some(d) => Some(d),
                                    None => base.get_spec(k),
                                },
                                None => base.get_spec(k),
                            },
                    decreases fields@.len() - j,
                {
                    proof {
                        assert(fields@.take(j + 1).drop_last() =~= fields@.take(j as int));
                    }
                    if let Json::Number(d) = &fields[j].1 {
                        let mut key = prefix.clone();
                        crate::text::push_str(&mut key, fields[j].0.as_str());
                        let ghost old_out = out;
                        out.insert(key, *d);
                        proof {
                            assert forall|k: Seq<char>| #[trigger] out.get_spec(k) == match after_prefix(k, prefix@) {
                                Some(path) => match last_number(fields@.take(j + 1), path) {
                                    Some(d) => Some(d),
                                    None => base.get_spec(k),
                                },
                                None => base.get_spec(k),
                            } by {
                                lemma_prefixed_key(prefix@, fields@[j as int].0@, k);
                            }
                        }
                    }
                    j = j + 1;
                }
                proof {
                    assert(fields@.take(j as int) =~= fields@);
                    fields_seen = fields@;
                }
            },
            _ => {},
        }
        let ghost after_results = out;
        assert forall|k: Seq<char>| #[trigger] after_results.get_spec(k) == match after_prefix(k, entry_prefix(i as nat)) {
            Some(path) => match result_figure(*entry, path) {
                Some(d) => Some(d),
                None => base.get_spec(k),
            },
            None => base.get_spec(k),
        } by {
            if !(entry.get_spec("scalars"@) matches Some(Json::Object(_))) {
                assert(after_results == base);
            }
        }
        if include_inputs {
            match entry.get("input") {
                Some(input) => {
                    let found = crate::ledger::scalars(input, "input");
                    let mut m: usize = 0;
                    while m < found.entries.len()
                        invariant
                            out.wf(),
                            found.wf(),
                            m <= found.entries@.len(),
                            prefix@ == entry_prefix(i as nat),
                            forall|k: Seq<char>|
                                out.get_spec(k) == match after_prefix(k, prefix@) {
                                    Some(path) => match lookup(found.entries@.take(m as int), path) {
                                        Some(d) => Some(d),
                                        None => after_results.get_spec(k),
                                    },
                                    None => after_results.get_spec(k),
                                },
                        decreases found.entries@.len() - m,
                    {
                        let mut key = prefix.clone();
                        crate::text::push_str(&mut key, found.entries[m].0.as_str());
                        out.insert(key, found.entries[m].1);
                        proof {
                            assert forall|k: Seq<char>| #[trigger] out.get_spec(k) == match after_prefix(k, prefix@) {
                                Some(path) => match lookup(found.entries@.take(m + 1), path) {
                                    Some(d) => Some(d),
                                    None => after_results.get_spec(k),
                                },
                                None => after_results.get_spec(k),
                            } by {
                                lemma_prefixed_key(prefix@, found.entries@[m as int].0@, k);
                                if let Some(path) = after_prefix(k, prefix@) {
                                    lemma_lookup_take_step(found.entries@, m as int, path);
                                }
                            }
                        }
                        m = m + 1;
                    }
                    assert(found.entries@.take(m as int) =~= found.entries@);
                    assert(entry.get_spec("input"@) == Some(*input));
                    assert forall|k: Seq<char>| #[trigger] out.get_spec(k) == match after_prefix(k, entry_prefix(i as nat)) {
                        Some(path) => match (if include_inputs { input_figure(*entry, path) } else { None }) {
                            Some(d) => Some(d),
                            None => after_results.get_spec(k),
                        },
                        None => after_results.get_spec(k),
                    } by {
                        if let Some(path) = after_prefix(k, prefix@) {
                            assert(found.get_spec(path) == last_assigned(leaves(*input, "input"@), path));
                        }
                    }
                },
                None => {},
            }
        }
        proof {
            if !include_inputs || entry.get_spec("input"@) is None {
                assert(out == after_results);
            }
            assert(forall|k: Seq<char>| #[trigger] out.get_spec(k) == match after_prefix(k, entry_prefix(i as nat)) {
                Some(path) => match (if include_inputs { input_figure(*entry, path) } else { None }) {
                    Some(d) => Some(d),
                    None => after_results.get_spec(k),
                },
                None => after_results.get_spec(k),
            });
            assert(entries@.take(i + 1).drop_last() =~= entries@.take(i as int));
            assert(entries@.take(i + 1).last() == *entry);
            assert forall|k: Seq<char>| #[trigger] out.get_spec(k) == recorded(entries@.take(i + 1), include_inputs, k) by {
                assert(after_results.get_spec(k) == match after_prefix(k, entry_prefix(i as nat)) {
                    Some(path) => match result_figure(*entry, path) {
                        Some(d) => Some(d),
                        None => base.get_spec(k),
                    },
                    None => base.get_spec(k),
                });
            }
        }
        i = i + 1;
    }
    assert(entries@.take(i as int) =~= entries@);
    out
}

} // verus!
