//! Small facts about text that the rest of the library builds on.

use vstd::prelude::*;
use vstd::string::StrSliceExecFns;
use vstd::string::StringExecFns;

verus! {

pub const ZERO: u8 = 48;
pub const NINE: u8 = 57;
pub const COMMA: u8 = 44;
pub const DOT: u8 = 46;
pub const MINUS: u8 = 45;
pub const PLUS: u8 = 43;
pub const SPACE: u8 = 32;
pub const PERCENT: u8 = 37;
pub const NEWLINE: u8 = 10;
pub const LOWER_A: u8 = 97;
pub const LOWER_Z: u8 = 122;
pub const UPPER_A: u8 = 65;
pub const UPPER_Z: u8 = 90;

/// `String::push`: appends one character.
#[verifier::external_body]
pub(crate) fn push_char(s: &mut String, c: char)
    ensures
        final(s)@ == old(s)@.push(c),
{
    s.push(c)
}

/// An owned copy of a string slice, with the same characters.
pub fn owned(s: &str) -> (r: String)
    ensures
        r@ == s@,
{
    <String as vstd::string::StringExecFns>::from_str(s)
}

/// Whether two strings hold the same characters.
pub fn str_eq(a: &str, b: &str) -> (r: bool)
    ensures
        r == (a@ == b@),
{
    let n = a.unicode_len();
    if n != b.unicode_len() {
        return false;
    }
    let mut i: usize = 0;
    while i < n
        invariant
            i <= n,
            n == a@.len(),
            n == b@.len(),
            forall|k: int| 0 <= k < i ==> a@[k] == b@[k],
        decreases n - i,
    {
        if a.get_char(i) != b.get_char(i) {
            return false;
        }
        i = i + 1;
    }
    assert(a@ =~= b@);
    true
}

/// The characters of each string.
pub open spec fn string_views(s: Seq<String>) -> Seq<Seq<char>> {
    s.map_values(|x: String| x@)
}

/// Appends every character of `tail` to `s`.
pub fn push_str(s: &mut String, tail: &str)
    ensures
        final(s)@ == old(s)@ + tail@,
{
    s.append(tail);
}

pub open spec fn is_ascii_digit(c: u8) -> bool {
    ZERO <= c <= NINE
}

pub open spec fn is_ascii_alpha(c: u8) -> bool {
    (LOWER_A <= c <= LOWER_Z) || (UPPER_A <= c <= UPPER_Z)
}

pub open spec fn is_ascii_alnum(c: u8) -> bool {
    is_ascii_digit(c) || is_ascii_alpha(c)
}

pub open spec fn to_ascii_lower(c: u8) -> u8 {
    if UPPER_A <= c <= UPPER_Z {
        (c + 32) as u8
    } else {
        c
    }
}

/// The characters of a run of ASCII bytes.
pub open spec fn ascii_chars(b: Seq<u8>) -> Seq<char> {
    Seq::new(b.len(), |k: int| b[k] as char)
}

/// A `String` holding the ASCII bytes `b[lo..hi]`.
pub fn ascii_string(b: &[u8], lo: usize, hi: usize) -> (r: String)
    requires
        lo <= hi <= b@.len(),
    ensures
        r@ == ascii_chars(b@.subrange(lo as int, hi as int)),
{
    let mut r = String::new();
    let mut k = lo;
    while k < hi
        invariant
            lo <= k <= hi <= b@.len(),
            r@ == ascii_chars(b@.subrange(lo as int, k as int)),
        decreases hi - k,
    {
        push_char(&mut r, b[k] as char);
        proof {
            assert(ascii_chars(b@.subrange(lo as int, k + 1)) =~= ascii_chars(
                b@.subrange(lo as int, k as int),
            ).push(b@[k as int] as char));
        }
        k = k + 1;
    }
    r
}


/// `String::from_utf8_lossy`: the characters the bytes encode, with any invalid sequence
/// replaced by U+FFFD. On valid UTF-8 that is exactly the decoded text.
#[verifier::external_body]
pub(crate) fn decode_lossy(bytes: &[u8]) -> (r: String)
    ensures
        vstd::utf8::valid_utf8(bytes@) ==> r@ == vstd::utf8::decode_utf8(bytes@),
{
    String::from_utf8_lossy(bytes).into_owned()
}

/// Whether a byte continues a multi-byte UTF-8 character rather than starting one.
pub open spec fn is_continuation(c: u8) -> bool {
    0x80 <= c < 0xC0
}

/// Rust's `char::is_whitespace`: the Unicode `White_Space` property.
pub open spec fn is_white_space(c: char) -> bool {
    let u = c as u32;
    ||| 0x09 <= u <= 0x0D
    ||| u == 0x20
    ||| u == 0x85
    ||| u == 0xA0
    ||| u == 0x1680
    ||| 0x2000 <= u <= 0x200A
    ||| u == 0x2028
    ||| u == 0x2029
    ||| u == 0x202F
    ||| u == 0x205F
    ||| u == 0x3000
}

pub fn char_is_white_space(c: char) -> (r: bool)
    ensures
        r == is_white_space(c),
{
    let u = c as u32;
    (0x09 <= u && u <= 0x0D) || u == 0x20 || u == 0x85 || u == 0xA0 || u == 0x1680 || (0x2000 <= u
        && u <= 0x200A) || u == 0x2028 || u == 0x2029 || u == 0x202F || u == 0x205F || u == 0x3000
}

/// The index of the first character at or after `i` that is not white space.
pub open spec fn leading_white_end(s: Seq<char>, i: int) -> int
    decreases s.len() - i,
{
    if 0 <= i < s.len() && is_white_space(s[i]) {
        leading_white_end(s, i + 1)
    } else {
        i
    }
}

/// The index just after the last character before `j` that is not white space, but no lower
/// than `lo`.
pub open spec fn trailing_white_start(s: Seq<char>, lo: int, j: int) -> int
    decreases j - lo,
{
    if lo < j && j <= s.len() && is_white_space(s[j - 1]) {
        trailing_white_start(s, lo, j - 1)
    } else {
        j
    }
}

/// `str::trim`: the text without leading and trailing white space.
pub open spec fn trimmed(s: Seq<char>) -> Seq<char> {
    let lo = leading_white_end(s, 0);
    s.subrange(lo, trailing_white_start(s, lo, s.len() as int))
}

proof fn lemma_leading_bounds(s: Seq<char>, i: int)
    requires
        0 <= i <= s.len(),
    ensures
        i <= leading_white_end(s, i) <= s.len(),
    decreases s.len() - i,
{
    if i < s.len() && is_white_space(s[i]) {
        lemma_leading_bounds(s, i + 1);
    }
}

proof fn lemma_trailing_bounds(s: Seq<char>, lo: int, j: int)
    requires
        0 <= lo <= j <= s.len(),
    ensures
        lo <= trailing_white_start(s, lo, j) <= j,
    decreases j - lo,
{
    if lo < j && is_white_space(s[j - 1]) {
        lemma_trailing_bounds(s, lo, j - 1);
    }
}

/// Appends `s` without its leading and trailing white space to `out`.
pub fn push_trimmed(out: &mut String, s: &str)
    ensures
        final(out)@ == old(out)@ + trimmed(s@),
{
    let n = s.unicode_len();
    let mut lo: usize = 0;
    while lo < n && char_is_white_space(s.get_char(lo))
        invariant
            n == s@.len(),
            lo <= n,
            leading_white_end(s@, 0) == leading_white_end(s@, lo as int),
        decreases n - lo,
    {
        lo = lo + 1;
    }
    let mut hi: usize = n;
    proof {
        lemma_leading_bounds(s@, lo as int);
    }
    while hi > lo && char_is_white_space(s.get_char(hi - 1))
        invariant
            n == s@.len(),
            lo <= hi <= n,
            lo == leading_white_end(s@, 0),
            trailing_white_start(s@, lo as int, n as int) == trailing_white_start(
                s@,
                lo as int,
                hi as int,
            ),
        decreases hi,
    {
        hi = hi - 1;
    }
    let middle = s.substring_char(lo, hi);
    out.append(middle);
}


// ------------------------------------------------------------------------ ordering of text

/// Byte-wise lexicographic order, which is how `String`s are ordered: a proper prefix comes
/// first, and otherwise the first differing byte decides.
pub open spec fn lex_lt(a: Seq<u8>, b: Seq<u8>) -> bool
    decreases a.len(),
{
    if b.len() == 0 {
        false
    } else if a.len() == 0 {
        true
    } else if a[0] != b[0] {
        a[0] < b[0]
    } else {
        lex_lt(a.drop_first(), b.drop_first())
    }
}

pub proof fn lemma_lex_irreflexive(a: Seq<u8>)
    ensures
        !lex_lt(a, a),
    decreases a.len(),
{
    if a.len() > 0 {
        lemma_lex_irreflexive(a.drop_first());
    }
}

pub proof fn lemma_lex_transitive(a: Seq<u8>, b: Seq<u8>, c: Seq<u8>)
    requires
        lex_lt(a, b),
        lex_lt(b, c),
    ensures
        lex_lt(a, c),
    decreases a.len(),
{
    if a.len() > 0 && b.len() > 0 && c.len() > 0 && a[0] == b[0] && b[0] == c[0] {
        lemma_lex_transitive(a.drop_first(), b.drop_first(), c.drop_first());
    }
}

pub proof fn lemma_lex_total(a: Seq<u8>, b: Seq<u8>)
    ensures
        a =~= b || lex_lt(a, b) || lex_lt(b, a),
    decreases a.len(),
{
    if a.len() > 0 && b.len() > 0 && a[0] == b[0] {
        lemma_lex_total(a.drop_first(), b.drop_first());
        if a.drop_first() =~= b.drop_first() {
            assert(a =~= seq![a[0]] + a.drop_first());
            assert(b =~= seq![b[0]] + b.drop_first());
        }
    }
}

pub proof fn lemma_lex_asymmetric(a: Seq<u8>, b: Seq<u8>)
    requires
        lex_lt(a, b),
    ensures
        !lex_lt(b, a),
    decreases a.len(),
{
    if a.len() > 0 && b.len() > 0 && a[0] == b[0] {
        lemma_lex_asymmetric(a.drop_first(), b.drop_first());
    }
}

/// How two byte strings compare: `(less, equal)`.
pub fn lex_compare(a: &[u8], b: &[u8]) -> (r: (bool, bool))
    ensures
        r.0 == lex_lt(a@, b@),
        r.1 == (a@ == b@),
{
    let mut i: usize = 0;
    proof {
        assert(a@.skip(0) =~= a@);
        assert(b@.skip(0) =~= b@);
    }
    while i < a.len() && i < b.len() && a[i] == b[i]
        invariant
            i <= a@.len(),
            i <= b@.len(),
            a@.subrange(0, i as int) =~= b@.subrange(0, i as int),
            lex_lt(a@, b@) == lex_lt(a@.skip(i as int), b@.skip(i as int)),
        decreases a@.len() - i,
    {
        proof {
            assert(a@.skip(i as int).drop_first() =~= a@.skip(i + 1));
            assert(b@.skip(i as int).drop_first() =~= b@.skip(i + 1));
            assert(a@.subrange(0, i + 1) =~= a@.subrange(0, i as int).push(a@[i as int]));
            assert(b@.subrange(0, i + 1) =~= b@.subrange(0, i as int).push(b@[i as int]));
        }
        i = i + 1;
    }
    proof {
        if i < a@.len() && i < b@.len() {
            assert(a@.skip(i as int)[0] == a@[i as int]);
            assert(b@.skip(i as int)[0] == b@[i as int]);
            assert(a@[i as int] != b@[i as int]);
        } else if i == a@.len() && i == b@.len() {
            assert(a@.subrange(0, i as int) =~= a@);
            assert(b@.subrange(0, i as int) =~= b@);
            assert(a@.skip(i as int).len() == 0);
        } else {
            assert(a@.len() != b@.len());
            assert(a@.skip(i as int).len() == 0 || b@.skip(i as int).len() == 0);
        }
    }
    let less = if i < a.len() && i < b.len() {
        a[i] < b[i]
    } else {
        i == a.len() && i < b.len()
    };
    (less, i == a.len() && i == b.len())
}


// --------------------------------------------------------------------------- one line

/// The words of `s` joined by single spaces: every run of white space becomes one space, and
/// none is left at either end.
pub open spec fn one_line_spec(s: Seq<char>) -> Seq<char>
    decreases s.len(),
{
    if s.len() == 0 {
        seq![]
    } else {
        let before = one_line_spec(s.drop_last());
        let c = s.last();
        if is_white_space(c) {
            before
        } else if s.len() >= 2 && is_white_space(s[s.len() - 2]) && before.len() > 0 {
            before + seq![' ', c]
        } else {
            before.push(c)
        }
    }
}

/// `s` on one line: its words joined by single spaces. A long expression written across
/// several lines would otherwise break a one-line layout.
pub fn one_line(s: &str) -> (r: String)
    ensures
        r@ == one_line_spec(s@),
{
    let n = s.unicode_len();
    let mut r = String::new();
    let mut i: usize = 0;
    let mut previous_white = false;
    proof {
        assert(s@.subrange(0, 0) =~= seq![]);
    }
    while i < n
        invariant
            i <= n,
            n == s@.len(),
            r@ == one_line_spec(s@.subrange(0, i as int)),
            previous_white == (i >= 1 && is_white_space(s@[i - 1])),
        decreases n - i,
    {
        let c = s.get_char(i);
        let white = char_is_white_space(c);
        let ghost before = s@.subrange(0, i as int);
        proof {
            assert(s@.subrange(0, i + 1).drop_last() =~= before);
            assert(s@.subrange(0, i + 1).last() == c);
            if i >= 1 {
                assert(s@.subrange(0, i + 1)[i - 1] == s@[i - 1]);
            }
        }
        if white {
        } else if previous_white && r.as_str().unicode_len() > 0 {
            push_char(&mut r, ' ');
            push_char(&mut r, c);
            assert(r@ =~= one_line_spec(before) + seq![' ', c]);
        } else {
            push_char(&mut r, c);
        }
        previous_white = white;
        i = i + 1;
    }
    assert(s@.subrange(0, n as int) =~= s@);
    r
}


// ---------------------------------------------------------------------- searching text

/// The characters of `s`, one by one.
pub fn chars_of(s: &str) -> (v: Vec<char>)
    ensures
        v@ == s@,
{
    let n = s.unicode_len();
    let mut v: Vec<char> = Vec::new();
    let mut i: usize = 0;
    while i < n
        invariant
            i <= n,
            n == s@.len(),
            v@ == s@.subrange(0, i as int),
        decreases n - i,
    {
        v.push(s.get_char(i));
        proof {
            assert(v@ =~= s@.subrange(0, i + 1));
        }
        i = i + 1;
    }
    assert(s@.subrange(0, n as int) =~= s@);
    v
}

/// Whether `needle` occurs in `hay`.
pub open spec fn contains_text(hay: Seq<char>, needle: Seq<char>) -> bool {
    exists|i: int| 0 <= i && i + needle.len() <= hay.len() && #[trigger] hay.subrange(i, i + needle.len()) == needle
}

/// Whether `needle` occurs in `hay`.
pub fn find_text(hay: &Vec<char>, needle: &Vec<char>) -> (r: bool)
    ensures
        r == contains_text(hay@, needle@),
{
    let n = hay.len();
    let m = needle.len();
    if m > n {
        return false;
    }
    let mut i: usize = 0;
    while i <= n - m
        invariant
            m <= n,
            n == hay@.len(),
            m == needle@.len(),
            forall|k: int| 0 <= k < i ==> #[trigger] hay@.subrange(k, k + m) != needle@,
        decreases n - m + 1 - i,
    {
        let mut j: usize = 0;
        while j < m && hay[i + j] == needle[j]
            invariant
                j <= m,
                i + m <= n,
                n == hay@.len(),
                m == needle@.len(),
                forall|k: int| 0 <= k < j ==> hay@[i + k] == needle@[k],
            decreases m - j,
        {
            j = j + 1;
        }
        if j == m {
            assert(hay@.subrange(i as int, i + m) =~= needle@);
            return true;
        }
        assert(hay@.subrange(i as int, i + m)[j as int] != needle@[j as int]);
        i = i + 1;
    }
    proof {
        if contains_text(hay@, needle@) {
            let k = choose|k: int| 0 <= k && k + needle@.len() <= hay@.len() && #[trigger] hay@.subrange(k, k + needle@.len()) == needle@;
            assert(hay@.subrange(k, k + m) == needle@);
        }
    }
    false
}


// ----------------------------------------------------------------------------- joining

/// The parts joined by `sep`.
pub open spec fn join_spec(parts: Seq<Seq<char>>, sep: Seq<char>) -> Seq<char>
    decreases parts.len(),
{
    if parts.len() == 0 {
        seq![]
    } else if parts.len() == 1 {
        parts[0]
    } else {
        join_spec(parts.drop_last(), sep) + sep + parts.last()
    }
}

/// The strings joined by `sep`.
pub fn join(parts: &Vec<String>, sep: &str) -> (r: String)
    ensures
        r@ == join_spec(string_views(parts@), sep@),
{
    let mut r = String::new();
    let mut i: usize = 0;
    while i < parts.len()
        invariant
            i <= parts@.len(),
            r@ == join_spec(string_views(parts@.take(i as int)), sep@),
        decreases parts@.len() - i,
    {
        proof {
            assert(string_views(parts@.take(i + 1)).drop_last() =~= string_views(parts@.take(i as int)));
            assert(string_views(parts@.take(i + 1)).last() == parts@[i as int]@);
        }
        if i > 0 {
            push_str(&mut r, sep);
        } else {
            assert(string_views(parts@.take(0)) =~= seq![]);
        }
        push_str(&mut r, parts[i].as_str());
        proof {
            if i == 0 {
                assert(r@ =~= parts@[0]@);
            }
        }
        i = i + 1;
    }
    assert(parts@.take(i as int) =~= parts@);
    r
}


// ------------------------------------------------------------------------------ numbers

/// An integer in decimal, with a `-` when it is negative.
pub open spec fn int_text(v: int) -> Seq<char> {
    if v < 0 {
        seq!['-'] + crate::ledger::nat_digits((-v) as nat)
    } else {
        crate::ledger::nat_digits(v as nat)
    }
}

/// Appends an integer in decimal.
pub fn push_int(out: &mut String, v: i64)
    ensures
        final(out)@ == old(out)@ + int_text(v as int),
{
    if v < 0 {
        push_char(out, '-');
        crate::ledger::push_digits(out, (-(v as i128)) as u128);
        assert(final(out)@ =~= old(out)@ + int_text(v as int));
    } else {
        crate::ledger::push_digits(out, v as u128);
    }
}


// ----------------------------------------------------------------------------- splitting

/// The pieces of `s` between occurrences of `sep`; the empty text is one empty piece.
pub open spec fn split_spec(s: Seq<char>, sep: char) -> Seq<Seq<char>>
    decreases s.len(),
{
    if s.len() == 0 {
        seq![seq![]]
    } else {
        let init = split_spec(s.drop_last(), sep);
        if s.last() == sep {
            init.push(seq![])
        } else {
            init.update(init.len() - 1, init.last().push(s.last()))
        }
    }
}

pub proof fn lemma_split_nonempty(s: Seq<char>, sep: char)
    ensures
        split_spec(s, sep).len() >= 1,
    decreases s.len(),
{
    if s.len() > 0 {
        lemma_split_nonempty(s.drop_last(), sep);
    }
}

/// Splits `s` at every `sep`.
pub fn split_on(s: &str, sep: char) -> (r: Vec<String>)
    ensures
        string_views(r@) == split_spec(s@, sep),
{
    let n = s.unicode_len();
    let mut done: Vec<String> = Vec::new();
    let mut current = String::new();
    let mut i: usize = 0;
    proof {
        assert(s@.subrange(0, 0) =~= seq![]);
        assert(string_views(done@).push(current@) =~= seq![seq![]]);
    }
    while i < n
        invariant
            i <= n,
            n == s@.len(),
            split_spec(s@.subrange(0, i as int), sep) == string_views(done@).push(current@),
        decreases n - i,
    {
        let c = s.get_char(i);
        let ghost before = s@.subrange(0, i as int);
        proof {
            assert(s@.subrange(0, i + 1).drop_last() =~= before);
            lemma_split_nonempty(before, sep);
        }
        if c == sep {
            let piece = current;
            current = String::new();
            done.push(piece);
            proof {
                assert(string_views(done@).push(current@) =~= split_spec(before, sep).push(seq![]));
            }
        } else {
            push_char(&mut current, c);
            proof {
                assert(string_views(done@).push(current@) =~= split_spec(before, sep).update(
                    split_spec(before, sep).len() - 1,
                    split_spec(before, sep).last().push(c),
                ));
            }
        }
        i = i + 1;
    }
    done.push(current);
    proof {
        assert(s@.subrange(0, n as int) =~= s@);
        assert(string_views(done@) =~= split_spec(s@, sep));
    }
    done
}

/// The first index at or after `i` where `s` holds `c`, or its length.
pub open spec fn first_of(s: Seq<char>, c: char, i: int) -> int
    decreases s.len() - i,
{
    if i < 0 || i >= s.len() {
        s.len() as int
    } else if s[i] == c {
        i
    } else {
        first_of(s, c, i + 1)
    }
}

pub proof fn lemma_first_of_bounds(s: Seq<char>, c: char, i: int)
    requires
        0 <= i,
    ensures
        first_of(s, c, i) <= s.len(),
        i <= s.len() ==> i <= first_of(s, c, i),
        first_of(s, c, i) < s.len() ==> s[first_of(s, c, i)] == c,
    decreases s.len() - i,
{
    if i < s.len() && s[i] != c {
        lemma_first_of_bounds(s, c, i + 1);
    }
}

/// The first index at or after `i` where `s` holds `c`, or its length.
pub fn find_char(s: &Vec<char>, c: char, i: usize) -> (r: usize)
    ensures
        r == first_of(s@, c, i as int),
{
    proof {
        lemma_first_of_bounds(s@, c, i as int);
    }
    if i >= s.len() {
        return s.len();
    }
    let mut k = i;
    while k < s.len() && s[k] != c
        invariant
            i <= k <= s@.len(),
            first_of(s@, c, i as int) == first_of(s@, c, k as int),
        decreases s@.len() - k,
    {
        k = k + 1;
    }
    k
}

/// The characters `v[lo..hi]` as a string.
pub fn string_of(v: &Vec<char>, lo: usize, hi: usize) -> (r: String)
    requires
        lo <= hi <= v@.len(),
    ensures
        r@ == v@.subrange(lo as int, hi as int),
{
    let mut r = String::new();
    let mut k = lo;
    while k < hi
        invariant
            lo <= k <= hi <= v@.len(),
            r@ == v@.subrange(lo as int, k as int),
        decreases hi - k,
    {
        push_char(&mut r, v[k]);
        proof {
            assert(r@ =~= v@.subrange(lo as int, k + 1));
        }
        k = k + 1;
    }
    r
}

} // verus!
