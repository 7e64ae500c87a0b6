//! Cell-level token grammars: the exact shapes of text values that count as
//! integers, floats, booleans, calendar dates and datetimes for column
//! classification, together with verified recognizers for each shape.

use vstd::prelude::*;
use vstd::string::StrSliceExecFns;

verus! {

// ---------------------------------------------------------------------------
// Character classes and digit arithmetic
// ---------------------------------------------------------------------------

/// A decimal digit character.
pub open spec fn is_digit(c: char) -> bool {
    '0' <= c && c <= '9'
}

/// Numeric value of a digit character.
pub open spec fn digit_val(c: char) -> int {
    c as int - '0' as int
}

pub open spec fn all_digits(s: Seq<char>) -> bool {
    forall|i: int| 0 <= i < s.len() ==> is_digit(#[trigger] s[i])
}

/// Value of a non-empty string of decimal digits, most significant first.
pub open spec fn digits_val(s: Seq<char>) -> int
    decreases s.len(),
{
    if s.len() == 0 {
        0
    } else {
        10 * digits_val(s.drop_last()) + digit_val(s.last())
    }
}

/// The token with one optional leading sign removed.
pub open spec fn sign_body(s: Seq<char>) -> Seq<char> {
    if s.len() > 0 && (s[0] == '+' || s[0] == '-') {
        s.drop_first()
    } else {
        s
    }
}

pub open spec fn is_neg(s: Seq<char>) -> bool {
    s.len() > 0 && s[0] == '-'
}

// ---------------------------------------------------------------------------
// Integer tokens
// ---------------------------------------------------------------------------

/// An optionally signed, non-empty run of decimal digits: the strings accepted
/// by a strict base-10 integer parser.
pub open spec fn is_int_token(s: Seq<char>) -> bool {
    sign_body(s).len() > 0 && all_digits(sign_body(s))
}

/// The mathematical value denoted by an integer token.
pub open spec fn int_token_val(s: Seq<char>) -> int {
    if is_neg(s) {
        -digits_val(sign_body(s))
    } else {
        digits_val(sign_body(s))
    }
}

/// The cell denotes an integer representable in 32 signed bits.
pub open spec fn fits_i32(s: Seq<char>) -> bool {
    is_int_token(s) && -0x8000_0000 <= int_token_val(s) && int_token_val(s) <= 0x7fff_ffff
}

/// The cell denotes an integer representable in 64 signed bits.
pub open spec fn fits_i64(s: Seq<char>) -> bool {
    is_int_token(s) && -0x8000_0000_0000_0000 <= int_token_val(s) && int_token_val(s)
        <= 0x7fff_ffff_ffff_ffff
}

// ---------------------------------------------------------------------------
// Float tokens
// ---------------------------------------------------------------------------

/// Case-insensitive match of a character against a lower-case pattern
/// character, folding only the ASCII upper-case letters.
pub open spec fn char_matches_lower(c: char, lo: char) -> bool {
    c == lo || ('A' <= c && c <= 'Z' && c as int + 32 == lo as int)
}

/// Case-insensitive match against a fixed lower-case word.
pub open spec fn matches_ignore_case(s: Seq<char>, lo: Seq<char>) -> bool {
    s.len() == lo.len() && forall|i: int|
        0 <= i < s.len() ==> char_matches_lower(#[trigger] s[i], lo[i])
}

/// Digits with at most one decimal point and at least one digit:
/// `123`, `123.`, `1.25`, `.5`.
pub open spec fn is_mantissa(s: Seq<char>) -> bool {
    (s.len() > 0 && all_digits(s)) || (s.len() > 1 && exists|i: int|
        0 <= i < s.len() && #[trigger] s[i] == '.' && all_digits(s.take(i)) && all_digits(
            s.skip(i + 1),
        ))
}

pub open spec fn is_exp_marker(c: char) -> bool {
    c == 'e' || c == 'E'
}

/// An optionally signed, non-empty run of digits, as an exponent.
pub open spec fn is_exponent(s: Seq<char>) -> bool {
    sign_body(s).len() > 0 && all_digits(sign_body(s))
}

/// A mantissa with an optional exponent part: `20`, `2.5`, `1e5`, `6.02E-23`.
pub open spec fn is_number_token(s: Seq<char>) -> bool {
    is_mantissa(s) || exists|i: int|
        0 <= i < s.len() && is_exp_marker(#[trigger] s[i]) && is_mantissa(s.take(i))
            && is_exponent(s.skip(i + 1))
}

/// The strings accepted by a 64-bit float parser: an optional sign followed by
/// a number, or one of the special words `inf`, `infinity`, `nan` in any case.
pub open spec fn is_float_token(s: Seq<char>) -> bool {
    let b = sign_body(s);
    ||| matches_ignore_case(b, seq!['i', 'n', 'f'])
    ||| matches_ignore_case(b, seq!['i', 'n', 'f', 'i', 'n', 'i', 't', 'y'])
    ||| matches_ignore_case(b, seq!['n', 'a', 'n'])
    ||| is_number_token(b)
}

// ---------------------------------------------------------------------------
// Boolean tokens
// ---------------------------------------------------------------------------

/// One of the boolean words `true`, `false`, `t`, `f`, `1`, `0`, compared
/// case-insensitively.
pub open spec fn is_bool_token(s: Seq<char>) -> bool {
    ||| matches_ignore_case(s, seq!['t', 'r', 'u', 'e'])
    ||| matches_ignore_case(s, seq!['f', 'a', 'l', 's', 'e'])
    ||| matches_ignore_case(s, seq!['t'])
    ||| matches_ignore_case(s, seq!['f'])
    ||| matches_ignore_case(s, seq!['1'])
    ||| matches_ignore_case(s, seq!['0'])
}

// ---------------------------------------------------------------------------
// Date and datetime tokens
// ---------------------------------------------------------------------------

pub open spec fn is_leap_year(y: int) -> bool {
    y % 4 == 0 && (y % 100 != 0 || y % 400 == 0)
}

pub open spec fn days_in_month(y: int, m: int) -> int {
    if m == 2 {
        if is_leap_year(y) {
            29
        } else {
            28
        }
    } else if m == 4 || m == 6 || m == 9 || m == 11 {
        30
    } else {
        31
    }
}

pub open spec fn two_digits(s: Seq<char>, i: int) -> int {
    10 * digit_val(s[i]) + digit_val(s[i + 1])
}

pub open spec fn four_digits(s: Seq<char>, i: int) -> int {
    1000 * digit_val(s[i]) + 100 * digit_val(s[i + 1]) + 10 * digit_val(s[i + 2]) + digit_val(
        s[i + 3],
    )
}

/// An exact `YYYY-MM-DD` calendar date: four digit year, two digit month
/// 01-12, two digit day checked against the month and (leap) year.
pub open spec fn is_date_token(s: Seq<char>) -> bool {
    &&& s.len() == 10
    &&& is_digit(s[0]) && is_digit(s[1]) && is_digit(s[2]) && is_digit(s[3])
    &&& s[4] == '-'
    &&& is_digit(s[5]) && is_digit(s[6])
    &&& s[7] == '-'
    &&& is_digit(s[8]) && is_digit(s[9])
    &&& 1 <= two_digits(s, 5) && two_digits(s, 5) <= 12
    &&& 1 <= two_digits(s, 8) && two_digits(s, 8) <= days_in_month(
        four_digits(s, 0),
        two_digits(s, 5),
    )
}

/// An exact `YYYY-MM-DD HH:MM:SS` datetime: a date, one space, and a 24-hour
/// wall-clock time with validated ranges.
pub open spec fn is_datetime_token(s: Seq<char>) -> bool {
    &&& s.len() == 19
    &&& is_date_token(s.take(10))
    &&& s[10] == ' '
    &&& is_digit(s[11]) && is_digit(s[12])
    &&& s[13] == ':'
    &&& is_digit(s[14]) && is_digit(s[15])
    &&& s[16] == ':'
    &&& is_digit(s[17]) && is_digit(s[18])
    &&& two_digits(s, 11) <= 23
    &&& two_digits(s, 14) <= 59
    &&& two_digits(s, 17) <= 59
}

// ---------------------------------------------------------------------------
// Every token shape is ASCII-only
// ---------------------------------------------------------------------------

pub open spec fn ascii_char(c: char) -> bool {
    '\0' <= c && c <= '\u{7f}'
}

proof fn lemma_matches_lower_ascii(s: Seq<char>, lo: Seq<char>)
    requires
        matches_ignore_case(s, lo),
        forall|i: int| 0 <= i < lo.len() ==> ascii_char(#[trigger] lo[i]),
    ensures
        vstd::utf8::is_ascii_chars(s),
{
    assert forall|i: int| 0 <= i < s.len() implies '\0' <= #[trigger] s[i] && s[i] <= '\u{7f}' by {
        assert(char_matches_lower(s[i], lo[i]));
    }
}

proof fn lemma_int_token_ascii(s: Seq<char>)
    requires
        is_int_token(s),
    ensures
        vstd::utf8::is_ascii_chars(s),
{
    let b = sign_body(s);
    assert forall|i: int| 0 <= i < s.len() implies '\0' <= #[trigger] s[i] && s[i] <= '\u{7f}' by {
        if s.len() > 0 && (s[0] == '+' || s[0] == '-') {
            if i > 0 {
                assert(s[i] == b[i - 1]);
                assert(is_digit(b[i - 1]));
            }
        } else {
            assert(is_digit(b[i]));
        }
    }
}

proof fn lemma_mantissa_chars(s: Seq<char>)
    requires
        is_mantissa(s),
    ensures
        forall|i: int| 0 <= i < s.len() ==> is_digit(#[trigger] s[i]) || s[i] == '.',
{
    if s.len() > 0 && all_digits(s) {
    } else {
        let k = choose|k: int|
            0 <= k < s.len() && #[trigger] s[k] == '.' && all_digits(s.take(k)) && all_digits(
                s.skip(k + 1),
            );
        assert forall|i: int| 0 <= i < s.len() implies is_digit(#[trigger] s[i]) || s[i]
            == '.' by {
            if i < k {
                assert(s.take(k)[i] == s[i]);
                assert(is_digit(s.take(k)[i]));
            } else if i > k {
                assert(s.skip(k + 1)[i - k - 1] == s[i]);
                assert(is_digit(s.skip(k + 1)[i - k - 1]));
            }
        }
    }
}

proof fn lemma_float_token_ascii(s: Seq<char>)
    requires
        is_float_token(s),
    ensures
        vstd::utf8::is_ascii_chars(s),
{
    let b = sign_body(s);
    if matches_ignore_case(b, seq!['i', 'n', 'f']) {
        lemma_matches_lower_ascii(b, seq!['i', 'n', 'f']);
    } else if matches_ignore_case(b, seq!['i', 'n', 'f', 'i', 'n', 'i', 't', 'y']) {
        lemma_matches_lower_ascii(b, seq!['i', 'n', 'f', 'i', 'n', 'i', 't', 'y']);
    } else if matches_ignore_case(b, seq!['n', 'a', 'n']) {
        lemma_matches_lower_ascii(b, seq!['n', 'a', 'n']);
    } else {
        assert(is_number_token(b));
        if is_mantissa(b) {
            lemma_mantissa_chars(b);
            assert forall|i: int| 0 <= i < b.len() implies '\0' <= #[trigger] b[i] && b[i]
                <= '\u{7f}' by {
                assert(is_digit(b[i]) || b[i] == '.');
            }
        } else {
            let k = choose|k: int|
                0 <= k < b.len() && is_exp_marker(#[trigger] b[k]) && is_mantissa(b.take(k))
                    && is_exponent(b.skip(k + 1));
            lemma_mantissa_chars(b.take(k));
            let e = b.skip(k + 1);
            let eb = sign_body(e);
            assert forall|i: int| 0 <= i < b.len() implies '\0' <= #[trigger] b[i] && b[i]
                <= '\u{7f}' by {
                if i < k {
                    assert(b.take(k)[i] == b[i]);
                    assert(is_digit(b.take(k)[i]) || b.take(k)[i] == '.');
                } else if i > k {
                    assert(e[i - k - 1] == b[i]);
                    if e.len() > 0 && (e[0] == '+' || e[0] == '-') {
                        if i - k - 1 > 0 {
                            assert(e[i - k - 1] == eb[i - k - 2]);
                            assert(is_digit(eb[i - k - 2]));
                        }
                    } else {
                        assert(is_digit(eb[i - k - 1]));
                    }
                }
            }
        }
    }
    assert forall|i: int| 0 <= i < s.len() implies '\0' <= #[trigger] s[i] && s[i] <= '\u{7f}' by {
        if s.len() > 0 && (s[0] == '+' || s[0] == '-') {
            if i > 0 {
                assert(s[i] == b[i - 1]);
            }
        } else {
            assert(s[i] == b[i]);
        }
    }
}

proof fn lemma_date_token_ascii(s: Seq<char>)
    requires
        is_date_token(s),
    ensures
        vstd::utf8::is_ascii_chars(s),
{
    assert forall|i: int| 0 <= i < s.len() implies '\0' <= #[trigger] s[i] && s[i] <= '\u{7f}' by {
        assert(s.len() == 10);
        if i == 4 || i == 7 {
        } else {
            assert(is_digit(s[i]));
        }
    }
}

proof fn lemma_datetime_token_ascii(s: Seq<char>)
    requires
        is_datetime_token(s),
    ensures
        vstd::utf8::is_ascii_chars(s),
{
    assert forall|i: int| 0 <= i < s.len() implies '\0' <= #[trigger] s[i] && s[i] <= '\u{7f}' by {
        assert(s.len() == 19);
        if i < 10 {
            assert(s.take(10)[i] == s[i]);
            assert(is_date_token(s.take(10)));
            if i == 4 || i == 7 {
                assert(s.take(10)[i] == '-');
            } else {
                assert(is_digit(s.take(10)[i]));
            }
        } else if i == 10 || i == 13 || i == 16 {
        } else {
            assert(is_digit(s[i]));
        }
    }
}

proof fn lemma_bool_token_ascii(s: Seq<char>)
    requires
        is_bool_token(s),
    ensures
        vstd::utf8::is_ascii_chars(s),
{
    if matches_ignore_case(s, seq!['t', 'r', 'u', 'e']) {
        lemma_matches_lower_ascii(s, seq!['t', 'r', 'u', 'e']);
    } else if matches_ignore_case(s, seq!['f', 'a', 'l', 's', 'e']) {
        lemma_matches_lower_ascii(s, seq!['f', 'a', 'l', 's', 'e']);
    } else if matches_ignore_case(s, seq!['t']) {
        lemma_matches_lower_ascii(s, seq!['t']);
    } else if matches_ignore_case(s, seq!['f']) {
        lemma_matches_lower_ascii(s, seq!['f']);
    } else if matches_ignore_case(s, seq!['1']) {
        lemma_matches_lower_ascii(s, seq!['1']);
    } else {
        lemma_matches_lower_ascii(s, seq!['0']);
    }
}

// ---------------------------------------------------------------------------
// Executable recognizers
// ---------------------------------------------------------------------------

/// Reads one character of an ASCII string as its byte value.
fn ascii_byte(s: &str, i: usize) -> (b: u8)
    requires
        s.is_ascii(),
        i < s@.len(),
    ensures
        b as int == s@[i as int] as int,
        b <= 0x7f,
{
    proof {
        vstd::string::is_ascii_spec_bytes(s);
    }
    let b = s.get_ascii(i);
    proof {
        assert('\0' <= s@[i as int] && s@[i as int] <= '\u{7f}');
    }
    b
}

/// Length of an ASCII string in characters.
fn ascii_len(s: &str) -> (n: usize)
    requires
        s.is_ascii(),
    ensures
        n == s@.len(),
{
    s.unicode_len()
}

proof fn lemma_digits_val_nonneg(s: Seq<char>)
    requires
        all_digits(s),
    ensures
        digits_val(s) >= 0,
    decreases s.len(),
{
    if s.len() > 0 {
        assert(all_digits(s.drop_last()));
        lemma_digits_val_nonneg(s.drop_last());
        assert(is_digit(s.last()));
    }
}

/// Scans an optionally signed digit run, reporting the sign and the digit
/// magnitude, or `None` when the string is not an integer token or its
/// magnitude does not even fit 64 unsigned bits.
fn scan_int(s: &str) -> (r: Option<(bool, u64)>)
    requires
        s.is_ascii(),
    ensures
        match r {
            Some(p) => is_int_token(s@) && p.0 == is_neg(s@) && p.1 as int == digits_val(
                sign_body(s@),
            ),
            None => !is_int_token(s@) || digits_val(sign_body(s@)) > u64::MAX,
        },
{
    let n = ascii_len(s);
    if n == 0 {
        return None;
    }
    let first = ascii_byte(s, 0);
    let (start, neg): (usize, bool) = if first == 43 {
        (1, false)
    } else if first == 45 {
        (1, true)
    } else {
        (0, false)
    };
    proof {
        assert(sign_body(s@) =~= s@.subrange(start as int, n as int));
    }
    if start == n {
        return None;
    }
    let mut mag: u64 = 0;
    let mut overflow = false;
    let mut i = start;
    while i < n
        invariant
            s.is_ascii(),
            start <= i <= n == s@.len(),
            sign_body(s@) == s@.subrange(start as int, n as int),
            all_digits(s@.subrange(start as int, i as int)),
            !overflow ==> mag as int == digits_val(s@.subrange(start as int, i as int)),
            overflow ==> digits_val(s@.subrange(start as int, i as int)) > u64::MAX,
        decreases n - i,
    {
        let b = ascii_byte(s, i);
        if b < 48 || b > 57 {
            proof {
                assert(!is_digit(s@[i as int]));
                assert(sign_body(s@)[i - start] == s@[i as int]);
            }
            return None;
        }
        let d = (b - 48) as u64;
        proof {
            let pre = s@.subrange(start as int, i as int);
            let post = s@.subrange(start as int, i + 1);
            assert(post.drop_last() =~= pre);
            assert(post.last() == s@[i as int]);
            assert(digits_val(post) == 10 * digits_val(pre) + digit_val(s@[i as int]));
            if !overflow {
                lemma_digits_val_nonneg(pre);
            }
        }
        if overflow {
        } else if mag > 1844674407370955161 || (mag == 1844674407370955161 && d > 5) {
            overflow = true;
        } else {
            mag = mag * 10 + d;
        }
        proof {
            let post = s@.subrange(start as int, i + 1);
            assert(all_digits(post));
        }
        i += 1;
    }
    proof {
        assert(s@.subrange(start as int, n as int) == sign_body(s@));
    }
    if overflow {
        None
    } else {
        Some((neg, mag))
    }
}

fn all_digits_range(s: &str, from: usize, to: usize) -> (r: bool)
    requires
        s.is_ascii(),
        from <= to <= s@.len(),
    ensures
        r == all_digits(s@.subrange(from as int, to as int)),
{
    let mut i = from;
    while i < to
        invariant
            s.is_ascii(),
            from <= i <= to <= s@.len(),
            forall|j: int| from <= j < i ==> is_digit(#[trigger] s@[j]),
        decreases to - i,
    {
        let b = ascii_byte(s, i);
        if b < 48 || b > 57 {
            proof {
                assert(s@.subrange(from as int, to as int)[i - from] == s@[i as int]);
            }
            return false;
        }
        i += 1;
    }
    proof {
        assert forall|j: int| 0 <= j < to - from implies is_digit(
            #[trigger] s@.subrange(from as int, to as int)[j],
        ) by {
            assert(s@.subrange(from as int, to as int)[j] == s@[j + from]);
        }
    }
    true
}

/// Compares a string against a fixed lower-case ASCII word, folding the
/// ASCII upper-case letters.
fn matches_lower(s: &str, lo: &str) -> (r: bool)
    requires
        s.is_ascii(),
        lo.is_ascii(),
        forall|i: int| 0 <= i < lo@.len() ==> !('A' <= #[trigger] lo@[i] && lo@[i] <= 'Z'),
    ensures
        r == matches_ignore_case(s@, lo@),
{
    let n = ascii_len(s);
    let m = ascii_len(lo);
    if n != m {
        return false;
    }
    let mut i: usize = 0;
    while i < n
        invariant
            s.is_ascii(),
            lo.is_ascii(),
            i <= n == s@.len() == lo@.len(),
            forall|j: int| 0 <= j < i ==> char_matches_lower(#[trigger] s@[j], lo@[j]),
        decreases n - i,
    {
        let sb = ascii_byte(s, i);
        let lb = ascii_byte(lo, i);
        if !(sb == lb || (65 <= sb && sb <= 90 && sb + 32 == lb)) {
            proof {
                assert(!char_matches_lower(s@[i as int], lo@[i as int]));
            }
            return false;
        }
        i += 1;
    }
    true
}

fn is_mantissa_str(s: &str) -> (r: bool)
    requires
        s.is_ascii(),
    ensures
        r == is_mantissa(s@),
{
    let n = ascii_len(s);
    let mut i: usize = 0;
    while i < n
        invariant
            s.is_ascii(),
            i <= n == s@.len(),
            forall|j: int| 0 <= j < i ==> #[trigger] s@[j] != '.',
        ensures
            s.is_ascii(),
            i <= n == s@.len(),
            forall|j: int| 0 <= j < i ==> #[trigger] s@[j] != '.',
            i < n ==> s@[i as int] == '.',
        decreases n - i,
    {
        let b = ascii_byte(s, i);
        if b == 46 {
            proof {
                assert(s@[i as int] == '.');
            }
            break ;
        }
        proof {
            assert(s@[i as int] != '.');
        }
        i += 1;
    }
    if i == n {
        // no decimal point anywhere
        let r = n > 0 && all_digits_range(s, 0, n);
        proof {
            assert(s@.subrange(0, n as int) =~= s@);
            if !r && is_mantissa(s@) {
                let k = choose|k: int|
                    0 <= k < s@.len() && #[trigger] s@[k] == '.' && all_digits(s@.take(k))
                        && all_digits(s@.skip(k + 1));
            }
        }
        r
    } else {
        let r = n > 1 && all_digits_range(s, 0, i) && all_digits_range(s, i + 1, n);
        proof {
            assert(s@[i as int] == '.');
            assert(s@.take(i as int) =~= s@.subrange(0, i as int));
            assert(s@.skip(i + 1) =~= s@.subrange(i + 1, n as int));
            if r {
                assert(is_mantissa(s@));
            } else if is_mantissa(s@) {
                if s@.len() > 0 && all_digits(s@) {
                    assert(is_digit(s@[i as int]));
                } else {
                    let k = choose|k: int|
                        0 <= k < s@.len() && #[trigger] s@[k] == '.' && all_digits(s@.take(k))
                            && all_digits(s@.skip(k + 1));
                    if k < i {
                        assert(s@[k] != '.');
                    } else if k > i {
                        assert(s@.take(k)[i as int] == s@[i as int]);
                        assert(is_digit(s@.take(k)[i as int]));
                    } else {
                        assert(all_digits(s@.subrange(0, i as int)));
                        assert(all_digits(s@.subrange(i + 1, n as int)));
                    }
                }
            }
        }
        r
    }
}

fn is_exponent_str(s: &str) -> (r: bool)
    requires
        s.is_ascii(),
    ensures
        r == is_exponent(s@),
{
    let n = ascii_len(s);
    if n == 0 {
        return false;
    }
    let first = ascii_byte(s, 0);
    let start: usize = if first == 43 || first == 45 {
        1
    } else {
        0
    };
    proof {
        assert(sign_body(s@) =~= s@.subrange(start as int, n as int));
    }
    start < n && all_digits_range(s, start, n)
}

fn is_number_str(s: &str) -> (r: bool)
    requires
        s.is_ascii(),
    ensures
        r == is_number_token(s@),
{
    let n = ascii_len(s);
    let mut i: usize = 0;
    while i < n
        invariant
            s.is_ascii(),
            i <= n == s@.len(),
            forall|j: int| 0 <= j < i ==> !is_exp_marker(#[trigger] s@[j]),
        ensures
            s.is_ascii(),
            i <= n == s@.len(),
            forall|j: int| 0 <= j < i ==> !is_exp_marker(#[trigger] s@[j]),
            i < n ==> is_exp_marker(s@[i as int]),
        decreases n - i,
    {
        let b = ascii_byte(s, i);
        if b == 101 || b == 69 {
            proof {
                assert(is_exp_marker(s@[i as int]));
            }
            break ;
        }
        proof {
            assert(!is_exp_marker(s@[i as int]));
        }
        i += 1;
    }
    if i == n {
        // no exponent marker anywhere
        let r = is_mantissa_str(s);
        proof {
            if !r && is_number_token(s@) {
                let k = choose|k: int|
                    0 <= k < s@.len() && is_exp_marker(#[trigger] s@[k]) && is_mantissa(s@.take(k))
                        && is_exponent(s@.skip(k + 1));
            }
        }
        r
    } else {
        let m = s.substring_ascii(0, i);
        let e = s.substring_ascii(i + 1, n);
        proof {
            assert(m@ =~= s@.take(i as int));
            assert(e@ =~= s@.skip(i + 1));
        }
        let r = is_mantissa_str(m) && is_exponent_str(e);
        proof {
            if r {
                assert(is_number_token(s@));
            } else if is_number_token(s@) {
                if is_mantissa(s@) {
                    lemma_mantissa_chars(s@);
                    assert(is_digit(s@[i as int]) || s@[i as int] == '.');
                } else {
                    let k = choose|k: int|
                        0 <= k < s@.len() && is_exp_marker(#[trigger] s@[k]) && is_mantissa(
                            s@.take(k),
                        ) && is_exponent(s@.skip(k + 1));
                    if k < i {
                        assert(!is_exp_marker(s@[k]));
                    } else if k > i {
                        lemma_mantissa_chars(s@.take(k));
                        assert(s@.take(k)[i as int] == s@[i as int]);
                        assert(is_digit(s@[i as int]) || s@[i as int] == '.');
                    }
                }
            }
        }
        r
    }
}

/// Recognizes a cell that denotes a 64-bit float.
pub(crate) fn is_float_cell(s: &str) -> (r: bool)
    ensures
        r == is_float_token(s@),
{
    if !s.is_ascii() {
        proof {
            if is_float_token(s@) {
                lemma_float_token_ascii(s@);
            }
        }
        return false;
    }
    let n = ascii_len(s);
    let start: usize = if n > 0 {
        let b = ascii_byte(s, 0);
        if b == 43 || b == 45 {
            1
        } else {
            0
        }
    } else {
        0
    };
    let body = s.substring_ascii(start, n);
    proof {
        assert(body@ =~= sign_body(s@));
        reveal_strlit("inf");
        reveal_strlit("infinity");
        reveal_strlit("nan");
        assert("inf"@ =~= seq!['i', 'n', 'f']);
        assert("infinity"@ =~= seq!['i', 'n', 'f', 'i', 'n', 'i', 't', 'y']);
        assert("nan"@ =~= seq!['n', 'a', 'n']);
    }
    if matches_lower(body, "inf") || matches_lower(body, "infinity") || matches_lower(body, "nan") {
        true
    } else {
        is_number_str(body)
    }
}

/// Recognizes a cell that is one of the boolean words.
pub(crate) fn is_bool_cell(s: &str) -> (r: bool)
    ensures
        r == is_bool_token(s@),
{
    if !s.is_ascii() {
        proof {
            if is_bool_token(s@) {
                lemma_bool_token_ascii(s@);
            }
        }
        return false;
    }
    proof {
        reveal_strlit("true");
        reveal_strlit("false");
        reveal_strlit("t");
        reveal_strlit("f");
        reveal_strlit("1");
        reveal_strlit("0");
        assert("true"@ =~= seq!['t', 'r', 'u', 'e']);
        assert("false"@ =~= seq!['f', 'a', 'l', 's', 'e']);
        assert("t"@ =~= seq!['t']);
        assert("f"@ =~= seq!['f']);
        assert("1"@ =~= seq!['1']);
        assert("0"@ =~= seq!['0']);
    }
    matches_lower(s, "true") || matches_lower(s, "false") || matches_lower(s, "t") || matches_lower(
        s,
        "f",
    ) || matches_lower(s, "1") || matches_lower(s, "0")
}

fn days_in_month_of(y: u32, m: u32) -> (r: u32)
    ensures
        r as int == days_in_month(y as int, m as int),
{
    if m == 2 {
        if y % 4 == 0 && (y % 100 != 0 || y % 400 == 0) {
            29
        } else {
            28
        }
    } else if m == 4 || m == 6 || m == 9 || m == 11 {
        30
    } else {
        31
    }
}

/// Recognizes a cell in the exact `YYYY-MM-DD` date format.
pub(crate) fn is_date_cell(s: &str) -> (r: bool)
    ensures
        r == is_date_token(s@),
{
    if !s.is_ascii() {
        proof {
            if is_date_token(s@) {
                lemma_date_token_ascii(s@);
            }
        }
        return false;
    }
    let n = ascii_len(s);
    if n != 10 {
        return false;
    }
    if !(all_digits_range(s, 0, 4) && all_digits_range(s, 5, 7) && all_digits_range(s, 8, 10)) {
        proof {
            assert forall|j: int, lo: int, hi: int|
                0 <= lo <= j < hi <= 10 implies #[trigger] s@.subrange(lo, hi)[j - lo]
                == s@[j] by {}
            assert(s@.subrange(0, 4)[0] == s@[0] && s@.subrange(0, 4)[1] == s@[1] && s@.subrange(
                0,
                4,
            )[2] == s@[2] && s@.subrange(0, 4)[3] == s@[3]);
            assert(s@.subrange(5, 7)[0] == s@[5] && s@.subrange(5, 7)[1] == s@[6]);
            assert(s@.subrange(8, 10)[0] == s@[8] && s@.subrange(8, 10)[1] == s@[9]);
        }
        return false;
    }
    proof {
        assert(is_digit(s@.subrange(0, 4)[0]) && is_digit(s@.subrange(0, 4)[1]) && is_digit(
            s@.subrange(0, 4)[2],
        ) && is_digit(s@.subrange(0, 4)[3]));
        assert(is_digit(s@.subrange(5, 7)[0]) && is_digit(s@.subrange(5, 7)[1]));
        assert(is_digit(s@.subrange(8, 10)[0]) && is_digit(s@.subrange(8, 10)[1]));
        assert(s@.subrange(0, 4)[0] == s@[0] && s@.subrange(0, 4)[1] == s@[1] && s@.subrange(0, 4)[2]
            == s@[2] && s@.subrange(0, 4)[3] == s@[3]);
        assert(s@.subrange(5, 7)[0] == s@[5] && s@.subrange(5, 7)[1] == s@[6]);
        assert(s@.subrange(8, 10)[0] == s@[8] && s@.subrange(8, 10)[1] == s@[9]);
    }
    let b4 = ascii_byte(s, 4);
    let b7 = ascii_byte(s, 7);
    if b4 != 45 || b7 != 45 {
        return false;
    }
    let y = (ascii_byte(s, 0) - 48) as u32 * 1000 + (ascii_byte(s, 1) - 48) as u32 * 100 + (
    ascii_byte(s, 2) - 48) as u32 * 10 + (ascii_byte(s, 3) - 48) as u32;
    let m = (ascii_byte(s, 5) - 48) as u32 * 10 + (ascii_byte(s, 6) - 48) as u32;
    let d = (ascii_byte(s, 8) - 48) as u32 * 10 + (ascii_byte(s, 9) - 48) as u32;
    if m < 1 || m > 12 {
        return false;
    }
    let dim = days_in_month_of(y, m);
    d >= 1 && d <= dim
}

/// Recognizes a cell in the exact `YYYY-MM-DD HH:MM:SS` datetime format.
pub(crate) fn is_datetime_cell(s: &str) -> (r: bool)
    ensures
        r == is_datetime_token(s@),
{
    if !s.is_ascii() {
        proof {
            if is_datetime_token(s@) {
                lemma_datetime_token_ascii(s@);
            }
        }
        return false;
    }
    let n = ascii_len(s);
    if n != 19 {
        return false;
    }
    let date_part = s.substring_ascii(0, 10);
    proof {
        assert(date_part@ =~= s@.take(10));
    }
    if !is_date_cell(date_part) {
        return false;
    }
    let b10 = ascii_byte(s, 10);
    let b13 = ascii_byte(s, 13);
    let b16 = ascii_byte(s, 16);
    if b10 != 32 || b13 != 58 || b16 != 58 {
        return false;
    }
    if !(all_digits_range(s, 11, 13) && all_digits_range(s, 14, 16) && all_digits_range(
        s,
        17,
        19,
    )) {
        proof {
            assert(s@.subrange(11, 13)[0] == s@[11] && s@.subrange(11, 13)[1] == s@[12]);
            assert(s@.subrange(14, 16)[0] == s@[14] && s@.subrange(14, 16)[1] == s@[15]);
            assert(s@.subrange(17, 19)[0] == s@[17] && s@.subrange(17, 19)[1] == s@[18]);
        }
        return false;
    }
    proof {
        assert(is_digit(s@.subrange(11, 13)[0]) && is_digit(s@.subrange(11, 13)[1]));
        assert(is_digit(s@.subrange(14, 16)[0]) && is_digit(s@.subrange(14, 16)[1]));
        assert(is_digit(s@.subrange(17, 19)[0]) && is_digit(s@.subrange(17, 19)[1]));
        assert(s@.subrange(11, 13)[0] == s@[11] && s@.subrange(11, 13)[1] == s@[12]);
        assert(s@.subrange(14, 16)[0] == s@[14] && s@.subrange(14, 16)[1] == s@[15]);
        assert(s@.subrange(17, 19)[0] == s@[17] && s@.subrange(17, 19)[1] == s@[18]);
    }
    let hh = (ascii_byte(s, 11) - 48) as u32 * 10 + (ascii_byte(s, 12) - 48) as u32;
    let mm = (ascii_byte(s, 14) - 48) as u32 * 10 + (ascii_byte(s, 15) - 48) as u32;
    let ss = (ascii_byte(s, 17) - 48) as u32 * 10 + (ascii_byte(s, 18) - 48) as u32;
    hh <= 23 && mm <= 59 && ss <= 59
}

/// Recognizes a cell that denotes a 32-bit signed integer.
pub(crate) fn is_i32_cell(s: &str) -> (r: bool)
    ensures
        r == fits_i32(s@),
{
    if !s.is_ascii() {
        proof {
            if is_int_token(s@) {
                lemma_int_token_ascii(s@);
            }
        }
        return false;
    }
    match scan_int(s) {
        None => {
            proof {
                if is_int_token(s@) {
                    assert(digits_val(sign_body(s@)) > u64::MAX);
                }
            }
            false
        },
        Some((neg, mag)) => {
            if neg {
                mag <= 0x8000_0000
            } else {
                mag <= 0x7fff_ffff
            }
        },
    }
}

/// Recognizes a cell that denotes a 64-bit signed integer.
pub(crate) fn is_i64_cell(s: &str) -> (r: bool)
    ensures
        r == fits_i64(s@),
{
    if !s.is_ascii() {
        proof {
            if is_int_token(s@) {
                lemma_int_token_ascii(s@);
            }
        }
        return false;
    }
    match scan_int(s) {
        None => {
            proof {
                if is_int_token(s@) {
                    assert(digits_val(sign_body(s@)) > u64::MAX);
                }
            }
            false
        },
        Some((neg, mag)) => {
            if neg {
                mag <= 0x8000_0000_0000_0000
            } else {
                mag <= 0x7fff_ffff_ffff_ffff
            }
        },
    }
}

} // verus!
