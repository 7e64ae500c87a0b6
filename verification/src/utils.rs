//! Small verified text helpers shared by the schema renderers: trimming,
//! ASCII case mapping, PascalCase conversion, field-name sanitizing and
//! decimal rendering of lengths.

use vstd::prelude::*;
use vstd::string::{StrSliceExecFns, StringExecFns};

verus! {

/// Relies on std's String::push: appends the given character to the end of
/// the string.
pub assume_specification[ String::push ](s: &mut String, c: char)
    ensures
        final (s)@ == old(s)@.push(c),
;

/// ASCII whitespace, the characters trimmed from the ends of names.
pub open spec fn is_ws(c: char) -> bool {
    c == ' ' || c == '\t' || c == '\n' || c == '\r'
}

pub open spec fn trim_front(s: Seq<char>) -> Seq<char>
    decreases s.len(),
{
    if s.len() > 0 && is_ws(s[0]) {
        trim_front(s.drop_first())
    } else {
        s
    }
}

pub open spec fn trim_back(s: Seq<char>) -> Seq<char>
    decreases s.len(),
{
    if s.len() > 0 && is_ws(s.last()) {
        trim_back(s.drop_last())
    } else {
        s
    }
}

/// The string with ASCII whitespace removed from both ends.
pub open spec fn spec_trim(s: Seq<char>) -> Seq<char> {
    trim_back(trim_front(s))
}

/// ASCII upper-case letters mapped to lower case; all else unchanged.
pub open spec fn lower_char(c: char) -> char {
    if 'A' <= c && c <= 'Z' {
        (((c as u8) + 32) as u8) as char
    } else {
        c
    }
}

/// ASCII lower-case letters mapped to upper case; all else unchanged.
pub open spec fn upper_char(c: char) -> char {
    if 'a' <= c && c <= 'z' {
        (((c as u8) - 32) as u8) as char
    } else {
        c
    }
}

fn lower_char_of(c: char) -> (r: char)
    ensures
        r == lower_char(c),
{
    if 'A' <= c && c <= 'Z' {
        ((c as u8) + 32) as char
    } else {
        c
    }
}

fn upper_char_of(c: char) -> (r: char)
    ensures
        r == upper_char(c),
{
    if 'a' <= c && c <= 'z' {
        ((c as u8) - 32) as char
    } else {
        c
    }
}

/// Trims ASCII whitespace from both ends of a string.
pub(crate) fn trim_str<'a>(s: &'a str) -> (r: &'a str)
    ensures
        r@ == spec_trim(s@),
{
    let n = s.unicode_len();
    proof {
        assert(s@.skip(0) =~= s@);
    }
    let mut start: usize = 0;
    while start < n
        invariant
            start <= n == s@.len(),
            trim_front(s@) == trim_front(s@.skip(start as int)),
        ensures
            start <= n == s@.len(),
            trim_front(s@) == trim_front(s@.skip(start as int)),
            start < n ==> !is_ws(s@[start as int]),
        decreases n - start,
    {
        let c = s.get_char(start);
        if c == ' ' || c == '\t' || c == '\n' || c == '\r' {
            proof {
                assert(s@.skip(start as int)[0] == s@[start as int]);
                assert(s@.skip(start as int).drop_first() =~= s@.skip(start + 1));
            }
            start += 1;
        } else {
            proof {
                assert(s@.skip(start as int)[0] == s@[start as int]);
            }
            break ;
        }
    }
    proof {
        // the remainder starts with a non-whitespace character, or is empty
        if start < n {
            assert(trim_front(s@.skip(start as int)) == s@.skip(start as int));
        } else {
            assert(s@.skip(start as int).len() == 0);
        }
        assert(trim_front(s@) == s@.skip(start as int));
    }
    let mut end: usize = n;
    while end > start
        invariant
            start <= end <= n == s@.len(),
            trim_front(s@) == s@.skip(start as int),
            trim_back(s@.skip(start as int)) == trim_back(
                s@.subrange(start as int, end as int),
            ),
        ensures
            start <= end <= n == s@.len(),
            trim_back(s@.skip(start as int)) == trim_back(
                s@.subrange(start as int, end as int),
            ),
            end > start ==> !is_ws(s@[end - 1]),
        decreases end,
    {
        let c = s.get_char(end - 1);
        if c == ' ' || c == '\t' || c == '\n' || c == '\r' {
            proof {
                let cur = s@.subrange(start as int, end as int);
                assert(cur.last() == s@[end - 1]);
                assert(cur.drop_last() =~= s@.subrange(start as int, end - 1));
            }
            end -= 1;
        } else {
            break ;
        }
    }
    proof {
        let cur = s@.subrange(start as int, end as int);
        if end > start {
            assert(cur.last() == s@[end - 1]);
            assert(trim_back(cur) == cur);
        } else {
            assert(cur.len() == 0);
        }
        assert(spec_trim(s@) == s@.subrange(start as int, end as int));
    }
    s.substring_char(start, end)
}

/// A word separator for PascalCase conversion.
pub open spec fn is_sep(c: char) -> bool {
    c == '_' || c == '-'
}

pub open spec fn pascal_chars(s: Seq<char>, at_word_start: bool) -> Seq<char>
    decreases s.len(),
{
    if s.len() == 0 {
        Seq::empty()
    } else if is_sep(s[0]) {
        pascal_chars(s.drop_first(), true)
    } else {
        seq![
            if at_word_start {
                upper_char(s[0])
            } else {
                lower_char(s[0])
            },
        ] + pascal_chars(s.drop_first(), false)
    }
}

/// `snake_case` or `kebab-case` converted to PascalCase: separators dropped,
/// the first letter of each word raised, the rest lowered.
pub open spec fn spec_pascal(s: Seq<char>) -> Seq<char> {
    pascal_chars(s, true)
}

/// Converts a string from snake_case or kebab-case to PascalCase.
pub fn to_pascal_case(s: &str) -> (r: String)
    ensures
        r@ == spec_pascal(s@),
{
    let n = s.unicode_len();
    let mut r = String::new();
    proof {
        assert(s@.skip(0) =~= s@);
        assert(r@ + pascal_chars(s@, true) =~= pascal_chars(s@, true));
    }
    let mut at_start = true;
    let mut i: usize = 0;
    while i < n
        invariant
            i <= n == s@.len(),
            r@ + pascal_chars(s@.skip(i as int), at_start) == spec_pascal(s@),
        decreases n - i,
    {
        let c = s.get_char(i);
        proof {
            assert(s@.skip(i as int)[0] == s@[i as int]);
            assert(s@.skip(i as int).drop_first() =~= s@.skip(i + 1));
        }
        if c == '_' || c == '-' {
            at_start = true;
        } else {
            let oc = if at_start {
                upper_char_of(c)
            } else {
                lower_char_of(c)
            };
            let ghost old_r = r@;
            r.push(oc);
            proof {
                assert(r@ =~= old_r + seq![oc]);
                assert(old_r + (seq![oc] + pascal_chars(s@.skip(i + 1), false)) =~= (old_r
                    + seq![oc]) + pascal_chars(s@.skip(i + 1), false));
            }
            at_start = false;
        }
        i += 1;
    }
    proof {
        assert(s@.skip(n as int).len() == 0);
        assert(pascal_chars(s@.skip(n as int), at_start) =~= Seq::<char>::empty());
        assert(r@ + Seq::<char>::empty() =~= r@);
    }
    r
}

/// Spaces and hyphens become underscores; ASCII letters are lowered.
pub open spec fn sanitize_char(c: char) -> char {
    if c == ' ' || c == '-' {
        '_'
    } else {
        lower_char(c)
    }
}

pub open spec fn sanitize_chars(s: Seq<char>) -> Seq<char>
    decreases s.len(),
{
    if s.len() == 0 {
        Seq::empty()
    } else {
        seq![sanitize_char(s[0])] + sanitize_chars(s.drop_first())
    }
}

/// A name made safe for a field or key: trimmed, spaces and hyphens replaced
/// by underscores, ASCII letters lowered.
pub open spec fn spec_sanitize(s: Seq<char>) -> Seq<char> {
    sanitize_chars(spec_trim(s))
}

/// Sanitizes a header or key name into a field name.
pub(crate) fn sanitize_name(s: &str) -> (r: String)
    ensures
        r@ == spec_sanitize(s@),
{
    let t = trim_str(s);
    let n = t.unicode_len();
    let mut r = String::new();
    proof {
        assert(t@.skip(0) =~= t@);
        assert(r@ + sanitize_chars(t@) =~= sanitize_chars(t@));
    }
    let mut i: usize = 0;
    while i < n
        invariant
            i <= n == t@.len(),
            t@ == spec_trim(s@),
            r@ + sanitize_chars(t@.skip(i as int)) == spec_sanitize(s@),
        decreases n - i,
    {
        let c = t.get_char(i);
        proof {
            assert(t@.skip(i as int)[0] == t@[i as int]);
            assert(t@.skip(i as int).drop_first() =~= t@.skip(i + 1));
        }
        let sc = if c == ' ' || c == '-' {
            '_'
        } else {
            lower_char_of(c)
        };
        let ghost old_r = r@;
        r.push(sc);
        proof {
            assert(r@ =~= old_r + seq![sc]);
            assert(old_r + (seq![sc] + sanitize_chars(t@.skip(i + 1))) =~= (old_r + seq![sc])
                + sanitize_chars(t@.skip(i + 1)));
        }
        i += 1;
    }
    proof {
        assert(t@.skip(n as int).len() == 0);
        assert(sanitize_chars(t@.skip(n as int)) =~= Seq::<char>::empty());
        assert(r@ + Seq::<char>::empty() =~= r@);
    }
    r
}

pub open spec fn digit_char(d: int) -> char {
    if d == 0 {
        '0'
    } else if d == 1 {
        '1'
    } else if d == 2 {
        '2'
    } else if d == 3 {
        '3'
    } else if d == 4 {
        '4'
    } else if d == 5 {
        '5'
    } else if d == 6 {
        '6'
    } else if d == 7 {
        '7'
    } else if d == 8 {
        '8'
    } else {
        '9'
    }
}

/// Decimal rendering of a non-negative number, most significant digit first.
pub open spec fn dec_chars(n: int) -> Seq<char>
    decreases n,
{
    if n < 10 {
        seq![digit_char(n)]
    } else {
        dec_chars(n / 10) + seq![digit_char(n % 10)]
    }
}

fn digit_str(d: usize) -> (r: &'static str)
    requires
        d < 10,
    ensures
        r@ == seq![digit_char(d as int)],
{
    proof {
        reveal_strlit("0");
        reveal_strlit("1");
        reveal_strlit("2");
        reveal_strlit("3");
        reveal_strlit("4");
        reveal_strlit("5");
        reveal_strlit("6");
        reveal_strlit("7");
        reveal_strlit("8");
        reveal_strlit("9");
    }
    if d == 0 {
        "0"
    } else if d == 1 {
        "1"
    } else if d == 2 {
        "2"
    } else if d == 3 {
        "3"
    } else if d == 4 {
        "4"
    } else if d == 5 {
        "5"
    } else if d == 6 {
        "6"
    } else if d == 7 {
        "7"
    } else if d == 8 {
        "8"
    } else {
        "9"
    }
}

/// Renders a length as decimal text.
pub(crate) fn usize_to_dec(n: usize) -> (r: String)
    ensures
        r@ == dec_chars(n as int),
    decreases n,
{
    if n < 10 {
        let s = digit_str(n);
        String::from_str(s)
    } else {
        let q = n / 10;
        let d = n % 10;
        let mut r = usize_to_dec(q);
        let ds = digit_str(d);
        r.append(ds);
        r
    }
}

} // verus!
