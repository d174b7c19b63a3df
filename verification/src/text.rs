//! Small string building blocks shared by the other modules.

use vstd::prelude::*;

verus! {

/// Appends one character to a string (std's `String::push`).
///
/// Trusted: the contract says that the character is appended at the end and
/// that nothing else changes, which is what std documents for `String::push`.
#[verifier::external_body]
pub(crate) fn push_char(s: &mut String, c: char)
    ensures
        final(s)@ == old(s)@.push(c),
{
    s.push(c);
}

/// Appends a string slice to a string.
pub fn push_str(s: &mut String, t: &str)
    ensures
        final(s)@ == old(s)@ + t@,
{
    s.append(t);
}

/// A string holding a copy of the given characters.
pub fn string_from(t: &str) -> (s: String)
    ensures
        s@ == t@,
{
    let mut s = String::new();
    push_str(&mut s, t);
    s
}

} // verus!

verus! {

pub open spec fn is_digit_char(c: char) -> bool {
    '0' <= c <= '9'
}

pub open spec fn all_digit_chars(s: Seq<char>) -> bool {
    forall|i: int| 0 <= i < s.len() ==> is_digit_char(#[trigger] s[i])
}

/// Value of a run of decimal digits.
pub open spec fn digit_chars_value(s: Seq<char>) -> int
    decreases s.len(),
{
    if s.len() == 0 {
        0
    } else {
        10 * digit_chars_value(s.drop_last()) + (s.last() as int - '0' as int)
    }
}

/// The integer that `s` writes in the notation of Rust's `FromStr` for integers:
/// an optional `+` or `-` followed by at least one decimal digit. The range of the
/// target type is checked separately.
pub open spec fn spec_decimal(s: Seq<char>) -> Option<int> {
    if s.len() > 0 && (s[0] == '+' || s[0] == '-') {
        let digits = s.skip(1);
        if digits.len() > 0 && all_digit_chars(digits) {
            Some(if s[0] == '-' { -digit_chars_value(digits) } else { digit_chars_value(digits) })
        } else {
            None
        }
    } else if s.len() > 0 && all_digit_chars(s) {
        Some(digit_chars_value(s))
    } else {
        None
    }
}

/// What `s.parse::<i64>()` gives: the decimal integer it writes, when that fits an `i64`.
pub open spec fn spec_parse_i64(s: Seq<char>) -> Option<int> {
    match spec_decimal(s) {
        Some(v) => if i64::MIN <= v <= i64::MAX {
            Some(v)
        } else {
            None
        },
        None => None,
    }
}

proof fn lemma_digit_value_nonneg(s: Seq<char>)
    requires
        all_digit_chars(s),
    ensures
        digit_chars_value(s) >= 0,
    decreases s.len(),
{
    if s.len() > 0 {
        assert(all_digit_chars(s.drop_last())) by {
            assert forall|i: int| 0 <= i < s.drop_last().len() implies is_digit_char(
                #[trigger] s.drop_last()[i],
            ) by {
                assert(s.drop_last()[i] == s[i]);
            }
        }
        lemma_digit_value_nonneg(s.drop_last());
        assert(is_digit_char(s[s.len() - 1]));
    }
}

/// Parses a decimal integer as `str::parse::<i64>` does.
pub fn parse_i64(s: &String) -> (r: Option<i64>)
    ensures
        match spec_parse_i64(s@) {
            Some(v) => r == Some(v as i64),
            None => r is None,
        },
{
    let mut negative = false;
    let mut start: usize = 0;
    let mut magnitude: u64 = 0;
    let mut too_big = false;
    let mut first = true;
    let mut any_digit = false;
    for c in it: s.chars()
        invariant
            it.seq() == s@,
            first <==> it.index() == 0,
            start <= 1,
            start <= it.index(),
            start == 1 <==> (s@.len() > 0 && it.index() > 0 && (s@[0] == '+' || s@[0] == '-')),
            any_digit <==> start < it.index(),
            negative <==> (start == 1 && s@[0] == '-'),
            all_digit_chars(s@.subrange(start as int, it.index())),
            !too_big ==> magnitude == digit_chars_value(s@.subrange(start as int, it.index())),
            too_big ==> digit_chars_value(s@.subrange(start as int, it.index())) > u64::MAX,
    {
        let ghost before = s@.subrange(start as int, it.index());
        if first && (c == '+' || c == '-') {
            negative = c == '-';
            start = 1;
            proof {
                assert(s@.subrange(1, 1) =~= Seq::<char>::empty());
            }
        } else if '0' <= c && c <= '9' {
            let ghost after = s@.subrange(start as int, it.index() + 1);
            proof {
                assert(after.drop_last() =~= before);
                assert(after.last() == c);
                assert(all_digit_chars(after)) by {
                    assert forall|k: int| 0 <= k < after.len() implies is_digit_char(#[trigger] after[k]) by {
                        if k < after.len() - 1 {
                            assert(after[k] == before[k]);
                        }
                    }
                }
                lemma_digit_value_nonneg(before);
            }
            any_digit = true;
            let digit = (c as u32 - '0' as u32) as u64;
            if !too_big {
                match magnitude.checked_mul(10) {
                    Some(m) => match m.checked_add(digit) {
                        Some(n) => {
                            magnitude = n;
                        },
                        None => {
                            too_big = true;
                        },
                    },
                    None => {
                        too_big = true;
                    },
                }
            }
        } else {
            proof {
                let i = it.index();
                if start == 1 {
                    assert(s@.skip(1)[i - 1] == c);
                } else {
                    assert(s@[i] == c);
                }
            }
            return None;
        }
        first = false;
    }
    proof {
        if start == 1 {
            assert(s@.skip(1) =~= s@.subrange(1, s@.len() as int));
        } else {
            assert(s@.subrange(0, s@.len() as int) =~= s@);
        }
    }
    if !any_digit {
        return None;
    }
    if too_big {
        return None;
    }
    if negative {
        if magnitude <= 9223372036854775808u64 {
            if magnitude == 9223372036854775808u64 {
                Some(i64::MIN)
            } else {
                Some(-(magnitude as i64))
            }
        } else {
            None
        }
    } else {
        if magnitude <= 9223372036854775807u64 {
            Some(magnitude as i64)
        } else {
            None
        }
    }
}

} // verus!

verus! {

/// The decimal digits of a number, as `to_string` writes it.
pub open spec fn decimal(n: nat) -> Seq<char>
    decreases n,
{
    if n < 10 {
        seq![digit_char(n)]
    } else {
        decimal(n / 10).push(digit_char(n % 10))
    }
}

pub open spec fn digit_char(d: nat) -> char {
    ((d + 48) as u32) as char
}

fn digit(d: usize) -> (c: char)
    requires
        d < 10,
    ensures
        c == digit_char(d as nat),
{
    ((d as u8) + 48u8) as char
}

/// The decimal digits of a number.
pub fn usize_to_decimal(n: usize) -> (s: String)
    ensures
        s@ == decimal(n as nat),
    decreases n,
{
    if n < 10 {
        let mut s = String::new();
        push_char(&mut s, digit(n));
        proof {
            assert(s@ =~= seq![digit_char(n as nat)]);
        }
        s
    } else {
        let mut s = usize_to_decimal(n / 10);
        push_char(&mut s, digit(n % 10));
        s
    }
}

/// The path that joining `component` onto `base` gives on Unix (`Path::join`): an
/// absolute component replaces the base; otherwise a separator is put between
/// them unless the base is empty or already ends with one.
pub open spec fn spec_join(base: Seq<char>, component: Seq<char>) -> Seq<char> {
    if component.len() > 0 && component[0] == '/' {
        component
    } else if base.len() > 0 && base.last() != '/' {
        base + seq!['/'] + component
    } else {
        base + component
    }
}

/// Joins a path component onto a base path, as `Path::join` does on Unix.
pub fn join_path(base: &String, component: &str) -> (joined: String)
    ensures
        joined@ == spec_join(base@, component@),
{
    let mut absolute = false;
    let mut first = true;
    let mut base_ends_with_separator = false;
    let mut base_is_empty = true;
    for c in it: component.chars()
        invariant
            it.seq() == component@,
            first <==> it.index() == 0,
            absolute <==> (it.index() > 0 && component@[0] == '/'),
    {
        if first && c == '/' {
            absolute = true;
        }
        first = false;
    }
    for c in it: base.chars()
        invariant
            it.seq() == base@,
            base_is_empty <==> it.index() == 0,
            it.index() > 0 ==> (base_ends_with_separator <==> base@[it.index() - 1] == '/'),
    {
        base_is_empty = false;
        base_ends_with_separator = c == '/';
    }
    if absolute {
        return string_from(component);
    }
    let mut joined = string_from(base.as_str());
    if !base_is_empty && !base_ends_with_separator {
        push_char(&mut joined, '/');
    }
    push_str(&mut joined, component);
    proof {
        if !base_is_empty && !base_ends_with_separator {
            assert(base@ + seq!['/'] + component@ =~= base@.push('/') + component@);
        }
    }
    joined
}

} // verus!

verus! {

/// The characters with Unicode's White_Space property, which `char::is_whitespace`
/// and `str::trim` go by.
pub open spec fn is_white_space(c: char) -> bool {
    ||| '\u{9}' <= c <= '\u{d}'
    ||| c == ' '
    ||| c == '\u{85}'
    ||| c == '\u{a0}'
    ||| c == '\u{1680}'
    ||| '\u{2000}' <= c <= '\u{200a}'
    ||| c == '\u{2028}'
    ||| c == '\u{2029}'
    ||| c == '\u{202f}'
    ||| c == '\u{205f}'
    ||| c == '\u{3000}'
}

/// Whether a character is white space.
pub fn is_whitespace(c: char) -> (r: bool)
    ensures
        r == is_white_space(c),
{
    ('\u{9}' <= c && c <= '\u{d}') || c == ' ' || c == '\u{85}' || c == '\u{a0}' || c
        == '\u{1680}' || ('\u{2000}' <= c && c <= '\u{200a}') || c == '\u{2028}' || c
        == '\u{2029}' || c == '\u{202f}' || c == '\u{205f}' || c == '\u{3000}'
}

/// The characters of `s` from its first character that is not white space on, as
/// `str::trim_start` leaves them.
pub open spec fn trim_start(s: Seq<char>) -> Seq<char>
    decreases s.len(),
{
    if s.len() == 0 {
        s
    } else {
        let before = trim_start(s.drop_last());
        if before.len() == 0 && is_white_space(s.last()) {
            before
        } else {
            before.push(s.last())
        }
    }
}

/// A copy of `s` without its leading white space.
pub fn trim_start_string(s: &String) -> (r: String)
    ensures
        r@ == trim_start(s@),
{
    let mut r = String::new();
    let mut started = false;
    for c in it: s.chars()
        invariant
            it.seq() == s@,
            r@ == trim_start(s@.take(it.index())),
            started <==> r@.len() > 0,
    {
        proof {
            assert(s@.take(it.index() + 1).drop_last() == s@.take(it.index()));
            assert(s@.take(it.index() + 1).last() == c);
        }
        if started || !is_whitespace(c) {
            push_char(&mut r, c);
            started = true;
        }
    }
    proof {
        assert(s@.take(s@.len() as int) == s@);
    }
    r
}

/// What `s.parse::<usize>()` gives: an optional `+` followed by at least one decimal
/// digit, when the number fits a `usize`.
pub open spec fn spec_parse_usize(s: Seq<char>) -> Option<int> {
    let digits = if s.len() > 0 && s[0] == '+' {
        s.skip(1)
    } else {
        s
    };
    if digits.len() > 0 && all_digit_chars(digits) && digit_chars_value(digits) <= usize::MAX {
        Some(digit_chars_value(digits))
    } else {
        None
    }
}

/// A number that parses as a `usize` lies in its range.
pub proof fn lemma_parse_usize_range(s: Seq<char>)
    ensures
        spec_parse_usize(s) matches Some(v) ==> 0 <= v <= usize::MAX,
{
    let digits = if s.len() > 0 && s[0] == '+' {
        s.skip(1)
    } else {
        s
    };
    if spec_parse_usize(s) is Some {
        lemma_digit_value_nonneg(digits);
    }
}

/// Parses a decimal number as `str::parse::<usize>` does.
pub fn parse_usize(s: &String) -> (r: Option<usize>)
    ensures
        match spec_parse_usize(s@) {
            Some(v) => r == Some(v as usize),
            None => r is None,
        },
{
    let mut first = true;
    let mut start: usize = 0;
    let mut any_digit = false;
    let mut magnitude: usize = 0;
    let mut too_big = false;
    for c in it: s.chars()
        invariant
            it.seq() == s@,
            first <==> it.index() == 0,
            start <= 1,
            start <= it.index(),
            start == 1 <==> (s@.len() > 0 && it.index() > 0 && s@[0] == '+'),
            any_digit <==> start < it.index(),
            all_digit_chars(s@.subrange(start as int, it.index())),
            !too_big ==> magnitude == digit_chars_value(s@.subrange(start as int, it.index())),
            too_big ==> digit_chars_value(s@.subrange(start as int, it.index())) > usize::MAX,
    {
        let ghost before = s@.subrange(start as int, it.index());
        if first && c == '+' {
            start = 1;
            proof {
                assert(s@.subrange(1, 1) =~= Seq::<char>::empty());
            }
        } else if '0' <= c && c <= '9' {
            let ghost after = s@.subrange(start as int, it.index() + 1);
            proof {
                assert(after.drop_last() =~= before);
                assert(after.last() == c);
                assert(all_digit_chars(after)) by {
                    assert forall|k: int| 0 <= k < after.len() implies is_digit_char(#[trigger] after[k]) by {
                        if k < after.len() - 1 {
                            assert(after[k] == before[k]);
                        }
                    }
                }
                lemma_digit_value_nonneg(before);
            }
            any_digit = true;
            let digit = (c as u32 - '0' as u32) as usize;
            if !too_big {
                match magnitude.checked_mul(10) {
                    Some(m) => match m.checked_add(digit) {
                        Some(n) => {
                            magnitude = n;
                        },
                        None => {
                            too_big = true;
                        },
                    },
                    None => {
                        too_big = true;
                    },
                }
            }
        } else {
            proof {
                let i = it.index();
                if start == 1 {
                    assert(s@.skip(1)[i - 1] == c);
                } else {
                    assert(s@[i] == c);
                }
            }
            return None;
        }
        first = false;
    }
    proof {
        if start == 1 {
            assert(s@.skip(1) =~= s@.subrange(1, s@.len() as int));
        } else {
            assert(s@.subrange(0, s@.len() as int) =~= s@);
        }
    }
    if !any_digit || too_big {
        return None;
    }
    Some(magnitude)
}

} // verus!
