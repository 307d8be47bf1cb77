//! Reading decimal integers out of text, and writing them as ASCII bytes.

use vstd::prelude::*;

verus! {

/// The text of a value could not be read as an integer of the wanted range.
#[derive(Debug, Clone, Copy, PartialEq, Eq, Structural)]
pub struct ParseError;

pub open spec fn is_digit(c: char) -> bool {
    '0' <= c && c <= '9'
}

pub open spec fn digit_value(c: char) -> int {
    c as int - '0' as int
}

pub open spec fn all_digits(s: Seq<char>) -> bool {
    forall|i: int| 0 <= i < s.len() ==> #[trigger] is_digit(s[i])
}

/// The number that a run of decimal digits denotes.
pub open spec fn digits_value(s: Seq<char>) -> int
    decreases s.len(),
{
    if s.len() == 0 {
        0
    } else {
        10 * digits_value(s.drop_last()) + digit_value(s.last())
    }
}

/// The value of `s` read as an integer: an optional sign and one or more
/// decimal digits, nothing else. A `-` is accepted only where `signed`.
pub open spec fn integer_text_value(s: Seq<char>, signed: bool) -> Option<int> {
    if s.len() > 0 && (s[0] == '+' || (signed && s[0] == '-')) {
        let body = s.skip(1);
        if body.len() > 0 && all_digits(body) {
            if s[0] == '-' {
                Some(-digits_value(body))
            } else {
                Some(digits_value(body))
            }
        } else {
            None
        }
    } else if s.len() > 0 && all_digits(s) {
        Some(digits_value(s))
    } else {
        None
    }
}

/// The characters with the Unicode White_Space property.
pub open spec fn is_whitespace(c: char) -> bool {
    ('\u{9}' <= c && c <= '\u{d}') || c == ' ' || c == '\u{85}' || c == '\u{a0}' || c
        == '\u{1680}' || ('\u{2000}' <= c && c <= '\u{200a}') || c == '\u{2028}' || c
        == '\u{2029}' || c == '\u{202f}' || c == '\u{205f}' || c == '\u{3000}'
}

/// `s` without its trailing whitespace.
pub open spec fn trim_end(s: Seq<char>) -> Seq<char>
    decreases s.len(),
{
    if s.len() > 0 && is_whitespace(s.last()) {
        trim_end(s.drop_last())
    } else {
        s
    }
}

/// The reading that a sensor's text holds: a signed 32-bit integer,
/// trailing whitespace ignored.
pub open spec fn reading_value(s: Seq<char>) -> Option<int> {
    match integer_text_value(trim_end(s), true) {
        Some(v) => if i32::MIN <= v <= i32::MAX {
            Some(v)
        } else {
            None
        },
        None => None,
    }
}

/// A count of milliseconds written as an unsigned 64-bit integer.
pub open spec fn millis_value(s: Seq<char>) -> Option<int> {
    match integer_text_value(s, false) {
        Some(v) => if v <= u64::MAX {
            Some(v)
        } else {
            None
        },
        None => None,
    }
}

proof fn lemma_digits_value_nonneg(s: Seq<char>)
    requires
        all_digits(s),
    ensures
        digits_value(s) >= 0,
    decreases s.len(),
{
    if s.len() > 0 {
        assert(is_digit(s[s.len() - 1]));
        assert(all_digits(s.drop_last())) by {
            assert forall|i: int| 0 <= i < s.drop_last().len() implies #[trigger] is_digit(
                s.drop_last()[i],
            ) by {
                assert(is_digit(s[i]));
            }
        }
        lemma_digits_value_nonneg(s.drop_last());
    }
}

proof fn lemma_unsigned_text_nonneg(s: Seq<char>)
    ensures
        integer_text_value(s, false) is Some ==> integer_text_value(s, false)->Some_0 >= 0,
{
    if s.len() > 0 && s[0] == '+' && all_digits(s.skip(1)) {
        lemma_digits_value_nonneg(s.skip(1));
    } else if s.len() > 0 && all_digits(s) {
        lemma_digits_value_nonneg(s);
    }
}

fn is_whitespace_char(c: char) -> (r: bool)
    ensures
        r == is_whitespace(c),
{
    ('\u{9}' <= c && c <= '\u{d}') || c == ' ' || c == '\u{85}' || c == '\u{a0}' || c
        == '\u{1680}' || ('\u{2000}' <= c && c <= '\u{200a}') || c == '\u{2028}' || c
        == '\u{2029}' || c == '\u{202f}' || c == '\u{205f}' || c == '\u{3000}'
}

/// How many characters of `s` remain once its trailing whitespace is cut.
fn trimmed_len(s: &str) -> (n: usize)
    ensures
        n <= s@.len(),
        s@.take(n as int) == trim_end(s@),
{
    let mut n = s.unicode_len();
    assert(s@.take(n as int) =~= s@);
    while n > 0 && is_whitespace_char(s.get_char(n - 1))
        invariant
            n <= s@.len(),
            trim_end(s@.take(n as int)) == trim_end(s@),
        decreases n,
    {
        assert(s@.take(n as int).drop_last() =~= s@.take(n - 1));
        n = n - 1;
    }
    n
}

/// Reads the first `n` characters of `s` as an integer; `None` where they are
/// not one or its magnitude exceeds `u64::MAX`.
fn parse_integer(s: &str, n: usize, signed: bool) -> (r: Option<i128>)
    requires
        n <= s@.len(),
    ensures
        match integer_text_value(s@.take(n as int), signed) {
            Some(v) => if -(u64::MAX as int) <= v <= u64::MAX {
                r == Some(v as i128)
            } else {
                r is None
            },
            None => r is None,
        },
        !signed && r is Some ==> r->Some_0 >= 0,
{
    let ghost t = s@.take(n as int);
    if n == 0 {
        return None;
    }
    let c0 = s.get_char(0);
    let start: usize = if c0 == '+' || (signed && c0 == '-') {
        1
    } else {
        0
    };
    if start == n {
        assert(t.skip(1).len() == 0);
        return None;
    }
    let mut i: usize = start;
    let mut mag: u128 = 0;
    assert(s@.subrange(start as int, start as int) =~= Seq::<char>::empty());
    while i < n
        invariant
            start <= i <= n,
            n <= s@.len(),
            start == 0 || start == 1,
            c0 == s@[0],
            start == 1 <==> (c0 == '+' || (signed && c0 == '-')),
            start < n,
            t == s@.take(n as int),
            all_digits(s@.subrange(start as int, i as int)),
            digits_value(s@.subrange(start as int, i as int)) <= u64::MAX ==> mag
                == digits_value(s@.subrange(start as int, i as int)),
            digits_value(s@.subrange(start as int, i as int)) > u64::MAX ==> mag == u64::MAX
                as u128 + 1,
        decreases n - i,
    {
        let c = s.get_char(i);
        let ghost prev = s@.subrange(start as int, i as int);
        let ghost next = s@.subrange(start as int, i + 1);
        assert(next.drop_last() =~= prev);
        assert(next.last() == c);
        if !('0' <= c && c <= '9') {
            let ghost body = s@.subrange(start as int, n as int);
            assert(body[i - start] == c);
            assert(!is_digit(body[i - start]));
            assert(!all_digits(body));
            if start == 1 {
                assert(t.skip(1) =~= body);
            } else {
                assert(t =~= body);
            }
            return None;
        }
        proof {
            lemma_digits_value_nonneg(prev);
        }
        let d = (c as u32 - '0' as u32) as u128;
        if mag <= u64::MAX as u128 {
            mag = mag * 10 + d;
            if mag > u64::MAX as u128 {
                mag = u64::MAX as u128 + 1;
            }
        }
        assert(all_digits(next)) by {
            assert forall|k: int| 0 <= k < next.len() implies #[trigger] is_digit(next[k]) by {
                if k < prev.len() {
                    assert(next[k] == prev[k]);
                }
            }
        }
        i = i + 1;
    }
    let ghost body = s@.subrange(start as int, n as int);
    if start == 1 {
        assert(t.skip(1) =~= body);
        assert(t[0] == c0);
    } else {
        assert(t =~= body);
    }
    if mag > u64::MAX as u128 {
        None
    } else if start == 1 && c0 == '-' {
        Some(-(mag as i128))
    } else {
        Some(mag as i128)
    }
}

/// Reads a sensor's text: a signed 32-bit integer, trailing whitespace
/// ignored.
pub fn parse_reading(text: &str) -> (r: Result<i32, ParseError>)
    ensures
        r == match reading_value(text@) {
            Some(v) => Ok::<i32, ParseError>(v as i32),
            None => Err(ParseError),
        },
{
    let n = trimmed_len(text);
    match parse_integer(text, n, true) {
        Some(v) => if i32::MIN as i128 <= v && v <= i32::MAX as i128 {
            Ok(v as i32)
        } else {
            Err(ParseError)
        },
        None => Err(ParseError),
    }
}

/// Reads a count of milliseconds: an unsigned 64-bit integer written in
/// decimal, with nothing around it.
pub fn parse_millis(val: &str) -> (r: Result<u64, ParseError>)
    ensures
        r == match millis_value(val@) {
            Some(v) => Ok::<u64, ParseError>(v as u64),
            None => Err(ParseError),
        },
{
    let n = val.unicode_len();
    assert(val@.take(n as int) =~= val@);
    proof {
        lemma_unsigned_text_nonneg(val@);
    }
    match parse_integer(val, n, false) {
        Some(v) => if 0 <= v && v <= u64::MAX as i128 {
            Ok(v as u64)
        } else {
            Err(ParseError)
        },
        None => Err(ParseError),
    }
}

/// The ASCII digit for `d < 10`.
pub open spec fn ascii_digit(d: int) -> u8 {
    (d + 48) as u8
}

/// The decimal digits of `n`, most significant first, without leading zeros.
pub open spec fn decimal(n: nat) -> Seq<u8>
    decreases n,
{
    if n < 10 {
        seq![ascii_digit(n as int)]
    } else {
        decimal(n / 10).push(ascii_digit(n as int % 10))
    }
}

/// Appends the decimal digits of `n` to `out`.
pub fn push_decimal(out: &mut Vec<u8>, n: u128)
    ensures
        final(out)@ == old(out)@ + decimal(n as nat),
    decreases n,
{
    if n >= 10 {
        push_decimal(out, n / 10);
    }
    out.push((n % 10) as u8 + 48);
    assert(out@ =~= old(out)@ + decimal(n as nat));
}

} // verus!
