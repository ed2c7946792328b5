//! Character classes and the token scanners the parser is built from.
use vstd::prelude::*;

verus! {

/// The sets of characters that a run of input may be made of.
#[derive(Clone, Copy, PartialEq, Eq, Debug)]
pub enum CharClass {
    /// Spaces, tabs and line breaks.
    Space,
    /// Spaces and tabs only.
    InlineSpace,
    /// Letters, digits and `_`.
    Ident,
    /// What a bare word may hold: identifier characters and `.`.
    Word,
    /// Decimal digits.
    Digit,
    /// Anything but a single quote.
    NotQuote,
    /// Anything but a double quote.
    NotDoubleQuote,
}

pub open spec fn is_alpha(c: char) -> bool {
    ('a' <= c && c <= 'z') || ('A' <= c && c <= 'Z')
}

pub open spec fn is_digit(c: char) -> bool {
    '0' <= c && c <= '9'
}

pub open spec fn is_ident_start(c: char) -> bool {
    is_alpha(c) || c == '_'
}

pub open spec fn is_ident_char(c: char) -> bool {
    is_ident_start(c) || is_digit(c)
}

pub open spec fn in_class(k: CharClass, c: char) -> bool {
    match k {
        CharClass::Space => c == ' ' || c == '\t' || c == '\r' || c == '\n',
        CharClass::InlineSpace => c == ' ' || c == '\t',
        CharClass::Ident => is_ident_char(c),
        CharClass::Word => is_ident_char(c) || c == '.',
        CharClass::Digit => is_digit(c),
        CharClass::NotQuote => c != '\'',
        CharClass::NotDoubleQuote => c != '"',
    }
}

/// The end of the longest run of characters of class `k` that starts at `i`.
pub open spec fn span_end(s: Seq<char>, i: int, k: CharClass) -> int
    decreases s.len() - i,
{
    if 0 <= i < s.len() && in_class(k, s[i]) {
        span_end(s, i + 1, k)
    } else {
        i
    }
}

pub proof fn lemma_span_end_bounds(s: Seq<char>, i: int, k: CharClass)
    requires
        0 <= i <= s.len(),
    ensures
        i <= span_end(s, i, k) <= s.len(),
        forall|j: int| i <= j < span_end(s, i, k) ==> in_class(k, #[trigger] s[j]),
        span_end(s, i, k) < s.len() ==> !in_class(k, s[span_end(s, i, k)]),
    decreases s.len() - i,
{
    if i < s.len() && in_class(k, s[i]) {
        lemma_span_end_bounds(s, i + 1, k);
    }
}

pub proof fn lemma_span_end_nonempty(s: Seq<char>, i: int, k: CharClass)
    requires
        0 <= i < s.len(),
        in_class(k, s[i]),
    ensures
        i < span_end(s, i, k) <= s.len(),
{
    lemma_span_end_bounds(s, i + 1, k);
}

pub fn char_in_class(k: CharClass, c: char) -> (r: bool)
    ensures
        r == in_class(k, c),
{
    match k {
        CharClass::Space => c == ' ' || c == '\t' || c == '\r' || c == '\n',
        CharClass::InlineSpace => c == ' ' || c == '\t',
        CharClass::Ident => is_ident_char_exec(c),
        CharClass::Word => is_ident_char_exec(c) || c == '.',
        CharClass::Digit => '0' <= c && c <= '9',
        CharClass::NotQuote => c != '\'',
        CharClass::NotDoubleQuote => c != '"',
    }
}

pub fn is_ident_start_exec(c: char) -> (r: bool)
    ensures
        r == is_ident_start(c),
{
    ('a' <= c && c <= 'z') || ('A' <= c && c <= 'Z') || c == '_'
}

pub fn is_ident_char_exec(c: char) -> (r: bool)
    ensures
        r == is_ident_char(c),
{
    is_ident_start_exec(c) || ('0' <= c && c <= '9')
}

/// Skips the run of characters of class `k` that starts at `i`.
pub fn scan(s: &Vec<char>, i: usize, k: CharClass) -> (r: usize)
    requires
        i <= s@.len(),
    ensures
        r == span_end(s@, i as int, k),
        i <= r <= s@.len(),
{
    proof {
        lemma_span_end_bounds(s@, i as int, k);
    }
    let mut j = i;
    while j < s.len() && char_in_class(k, s[j])
        invariant
            i <= j <= s@.len(),
            span_end(s@, j as int, k) == span_end(s@, i as int, k),
        decreases s@.len() - j,
    {
        j = j + 1;
    }
    j
}

/// The end of an optional `+` or `-` at `i`.
pub open spec fn sign_end(s: Seq<char>, i: int) -> int {
    if 0 <= i < s.len() && (s[i] == '+' || s[i] == '-') {
        i + 1
    } else {
        i
    }
}

/// The end of the digits of a number at `i`, before any fraction.
pub open spec fn int_part_end(s: Seq<char>, i: int) -> int {
    span_end(s, sign_end(s, i), CharClass::Digit)
}

/// The end of the fraction, if any, that follows the integer part.
pub open spec fn fraction_end(s: Seq<char>, i: int) -> int {
    let b = int_part_end(s, i);
    if 0 <= b < s.len() && s[b] == '.' {
        span_end(s, b + 1, CharClass::Digit)
    } else {
        b
    }
}

/// The end of a number at `i`: an optional sign, digits, an optional
/// fraction and an optional exponent (taken only where digits follow it).
pub open spec fn number_end(s: Seq<char>, i: int) -> int {
    let c = fraction_end(s, i);
    if 0 <= c < s.len() && (s[c] == 'e' || s[c] == 'E') {
        let d = sign_end(s, c + 1);
        let e = span_end(s, d, CharClass::Digit);
        if e > d {
            e
        } else {
            c
        }
    } else {
        c
    }
}

/// A number starts at `i`: its integer part has at least one digit.
pub open spec fn has_number(s: Seq<char>, i: int) -> bool {
    int_part_end(s, i) > sign_end(s, i)
}

/// The number at `i` is written as an integer: no fraction and no exponent.
pub open spec fn number_is_int(s: Seq<char>, i: int) -> bool {
    number_end(s, i) == int_part_end(s, i)
}

/// Scans a number at `i`; returns its end, or `None` where no number starts there.
pub fn scan_number(s: &Vec<char>, i: usize) -> (r: Option<usize>)
    requires
        i <= s@.len(),
    ensures
        r is Some <==> has_number(s@, i as int),
        r matches Some(e) ==> e == number_end(s@, i as int) && i < e <= s@.len(),
{
    let a = if i < s.len() && (s[i] == '+' || s[i] == '-') {
        i + 1
    } else {
        i
    };
    let b = scan(s, a, CharClass::Digit);
    if b == a {
        return None;
    }
    let c = if b < s.len() && s[b] == '.' {
        scan(s, b + 1, CharClass::Digit)
    } else {
        b
    };
    if c < s.len() && (s[c] == 'e' || s[c] == 'E') {
        let d = if c + 1 < s.len() && (s[c + 1] == '+' || s[c + 1] == '-') {
            c + 2
        } else {
            c + 1
        };
        let e = scan(s, d, CharClass::Digit);
        if e > d {
            Some(e)
        } else {
            Some(c)
        }
    } else {
        Some(c)
    }
}

/// The value of a run of decimal digits.
pub open spec fn digits_value(d: Seq<char>) -> int
    decreases d.len(),
{
    if d.len() == 0 {
        0
    } else {
        10 * digits_value(d.drop_last()) + (d.last() as int - '0' as int)
    }
}

/// The value of the integer written from `i` to `j`: an optional sign, then digits.
pub open spec fn int_value(s: Seq<char>, i: int, j: int) -> int {
    let d = digits_value(s.subrange(sign_end(s, i), j));
    if s[i] == '-' {
        -d
    } else {
        d
    }
}

proof fn lemma_digits_value_nonneg(d: Seq<char>)
    requires
        forall|k: int| 0 <= k < d.len() ==> is_digit(#[trigger] d[k]),
    ensures
        digits_value(d) >= 0,
    decreases d.len(),
{
    if d.len() > 0 {
        lemma_digits_value_nonneg(d.drop_last());
    }
}

/// Reads the integer written from `i` to `j`; `None` where it does not fit in an `i32`.
pub fn read_int(s: &Vec<char>, i: usize, j: usize) -> (r: Option<i32>)
    requires
        i < j <= s@.len(),
        sign_end(s@, i as int) < j,
        forall|k: int| sign_end(s@, i as int) <= k < j ==> is_digit(#[trigger] s@[k]),
    ensures
        r is Some <==> i32::MIN <= int_value(s@, i as int, j as int) <= i32::MAX,
        r matches Some(v) ==> v as int == int_value(s@, i as int, j as int),
{
    let neg = s[i] == '-';
    let a = if s[i] == '+' || s[i] == '-' {
        i + 1
    } else {
        i
    };
    let limit: u64 = if neg {
        2147483648
    } else {
        2147483647
    };
    let mut acc: u64 = 0;
    let mut k = a;
    while k < j
        invariant
            a <= k <= j,
            j <= s@.len(),
            a as int == sign_end(s@, i as int),
            forall|m: int| a <= m < j ==> is_digit(#[trigger] s@[m]),
            0 <= acc <= limit,
            limit == if neg { 2147483648u64 } else { 2147483647u64 },
            neg == (s@[i as int] == '-'),
            acc as int == digits_value(s@.subrange(a as int, k as int)),
        decreases j - k,
    {
        let digit = (s[k] as u32 - '0' as u32) as u64;
        assert(s@.subrange(a as int, k + 1).drop_last() == s@.subrange(a as int, k as int));
        assert(0 <= digit <= 9);
        let bound = (limit - digit) / 10;
        if acc > bound {
            assert(acc * 10 + digit > limit) by (nonlinear_arith)
                requires
                    acc > bound,
                    bound == (limit - digit) / 10,
                    0 <= digit <= 9,
                    limit >= 0,
            ;
            proof {
                let full = s@.subrange(a as int, j as int);
                assert forall|m: int| 0 <= m < full.len() implies is_digit(#[trigger] full[m]) by {
                    assert(full[m] == s@[a + m]);
                }
                lemma_digits_value_prefix_grows(full, (k + 1 - a) as int);
                assert(full.subrange(0, (k + 1 - a) as int) == s@.subrange(a as int, k + 1));
                assert(digits_value(s@.subrange(a as int, k + 1)) == acc * 10 + digit);
            }
            return None;
        }
        assert(acc * 10 + digit <= limit) by (nonlinear_arith)
            requires
                acc <= bound,
                bound == (limit - digit) / 10,
                0 <= digit <= 9,
                limit >= 0,
        ;
        acc = acc * 10 + digit;
        k = k + 1;
    }
    if neg {
        Some((-(acc as i64)) as i32)
    } else {
        Some(acc as i32)
    }
}

/// A longer run of digits is worth at least as much as its prefix.
proof fn lemma_digits_value_prefix_grows(d: Seq<char>, n: int)
    requires
        0 <= n <= d.len(),
        forall|k: int| 0 <= k < d.len() ==> is_digit(#[trigger] d[k]),
    ensures
        digits_value(d) >= digits_value(d.subrange(0, n)),
    decreases d.len() - n,
{
    if n < d.len() {
        lemma_digits_value_prefix_grows(d, n + 1);
        let p = d.subrange(0, n + 1);
        assert(p.drop_last() == d.subrange(0, n));
        lemma_digits_value_nonneg(d.subrange(0, n));
    } else {
        assert(d.subrange(0, n) == d);
    }
}

} // verus!
