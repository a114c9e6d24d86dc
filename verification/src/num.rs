//! Decimal, hexadecimal and octal rendering of integers, and the parsing of
//! decimal integers as std's `FromStr` for integer types accepts them.
use vstd::prelude::*;
use crate::text::string_from_chars;

verus! {

// ---------------------------------------------------------------------------
// Rendering
// ---------------------------------------------------------------------------

/// The digit character for `d` in bases up to 16 (lower-case letters).
pub open spec fn digit_char(d: nat) -> char {
    if d < 10 {
        (48 + d) as char
    } else {
        (87 + d) as char
    }
}

/// The digits of `n` in base `b`, most significant first, without leading
/// zeros (`"0"` for zero).
pub open spec fn radix_str(n: nat, b: nat) -> Seq<char>
    recommends
        2 <= b <= 16,
    decreases n,
{
    if b < 2 || n < b {
        seq![digit_char(n % 16)]
    } else {
        proof {
            assert(n / b < n) by (nonlinear_arith)
                requires
                    b >= 2,
                    n >= b,
            ;
        }
        radix_str(n / b, b).push(digit_char(n % b))
    }
}

/// Decimal rendering of `n`.
pub open spec fn dec_str(n: nat) -> Seq<char> {
    radix_str(n, 10)
}

/// Reading a decimal rendering back gives the number, and the rendering is
/// all digits.
pub proof fn lemma_dec_str_value(n: nat)
    ensures
        digits_value(dec_str(n)) == n,
        forall|i: int| 0 <= i < dec_str(n).len() ==> '0' <= #[trigger] dec_str(n)[i] <= '9',
    decreases n,
{
    let s = dec_str(n);
    if n < 10 {
        assert(s == seq![digit_char(n)]);
        assert(s.drop_last() =~= Seq::<char>::empty());
        assert(digit_val(digit_char(n)) == n);
        assert(digits_value(s) == digits_value(s.drop_last()) * 10 + digit_val(s.last()));
    } else {
        let q = n / 10;
        let r = n % 10;
        lemma_dec_str_value(q);
        assert(s == dec_str(q).push(digit_char(r)));
        assert(s.drop_last() =~= dec_str(q));
        assert(s.last() == digit_char(r));
        assert(digit_val(digit_char(r)) == r);
        assert(digits_value(s) == digits_value(s.drop_last()) * 10 + digit_val(s.last()));
        assert(n == q * 10 + r);
        assert forall|i: int| 0 <= i < s.len() implies '0' <= #[trigger] s[i] <= '9' by {
            if i < s.len() - 1 {
                assert(s[i] == dec_str(q)[i]);
            }
        }
    }
}

/// Different numbers have different decimal renderings.
pub proof fn lemma_dec_str_injective(a: nat, b: nat)
    requires
        a != b,
    ensures
        dec_str(a) != dec_str(b),
{
    lemma_dec_str_value(a);
    lemma_dec_str_value(b);
}

/// Decimal rendering of a signed integer, with a leading `-` when negative.
pub open spec fn int_str(n: int) -> Seq<char> {
    if n < 0 {
        seq!['-'] + dec_str((-n) as nat)
    } else {
        dec_str(n as nat)
    }
}

/// `s` padded on the left with `'0'` up to `width` characters.
pub open spec fn zero_pad(s: Seq<char>, width: nat) -> Seq<char> {
    if s.len() >= width {
        s
    } else {
        Seq::new((width - s.len()) as nat, |i: int| '0') + s
    }
}

fn digit_exec(d: u64) -> (c: char)
    requires
        d < 16,
    ensures
        c == digit_char(d as nat),
{
    if d < 10 {
        let b: u8 = 48u8 + d as u8;
        b as char
    } else {
        let b: u8 = 87u8 + d as u8;
        b as char
    }
}

/// The digits of `n` in base `b`.
pub fn render_radix(n: u64, b: u64) -> (s: Vec<char>)
    requires
        2 <= b <= 16,
    ensures
        s@ == radix_str(n as nat, b as nat),
    decreases n,
{
    if n < b {
        let mut v: Vec<char> = Vec::new();
        v.push(digit_exec(n));
        assert(n % 16 == n);
        assert(v@ =~= radix_str(n as nat, b as nat));
        v
    } else {
        proof {
            assert(n / b < n) by (nonlinear_arith)
                requires
                    b >= 2,
                    n >= b,
            ;
        }
        let mut v = render_radix(n / b, b);
        v.push(digit_exec(n % b));
        v
    }
}

/// Decimal rendering of `n`.
pub fn fmt_u64(n: u64) -> (s: String)
    ensures
        s@ == dec_str(n as nat),
{
    let v = render_radix(n, 10);
    string_from_chars(&v)
}

/// Decimal rendering of `n`.
pub fn fmt_usize(n: usize) -> (s: String)
    ensures
        s@ == dec_str(n as nat),
{
    fmt_u64(n as u64)
}

/// Decimal rendering of `n` with a leading `-` when negative.
pub fn fmt_i64(n: i64) -> (s: String)
    ensures
        s@ == int_str(n as int),
{
    if n < 0 {
        let m: u64 = if n == i64::MIN {
            9223372036854775808u64
        } else {
            (-n) as u64
        };
        let mut v: Vec<char> = Vec::new();
        v.push('-');
        let mut d = render_radix(m, 10);
        v.append(&mut d);
        assert(v@ =~= int_str(n as int));
        string_from_chars(&v)
    } else {
        fmt_u64(n as u64)
    }
}

/// `v` padded on the left with `'0'` up to `width` characters.
pub fn pad_zeros(v: &Vec<char>, width: usize) -> (r: Vec<char>)
    ensures
        r@ == zero_pad(v@, width as nat),
{
    let mut r: Vec<char> = Vec::new();
    if v.len() < width {
        let fill = width - v.len();
        let mut i: usize = 0;
        while i < fill
            invariant
                i <= fill,
                r@ == Seq::new(i as nat, |k: int| '0'),
            decreases fill - i,
        {
            r.push('0');
            i = i + 1;
            assert(r@ =~= Seq::new(i as nat, |k: int| '0'));
        }
    }
    let mut i: usize = 0;
    let ghost start = r@;
    while i < v.len()
        invariant
            i <= v.len(),
            r@ == start + v@.subrange(0, i as int),
        decreases v.len() - i,
    {
        r.push(v[i]);
        i = i + 1;
        assert(r@ =~= start + v@.subrange(0, i as int));
    }
    assert(v@.subrange(0, v.len() as int) =~= v@);
    assert(r@ =~= zero_pad(v@, width as nat));
    r
}

// ---------------------------------------------------------------------------
// Parsing
// ---------------------------------------------------------------------------

pub open spec fn is_digit(c: char) -> bool {
    '0' <= c && c <= '9'
}

pub open spec fn digit_val(c: char) -> nat {
    ((c as u32) - 48) as nat
}

/// Every character of `s` is an ASCII decimal digit.
pub open spec fn all_digits(s: Seq<char>) -> bool {
    forall|i: int| 0 <= i < s.len() ==> is_digit(#[trigger] s[i])
}

/// The value of a string of decimal digits.
pub open spec fn digits_value(s: Seq<char>) -> nat
    decreases s.len(),
{
    if s.len() == 0 {
        0
    } else {
        digits_value(s.drop_last()) * 10 + digit_val(s.last())
    }
}

/// The digits after an optional leading `+`.
pub open spec fn unsigned_body(s: Seq<char>) -> Seq<char> {
    if s.len() > 0 && s[0] == '+' {
        s.subrange(1, s.len() as int)
    } else {
        s
    }
}

/// The number that std's `FromStr` for an unsigned integer type reads from `s`
/// when the type is wide enough: an optional `+` followed by one or more
/// decimal digits.
pub open spec fn unsigned_value(s: Seq<char>) -> Option<nat> {
    let body = unsigned_body(s);
    if body.len() > 0 && all_digits(body) {
        Some(digits_value(body))
    } else {
        None
    }
}

/// The number that std's `FromStr` for a signed integer type reads from `s`
/// when the type is wide enough: an optional `+` or `-` followed by one or more
/// decimal digits.
pub open spec fn signed_value(s: Seq<char>) -> Option<int> {
    if s.len() > 0 && s[0] == '-' {
        let body = s.subrange(1, s.len() as int);
        if body.len() > 0 && all_digits(body) {
            Some(-(digits_value(body) as int))
        } else {
            None
        }
    } else {
        match unsigned_value(s) {
            Some(v) => Some(v as int),
            None => None,
        }
    }
}

/// What `s.parse::<u64>()` gives: the value when it is in range.
pub open spec fn parse_u64_spec(s: Seq<char>) -> Option<u64> {
    match unsigned_value(s) {
        Some(v) => if v <= u64::MAX {
            Some(v as u64)
        } else {
            None
        },
        None => None,
    }
}

/// What `s.parse::<usize>()` gives.
pub open spec fn parse_usize_spec(s: Seq<char>) -> Option<usize> {
    match unsigned_value(s) {
        Some(v) => if v <= usize::MAX {
            Some(v as usize)
        } else {
            None
        },
        None => None,
    }
}

/// What `s.parse::<i64>()` gives.
pub open spec fn parse_i64_spec(s: Seq<char>) -> Option<i64> {
    match signed_value(s) {
        Some(v) => if i64::MIN <= v <= i64::MAX {
            Some(v as i64)
        } else {
            None
        },
        None => None,
    }
}

proof fn lemma_digits_value_mono(s: Seq<char>, i: int)
    requires
        0 <= i <= s.len(),
    ensures
        digits_value(s.subrange(0, i)) <= digits_value(s),
    decreases s.len() - i,
{
    if i < s.len() {
        lemma_digits_value_mono(s, i + 1);
        assert(s.subrange(0, i + 1).drop_last() =~= s.subrange(0, i));
    } else {
        assert(s.subrange(0, i) =~= s);
    }
}

/// Reads the digits `s[lo..]` as a number no larger than `max`.
fn read_digits(s: &[char], lo: usize, max: u64) -> (r: Option<u64>)
    requires
        lo <= s@.len(),
        max >= 9,
    ensures
        ({
            let body = s@.subrange(lo as int, s@.len() as int);
            match r {
                Some(v) => body.len() > 0 && all_digits(body) && digits_value(body) == v && v
                    <= max,
                None => !(body.len() > 0 && all_digits(body) && digits_value(body) <= max),
            }
        }),
{
    let ghost body = s@.subrange(lo as int, s@.len() as int);
    if lo == s.len() {
        return None;
    }
    let mut acc: u64 = 0;
    let mut i: usize = lo;
    while i < s.len()
        invariant
            lo <= i <= s@.len(),
            body == s@.subrange(lo as int, s@.len() as int),
            all_digits(s@.subrange(lo as int, i as int)),
            acc == digits_value(s@.subrange(lo as int, i as int)),
            acc <= max,
            max >= 9,
        decreases s.len() - i,
    {
        let c = s[i];
        if !('0' <= c && c <= '9') {
            proof {
                assert(body[i - lo] == c);
            }
            return None;
        }
        let d: u64 = (c as u32 - 48u32) as u64;
        assert(d <= 9);
        let ghost prev = s@.subrange(lo as int, i as int);
        proof {
            assert(s@.subrange(lo as int, i + 1).drop_last() =~= prev);
            assert(s@.subrange(lo as int, i + 1).last() == c);
        }
        if acc > (max - d) / 10 {
            proof {
                assert(acc * 10 + d > max) by (nonlinear_arith)
                    requires
                        acc > (max - d) / 10,
                        d <= 9,
                        d <= max || true,
                ;
                assert(all_digits(s@.subrange(lo as int, i + 1)));
                lemma_digits_value_mono(body, i + 1 - lo);
                assert(body.subrange(0, i + 1 - lo) =~= s@.subrange(lo as int, i + 1));
            }
            return None;
        }
        proof {
            assert(acc * 10 + d <= max) by (nonlinear_arith)
                requires
                    acc <= (max - d) / 10,
                    d <= max,
            ;
            assert(all_digits(s@.subrange(lo as int, i + 1)));
        }
        acc = acc * 10 + d;
        i = i + 1;
    }
    assert(s@.subrange(lo as int, i as int) =~= body);
    Some(acc)
}

/// `s.parse::<u64>()`.
pub fn parse_u64(s: &[char]) -> (r: Option<u64>)
    ensures
        r == parse_u64_spec(s@),
{
    let lo: usize = if s.len() > 0 && s[0] == '+' {
        1
    } else {
        0
    };
    proof {
        if lo == 0 {
            assert(s@.subrange(0, s@.len() as int) =~= s@);
        }
    }
    read_digits(s, lo, u64::MAX)
}

/// `s.parse::<usize>()`.
pub fn parse_usize(s: &[char]) -> (r: Option<usize>)
    ensures
        r == parse_usize_spec(s@),
{
    let lo: usize = if s.len() > 0 && s[0] == '+' {
        1
    } else {
        0
    };
    proof {
        if lo == 0 {
            assert(s@.subrange(0, s@.len() as int) =~= s@);
        }
    }
    match read_digits(s, lo, usize::MAX as u64) {
        Some(v) => Some(v as usize),
        None => None,
    }
}

/// `s.parse::<i64>()`.
pub fn parse_i64(s: &[char]) -> (r: Option<i64>)
    ensures
        r == parse_i64_spec(s@),
{
    if s.len() > 0 && s[0] == '-' {
        match read_digits(s, 1, 9223372036854775808u64) {
            Some(v) => {
                if v == 9223372036854775808u64 {
                    Some(i64::MIN)
                } else {
                    Some(-(v as i64))
                }
            },
            None => None,
        }
    } else {
        let lo: usize = if s.len() > 0 && s[0] == '+' {
            1
        } else {
            0
        };
        proof {
            if lo == 0 {
                assert(s@.subrange(0, s@.len() as int) =~= s@);
            }
        }
        match read_digits(s, lo, i64::MAX as u64) {
            Some(v) => Some(v as i64),
            None => None,
        }
    }
}

// ---------------------------------------------------------------------------
// Parsing with std's error kinds
// ---------------------------------------------------------------------------

/// Why std's `FromStr` for an integer type rejected a text.
#[derive(Debug, Clone, Copy, PartialEq, Eq, Structural)]
pub enum IntErrorKind {
    Empty,
    InvalidDigit,
    PosOverflow,
    NegOverflow,
}

/// The `Display` text of a `ParseIntError` of the given kind.
pub open spec fn int_error_text(k: IntErrorKind) -> Seq<char> {
    match k {
        IntErrorKind::Empty => "cannot parse integer from empty string"@,
        IntErrorKind::InvalidDigit => "invalid digit found in string"@,
        IntErrorKind::PosOverflow => "number too large to fit in target type"@,
        IntErrorKind::NegOverflow => "number too small to fit in target type"@,
    }
}

/// The `Display` text of a `ParseIntError` of the given kind.
pub fn int_error_message(k: IntErrorKind) -> (r: String)
    ensures
        r@ == int_error_text(k),
{
    match k {
        IntErrorKind::Empty => crate::text::owned("cannot parse integer from empty string"),
        IntErrorKind::InvalidDigit => crate::text::owned("invalid digit found in string"),
        IntErrorKind::PosOverflow => crate::text::owned("number too large to fit in target type"),
        IntErrorKind::NegOverflow => crate::text::owned("number too small to fit in target type"),
    }
}

/// Digits of `body` from position `i` on, accumulated into `acc` as std does
/// it: each character is first checked to be a digit, then the value is
/// multiplied by ten and the digit added (subtracted when negative), failing
/// as soon as the value leaves `[lo, hi]`.
pub open spec fn scan_digits(body: Seq<char>, i: nat, acc: int, neg: bool, lo: int, hi: int) -> Result<int, IntErrorKind>
    decreases body.len() - i,
{
    if i >= body.len() {
        Ok(acc)
    } else if !is_digit(body[i as int]) {
        Err(IntErrorKind::InvalidDigit)
    } else {
        let next = if neg {
            acc * 10 - digit_val(body[i as int])
        } else {
            acc * 10 + digit_val(body[i as int])
        };
        if next < lo {
            Err(IntErrorKind::NegOverflow)
        } else if next > hi {
            Err(IntErrorKind::PosOverflow)
        } else {
            scan_digits(body, i + 1, next, neg, lo, hi)
        }
    }
}

/// What std's `FromStr` for an integer type with range `[lo, hi]` gives for
/// `s` (`signed` tells whether a leading `-` is a sign).
pub open spec fn int_from_str(s: Seq<char>, signed: bool, lo: int, hi: int) -> Result<int, IntErrorKind> {
    if s.len() == 0 {
        Err(IntErrorKind::Empty)
    } else if (s[0] == '+' || (signed && s[0] == '-')) && s.len() == 1 {
        Err(IntErrorKind::InvalidDigit)
    } else if s[0] == '+' {
        scan_digits(s.subrange(1, s.len() as int), 0, 0, false, lo, hi)
    } else if signed && s[0] == '-' {
        scan_digits(s.subrange(1, s.len() as int), 0, 0, true, lo, hi)
    } else {
        scan_digits(s, 0, 0, false, lo, hi)
    }
}

/// `s.parse()` for an integer type with range `[lo, hi]` (which holds 0).
pub fn parse_int(s: &[char], signed: bool, lo: i128, hi: i128) -> (r: Result<i128, IntErrorKind>)
    requires
        -18446744073709551616 <= lo <= 0 <= hi <= 18446744073709551616,
    ensures
        match int_from_str(s@, signed, lo as int, hi as int) {
            Ok(v) => r matches Ok(x) && x as int == v,
            Err(k) => r == Err::<i128, IntErrorKind>(k),
        },
        r matches Ok(x) ==> lo <= x <= hi,
{
    if s.len() == 0 {
        return Err(IntErrorKind::Empty);
    }
    if (s[0] == '+' || (signed && s[0] == '-')) && s.len() == 1 {
        return Err(IntErrorKind::InvalidDigit);
    }
    let neg = signed && s[0] == '-';
    let start: usize = if s[0] == '+' || neg {
        1
    } else {
        0
    };
    let ghost body = s@.subrange(start as int, s@.len() as int);
    proof {
        if start == 0 {
            assert(body =~= s@);
        }
    }
    assert(int_from_str(s@, signed, lo as int, hi as int) == scan_digits(body, 0, 0, neg, lo as int, hi as int));
    let mut acc: i128 = 0;
    let mut i: usize = start;
    while i < s.len()
        invariant
            start <= i <= s@.len(),
            body == s@.subrange(start as int, s@.len() as int),
            -18446744073709551616 <= lo <= 0 <= hi <= 18446744073709551616,
            lo <= acc <= hi,
            int_from_str(s@, signed, lo as int, hi as int) == scan_digits(body, 0, 0, neg, lo as int, hi as int),
            scan_digits(body, 0, 0, neg, lo as int, hi as int) == scan_digits(
                body,
                (i - start) as nat,
                acc as int,
                neg,
                lo as int,
                hi as int,
            ),
        decreases s.len() - i,
    {
        let c = s[i];
        assert(body[(i - start) as int] == c);
        if !('0' <= c && c <= '9') {
            return Err(IntErrorKind::InvalidDigit);
        }
        let d: i128 = (c as u32 - 48u32) as i128;
        assert(d <= 9);
        let next: i128 = if neg {
            acc * 10 - d
        } else {
            acc * 10 + d
        };
        if next < lo {
            return Err(IntErrorKind::NegOverflow);
        }
        if next > hi {
            return Err(IntErrorKind::PosOverflow);
        }
        acc = next;
        i = i + 1;
    }
    Ok(acc)
}

} // verus!
