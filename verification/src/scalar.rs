use vstd::prelude::*;
use crate::error::DecodeError;
use crate::text::to_chars;

verus! {

/// Whether `c` is one of the ASCII digits `0` to `9`.
pub open spec fn is_digit(c: char) -> bool {
    '0' <= c <= '9'
}

/// The number that an ASCII digit stands for.
pub open spec fn digit_value(c: char) -> int {
    c as int - '0' as int
}

/// Whether every character of `s` is an ASCII digit.
pub open spec fn all_digits(s: Seq<char>) -> bool {
    forall|i: int| 0 <= i < s.len() ==> is_digit(#[trigger] s[i])
}

/// The number written by a sequence of decimal digits, most significant first.
pub open spec fn digits_value(s: Seq<char>) -> int
    decreases s.len(),
{
    if s.len() == 0 {
        0
    } else {
        10 * digits_value(s.drop_last()) + digit_value(s.last())
    }
}

/// Whether `s` begins with a sign character.
pub open spec fn has_sign(s: Seq<char>) -> bool {
    s.len() > 0 && (s[0] == '-' || s[0] == '+')
}

/// The digits of `s`: everything after the optional sign.
pub open spec fn digits_of(s: Seq<char>) -> Seq<char> {
    if has_sign(s) {
        s.subrange(1, s.len() as int)
    } else {
        s
    }
}

/// The integer that `s` writes in base 10, with no bound on its size: an
/// optional `+` or `-`, then one or more digits and nothing else.
pub open spec fn decimal_integer(s: Seq<char>) -> Option<int> {
    let digits = digits_of(s);
    if digits.len() > 0 && all_digits(digits) {
        if s[0] == '-' {
            Some(-digits_value(digits))
        } else {
            Some(digits_value(digits))
        }
    } else {
        None
    }
}

/// The 64-bit signed integer that `s` writes, if it writes one that fits.
pub open spec fn integer_of_text(s: Seq<char>) -> Option<i64> {
    match decimal_integer(s) {
        Some(n) => if i64::MIN <= n <= i64::MAX {
            Some(n as i64)
        } else {
            None
        },
        None => None,
    }
}

/// Parses the whole of `text` as a base-10 signed 64-bit integer.
pub fn parse_integer(text: &str) -> (r: Option<i64>)
    ensures
        r == integer_of_text(text@),
{
    let chars = to_chars(text);
    let n: usize = chars.len();
    if n == 0 {
        return None;
    }
    let first: char = chars[0];
    let negative: bool = first == '-';
    let start: usize = if first == '-' || first == '+' { 1 } else { 0 };
    if start == n {
        return None;
    }
    let ghost digits = digits_of(text@);
    let limit: i128 = 9223372036854775808i128;
    let mut acc: i128 = 0;
    let mut over: bool = false;
    let mut i: usize = start;
    while i < n
        invariant
            start <= i <= n,
            n == text@.len(),
            chars@ == text@,
            digits == digits_of(text@),
            digits == text@.subrange(start as int, n as int),
            negative == (text@[0] == '-'),
            limit == 9223372036854775808i128,
            all_digits(digits.take(i - start)),
            over ==> digits_value(digits.take(i - start)) > limit,
            !over ==> acc == digits_value(digits.take(i - start)) && 0 <= acc <= limit,
        decreases n - i,
    {
        let c: char = chars[i];
        if !('0' <= c && c <= '9') {
            assert(digits[i - start] == c);
            return None;
        }
        let d: i128 = (c as u32 - '0' as u32) as i128;
        proof {
            let next = digits.take(i - start + 1);
            assert(next.drop_last() =~= digits.take(i - start));
            assert(next.last() == c);
            assert(d == digit_value(c));
        }
        if !over {
            acc = acc * 10 + d;
            if acc > limit {
                over = true;
            }
        }
        i += 1;
    }
    assert(digits.take(n - start) =~= digits);
    if over {
        None
    } else if negative {
        Some((-acc) as i64)
    } else if acc == limit {
        None
    } else {
        Some(acc as i64)
    }
}

/// The result of decoding an Integer payload from what parsing it gave.
pub open spec fn integer_result(parsed: Option<i64>) -> Result<i64, DecodeError> {
    match parsed {
        Some(n) => Ok(n),
        None => Err(DecodeError::NumericParseError),
    }
}

/// Decodes the text of an Integer payload: the integer it writes, or
/// `NumericParseError` where it writes none that fits in 64 bits.
pub fn decode_integer(text: &str) -> (r: Result<i64, DecodeError>)
    ensures
        r == integer_result(integer_of_text(text@)),
{
    match parse_integer(text) {
        Some(n) => Ok(n),
        None => Err(DecodeError::NumericParseError),
    }
}

/// The character that writes the digit `d`.
pub open spec fn digit_char(d: int) -> char
    recommends
        0 <= d <= 9,
{
    (d + 48) as u8 as char
}

/// The digits that write the natural number `m` in base 10, without
/// leading zeros.
pub open spec fn nat_digits(m: nat) -> Seq<char>
    decreases m,
{
    if m < 10 {
        seq![digit_char(m as int)]
    } else {
        nat_digits(m / 10).push(digit_char((m % 10) as int))
    }
}

/// The usual way to write the integer `n` in base 10: a `-` for a negative
/// number, then its digits.
pub open spec fn decimal_text(n: int) -> Seq<char> {
    if n < 0 {
        seq!['-'] + nat_digits((-n) as nat)
    } else {
        nat_digits(n as nat)
    }
}

/// The digits of a natural number are digits, at least one, and write it.
pub proof fn lemma_nat_digits(m: nat)
    ensures
        nat_digits(m).len() > 0,
        all_digits(nat_digits(m)),
        digits_value(nat_digits(m)) == m,
    decreases m,
{
    if m < 10 {
        let s = nat_digits(m);
        assert(s.drop_last() =~= Seq::<char>::empty());
        assert(digits_value(s.drop_last()) == 0);
        assert(s.last() == digit_char(m as int));
    } else {
        lemma_nat_digits(m / 10);
        let front = nat_digits(m / 10);
        let s = nat_digits(m);
        assert(s.drop_last() =~= front);
        assert(s.last() == digit_char((m % 10) as int));
        assert forall|i: int| 0 <= i < s.len() implies is_digit(#[trigger] s[i]) by {
            if i < front.len() {
                assert(s[i] == front[i]);
            }
        }
    }
}

/// Reading the usual decimal text of an integer gives that integer back,
/// where it fits in 64 bits, and nothing where it does not.
pub proof fn lemma_decimal_text_round_trip(n: int)
    ensures
        decimal_integer(decimal_text(n)) == Some(n),
        i64::MIN <= n <= i64::MAX ==> integer_of_text(decimal_text(n)) == Some(n as i64),
        !(i64::MIN <= n <= i64::MAX) ==> integer_of_text(decimal_text(n)).is_none(),
{
    let s = decimal_text(n);
    if n < 0 {
        lemma_nat_digits((-n) as nat);
        assert(s[0] == '-');
        assert(digits_of(s) =~= nat_digits((-n) as nat));
    } else {
        lemma_nat_digits(n as nat);
        assert(is_digit(s[0]));
        assert(digits_of(s) == s);
    }
}

/// Where the run of digits that begins at `from` ends: the index of the
/// first character at or after `from` that is no digit, or the length of `s`.
pub open spec fn digit_run_end(s: Seq<char>, from: int) -> int
    decreases s.len() - from,
{
    if 0 <= from < s.len() && is_digit(s[from]) {
        digit_run_end(s, from + 1)
    } else {
        from
    }
}

/// Finds the end of the run of digits that begins at `from`.
pub(crate) fn scan_digits(chars: &Vec<char>, from: usize) -> (r: usize)
    requires
        from <= chars@.len(),
    ensures
        r == digit_run_end(chars@, from as int),
        from <= r <= chars@.len(),
        all_digits(chars@.subrange(from as int, r as int)),
{
    let n: usize = chars.len();
    let mut i: usize = from;
    while i < n
        invariant
            from <= i <= n,
            n == chars@.len(),
            digit_run_end(chars@, from as int) == digit_run_end(chars@, i as int),
            all_digits(chars@.subrange(from as int, i as int)),
        decreases n - i,
    {
        let c: char = chars[i];
        if !('0' <= c && c <= '9') {
            return i;
        }
        assert forall|k: int| 0 <= k < i + 1 - from implies is_digit(
            #[trigger] chars@.subrange(from as int, i + 1)[k],
        ) by {
            if k < i - from {
                assert(chars@.subrange(from as int, i as int)[k] == chars@[from + k]);
            }
        }
        i += 1;
    }
    i
}

/// 1 where a sign character stands at index `at`, else 0.
pub open spec fn sign_len(s: Seq<char>, at: int) -> int {
    if 0 <= at < s.len() && (s[at] == '+' || s[at] == '-') {
        1
    } else {
        0
    }
}

/// Whether `c` is the lower-case ASCII letter `letter` or its upper case.
pub open spec fn same_letter(c: char, letter: char) -> bool {
    c == letter || c as int + 32 == letter as int
}

/// Whether `s` spells `inf`, `infinity` or `nan`, in any mix of cases.
pub open spec fn is_special_float(s: Seq<char>) -> bool {
    ||| (s.len() == 3 && same_letter(s[0], 'i') && same_letter(s[1], 'n') && same_letter(s[2], 'f'))
    ||| (s.len() == 3 && same_letter(s[0], 'n') && same_letter(s[1], 'a') && same_letter(s[2], 'n'))
    ||| (s.len() == 8 && same_letter(s[0], 'i') && same_letter(s[1], 'n') && same_letter(s[2], 'f')
        && same_letter(s[3], 'i') && same_letter(s[4], 'n') && same_letter(s[5], 'i')
        && same_letter(s[6], 't') && same_letter(s[7], 'y'))
}

/// Whether an exponent begins at index `at` and runs to the end of `s`: an
/// `e` or `E`, an optional sign, and one or more digits.
pub open spec fn is_exponent(s: Seq<char>, at: int) -> bool {
    let digits = at + 1 + sign_len(s, at + 1);
    0 <= at < s.len() && (s[at] == 'e' || s[at] == 'E') && digit_run_end(s, digits) > digits
        && digit_run_end(s, digits) == s.len()
}

/// Whether a decimal number begins at index `from` and runs to the end of
/// `s`: digits with an optional point among them, at least one digit in
/// all, and an optional exponent.
pub open spec fn is_decimal_number(s: Seq<char>, from: int) -> bool {
    let point = digit_run_end(s, from);
    let has_point = point < s.len() && s[point] == '.';
    let end = if has_point {
        digit_run_end(s, point + 1)
    } else {
        point
    };
    let digits = if has_point {
        end - from - 1
    } else {
        end - from
    };
    digits > 0 && (end == s.len() || is_exponent(s, end))
}

/// Whether `s` writes a floating-point number: an optional sign, then
/// either a decimal number or one of the words `inf`, `infinity`, `nan`.
pub open spec fn is_float_text(s: Seq<char>) -> bool {
    let from = sign_len(s, 0);
    is_special_float(s.subrange(from, s.len() as int)) || is_decimal_number(s, from)
}

fn letter_at(chars: &Vec<char>, at: usize, letter: char) -> (r: bool)
    requires
        at < chars@.len(),
        'a' <= letter <= 'z',
    ensures
        r == same_letter(chars@[at as int], letter),
{
    let c: char = chars[at];
    let upper: char = ((letter as u8) - 32) as char;
    c == letter || c == upper
}

fn special_float_at(chars: &Vec<char>, from: usize) -> (r: bool)
    requires
        from <= chars@.len(),
    ensures
        r == is_special_float(chars@.subrange(from as int, chars@.len() as int)),
{
    let n: usize = chars.len();
    let len: usize = n - from;
    let ghost s = chars@.subrange(from as int, n as int);
    if len == 3 {
        assert(s[0] == chars@[from + 0] && s[1] == chars@[from + 1] && s[2] == chars@[from + 2]);
        (letter_at(chars, from, 'i') && letter_at(chars, from + 1, 'n') && letter_at(chars,
            from + 2,
            'f',
        )) || (letter_at(chars, from, 'n') && letter_at(chars, from + 1, 'a') && letter_at(chars,
            from + 2,
            'n',
        ))
    } else if len == 8 {
        assert(s[0] == chars@[from + 0] && s[1] == chars@[from + 1] && s[2] == chars@[from + 2]
            && s[3] == chars@[from + 3] && s[4] == chars@[from + 4] && s[5] == chars@[from + 5]
            && s[6] == chars@[from + 6] && s[7] == chars@[from + 7]);
        letter_at(chars, from, 'i') && letter_at(chars, from + 1, 'n') && letter_at(chars, from + 2, 'f')
            && letter_at(chars, from + 3, 'i') && letter_at(chars, from + 4, 'n') && letter_at(chars,
            from + 5,
            'i',
        ) && letter_at(chars, from + 6, 't') && letter_at(chars, from + 7, 'y')
    } else {
        false
    }
}

fn sign_at(chars: &Vec<char>, at: usize) -> (r: usize)
    ensures
        r == sign_len(chars@, at as int),
{
    if at < chars.len() {
        let c: char = chars[at];
        if c == '+' || c == '-' {
            1
        } else {
            0
        }
    } else {
        0
    }
}

fn exponent_at(chars: &Vec<char>, at: usize) -> (r: bool)
    requires
        at < chars@.len(),
    ensures
        r == is_exponent(chars@, at as int),
{
    let n: usize = chars.len();
    let c: char = chars[at];
    if c == 'e' || c == 'E' {
        let digits: usize = at + 1 + sign_at(chars, at + 1);
        let end: usize = scan_digits(chars, digits);
        end > digits && end == n
    } else {
        false
    }
}

fn decimal_number_at(chars: &Vec<char>, from: usize) -> (r: bool)
    requires
        from <= chars@.len(),
    ensures
        r == is_decimal_number(chars@, from as int),
{
    let n: usize = chars.len();
    let point: usize = scan_digits(chars, from);
    let has_point: bool = point < n && chars[point] == '.';
    let end: usize = if has_point { scan_digits(chars, point + 1) } else { point };
    let digits: usize = if has_point { end - from - 1 } else { end - from };
    digits > 0 && (end == n || exponent_at(chars, end))
}

/// Whether `text` writes a floating-point number.
pub fn check_float(text: &str) -> (r: bool)
    ensures
        r == is_float_text(text@),
{
    let chars = to_chars(text);
    let from: usize = sign_at(&chars, 0);
    special_float_at(&chars, from) || decimal_number_at(&chars, from)
}

/// The result of decoding a Float payload: its text where that writes a
/// floating-point number.
pub open spec fn float_result(s: Seq<char>) -> Result<Seq<char>, DecodeError> {
    if is_float_text(s) {
        Ok(s)
    } else {
        Err(DecodeError::NumericParseError)
    }
}

} // verus!
