use vstd::prelude::*;
use chrono::Datelike;
use chrono::Timelike;
use crate::error::DecodeError;
use crate::text::to_chars;
use crate::scalar::{
    all_digits, digit_run_end, digit_value, digits_value, is_digit, scan_digits,
};

verus! {

/// A calendar date.
#[derive(Clone, Copy, Debug, PartialEq, Eq, Structural)]
pub struct Date {
    pub year: i32,
    pub month: u32,
    pub day: u32,
}

/// A time of day. A leap second is the second 59 with a nanosecond of one
/// billion or more.
#[derive(Clone, Copy, Debug, PartialEq, Eq, Structural)]
pub struct Time {
    pub hour: u32,
    pub minute: u32,
    pub second: u32,
    pub nanosecond: u32,
}

/// A date and a time of day, with no offset from UTC.
#[derive(Clone, Copy, Debug, PartialEq, Eq, Structural)]
pub struct DateTime {
    pub date: Date,
    pub time: Time,
}

/// A date and a time of day as a clock at a fixed offset from UTC shows
/// them, together with that offset in seconds (east of UTC is positive).
#[derive(Clone, Copy, Debug, PartialEq, Eq, Structural)]
pub struct ZoneDateTime {
    pub local: DateTime,
    pub offset_seconds: i32,
}

/// An elapsed span of time: whole months, whole days and whole seconds.
/// A year counts as twelve months and a week as seven days; hours and
/// minutes are counted in seconds.
#[derive(Clone, Copy, Debug, PartialEq, Eq, Structural)]
pub struct Duration {
    pub months: u64,
    pub days: u64,
    pub seconds: u64,
}

impl Date {
    /// The month is one of the twelve and the day lies between 1 and 31.
    pub open spec fn well_formed(self) -> bool {
        1 <= self.month <= 12 && 1 <= self.day <= 31
    }
}

impl Time {
    /// The fields lie in the ranges of a 24-hour clock.
    pub open spec fn well_formed(self) -> bool {
        self.hour <= 23 && self.minute <= 59 && self.second <= 59 && self.nanosecond
            <= 1_999_999_999
    }

    /// The hour of the day, from 0 to 23.
    pub fn hour(&self) -> (r: u32)
        ensures
            r == self.hour,
    {
        self.hour
    }
}

impl DateTime {
    /// Both parts are well formed.
    pub open spec fn well_formed(self) -> bool {
        self.date.well_formed() && self.time.well_formed()
    }

    /// The hour of the day, from 0 to 23.
    pub fn hour(&self) -> (r: u32)
        ensures
            r == self.time.hour,
    {
        self.time.hour
    }
}

impl ZoneDateTime {
    /// The local date and time are well formed and the offset is less than
    /// a day either way.
    pub open spec fn well_formed(self) -> bool {
        self.local.well_formed() && -86_400 < self.offset_seconds < 86_400
    }

    /// The hour of the day that the local clock shows, from 0 to 23.
    pub fn hour(&self) -> (r: u32)
        ensures
            r == self.local.time.hour,
    {
        self.local.time.hour
    }
}

/// Whether the character `c` fits the place `p` of a shape: `0` stands for
/// any digit, `+` for either sign, and every other character for itself.
pub open spec fn fits(c: char, p: char) -> bool {
    if p == '0' {
        is_digit(c)
    } else if p == '+' {
        c == '+' || c == '-'
    } else {
        c == p
    }
}

/// Whether `text` has the shape `shape`: the same length, and each
/// character fits its place.
pub open spec fn has_shape(text: Seq<char>, shape: Seq<char>) -> bool {
    text.len() == shape.len() && forall|i: int|
        0 <= i < text.len() ==> fits(#[trigger] text[i], shape[i])
}

/// Whether `text` has the shape `shape`.
pub fn check_shape(text: &str, shape: &str) -> (r: bool)
    ensures
        r == has_shape(text@, shape@),
{
    let chars = to_chars(text);
    let places = to_chars(shape);
    let n: usize = chars.len();
    if places.len() != n {
        return false;
    }
    let mut i: usize = 0;
    while i < n
        invariant
            i <= n,
            n == text@.len(),
            n == shape@.len(),
            chars@ == text@,
            places@ == shape@,
            forall|k: int| 0 <= k < i ==> fits(#[trigger] text@[k], shape@[k]),
        decreases n - i,
    {
        let c: char = chars[i];
        let p: char = places[i];
        let ok: bool = if p == '0' {
            '0' <= c && c <= '9'
        } else if p == '+' {
            c == '+' || c == '-'
        } else {
            c == p
        };
        if !ok {
            assert(!fits(text@[i as int], shape@[i as int]));
            return false;
        }
        i += 1;
    }
    true
}

/// The shape of a Date payload.
pub open spec fn date_shape() -> Seq<char> {
    "0000-00-00"@
}

/// The shape of a Time payload.
pub open spec fn time_shape() -> Seq<char> {
    "00:00:00"@
}

/// The shape of a DateTime payload.
pub open spec fn date_time_shape() -> Seq<char> {
    "0000-00-00T00:00:00"@
}

/// The shape of a ZoneDateTime payload.
pub open spec fn zone_date_time_shape() -> Seq<char> {
    "0000-00-00T00:00:00[+00:00]"@
}

/// The format of a Date payload.
pub open spec fn date_format() -> Seq<char> {
    "%Y-%m-%d"@
}

/// The format of a Time payload.
pub open spec fn time_format() -> Seq<char> {
    "%H:%M:%S"@
}

/// The format of a DateTime payload.
pub open spec fn date_time_format() -> Seq<char> {
    "%Y-%m-%dT%H:%M:%S"@
}

/// The format of a ZoneDateTime payload.
pub open spec fn zone_date_time_format() -> Seq<char> {
    "%Y-%m-%dT%H:%M:%S[%:z]"@
}

/// What `chrono::NaiveDate::parse_from_str` reads from `text` under `format`.
pub uninterp spec fn chrono_date(text: Seq<char>, format: Seq<char>) -> Option<Date>;

/// What `chrono::NaiveTime::parse_from_str` reads from `text` under `format`.
pub uninterp spec fn chrono_time(text: Seq<char>, format: Seq<char>) -> Option<Time>;

/// What `chrono::NaiveDateTime::parse_from_str` reads from `text` under `format`.
pub uninterp spec fn chrono_date_time(text: Seq<char>, format: Seq<char>) -> Option<DateTime>;

/// What `chrono::DateTime::parse_from_str` reads from `text` under `format`.
pub uninterp spec fn chrono_zone_date_time(text: Seq<char>, format: Seq<char>) -> Option<
    ZoneDateTime,
>;

/// Calls `chrono::NaiveDate::parse_from_str` and copies out the year, month
/// and day of the date it read. Trusted: the answer depends on the two
/// strings alone, and the month and day lie in the ranges that chrono
/// documents for `Datelike::month` and `Datelike::day`.
#[verifier::external_body]
pub(crate) fn parse_date(text: &str, format: &str) -> (r: Option<Date>)
    ensures
        r == chrono_date(text@, format@),
        r matches Some(d) ==> d.well_formed(),
{
    match chrono::NaiveDate::parse_from_str(text, format) {
        Ok(d) => Some(Date { year: d.year(), month: d.month(), day: d.day() }),
        Err(_) => None,
    }
}

/// Calls `chrono::NaiveTime::parse_from_str` and copies out the fields of
/// the time it read. Trusted: the answer depends on the two strings alone,
/// and the fields lie in the ranges that chrono documents for `Timelike`.
#[verifier::external_body]
pub(crate) fn parse_time(text: &str, format: &str) -> (r: Option<Time>)
    ensures
        r == chrono_time(text@, format@),
        r matches Some(t) ==> t.well_formed(),
{
    match chrono::NaiveTime::parse_from_str(text, format) {
        Ok(t) => Some(
            Time { hour: t.hour(), minute: t.minute(), second: t.second(), nanosecond: t.nanosecond() },
        ),
        Err(_) => None,
    }
}

/// Calls `chrono::NaiveDateTime::parse_from_str` and copies out the fields
/// of the date and time it read. Trusted: the answer depends on the two
/// strings alone, and the fields lie in the ranges that chrono documents
/// for `Datelike` and `Timelike`.
#[verifier::external_body]
pub(crate) fn parse_date_time(text: &str, format: &str) -> (r: Option<DateTime>)
    ensures
        r == chrono_date_time(text@, format@),
        r matches Some(t) ==> t.well_formed(),
{
    match chrono::NaiveDateTime::parse_from_str(text, format) {
        Ok(t) => Some(
            DateTime {
                date: Date { year: t.year(), month: t.month(), day: t.day() },
                time: Time { hour: t.hour(), minute: t.minute(), second: t.second(), nanosecond: t.nanosecond() },
            },
        ),
        Err(_) => None,
    }
}

/// Calls `chrono::DateTime::parse_from_str` and copies out the local date
/// and time it read and the offset in seconds. Trusted: the answer depends
/// on the two strings alone, the fields lie in the ranges that chrono
/// documents for `Datelike` and `Timelike`, and the offset is one that
/// `FixedOffset` can hold.
#[verifier::external_body]
pub(crate) fn parse_zone_date_time(text: &str, format: &str) -> (r: Option<ZoneDateTime>)
    ensures
        r == chrono_zone_date_time(text@, format@),
        r matches Some(t) ==> t.well_formed(),
{
    match chrono::DateTime::parse_from_str(text, format) {
        Ok(t) => Some(
            ZoneDateTime {
                local: DateTime {
                    date: Date { year: t.year(), month: t.month(), day: t.day() },
                    time: Time { hour: t.hour(), minute: t.minute(), second: t.second(), nanosecond: t.nanosecond() },
                },
                offset_seconds: t.offset().local_minus_utc(),
            },
        ),
        Err(_) => None,
    }
}

/// The result of decoding a temporal payload from what parsing it gave.
pub open spec fn temporal_result<T>(parsed: Option<T>) -> Result<T, DecodeError> {
    match parsed {
        Some(t) => Ok(t),
        None => Err(DecodeError::TemporalParseError),
    }
}

/// Turns what a parser read from a temporal payload into the decoder's
/// result: the value, or `TemporalParseError` where the parser read none.
pub fn temporal_from_parsed<T>(parsed: Option<T>) -> (r: Result<T, DecodeError>)
    ensures
        r == temporal_result(parsed),
{
    match parsed {
        Some(t) => Ok(t),
        None => Err(DecodeError::TemporalParseError),
    }
}

/// What a temporal payload decodes to: the text must have the shape of its
/// kind, and the parser must read a value from it.
pub open spec fn shaped_result<T>(text: Seq<char>, shape: Seq<char>, parsed: Option<T>) -> Result<
    T,
    DecodeError,
> {
    if has_shape(text, shape) {
        temporal_result(parsed)
    } else {
        Err(DecodeError::TemporalParseError)
    }
}

/// Decodes the text of a Date payload, written as `YYYY-MM-DD`.
pub fn decode_date(text: &str) -> (r: Result<Date, DecodeError>)
    ensures
        r == shaped_result(text@, date_shape(), chrono_date(text@, date_format())),
        r matches Ok(d) ==> d.well_formed(),
{
    if check_shape(text, "0000-00-00") {
        temporal_from_parsed(parse_date(text, "%Y-%m-%d"))
    } else {
        Err(DecodeError::TemporalParseError)
    }
}

/// Decodes the text of a Time payload, written as `HH:MM:SS`.
pub fn decode_time(text: &str) -> (r: Result<Time, DecodeError>)
    ensures
        r == shaped_result(text@, time_shape(), chrono_time(text@, time_format())),
        r matches Ok(t) ==> t.well_formed(),
{
    if check_shape(text, "00:00:00") {
        temporal_from_parsed(parse_time(text, "%H:%M:%S"))
    } else {
        Err(DecodeError::TemporalParseError)
    }
}

/// Decodes the text of a DateTime payload, written as `YYYY-MM-DDTHH:MM:SS`.
pub fn decode_date_time(text: &str) -> (r: Result<DateTime, DecodeError>)
    ensures
        r == shaped_result(
            text@,
            date_time_shape(),
            chrono_date_time(text@, date_time_format()),
        ),
        r matches Ok(t) ==> t.well_formed(),
{
    if check_shape(text, "0000-00-00T00:00:00") {
        temporal_from_parsed(parse_date_time(text, "%Y-%m-%dT%H:%M:%S"))
    } else {
        Err(DecodeError::TemporalParseError)
    }
}

/// Decodes the text of a ZoneDateTime payload, written as
/// `YYYY-MM-DDTHH:MM:SS[+HH:MM]`. The local time and the offset are kept as
/// written, not moved to UTC.
pub fn decode_zone_date_time(text: &str) -> (r: Result<ZoneDateTime, DecodeError>)
    ensures
        r == shaped_result(
            text@,
            zone_date_time_shape(),
            chrono_zone_date_time(text@, zone_date_time_format()),
        ),
        r matches Ok(t) ==> t.well_formed(),
{
    if check_shape(text, "0000-00-00T00:00:00[+00:00]") {
        temporal_from_parsed(parse_zone_date_time(text, "%Y-%m-%dT%H:%M:%S[%:z]"))
    } else {
        Err(DecodeError::TemporalParseError)
    }
}

/// Where the field that may begin at index `at` ends. A field is one or
/// more digits followed by `designator`; where none begins at `at`, the
/// answer is `at` itself.
pub open spec fn field_end(s: Seq<char>, at: int, designator: char) -> int {
    let e = digit_run_end(s, at);
    if at < e < s.len() && s[e] == designator {
        e + 1
    } else {
        at
    }
}

/// The number that the field at index `at` writes, or 0 where no field with
/// this designator begins there.
pub open spec fn field_value(s: Seq<char>, at: int, designator: char) -> int {
    if field_end(s, at, designator) > at {
        digits_value(s.subrange(at, digit_run_end(s, at)))
    } else {
        0
    }
}

/// The span of time that `s` writes as an ISO-8601 duration: `P`, then any
/// of the fields `Y`, `M`, `W`, `D` in this order, then optionally `T` and
/// any of the fields `H`, `M`, `S` in this order. At least one field must
/// be there, after a `T` at least one time field, and nothing may follow.
/// There is no answer where a total does not fit in 64 bits.
pub open spec fn duration_of_text(s: Seq<char>) -> Option<Duration> {
    let y = field_end(s, 1, 'Y');
    let m = field_end(s, y, 'M');
    let w = field_end(s, m, 'W');
    let d = field_end(s, w, 'D');
    let has_time = d < s.len() && s[d] == 'T';
    let t = if has_time {
        d + 1
    } else {
        d
    };
    let h = field_end(s, t, 'H');
    let n = field_end(s, h, 'M');
    let e = field_end(s, n, 'S');
    let months = 12 * field_value(s, 1, 'Y') + field_value(s, y, 'M');
    let days = 7 * field_value(s, m, 'W') + field_value(s, w, 'D');
    let seconds = 3600 * field_value(s, t, 'H') + 60 * field_value(s, h, 'M') + field_value(
        s,
        n,
        'S',
    );
    let some_field = if has_time {
        e > t
    } else {
        d > 1
    };
    if s.len() > 0 && s[0] == 'P' && e == s.len() && some_field && months <= u64::MAX && days
        <= u64::MAX && seconds <= u64::MAX {
        Some(Duration { months: months as u64, days: days as u64, seconds: seconds as u64 })
    } else {
        None
    }
}

/// The number that the digits of `text` from `from` up to `to` write, or
/// `None` where it does not fit in 64 bits.
fn digits_to_u64(chars: &Vec<char>, from: usize, to: usize) -> (r: Option<u64>)
    requires
        from <= to <= chars@.len(),
        all_digits(chars@.subrange(from as int, to as int)),
    ensures
        match r {
            Some(v) => v == digits_value(chars@.subrange(from as int, to as int)),
            None => digits_value(chars@.subrange(from as int, to as int)) > u64::MAX,
        },
{
    let ghost digits = chars@.subrange(from as int, to as int);
    let mut acc: u128 = 0;
    let mut over: bool = false;
    let mut i: usize = from;
    while i < to
        invariant
            from <= i <= to <= chars@.len(),
            digits == chars@.subrange(from as int, to as int),
            all_digits(digits),
            over ==> digits_value(digits.take(i - from)) > u64::MAX,
            !over ==> acc == digits_value(digits.take(i - from)) && acc <= u64::MAX,
        decreases to - i,
    {
        let c: char = chars[i];
        assert(digits[i - from] == c);
        let d: u128 = (c as u32 - '0' as u32) as u128;
        proof {
            let next = digits.take(i - from + 1);
            assert(next.drop_last() =~= digits.take(i - from));
            assert(next.last() == c);
            assert(d == digit_value(c));
            lemma_digits_value_nonnegative(digits.take(i - from));
        }
        if !over {
            acc = acc * 10 + d;
            if acc > 18446744073709551615u128 {
                over = true;
            }
        }
        i += 1;
    }
    assert(digits.take(to - from) =~= digits);
    if over {
        None
    } else {
        Some(acc as u64)
    }
}

/// A sequence of digits writes no negative number.
pub proof fn lemma_digits_value_nonnegative(s: Seq<char>)
    requires
        all_digits(s),
    ensures
        digits_value(s) >= 0,
    decreases s.len(),
{
    if s.len() > 0 {
        assert(all_digits(s.drop_last())) by {
            assert forall|i: int| 0 <= i < s.drop_last().len() implies is_digit(
                #[trigger] s.drop_last()[i],
            ) by {
                assert(s.drop_last()[i] == s[i]);
            }
        }
        lemma_digits_value_nonnegative(s.drop_last());
    }
}

/// Reads the field that may begin at index `at`: where it ends, and the
/// number it writes (`None` where that does not fit in 64 bits).
fn read_field(chars: &Vec<char>, at: usize, designator: char) -> (r: (usize, Option<u64>))
    requires
        at <= chars@.len(),
    ensures
        r.0 == field_end(chars@, at as int, designator),
        at <= r.0 <= chars@.len(),
        match r.1 {
            Some(v) => v == field_value(chars@, at as int, designator),
            None => field_value(chars@, at as int, designator) > u64::MAX,
        },
{
    let n: usize = chars.len();
    let e: usize = scan_digits(chars, at);
    if at < e && e < n && chars[e] == designator {
        (e + 1, digits_to_u64(chars, at, e))
    } else {
        (at, Some(0))
    }
}

/// `a * x + y` where both numbers are there and the total fits in 64 bits.
fn weighted_sum(a: u64, x: Option<u64>, y: Option<u64>) -> (r: Option<u64>)
    requires
        a <= 3600,
    ensures
        match r {
            Some(v) => x.is_some() && y.is_some() && v == a * x.unwrap() + y.unwrap(),
            None => x.is_none() || y.is_none() || a * x.unwrap() + y.unwrap() > u64::MAX,
        },
{
    match (x, y) {
        (Some(x), Some(y)) => {
            assert(a * x <= 3600 * 0xffff_ffff_ffff_ffff) by (nonlinear_arith)
                requires
                    a <= 3600,
                    x <= 0xffff_ffff_ffff_ffff,
            ;
            let total: u128 = (a as u128) * (x as u128) + (y as u128);
            if total > 18446744073709551615u128 {
                None
            } else {
                Some(total as u64)
            }
        },
        _ => None,
    }
}

/// Parses the whole of `text` as an ISO-8601 duration.
pub fn parse_duration(text: &str) -> (r: Option<Duration>)
    ensures
        r == duration_of_text(text@),
{
    let chars = to_chars(text);
    let len: usize = chars.len();
    if len == 0 || chars[0] != 'P' {
        return None;
    }
    let (y, years) = read_field(&chars, 1, 'Y');
    let (m, months) = read_field(&chars, y, 'M');
    let (w, weeks) = read_field(&chars, m, 'W');
    let (d, days) = read_field(&chars, w, 'D');
    let has_time: bool = d < len && chars[d] == 'T';
    let t: usize = if has_time { d + 1 } else { d };
    let (h, hours) = read_field(&chars, t, 'H');
    let (n, minutes) = read_field(&chars, h, 'M');
    let (e, seconds) = read_field(&chars, n, 'S');
    let some_field: bool = if has_time { e > t } else { d > 1 };
    if !(e == len && some_field) {
        return None;
    }
    let total_months = weighted_sum(12, years, months);
    let total_days = weighted_sum(7, weeks, days);
    let total_minutes = weighted_sum(60, hours, minutes);
    let total_seconds = weighted_sum(60, total_minutes, seconds);
    proof {
        lemma_field_value_nonnegative(text@, 1, 'Y');
        lemma_field_value_nonnegative(text@, y as int, 'M');
        lemma_field_value_nonnegative(text@, m as int, 'W');
        lemma_field_value_nonnegative(text@, w as int, 'D');
        lemma_field_value_nonnegative(text@, t as int, 'H');
        lemma_field_value_nonnegative(text@, h as int, 'M');
        lemma_field_value_nonnegative(text@, n as int, 'S');
    }
    match (total_months, total_days, total_seconds) {
        (Some(months), Some(days), Some(seconds)) => Some(Duration { months, days, seconds }),
        _ => None,
    }
}

/// A field writes no negative number.
pub proof fn lemma_field_value_nonnegative(s: Seq<char>, at: int, designator: char)
    requires
        0 <= at <= s.len(),
    ensures
        field_value(s, at, designator) >= 0,
{
    if field_end(s, at, designator) > at {
        lemma_digit_run(s, at);
        lemma_digits_value_nonnegative(s.subrange(at, digit_run_end(s, at)));
    }
}

/// A run of digits ends within the text and holds digits only.
pub proof fn lemma_digit_run(s: Seq<char>, from: int)
    requires
        0 <= from <= s.len(),
    ensures
        from <= digit_run_end(s, from) <= s.len(),
        all_digits(s.subrange(from, digit_run_end(s, from))),
    decreases s.len() - from,
{
    if from < s.len() && is_digit(s[from]) {
        lemma_digit_run(s, from + 1);
        let e = digit_run_end(s, from);
        assert forall|k: int| 0 <= k < e - from implies is_digit(
            #[trigger] s.subrange(from, e)[k],
        ) by {
            if k > 0 {
                assert(s.subrange(from + 1, e)[k - 1] == s[from + k]);
            }
        }
    }
}

/// Decodes the text of a Duration payload, written as an ISO-8601 duration
/// such as `P14DT16H12M`.
pub fn decode_duration(text: &str) -> (r: Result<Duration, DecodeError>)
    ensures
        r == temporal_result(duration_of_text(text@)),
{
    temporal_from_parsed(parse_duration(text))
}

} // verus!
