//! Calendar timestamps held as plain fields, and their textual forms.

use vstd::prelude::*;
use vstd::arithmetic::div_mod::{lemma_mod_mod, lemma_mod_multiples_vanish};
use crate::ascii::{is_digit, DIGIT_0, DIGIT_9, MINUS};

verus! {

/// Earliest year a timestamp can carry.
pub const MIN_YEAR: i32 = -262143;

/// Latest year a timestamp can carry.
pub const MAX_YEAR: i32 = 262142;

/// The mathematical content of a timestamp: a proleptic Gregorian calendar
/// date and a time of day, to the second.
pub struct Moment {
    pub year: int,
    pub month: int,
    pub day: int,
    pub hour: int,
    pub minute: int,
    pub second: int,
}

/// Whether the year has 366 days.
pub open spec fn is_leap_year(year: int) -> bool {
    year % 4 == 0 && (year % 100 != 0 || year % 400 == 0)
}

/// The number of days of a month, from 1 for January to 12 for December.
pub open spec fn days_in_month(year: int, month: int) -> int {
    if month == 2 {
        if is_leap_year(year) {
            29
        } else {
            28
        }
    } else if month == 4 || month == 6 || month == 9 || month == 11 {
        30
    } else {
        31
    }
}

/// The date exists in the calendar and its year is within the supported range.
pub open spec fn is_calendar_date(year: int, month: int, day: int) -> bool {
    &&& MIN_YEAR <= year <= MAX_YEAR
    &&& 1 <= month <= 12
    &&& 1 <= day <= days_in_month(year, month)
}

/// The time exists on the clock.
pub open spec fn is_time_of_day(hour: int, minute: int, second: int) -> bool {
    &&& 0 <= hour < 24
    &&& 0 <= minute < 60
    &&& 0 <= second < 60
}

impl Moment {
    /// The moment exists: its date in the calendar, its time on the clock.
    pub open spec fn is_valid(self) -> bool {
        &&& is_calendar_date(self.year, self.month, self.day)
        &&& is_time_of_day(self.hour, self.minute, self.second)
    }

    /// The same calendar day at 00:00:00.
    pub open spec fn at_midnight(self) -> Moment {
        Moment { hour: 0, minute: 0, second: 0, ..self }
    }
}

/// The character of a decimal digit.
pub open spec fn digit_char(d: int) -> char
    recommends
        0 <= d <= 9,
{
    ((48 + d) as u8) as char
}

/// A number below one hundred, written with exactly two digits.
pub open spec fn two_digits(n: int) -> Seq<char>
    recommends
        0 <= n < 100,
{
    seq![digit_char(n / 10), digit_char(n % 10)]
}

/// A natural number in decimal, without leading zeros.
pub open spec fn decimal_digits(n: nat) -> Seq<char>
    decreases n,
{
    if n < 10 {
        seq![digit_char(n as int)]
    } else {
        decimal_digits(n / 10).push(digit_char((n % 10) as int))
    }
}

/// A natural number in decimal, filled with leading zeros up to four digits.
pub open spec fn four_digits(n: nat) -> Seq<char> {
    if n < 10000 {
        seq![
            digit_char((n / 1000) as int),
            digit_char((n / 100 % 10) as int),
            digit_char((n / 10 % 10) as int),
            digit_char((n % 10) as int),
        ]
    } else {
        decimal_digits(n)
    }
}

/// A year as text: four digits from 0 to 9999, otherwise a sign followed by
/// at least four digits.
pub open spec fn year_text(year: int) -> Seq<char> {
    if 0 <= year <= 9999 {
        four_digits(year as nat)
    } else if year < 0 {
        seq!['-'] + four_digits((-year) as nat)
    } else {
        seq!['+'] + four_digits(year as nat)
    }
}

/// `dd-mm-yyyy`.
pub open spec fn date_text(m: Moment) -> Seq<char> {
    two_digits(m.day) + seq!['-'] + two_digits(m.month) + seq!['-'] + year_text(m.year)
}

/// `yyyy-mm-dd hh:mm:ss`.
pub open spec fn date_time_text(m: Moment) -> Seq<char> {
    year_text(m.year) + seq!['-'] + two_digits(m.month) + seq!['-'] + two_digits(m.day) + seq![' ']
        + two_digits(m.hour) + seq![':'] + two_digits(m.minute) + seq![':'] + two_digits(m.second)
}

/// The value of a digit.
pub open spec fn digit_value(b: u8) -> int {
    b - DIGIT_0
}

/// The number that the digits of `t` from `from` up to `to` write.
pub open spec fn digits_value(t: Seq<u8>, from: int, to: int) -> int
    decreases to - from,
{
    if to <= from {
        0
    } else {
        10 * digits_value(t, from, to - 1) + digit_value(t[to - 1])
    }
}

/// Every byte of `t` from `from` up to `to` is a digit.
pub open spec fn all_digits(t: Seq<u8>, from: int, to: int) -> bool {
    forall|k: int| from <= k < to ==> is_digit(#[trigger] t[k])
}

/// The day that `t` names in the form `dd-mm-yyyy`, at midnight.
pub open spec fn date_of_text(t: Seq<u8>) -> Option<Moment> {
    let date = Moment {
        year: digits_value(t, 6, 10),
        month: digits_value(t, 3, 5),
        day: digits_value(t, 0, 2),
        hour: 0,
        minute: 0,
        second: 0,
    };
    if t.len() == 10 && all_digits(t, 0, 2) && t[2] == MINUS && all_digits(t, 3, 5) && t[5]
        == MINUS && all_digits(t, 6, 10) && date.is_valid() {
        Some(date)
    } else {
        None
    }
}

/// The letters that may follow `%` in a pattern.
pub open spec fn is_field_letter(c: char) -> bool {
    c == 'Y' || c == 'm' || c == 'd' || c == 'H' || c == 'M' || c == 'S'
}

/// What a `%` followed by `letter` stands for.
pub open spec fn field_text(letter: char, m: Moment) -> Seq<char> {
    if letter == 'Y' {
        year_text(m.year)
    } else if letter == 'm' {
        two_digits(m.month)
    } else if letter == 'd' {
        two_digits(m.day)
    } else if letter == 'H' {
        two_digits(m.hour)
    } else if letter == 'M' {
        two_digits(m.minute)
    } else {
        two_digits(m.second)
    }
}

/// Every `%` of the pattern is followed by a field letter.
pub open spec fn is_field_pattern(pattern: Seq<char>) -> bool
    decreases pattern.len(),
{
    if pattern.len() == 0 {
        true
    } else if pattern[0] == '%' {
        pattern.len() >= 2 && is_field_letter(pattern[1]) && is_field_pattern(pattern.skip(2))
    } else {
        is_field_pattern(pattern.skip(1))
    }
}

/// The pattern with each field replaced by its text and every other
/// character kept.
pub open spec fn rendered(pattern: Seq<char>, m: Moment) -> Seq<char>
    decreases pattern.len(),
{
    if pattern.len() == 0 {
        Seq::empty()
    } else if pattern[0] == '%' && pattern.len() >= 2 {
        field_text(pattern[1], m) + rendered(pattern.skip(2), m)
    } else {
        seq![pattern[0]] + rendered(pattern.skip(1), m)
    }
}

/// Formats the timestamp by `chrono::NaiveDateTime::format`, after building
/// the `NaiveDateTime` from the fields. The contract claims that, for a
/// pattern made of plain characters and the fields `%Y %m %d %H %M %S`, the
/// text is the pattern with each field written as chrono documents it:
/// two digits for all but the year, the year as `year_text` says.
#[verifier::external_body]
fn format_timestamp(ts: &Timestamp, pattern: &str) -> (text: String)
    requires
        ts@.is_valid(),
        is_field_pattern(pattern@),
    ensures
        text@ == rendered(pattern@, ts@),
{
    chrono::NaiveDate::from_ymd_opt(ts.year, ts.month, ts.day)
        .unwrap()
        .and_hms_opt(ts.hour, ts.minute, ts.second)
        .unwrap()
        .format(pattern)
        .to_string()
}

/// The pattern of a date with its time is made of fields, and is written as
/// `date_time_text` says.
#[verifier::rlimit(30)]
proof fn lemma_date_time_pattern(m: Moment)
    ensures
        is_field_pattern("%Y-%m-%d %H:%M:%S"@),
        rendered("%Y-%m-%d %H:%M:%S"@, m) == date_time_text(m),
{
    reveal_strlit("%Y-%m-%d %H:%M:%S");
    let p = "%Y-%m-%d %H:%M:%S"@;
    reveal_with_fuel(is_field_pattern, 12);
    reveal_with_fuel(rendered, 12);
    let tail1 = p.skip(2);
    let tail2 = tail1.skip(1);
    let tail3 = tail2.skip(2);
    let tail4 = tail3.skip(1);
    let tail5 = tail4.skip(2);
    let tail6 = tail5.skip(1);
    let tail7 = tail6.skip(2);
    let tail8 = tail7.skip(1);
    let tail9 = tail8.skip(2);
    let tail10 = tail9.skip(1);
    let tail11 = tail10.skip(2);
    assert(tail1 =~= "-%m-%d %H:%M:%S"@) by {
        reveal_strlit("-%m-%d %H:%M:%S");
    }
    assert(tail2 =~= "%m-%d %H:%M:%S"@) by {
        reveal_strlit("%m-%d %H:%M:%S");
    }
    assert(tail3 =~= "-%d %H:%M:%S"@) by {
        reveal_strlit("-%d %H:%M:%S");
    }
    assert(tail4 =~= "%d %H:%M:%S"@) by {
        reveal_strlit("%d %H:%M:%S");
    }
    assert(tail5 =~= " %H:%M:%S"@) by {
        reveal_strlit(" %H:%M:%S");
    }
    assert(tail6 =~= "%H:%M:%S"@) by {
        reveal_strlit("%H:%M:%S");
    }
    assert(tail7 =~= ":%M:%S"@) by {
        reveal_strlit(":%M:%S");
    }
    assert(tail8 =~= "%M:%S"@) by {
        reveal_strlit("%M:%S");
    }
    assert(tail9 =~= ":%S"@) by {
        reveal_strlit(":%S");
    }
    assert(tail10 =~= "%S"@) by {
        reveal_strlit("%S");
    }
    assert(tail11 =~= Seq::<char>::empty());
    assert(rendered(p, m) =~= date_time_text(m));
}

/// The pattern of a date is made of fields, and is written as `date_text`
/// says.
proof fn lemma_date_pattern(m: Moment)
    ensures
        is_field_pattern("%d-%m-%Y"@),
        rendered("%d-%m-%Y"@, m) == date_text(m),
{
    reveal_strlit("%d-%m-%Y");
    let p = "%d-%m-%Y"@;
    reveal_with_fuel(is_field_pattern, 8);
    reveal_with_fuel(rendered, 8);
    assert(p.skip(2) =~= seq!['-', '%', 'm', '-', '%', 'Y']);
    assert(p.skip(2).skip(1) =~= seq!['%', 'm', '-', '%', 'Y']);
    assert(p.skip(2).skip(1).skip(2) =~= seq!['-', '%', 'Y']);
    assert(p.skip(2).skip(1).skip(2).skip(1) =~= seq!['%', 'Y']);
    assert(p.skip(2).skip(1).skip(2).skip(1).skip(2) =~= Seq::<char>::empty());
    assert(rendered(p, m) =~= date_text(m));
}

/// A calendar date with a time of day. Every value is a valid moment.
#[derive(Clone, Copy, Debug, PartialEq, Eq)]
pub struct Timestamp {
    year: i32,
    month: u32,
    day: u32,
    hour: u32,
    minute: u32,
    second: u32,
}

impl View for Timestamp {
    type V = Moment;

    closed spec fn view(&self) -> Moment {
        Moment {
            year: self.year as int,
            month: self.month as int,
            day: self.day as int,
            hour: self.hour as int,
            minute: self.minute as int,
            second: self.second as int,
        }
    }
}

impl Timestamp {
    #[verifier::type_invariant]
    spec fn well_formed(self) -> bool {
        self@.is_valid()
    }

    /// Builds a timestamp from its fields, or nothing when they name no
    /// moment of the calendar.
    pub fn new(year: i32, month: u32, day: u32, hour: u32, minute: u32, second: u32) -> (made:
        Option<Timestamp>)
        ensures
            made is Some <==> (Moment {
                year: year as int,
                month: month as int,
                day: day as int,
                hour: hour as int,
                minute: minute as int,
                second: second as int,
            }).is_valid(),
            made matches Some(ts) ==> ts@ == (Moment {
                year: year as int,
                month: month as int,
                day: day as int,
                hour: hour as int,
                minute: minute as int,
                second: second as int,
            }),
    {
        if year < MIN_YEAR || year > MAX_YEAR || hour >= 24 || minute >= 60 || second >= 60 {
            return None;
        }
        match month_length(year, month) {
            Some(days) if 1 <= day && day <= days => Some(
                Timestamp { year, month, day, hour, minute, second },
            ),
            _ => None,
        }
    }

    /// The date written as `dd-mm-yyyy` in `text`, at midnight; nothing where
    /// the text has another form or names no day of the calendar.
    pub fn from_date_text(text: &[u8]) -> (made: Option<Timestamp>)
        ensures
            made is Some <==> date_of_text(text@) is Some,
            made matches Some(ts) ==> date_of_text(text@) == Some(ts@),
    {
        if text.len() != 10 || text[2] != MINUS || text[5] != MINUS {
            return None;
        }
        if !(digit_at(text, 0) && digit_at(text, 1) && digit_at(text, 3) && digit_at(text, 4)
            && digit_at(text, 6) && digit_at(text, 7) && digit_at(text, 8) && digit_at(text, 9)) {
            return None;
        }
        let day: u32 = 10 * digit_of(text[0]) + digit_of(text[1]);
        let month: u32 = 10 * digit_of(text[3]) + digit_of(text[4]);
        let year: u32 = 1000 * digit_of(text[6]) + 100 * digit_of(text[7]) + 10 * digit_of(text[8])
            + digit_of(text[9]);
        proof {
            reveal_with_fuel(digits_value, 5);
        }
        Timestamp::new(year as i32, month, day, 0, 0, 0)
    }

    /// The same day at 00:00:00.
    pub fn at_midnight(&self) -> (day: Timestamp)
        ensures
            day@ == self@.at_midnight(),
    {
        proof {
            use_type_invariant(self);
        }
        Timestamp {
            year: self.year,
            month: self.month,
            day: self.day,
            hour: 0,
            minute: 0,
            second: 0,
        }
    }

    /// The year.
    pub fn year(&self) -> (year: i32)
        ensures
            year == self@.year,
    {
        self.year
    }

    /// The month, from 1 to 12.
    pub fn month(&self) -> (month: u32)
        ensures
            month == self@.month,
    {
        self.month
    }

    /// The day of the month, from 1.
    pub fn day(&self) -> (day: u32)
        ensures
            day == self@.day,
    {
        self.day
    }

    /// The hour, from 0 to 23.
    pub fn hour(&self) -> (hour: u32)
        ensures
            hour == self@.hour,
    {
        self.hour
    }

    /// The minute, from 0 to 59.
    pub fn minute(&self) -> (minute: u32)
        ensures
            minute == self@.minute,
    {
        self.minute
    }

    /// The second, from 0 to 59.
    pub fn second(&self) -> (second: u32)
        ensures
            second == self@.second,
    {
        self.second
    }

    /// Date and time as `yyyy-mm-dd hh:mm:ss`.
    pub fn date_time_text(&self) -> (text: String)
        ensures
            text@ == date_time_text(self@),
            self@.is_valid(),
    {
        proof {
            use_type_invariant(self);
            lemma_date_time_pattern(self@);
        }
        format_timestamp(self, "%Y-%m-%d %H:%M:%S")
    }

    /// Day, month and year as the price service writes a date: `dd-mm-yyyy`.
    pub fn date_text(&self) -> (text: String)
        ensures
            text@ == date_text(self@),
            self@.is_valid(),
    {
        proof {
            use_type_invariant(self);
            lemma_date_pattern(self@);
        }
        format_timestamp(self, "%d-%m-%Y")
    }
}

/// Whether `year` has a 29th of February.
pub fn leap_year(year: i32) -> (leap: bool)
    ensures
        leap == is_leap_year(year as int),
{
    // Leap years repeat every 400 years, and 2147484000 is a multiple of 400
    // that leaves no year negative.
    let cycle: i64 = (year as i64 + 2147484000) % 400;
    proof {
        lemma_mod_multiples_vanish(5368710, year as int, 400);
        assert(cycle == year as int % 400);
        lemma_mod_mod(year as int, 4, 100);
        lemma_mod_mod(year as int, 100, 4);
    }
    cycle % 4 == 0 && (cycle % 100 != 0 || cycle == 0)
}

/// Number of days of `month` in `year`, for a month from 1 to 12.
pub fn month_length(year: i32, month: u32) -> (days: Option<u32>)
    ensures
        days is Some <==> 1 <= month <= 12,
        days matches Some(n) ==> n == days_in_month(year as int, month as int),
{
    if month < 1 || month > 12 {
        None
    } else if month == 2 {
        if leap_year(year) {
            Some(29)
        } else {
            Some(28)
        }
    } else if month == 4 || month == 6 || month == 9 || month == 11 {
        Some(30)
    } else {
        Some(31)
    }
}

/// Whether `text` holds a digit at position `i`.
fn digit_at(text: &[u8], i: usize) -> (holds: bool)
    requires
        i < text.len(),
    ensures
        holds == is_digit(text@[i as int]),
{
    DIGIT_0 <= text[i] && text[i] <= DIGIT_9
}

/// The value of a digit.
fn digit_of(b: u8) -> (value: u32)
    requires
        is_digit(b),
    ensures
        value == digit_value(b),
{
    (b - DIGIT_0) as u32
}

/// The bytes of a text that is all ASCII.
pub open spec fn ascii_bytes(text: Seq<char>) -> Seq<u8> {
    Seq::new(text.len(), |i: int| text[i] as u8)
}

/// A day of the years 0 to 9999, written as `dd-mm-yyyy`, is read back as
/// that day at midnight.
pub proof fn lemma_date_text_read_back(m: Moment)
    requires
        m.is_valid(),
        0 <= m.year <= 9999,
    ensures
        date_of_text(ascii_bytes(date_text(m))) == Some(m.at_midnight()),
{
    let t = ascii_bytes(date_text(m));
    assert(date_text(m).len() == 10);
    assert(t.len() == 10);
    assert(date_text(m) =~= seq![
        digit_char(m.day / 10),
        digit_char(m.day % 10),
        '-',
        digit_char(m.month / 10),
        digit_char(m.month % 10),
        '-',
        digit_char(m.year / 1000),
        digit_char(m.year / 100 % 10),
        digit_char(m.year / 10 % 10),
        digit_char(m.year % 10),
    ]);
    assert(t[0] == 48 + m.day / 10 && t[1] == 48 + m.day % 10);
    assert(t[2] == MINUS && t[5] == MINUS);
    assert(t[3] == 48 + m.month / 10 && t[4] == 48 + m.month % 10);
    assert(t[6] == 48 + m.year / 1000 && t[7] == 48 + m.year / 100 % 10);
    assert(t[8] == 48 + m.year / 10 % 10 && t[9] == 48 + m.year % 10);
    reveal_with_fuel(digits_value, 5);
    assert(digits_value(t, 0, 2) == m.day);
    assert(digits_value(t, 3, 5) == m.month);
    assert(digits_value(t, 6, 10) == m.year);
}

/// A text that names a day holds digits and hyphens alone.
pub proof fn lemma_date_text_bytes(t: Seq<u8>)
    requires
        date_of_text(t) is Some,
    ensures
        t.len() == 10,
        forall|k: int| 0 <= k < 10 ==> is_digit(#[trigger] t[k]) || t[k] == MINUS,
        date_of_text(t)->0.is_valid(),
{
    assert forall|k: int| 0 <= k < 10 implies is_digit(#[trigger] t[k]) || t[k] == MINUS by {
        if k != 2 && k != 5 {
            assert(is_digit(t[k]));
        }
    }
}

} // verus!
