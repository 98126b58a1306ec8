//! Calendar timestamps with second precision and no time-zone offset, and
//! their one canonical textual form `YYYY-MM-DDTHH:MM:SS`.

use vstd::prelude::*;

verus! {

/// A calendar timestamp with second precision and no time-zone offset.
#[derive(Clone, Copy, Debug, PartialEq, Eq, Structural)]
pub struct DateTime {
    pub year: u16,
    pub month: u8,
    pub day: u8,
    pub hour: u8,
    pub minute: u8,
    pub second: u8,
}

/// Whether `year` is a leap year in the proleptic Gregorian calendar.
pub open spec fn is_leap_year(year: int) -> bool {
    year % 4 == 0 && (year % 100 != 0 || year % 400 == 0)
}

/// Number of days in `month` of `year`.
pub open spec fn days_in_month(year: int, month: int) -> int {
    if month == 2 {
        if is_leap_year(year) { 29 } else { 28 }
    } else if month == 4 || month == 6 || month == 9 || month == 11 {
        30
    } else {
        31
    }
}

/// Whether `c` is a decimal digit.
pub open spec fn is_digit(c: char) -> bool {
    '0' <= c && c <= '9'
}

/// Numeric value of a decimal digit character.
pub open spec fn digit_val(c: char) -> int {
    c as int - 48
}

/// The decimal digit character for `d` (meaningful for `0 <= d <= 9`).
pub open spec fn digit_char(d: int) -> char {
    if d == 0 { '0' }
    else if d == 1 { '1' }
    else if d == 2 { '2' }
    else if d == 3 { '3' }
    else if d == 4 { '4' }
    else if d == 5 { '5' }
    else if d == 6 { '6' }
    else if d == 7 { '7' }
    else if d == 8 { '8' }
    else { '9' }
}

/// Two-digit zero-padded decimal text of `x` (meaningful for `0 <= x <= 99`).
pub open spec fn two_digits(x: int) -> Seq<char> {
    seq![digit_char(x / 10), digit_char(x % 10)]
}

/// Four-digit zero-padded decimal text of `x` (meaningful for `0 <= x <= 9999`).
pub open spec fn four_digits(x: int) -> Seq<char> {
    seq![
        digit_char(x / 1000),
        digit_char((x / 100) % 10),
        digit_char((x / 10) % 10),
        digit_char(x % 10),
    ]
}

/// Value of the two digit characters of `s` at positions `i` and `i + 1`.
pub open spec fn two_val(s: Seq<char>, i: int) -> int {
    digit_val(s[i]) * 10 + digit_val(s[i + 1])
}

/// Value of the four digit characters of `s` starting at position `i`.
pub open spec fn four_val(s: Seq<char>, i: int) -> int {
    digit_val(s[i]) * 1000 + digit_val(s[i + 1]) * 100 + digit_val(s[i + 2]) * 10
        + digit_val(s[i + 3])
}

impl DateTime {
    /// A well-formed timestamp: a real calendar date (leap years included)
    /// within the four-digit-year range, and an in-range time of day.
    pub open spec fn wf(self) -> bool {
        &&& self.year <= 9999
        &&& 1 <= self.month <= 12
        &&& 1 <= self.day <= days_in_month(self.year as int, self.month as int)
        &&& self.hour <= 23
        &&& self.minute <= 59
        &&& self.second <= 59
    }

    /// The canonical text `YYYY-MM-DDTHH:MM:SS` of this timestamp.
    pub open spec fn spec_format(self) -> Seq<char> {
        four_digits(self.year as int) + seq!['-'] + two_digits(self.month as int) + seq!['-']
            + two_digits(self.day as int) + seq!['T'] + two_digits(self.hour as int) + seq![':']
            + two_digits(self.minute as int) + seq![':'] + two_digits(self.second as int)
    }
}

/// Whether `s` has the shape `YYYY-MM-DDTHH:MM:SS`: 19 characters, digits and
/// the fixed separators in their fixed places.
pub open spec fn has_datetime_shape(s: Seq<char>) -> bool {
    &&& s.len() == 19
    &&& is_digit(s[0]) && is_digit(s[1]) && is_digit(s[2]) && is_digit(s[3])
    &&& s[4] == '-'
    &&& is_digit(s[5]) && is_digit(s[6])
    &&& s[7] == '-'
    &&& is_digit(s[8]) && is_digit(s[9])
    &&& s[10] == 'T'
    &&& is_digit(s[11]) && is_digit(s[12])
    &&& s[13] == ':'
    &&& is_digit(s[14]) && is_digit(s[15])
    &&& s[16] == ':'
    &&& is_digit(s[17]) && is_digit(s[18])
}

/// The timestamp read off a text of the canonical shape.
pub open spec fn datetime_of(s: Seq<char>) -> DateTime {
    DateTime {
        year: four_val(s, 0) as u16,
        month: two_val(s, 5) as u8,
        day: two_val(s, 8) as u8,
        hour: two_val(s, 11) as u8,
        minute: two_val(s, 14) as u8,
        second: two_val(s, 17) as u8,
    }
}

/// What parsing a timestamp text yields: the read-off timestamp when the text
/// has the canonical shape and denotes a real calendar date and time, nothing
/// otherwise.
pub open spec fn spec_parse_datetime(s: Seq<char>) -> Option<DateTime> {
    if has_datetime_shape(s) && datetime_of(s).wf() {
        Some(datetime_of(s))
    } else {
        None
    }
}

/// Chronological order on timestamps: lexicographic on the fields from year
/// down to second.
pub open spec fn date_le(a: DateTime, b: DateTime) -> bool {
    if a.year != b.year {
        a.year < b.year
    } else if a.month != b.month {
        a.month < b.month
    } else if a.day != b.day {
        a.day < b.day
    } else if a.hour != b.hour {
        a.hour < b.hour
    } else if a.minute != b.minute {
        a.minute < b.minute
    } else {
        a.second <= b.second
    }
}

/// The decimal digit character for `d`, as a one-character string slice.
pub(crate) fn digit_str(d: u8) -> (r: &'static str)
    requires
        d <= 9,
    ensures
        r@.len() == 1,
        r@[0] == digit_char(d as int),
{
    proof {
        reveal_strlit("0");
        reveal_strlit("1");
        reveal_strlit("2");
        reveal_strlit("3");
        reveal_strlit("4");
        reveal_strlit("5");
        reveal_strlit("6");
        reveal_strlit("7");
        reveal_strlit("8");
        reveal_strlit("9");
    }
    match d {
        0 => "0",
        1 => "1",
        2 => "2",
        3 => "3",
        4 => "4",
        5 => "5",
        6 => "6",
        7 => "7",
        8 => "8",
        _ => "9",
    }
}

/// Appends the two-digit zero-padded decimal text of `x` to `s`.
fn push_two_digits(s: &mut String, x: u8)
    requires
        x <= 99,
    ensures
        final(s)@ == old(s)@ + two_digits(x as int),
{
    s.append(digit_str(x / 10));
    s.append(digit_str(x % 10));
    proof {
        assert(s@ =~= old(s)@ + two_digits(x as int));
    }
}

/// Appends the four-digit zero-padded decimal text of `x` to `s`.
fn push_four_digits(s: &mut String, x: u16)
    requires
        x <= 9999,
    ensures
        final(s)@ == old(s)@ + four_digits(x as int),
{
    s.append(digit_str((x / 1000) as u8));
    s.append(digit_str(((x / 100) % 10) as u8));
    s.append(digit_str(((x / 10) % 10) as u8));
    s.append(digit_str((x % 10) as u8));
    proof {
        assert(s@ =~= old(s)@ + four_digits(x as int));
    }
}

/// Reads the two digit characters of `s` at positions `i` and `i + 1` as a
/// number, or nothing when either character is not a digit.
fn read_two(s: &str, i: usize) -> (r: Option<u8>)
    requires
        i + 2 <= s@.len(),
        s@.len() <= usize::MAX,
    ensures
        match r {
            Some(v) => is_digit(s@[i as int]) && is_digit(s@[i as int + 1]) && v as int == two_val(
                s@,
                i as int,
            ),
            None => !(is_digit(s@[i as int]) && is_digit(s@[i as int + 1])),
        },
{
    let c1 = s.get_char(i);
    let c2 = s.get_char(i + 1);
    if '0' <= c1 && c1 <= '9' && '0' <= c2 && c2 <= '9' {
        let v1: u32 = c1 as u32 - 48;
        let v2: u32 = c2 as u32 - 48;
        Some((v1 * 10 + v2) as u8)
    } else {
        None
    }
}

/// Reads the four digit characters of `s` starting at position `i` as a
/// number, or nothing when any of them is not a digit.
fn read_four(s: &str, i: usize) -> (r: Option<u16>)
    requires
        i + 4 <= s@.len(),
        s@.len() <= usize::MAX,
    ensures
        match r {
            Some(v) => {
                &&& is_digit(s@[i as int])
                &&& is_digit(s@[i as int + 1])
                &&& is_digit(s@[i as int + 2])
                &&& is_digit(s@[i as int + 3])
                &&& v as int == four_val(s@, i as int)
            },
            None => !(is_digit(s@[i as int]) && is_digit(s@[i as int + 1]) && is_digit(
                s@[i as int + 2],
            ) && is_digit(s@[i as int + 3])),
        },
{
    let hi = match read_two(s, i) {
        Some(v) => v,
        None => { return None; },
    };
    let lo = match read_two(s, i + 2) {
        Some(v) => v,
        None => { return None; },
    };
    Some(hi as u16 * 100 + lo as u16)
}

/// Whether `year` is a leap year.
pub fn is_leap_year_exec(year: u16) -> (r: bool)
    ensures
        r == is_leap_year(year as int),
{
    year % 4 == 0 && (year % 100 != 0 || year % 400 == 0)
}

/// Number of days in `month` of `year`.
pub fn days_in_month_exec(year: u16, month: u8) -> (r: u8)
    requires
        1 <= month <= 12,
    ensures
        r as int == days_in_month(year as int, month as int),
{
    if month == 2 {
        if is_leap_year_exec(year) {
            29
        } else {
            28
        }
    } else if month == 4 || month == 6 || month == 9 || month == 11 {
        30
    } else {
        31
    }
}

/// Builds the timestamp with the given fields, exactly when they form a
/// well-formed one: a four-digit year, a real calendar date, and an
/// in-range time of day.
pub fn datetime_from_parts(year: i32, month: u8, day: u8, hour: u8, minute: u8, second: u8) -> (r:
    Option<DateTime>)
    ensures
        (r is Some) == (0 <= year <= 9999 && 1 <= month <= 12 && 1 <= day && day as int
            <= days_in_month(year as int, month as int) && hour <= 23 && minute <= 59 && second
            <= 59),
        r matches Some(dt) ==> dt == (DateTime {
            year: year as u16,
            month,
            day,
            hour,
            minute,
            second,
        }) && dt.wf(),
{
    if year < 0 || year > 9999 || month < 1 || month > 12 {
        return None;
    }
    let y = year as u16;
    if day < 1 || day > days_in_month_exec(y, month) || hour > 23 || minute > 59 || second > 59 {
        return None;
    }
    Some(DateTime { year: y, month, day, hour, minute, second })
}

impl DateTime {
    /// Renders this timestamp in its canonical form `YYYY-MM-DDTHH:MM:SS`.
    pub fn format(&self) -> (r: String)
        requires
            self.wf(),
        ensures
            r@ == self.spec_format(),
    {
        let mut s = String::new();
        push_four_digits(&mut s, self.year);
        s.append("-");
        push_two_digits(&mut s, self.month);
        s.append("-");
        push_two_digits(&mut s, self.day);
        s.append("T");
        push_two_digits(&mut s, self.hour);
        s.append(":");
        push_two_digits(&mut s, self.minute);
        s.append(":");
        push_two_digits(&mut s, self.second);
        proof {
            reveal_strlit("-");
            reveal_strlit("T");
            reveal_strlit(":");
            assert(s@ =~= self.spec_format());
        }
        s
    }

    /// Parses a timestamp from its canonical form `YYYY-MM-DDTHH:MM:SS`.
    /// Yields nothing on any text that is not the canonical rendering of a
    /// well-formed timestamp.
    pub fn parse(s: &str) -> (r: Option<DateTime>)
        ensures
            r == spec_parse_datetime(s@),
            r matches Some(dt) ==> dt.wf(),
    {
        if s.unicode_len() != 19 {
            return None;
        }
        if !(s.get_char(4) == '-' && s.get_char(7) == '-' && s.get_char(10) == 'T' && s.get_char(13)
            == ':' && s.get_char(16) == ':') {
            return None;
        }
        let year = match read_four(s, 0) {
            Some(v) => v,
            None => { return None; },
        };
        let month = match read_two(s, 5) {
            Some(v) => v,
            None => { return None; },
        };
        let day = match read_two(s, 8) {
            Some(v) => v,
            None => { return None; },
        };
        let hour = match read_two(s, 11) {
            Some(v) => v,
            None => { return None; },
        };
        let minute = match read_two(s, 14) {
            Some(v) => v,
            None => { return None; },
        };
        let second = match read_two(s, 17) {
            Some(v) => v,
            None => { return None; },
        };
        let dt = DateTime { year, month, day, hour, minute, second };
        if 1 <= month && month <= 12 && 1 <= day && day <= days_in_month_exec(year, month) && hour
            <= 23 && minute <= 59 && second <= 59 {
            Some(dt)
        } else {
            None
        }
    }

    /// Compares two timestamps chronologically.
    pub fn le(&self, other: &DateTime) -> (r: bool)
        ensures
            r == date_le(*self, *other),
    {
        if self.year != other.year {
            self.year < other.year
        } else if self.month != other.month {
            self.month < other.month
        } else if self.day != other.day {
            self.day < other.day
        } else if self.hour != other.hour {
            self.hour < other.hour
        } else if self.minute != other.minute {
            self.minute < other.minute
        } else {
            self.second <= other.second
        }
    }
}

/// A decimal digit character carries its own value: reading back the digit
/// character of `d` yields `d`.
pub proof fn lemma_digit_char_val(d: int)
    requires
        0 <= d <= 9,
    ensures
        is_digit(digit_char(d)),
        digit_val(digit_char(d)) == d,
{
}

/// Formatting a well-formed timestamp and parsing the result yields the same
/// timestamp: the canonical textual form loses nothing.
pub proof fn lemma_datetime_round_trip(dt: DateTime)
    requires
        dt.wf(),
    ensures
        spec_parse_datetime(dt.spec_format()) == Some(dt),
{
    let s = dt.spec_format();
    let y = dt.year as int;
    let mo = dt.month as int;
    let d = dt.day as int;
    let h = dt.hour as int;
    let mi = dt.minute as int;
    let sec = dt.second as int;
    assert(s =~= seq![
        digit_char(y / 1000),
        digit_char((y / 100) % 10),
        digit_char((y / 10) % 10),
        digit_char(y % 10),
        '-',
        digit_char(mo / 10),
        digit_char(mo % 10),
        '-',
        digit_char(d / 10),
        digit_char(d % 10),
        'T',
        digit_char(h / 10),
        digit_char(h % 10),
        ':',
        digit_char(mi / 10),
        digit_char(mi % 10),
        ':',
        digit_char(sec / 10),
        digit_char(sec % 10),
    ]);
    lemma_digit_char_val(y / 1000);
    lemma_digit_char_val((y / 100) % 10);
    lemma_digit_char_val((y / 10) % 10);
    lemma_digit_char_val(y % 10);
    lemma_digit_char_val(mo / 10);
    lemma_digit_char_val(mo % 10);
    lemma_digit_char_val(d / 10);
    lemma_digit_char_val(d % 10);
    lemma_digit_char_val(h / 10);
    lemma_digit_char_val(h % 10);
    lemma_digit_char_val(mi / 10);
    lemma_digit_char_val(mi % 10);
    lemma_digit_char_val(sec / 10);
    lemma_digit_char_val(sec % 10);
    assert(has_datetime_shape(s));
    assert(four_val(s, 0) == y);
    assert(two_val(s, 5) == mo);
    assert(two_val(s, 8) == d);
    assert(two_val(s, 11) == h);
    assert(two_val(s, 14) == mi);
    assert(two_val(s, 17) == sec);
    assert(datetime_of(s) == dt);
}

/// The canonical form of a well-formed timestamp is 19 characters long.
pub proof fn lemma_format_len(dt: DateTime)
    ensures
        dt.spec_format().len() == 19,
{
}

} // verus!
