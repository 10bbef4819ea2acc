//! Calendar dates: validity, order, the text form `YYYY-MM-DD`, and reading a
//! date from text.

use chrono::Datelike;
use vstd::prelude::*;
use vstd::string::StringExecFns;

verus! {

/// A day of the proleptic Gregorian calendar, by year, month and day.
///
/// The fields are open, so a value need not name a day that exists:
/// `is_valid` tells whether it does. `from_ymd`, `parse` and `today` give
/// only days that exist.
#[derive(Clone, Copy, Debug, PartialEq, Eq, Structural)]
pub struct Date {
    pub year: i32,
    pub month: u32,
    pub day: u32,
}

/// Whether year `y` has a 29th of February.
pub open spec fn is_leap_year(y: int) -> bool {
    y % 4 == 0 && (y % 100 != 0 || y % 400 == 0)
}

/// The number of days of month `m` in year `y`; 0 where `m` names no month.
pub open spec fn days_in_month(y: int, m: int) -> int {
    if m == 1 || m == 3 || m == 5 || m == 7 || m == 8 || m == 10 || m == 12 {
        31
    } else if m == 4 || m == 6 || m == 9 || m == 11 {
        30
    } else if m == 2 {
        if is_leap_year(y) {
            29
        } else {
            28
        }
    } else {
        0
    }
}

/// Whether `(y, m, d)` names a day that exists.
pub open spec fn is_calendar_day(y: int, m: int, d: int) -> bool {
    1 <= m <= 12 && 1 <= d <= days_in_month(y, m)
}

/// Decides `is_leap_year`.
pub fn leap_year(year: i32) -> (b: bool)
    ensures
        b == is_leap_year(year as int),
{
    // 2147484000 is a multiple of 400 above every negative `i32`.
    let shifted: i64 = year as i64 + 2147484000;
    shifted % 4 == 0 && (shifted % 100 != 0 || shifted % 400 == 0)
}

/// Computes `days_in_month`.
pub fn month_length(year: i32, month: u32) -> (n: u32)
    ensures
        n == days_in_month(year as int, month as int),
{
    if month == 1 || month == 3 || month == 5 || month == 7 || month == 8 || month == 10 || month
        == 12 {
        31
    } else if month == 4 || month == 6 || month == 9 || month == 11 {
        30
    } else if month == 2 {
        if leap_year(year) {
            29
        } else {
            28
        }
    } else {
        0
    }
}

impl Date {
    /// Whether this is a day that exists.
    pub open spec fn is_valid(self) -> bool {
        is_calendar_day(self.year as int, self.month as int, self.day as int)
    }

    /// Whether this day is `other` or comes before it.
    pub open spec fn on_or_before(self, other: Date) -> bool {
        self.year < other.year || (self.year == other.year && (self.month < other.month || (
        self.month == other.month && self.day <= other.day)))
    }

    /// Whether this day comes after `other`.
    pub open spec fn after(self, other: Date) -> bool {
        !self.on_or_before(other)
    }

    /// The day `(year, month, day)`, if it exists.
    pub fn from_ymd(year: i32, month: u32, day: u32) -> (r: Option<Date>)
        ensures
            r == if is_calendar_day(year as int, month as int, day as int) {
                Some(Date { year, month, day })
            } else {
                None
            },
    {
        if 1 <= month && month <= 12 && 1 <= day && day <= month_length(year, month) {
            Some(Date { year, month, day })
        } else {
            None
        }
    }

    /// Decides `on_or_before`.
    pub fn is_on_or_before(&self, other: &Date) -> (b: bool)
        ensures
            b == self.on_or_before(*other),
    {
        self.year < other.year || (self.year == other.year && (self.month < other.month || (
        self.month == other.month && self.day <= other.day)))
    }

    /// Decides `after`.
    pub fn is_after(&self, other: &Date) -> (b: bool)
        ensures
            b == self.after(*other),
    {
        !self.is_on_or_before(other)
    }
}

/// Whether `c` is one of the digits `0` to `9`.
pub open spec fn is_digit(c: char) -> bool {
    48 <= c as u32 <= 57
}

/// The number that the digit `c` stands for.
pub open spec fn digit_value(c: char) -> int {
    c as u32 - 48
}

/// The digit that stands for `d`, for `d` from 0 to 9.
pub open spec fn digit_char(d: int) -> char {
    if d == 0 {
        '0'
    } else if d == 1 {
        '1'
    } else if d == 2 {
        '2'
    } else if d == 3 {
        '3'
    } else if d == 4 {
        '4'
    } else if d == 5 {
        '5'
    } else if d == 6 {
        '6'
    } else if d == 7 {
        '7'
    } else if d == 8 {
        '8'
    } else {
        '9'
    }
}

/// `n` in decimal digits, with zeros in front up to `width` digits.
pub open spec fn decimal(n: nat, width: nat) -> Seq<char>
    decreases n, width,
{
    if n < 10 && width <= 1 {
        seq![digit_char(n as int)]
    } else {
        decimal(n / 10, if width == 0 { 0 } else { (width - 1) as nat }).push(digit_char((n % 10) as int))
    }
}

/// The year `y` as text: four digits from 0 to 9999, else a sign and at
/// least four digits.
pub open spec fn year_text(y: int) -> Seq<char> {
    if 0 <= y <= 9999 {
        decimal(y as nat, 4)
    } else if y > 9999 {
        seq!['+'] + decimal(y as nat, 4)
    } else {
        seq!['-'] + decimal((-y) as nat, 4)
    }
}

/// The date `d` as text: year, month and day with `-` between them, month
/// and day in two digits.
pub open spec fn date_text(d: Date) -> Seq<char> {
    year_text(d.year as int) + seq!['-'] + decimal(d.month as nat, 2) + seq!['-'] + decimal(
        d.day as nat,
        2,
    )
}

/// The digit for `d` as a text of its own.
fn digit_text(d: u32) -> (s: &'static str)
    requires
        d < 10,
    ensures
        s@ == seq![digit_char(d as int)],
{
    proof {
        reveal_strlit("0");
        reveal_strlit("1");
        reveal_strlit("2");
        reveal_strlit("3");
        reveal_strlit("4");
        reveal_strlit("5");
        reveal_strlit("6");
        reveal_strlit("7");
        reveal_strlit("8");
        reveal_strlit("9");
    }
    let s = if d == 0 {
        "0"
    } else if d == 1 {
        "1"
    } else if d == 2 {
        "2"
    } else if d == 3 {
        "3"
    } else if d == 4 {
        "4"
    } else if d == 5 {
        "5"
    } else if d == 6 {
        "6"
    } else if d == 7 {
        "7"
    } else if d == 8 {
        "8"
    } else {
        "9"
    };
    assert(s@ =~= seq![digit_char(d as int)]);
    s
}

/// Appends `decimal(n, width)` to `out`.
fn push_decimal(out: &mut String, n: u32, width: u32)
    ensures
        final(out)@ == old(out)@ + decimal(n as nat, width as nat),
    decreases n, width,
{
    if n < 10 && width <= 1 {
        out.append(digit_text(n));
    } else {
        push_decimal(out, n / 10, if width == 0 { 0 } else { width - 1 });
        out.append(digit_text(n % 10));
        assert(out@ =~= old(out)@ + decimal(n as nat, width as nat));
    }
}

impl Date {
    /// This date as text.
    pub fn to_text(&self) -> (s: String)
        ensures
            s@ == date_text(*self),
    {
        let mut out = String::new();
        proof {
            reveal_strlit("+");
            reveal_strlit("-");
        }
        if self.year > 9999 {
            out.append("+");
            push_decimal(&mut out, self.year as u32, 4);
        } else if self.year < 0 {
            out.append("-");
            push_decimal(&mut out, (-(self.year as i64)) as u32, 4);
        } else {
            push_decimal(&mut out, self.year as u32, 4);
        }
        assert(out@ =~= year_text(self.year as int));
        out.append("-");
        push_decimal(&mut out, self.month, 2);
        out.append("-");
        push_decimal(&mut out, self.day, 2);
        assert(out@ =~= date_text(*self));
        out
    }
}

/// The number written by the two digits of `s` at `at`.
pub open spec fn two_digits_at(s: Seq<char>, at: int) -> int {
    digit_value(s[at]) * 10 + digit_value(s[at + 1])
}

/// The year that the first four digits of `s` write.
pub open spec fn iso_year(s: Seq<char>) -> int {
    two_digits_at(s, 0) * 100 + two_digits_at(s, 2)
}

/// The month that the digits of `s` at 5 and 6 write.
pub open spec fn iso_month(s: Seq<char>) -> int {
    two_digits_at(s, 5)
}

/// The day that the digits of `s` at 8 and 9 write.
pub open spec fn iso_day(s: Seq<char>) -> int {
    two_digits_at(s, 8)
}

/// Whether `s` has the shape `YYYY-MM-DD`: ten characters, digits but for a
/// `-` at 4 and at 7.
pub open spec fn has_iso_shape(s: Seq<char>) -> bool {
    &&& s.len() == 10
    &&& s[4] == '-'
    &&& s[7] == '-'
    &&& forall|i: int| 0 <= i < 10 && i != 4 && i != 7 ==> is_digit(#[trigger] s[i])
}

/// Whether `s` is a valid `YYYY-MM-DD` text: of that shape, and naming a day
/// that exists.
pub open spec fn is_iso_date_text(s: Seq<char>) -> bool {
    has_iso_shape(s) && is_calendar_day(iso_year(s), iso_month(s), iso_day(s))
}

/// The date that a valid `YYYY-MM-DD` text names.
pub open spec fn iso_date_value(s: Seq<char>) -> Date {
    Date { year: iso_year(s) as i32, month: iso_month(s) as u32, day: iso_day(s) as u32 }
}

/// A digit's character stands for that digit, and the other way round.
pub proof fn lemma_digits(d: int, c: char)
    ensures
        0 <= d <= 9 ==> is_digit(digit_char(d)) && digit_value(digit_char(d)) == d,
        is_digit(c) ==> 0 <= digit_value(c) <= 9 && digit_char(digit_value(c)) == c,
{
}

/// Below 100, `decimal` in width 2 is the two digits of `n`.
pub proof fn lemma_decimal_two(n: nat)
    requires
        n < 100,
    ensures
        decimal(n, 2) == seq![digit_char((n / 10) as int), digit_char((n % 10) as int)],
{
    reveal_with_fuel(decimal, 3);
    assert(decimal(n, 2) =~= seq![digit_char((n / 10) as int), digit_char((n % 10) as int)]);
}

/// Below 10000, `decimal` in width 4 is the four digits of `n`.
pub proof fn lemma_decimal_four(n: nat)
    requires
        n < 10000,
    ensures
        decimal(n, 4) == seq![
            digit_char((n / 1000) as int),
            digit_char((n / 100 % 10) as int),
            digit_char((n / 10 % 10) as int),
            digit_char((n % 10) as int),
        ],
{
    reveal_with_fuel(decimal, 5);
    assert(n / 10 / 10 == n / 100);
    assert(n / 10 / 10 / 10 == n / 1000);
    assert(decimal(n, 4) =~= seq![
        digit_char((n / 1000) as int),
        digit_char((n / 100 % 10) as int),
        digit_char((n / 10 % 10) as int),
        digit_char((n % 10) as int),
    ]);
}

/// The digits `a`, `b`, `c`, `d` of a number below 10000 are found again by
/// division.
pub proof fn lemma_four_digits(a: int, b: int, c: int, d: int)
    requires
        0 <= a <= 9,
        0 <= b <= 9,
        0 <= c <= 9,
        0 <= d <= 9,
    ensures
        ((a * 10 + b) * 100 + (c * 10 + d)) / 1000 == a,
        ((a * 10 + b) * 100 + (c * 10 + d)) / 100 % 10 == b,
        ((a * 10 + b) * 100 + (c * 10 + d)) / 10 % 10 == c,
        ((a * 10 + b) * 100 + (c * 10 + d)) % 10 == d,
        0 <= (a * 10 + b) * 100 + (c * 10 + d) <= 9999,
{
}

/// The digits `a`, `b` of a number below 100 are found again by division.
pub proof fn lemma_two_digits(a: int, b: int)
    requires
        0 <= a <= 9,
        0 <= b <= 9,
    ensures
        (a * 10 + b) / 10 == a,
        (a * 10 + b) % 10 == b,
        0 <= a * 10 + b <= 99,
{
}

/// The year of a text of the shape `YYYY-MM-DD` lies from 0 to 9999, and
/// written in four digits it is the first four characters again.
pub proof fn lemma_iso_year_text(s: Seq<char>)
    requires
        has_iso_shape(s),
    ensures
        0 <= iso_year(s) <= 9999,
        decimal(iso_year(s) as nat, 4) == s.subrange(0, 4),
{
    let a = digit_value(s[0]);
    let b = digit_value(s[1]);
    let c = digit_value(s[2]);
    let d = digit_value(s[3]);
    assert(is_digit(s[0]) && is_digit(s[1]) && is_digit(s[2]) && is_digit(s[3]));
    lemma_digits(0, s[0]);
    lemma_digits(0, s[1]);
    lemma_digits(0, s[2]);
    lemma_digits(0, s[3]);
    lemma_four_digits(a, b, c, d);
    let y = iso_year(s);
    assert(y == (a * 10 + b) * 100 + (c * 10 + d));
    lemma_decimal_four(y as nat);
    assert(decimal(y as nat, 4) =~= s.subrange(0, 4));
}

/// The two digits of `s` at `at` write a number from 0 to 99, and that
/// number written in two digits is the two characters again.
pub proof fn lemma_two_digits_text(s: Seq<char>, at: int)
    requires
        0 <= at,
        at + 2 <= s.len(),
        is_digit(s[at]),
        is_digit(s[at + 1]),
    ensures
        0 <= two_digits_at(s, at) <= 99,
        decimal(two_digits_at(s, at) as nat, 2) == s.subrange(at, at + 2),
{
    let a = digit_value(s[at]);
    let b = digit_value(s[at + 1]);
    lemma_digits(0, s[at]);
    lemma_digits(0, s[at + 1]);
    lemma_two_digits(a, b);
    let n = two_digits_at(s, at);
    lemma_decimal_two(n as nat);
    assert(decimal(n as nat, 2) =~= s.subrange(at, at + 2));
}

/// A valid `YYYY-MM-DD` text names a day that exists, within the years 0 to
/// 9999, and that day written as text is the same text again.
pub proof fn lemma_iso_text_round_trip(s: Seq<char>)
    requires
        is_iso_date_text(s),
    ensures
        iso_date_value(s).is_valid(),
        0 <= iso_date_value(s).year <= 9999,
        date_text(iso_date_value(s)) == s,
{
    let d = iso_date_value(s);
    assert(is_digit(s[5]) && is_digit(s[6]) && is_digit(s[8]) && is_digit(s[9]));
    lemma_iso_year_text(s);
    lemma_two_digits_text(s, 5);
    lemma_two_digits_text(s, 8);
    assert(d.year == iso_year(s) && d.month == iso_month(s) && d.day == iso_day(s));
    assert(year_text(d.year as int) == s.subrange(0, 4));
    assert(s.subrange(0, 4) + seq!['-'] + s.subrange(5, 7) + seq!['-'] + s.subrange(8, 10) =~= s);
}

/// A day that exists within the years 0 to 9999, written as text, is a valid
/// `YYYY-MM-DD` text that names the same day.
pub proof fn lemma_date_text_round_trip(d: Date)
    requires
        d.is_valid(),
        0 <= d.year <= 9999,
    ensures
        is_iso_date_text(date_text(d)),
        iso_date_value(date_text(d)) == d,
{
    let s = date_text(d);
    let y = d.year as int;
    let m = d.month as int;
    let dd = d.day as int;
    lemma_decimal_four(y as nat);
    lemma_decimal_two(m as nat);
    lemma_decimal_two(dd as nat);
    let expected = seq![
        digit_char(y / 1000),
        digit_char(y / 100 % 10),
        digit_char(y / 10 % 10),
        digit_char(y % 10),
        '-',
        digit_char(m / 10),
        digit_char(m % 10),
        '-',
        digit_char(dd / 10),
        digit_char(dd % 10),
    ];
    assert(s =~= expected);
    lemma_digits(y / 1000, '0');
    lemma_digits(y / 100 % 10, '0');
    lemma_digits(y / 10 % 10, '0');
    lemma_digits(y % 10, '0');
    lemma_digits(m / 10, '0');
    lemma_digits(m % 10, '0');
    lemma_digits(dd / 10, '0');
    lemma_digits(dd % 10, '0');
    assert forall|i: int| 0 <= i < 10 && i != 4 && i != 7 implies is_digit(#[trigger] s[i]) by {
        assert(s[i] == expected[i]);
    }
    assert(two_digits_at(s, 0) == y / 100) by {
        assert(digit_value(s[0]) == y / 1000 && digit_value(s[1]) == y / 100 % 10);
    }
    assert(two_digits_at(s, 2) == y % 100) by {
        assert(digit_value(s[2]) == y / 10 % 10 && digit_value(s[3]) == y % 10);
    }
    assert(iso_year(s) == y);
    assert(iso_month(s) == m) by {
        assert(digit_value(s[5]) == m / 10 && digit_value(s[6]) == m % 10);
    }
    assert(iso_day(s) == dd) by {
        assert(digit_value(s[8]) == dd / 10 && digit_value(s[9]) == dd % 10);
    }
}

/// `decimal` gives at least one character, and digits only.
pub proof fn lemma_decimal_digits(n: nat, width: nat)
    ensures
        decimal(n, width).len() >= 1,
        forall|i: int| 0 <= i < decimal(n, width).len() ==> is_digit(#[trigger] decimal(n, width)[i]),
    decreases n, width,
{
    if n < 10 && width <= 1 {
        lemma_digits(n as int, '0');
    } else {
        let rest_width: nat = if width == 0 {
            0
        } else {
            (width - 1) as nat
        };
        lemma_decimal_digits(n / 10, rest_width);
        lemma_digits((n % 10) as int, '0');
    }
}

/// Whether `c` can stand in the text of a date: a digit, `-` or `+`.
pub open spec fn is_date_char(c: char) -> bool {
    is_digit(c) || c == '-' || c == '+'
}

/// The text of a date is not empty and holds digits, `-` and `+` only.
pub proof fn lemma_date_text_chars(d: Date)
    ensures
        date_text(d).len() >= 1,
        forall|i: int| 0 <= i < date_text(d).len() ==> is_date_char(#[trigger] date_text(d)[i]),
{
    let y = d.year as int;
    let magnitude: nat = if y < 0 {
        (-y) as nat
    } else {
        y as nat
    };
    lemma_decimal_digits(magnitude, 4);
    lemma_decimal_digits(d.month as nat, 2);
    lemma_decimal_digits(d.day as nat, 2);
    let year = year_text(y);
    let month = decimal(d.month as nat, 2);
    let day = decimal(d.day as nat, 2);
    assert forall|i: int| 0 <= i < year.len() implies is_date_char(#[trigger] year[i]) by {
        if 0 <= y <= 9999 {
        } else if i > 0 {
            assert(year[i] == decimal(magnitude, 4)[i - 1]);
        }
    }
    let text = date_text(d);
    assert forall|i: int| 0 <= i < text.len() implies is_date_char(#[trigger] text[i]) by {
        if i < year.len() {
            assert(text[i] == year[i]);
        } else if i == year.len() {
        } else if i < year.len() + 1 + month.len() {
            assert(text[i] == month[i - year.len() - 1]);
        } else if i == year.len() + 1 + month.len() {
        } else {
            assert(text[i] == day[i - year.len() - month.len() - 2]);
        }
    }
}

/// What `chrono::NaiveDate::parse_from_str` makes of `text` under the format
/// `%Y-%m-%d`: the year, month and day of the date it returns, or `None`
/// where it returns an error.
pub uninterp spec fn parsed_date(text: Seq<char>) -> Option<Date>;

/// Calls `chrono::NaiveDate::parse_from_str` with the format `%Y-%m-%d` and
/// hands back the year, month and day of its date.
///
/// Trusted, not proved. The contract names the result `parsed_date`, and
/// claims two things of it. A date that chrono returns exists: chrono builds
/// it with `NaiveDate::from_ymd_opt`, which refuses any other. And a valid
/// `YYYY-MM-DD` text gives the date it names: without a sign chrono reads up
/// to four digits as the year, then `-`, up to two digits as the month, `-`,
/// up to two digits as the day, and accepts when nothing is left over.
#[verifier::external_body]
fn parse_ymd(text: &str) -> (r: Option<Date>)
    ensures
        r == parsed_date(text@),
        r matches Some(d) ==> d.is_valid(),
        is_iso_date_text(text@) ==> r == Some(iso_date_value(text@)),
{
    match chrono::NaiveDate::parse_from_str(text, "%Y-%m-%d") {
        Ok(d) => Some(Date { year: d.year(), month: d.month(), day: d.day() }),
        Err(_) => None,
    }
}

/// Calls `chrono::Local::now` and hands back the year, month and day of the
/// local date at this moment.
///
/// Trusted, not proved. The result depends on the clock and on the time
/// zone of the machine, so the contract claims only that the day exists.
/// chrono stops the program where the clock reads a time before 1970, or
/// the time zone data of the machine gives no local time.
#[verifier::external_body]
fn local_today() -> (r: Date)
    ensures
        r.is_valid(),
{
    let d: chrono::NaiveDate = chrono::Local::now().naive_local().into();
    Date { year: d.year(), month: d.month(), day: d.day() }
}

impl Date {
    /// Reads a date written as year, month and day with `-` between them.
    ///
    /// The reading is chrono's, which `parsed_date` names. It is lenient:
    /// white space before a number, a month or day of one digit and a year
    /// with a sign are accepted too. Every date given exists. Every valid
    /// `YYYY-MM-DD` text is read, gives the date it names, and that date
    /// written as text is the same text again.
    pub fn parse(text: &str) -> (r: Option<Date>)
        ensures
            r == parsed_date(text@),
            r matches Some(d) ==> d.is_valid(),
            is_iso_date_text(text@) ==> r == Some(iso_date_value(text@)),
            is_iso_date_text(text@) ==> (r matches Some(d) && date_text(d) == text@),
    {
        proof {
            if is_iso_date_text(text@) {
                lemma_iso_text_round_trip(text@);
            }
        }
        parse_ymd(text)
    }

    /// The local date at this moment.
    pub fn today() -> (r: Date)
        ensures
            r.is_valid(),
    {
        local_today()
    }
}

} // verus!
