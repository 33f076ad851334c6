use vstd::prelude::*;

use crate::error::LetterError;
use crate::text::{
    chars_of, decimal, digit_char, find_char, find_in, is_digit, lemma_decimal, lemma_find_absent,
    lemma_find_concat, lemma_find_digits, lemma_padded, lemma_unsigned_digits, padded,
    parse_i32_in, parse_i32_spec, parse_u32_in, parse_u32_spec, string_of,
};

verus! {

/// The first year that chrono's `NaiveDate` holds.
pub const MIN_YEAR: i32 = -262143;

/// The last year that chrono's `NaiveDate` holds.
pub const MAX_YEAR: i32 = 262142;

pub open spec fn is_leap(y: int) -> bool {
    (y % 4 == 0 && y % 100 != 0) || y % 400 == 0
}

pub open spec fn days_in_month(y: int, m: int) -> int {
    if m == 2 {
        if is_leap(y) {
            29
        } else {
            28
        }
    } else if m == 4 || m == 6 || m == 9 || m == 11 {
        30
    } else {
        31
    }
}

/// Whether the proleptic Gregorian calendar, within chrono's range of years, has this day.
pub open spec fn valid_ymd(y: int, m: int, d: int) -> bool {
    MIN_YEAR <= y <= MAX_YEAR && 1 <= m <= 12 && 1 <= d <= days_in_month(y, m)
}

/// The year as chrono's `%Y` writes it: four digits at least, with a sign outside 0..=9999.
pub open spec fn year_text(y: int) -> Seq<char> {
    if 0 <= y <= 9999 {
        padded(y as nat, 4)
    } else if y > 9999 {
        seq!['+'] + decimal(y as nat)
    } else {
        seq!['-'] + padded((-y) as nat, 4)
    }
}

/// `YEAR-MM`, as chrono's `%Y-%m` writes it.
pub open spec fn ym_text(y: int, m: int) -> Seq<char> {
    year_text(y) + seq!['-'] + padded(m as nat, 2)
}

/// `YEAR-MM-DD`, as chrono's `%Y-%m-%d` writes it.
pub open spec fn ymd_text(y: int, m: int, d: int) -> Seq<char> {
    ym_text(y, m) + seq!['-'] + padded(d as nat, 2)
}

/// Relies on chrono's `NaiveDate::from_ymd_opt`, which accepts exactly the days of the
/// calendar within its range of years, and on its `%Y-%m-%d` format.
#[verifier::external_body]
fn chrono_ymd_text(year: i32, month: u32, day: u32) -> (r: Option<String>)
    ensures
        r is Some <==> valid_ymd(year as int, month as int, day as int),
        r matches Some(s) ==> s@ == ymd_text(year as int, month as int, day as int),
{
    match chrono::NaiveDate::from_ymd_opt(year, month, day) {
        Some(d) => Some(d.format("%Y-%m-%d").to_string()),
        None => None,
    }
}

/// A calendar date whose day may be left open.
#[derive(Debug, Clone, Copy, PartialEq, Eq)]
pub struct Date {
    pub year: i32,
    pub month: u32,
    pub day: Option<u32>,
}

/// The three pieces of `s.splitn(3, delim)`.
pub open spec fn split3(s: Seq<char>, delim: char) -> (Seq<char>, Option<Seq<char>>, Option<
    Seq<char>,
>) {
    match find_char(s, delim) {
        None => (s, None, None),
        Some(i) => {
            let rest = s.subrange(i + 1, s.len() as int);
            match find_char(rest, delim) {
                None => (s.subrange(0, i), Some(rest), None),
                Some(j) => (
                    s.subrange(0, i),
                    Some(rest.subrange(0, j)),
                    Some(rest.subrange(j + 1, rest.len() as int)),
                ),
            }
        },
    }
}

/// The date that `YEAR<delim>MONTH[<delim>DAY]` spells, checked for syntax and integer
/// ranges only.
pub open spec fn date_from_text(s: Seq<char>, delim: char) -> Option<Date> {
    let (a, b, c) = split3(s, delim);
    match (parse_i32_spec(a), b) {
        (Some(y), Some(b)) => match parse_u32_spec(b) {
            Some(m) => match c {
                None => Some(Date { year: y, month: m, day: None }),
                Some(c) => match parse_u32_spec(c) {
                    Some(d) => Some(Date { year: y, month: m, day: Some(d) }),
                    None => None,
                },
            },
            None => None,
        },
        _ => None,
    }
}

/// The date that a text spells, if it spells one and the calendar has it.
pub open spec fn checked_date(s: Seq<char>, delim: char) -> Result<Date, LetterError> {
    match date_from_text(s, delim) {
        Some(d) => if d.is_valid() {
            Ok(d)
        } else {
            Err(LetterError::InvalidDate)
        },
        None => Err(LetterError::InvalidDate),
    }
}

impl Date {
    /// Whether the date names a month, and a day if it has one, of the calendar.
    pub open spec fn is_valid(self) -> bool {
        valid_ymd(
            self.year as int,
            self.month as int,
            match self.day {
                Some(d) => d as int,
                None => 1,
            },
        )
    }

    /// `YEAR-MM-DD`, or `YEAR-MM` without a day.
    pub open spec fn text(self) -> Seq<char> {
        match self.day {
            Some(d) => ymd_text(self.year as int, self.month as int, d as int),
            None => ym_text(self.year as int, self.month as int),
        }
    }

    /// What the date is written as: its text when valid, else nothing.
    pub open spec fn display(self) -> Seq<char> {
        if self.is_valid() {
            self.text()
        } else {
            Seq::empty()
        }
    }

    /// Reads `YEAR<delim>MONTH[<delim>DAY]` from `v[lo..hi]`.
    pub fn parse_in(v: &Vec<char>, lo: usize, hi: usize, delim: char) -> (r: Option<Date>)
        requires
            lo <= hi <= v.len(),
        ensures
            r == date_from_text(v@.subrange(lo as int, hi as int), delim),
    {
        let ghost s = v@.subrange(lo as int, hi as int);
        match find_in(v, lo, hi, delim) {
            None => None,
            Some(i) => {
                let year = parse_i32_in(v, lo, i);
                assert(s.subrange(0, i - lo) =~= v@.subrange(lo as int, i as int));
                let ghost rest = s.subrange(i - lo + 1, s.len() as int);
                assert(rest =~= v@.subrange(i + 1, hi as int));
                let year = match year {
                    Some(y) => y,
                    None => {
                        return None;
                    },
                };
                match find_in(v, i + 1, hi, delim) {
                    None => {
                        match parse_u32_in(v, i + 1, hi) {
                            Some(m) => Some(Date { year, month: m, day: None }),
                            None => None,
                        }
                    },
                    Some(j) => {
                        assert(rest.subrange(0, j - i - 1) =~= v@.subrange(i + 1, j as int));
                        assert(rest.subrange(j - i, rest.len() as int) =~= v@.subrange(
                            j + 1,
                            hi as int,
                        ));
                        let month = match parse_u32_in(v, i + 1, j) {
                            Some(m) => m,
                            None => {
                                return None;
                            },
                        };
                        match parse_u32_in(v, j + 1, hi) {
                            Some(d) => Some(Date { year, month, day: Some(d) }),
                            None => None,
                        }
                    },
                }
            },
        }
    }

    /// Reads `YEAR<delim>MONTH[<delim>DAY]`, which must name a month, or a day, of the
    /// calendar.
    pub fn parse(s: &str, delim: char) -> (r: Result<Date, LetterError>)
        ensures
            r == checked_date(s@, delim),
            r matches Ok(d) ==> d.is_valid(),
    {
        let v = chars_of(s);
        assert(v@.subrange(0, v@.len() as int) =~= s@);
        match Date::parse_in(&v, 0, v.len(), delim) {
            Some(d) => {
                if d.check_valid() {
                    Ok(d)
                } else {
                    Err(LetterError::InvalidDate)
                }
            },
            None => Err(LetterError::InvalidDate),
        }
    }

    /// Reads a date as a subject writes it, `YEAR/MM[/DD]`.
    pub fn from_subject(s: &str) -> (r: Result<Date, LetterError>)
        ensures
            r == checked_date(s@, '/'),
            r matches Ok(d) ==> d.is_valid(),
    {
        Date::parse(s, '/')
    }

    /// Reads a date as a file name writes it, `YEAR-MM[-DD]`.
    pub fn from_filename(s: &str) -> (r: Result<Date, LetterError>)
        ensures
            r == checked_date(s@, '-'),
            r matches Ok(d) ==> d.is_valid(),
    {
        Date::parse(s, '-')
    }

    /// Whether the date is one of the calendar.
    pub fn check_valid(&self) -> (r: bool)
        ensures
            r == self.is_valid(),
    {
        let d = match self.day {
            Some(d) => d,
            None => 1,
        };
        chrono_ymd_text(self.year, self.month, d).is_some()
    }

    /// The date as text: `YEAR-MM-DD`, or `YEAR-MM` without a day; empty if it is not a
    /// date of the calendar.
    pub fn to_text(&self) -> (r: String)
        ensures
            r@ == self.display(),
    {
        let d = match self.day {
            Some(d) => d,
            None => 1,
        };
        match chrono_ymd_text(self.year, self.month, d) {
            None => String::new(),
            Some(s) => {
                match self.day {
                    Some(_) => s,
                    None => {
                        proof {
                            lemma_padded_two(d as nat);
                        }
                        let v = chars_of(s.as_str());
                        assert(v@.subrange(0, v@.len() - 3) =~= ym_text(
                            self.year as int,
                            self.month as int,
                        ));
                        string_of(&v, 0, v.len() - 3)
                    },
                }
            },
        }
    }
}

pub proof fn lemma_decimal_small(n: nat)
    requires
        n < 100,
    ensures
        n < 10 ==> decimal(n) == seq![digit_char(n as int)],
        n >= 10 ==> decimal(n) == seq![digit_char((n / 10) as int), digit_char((n % 10) as int)],
{
    reveal_with_fuel(decimal, 2);
    if n >= 10 {
        assert(decimal(n) =~= seq![digit_char((n / 10) as int), digit_char((n % 10) as int)]);
    }
}

pub proof fn lemma_padded_two(n: nat)
    requires
        n < 100,
    ensures
        padded(n, 2).len() == 2,
{
    lemma_decimal_small(n);
}


/// The characters that a date's text is made of.
pub open spec fn date_char(c: char) -> bool {
    is_digit(c) || c == '+' || c == '-'
}

pub open spec fn date_chars(s: Seq<char>) -> bool {
    forall|i: int| 0 <= i < s.len() ==> date_char(#[trigger] s[i])
}

proof fn lemma_padded_reads(n: nat, w: nat)
    requires
        n <= u32::MAX,
    ensures
        parse_u32_spec(padded(n, w)) == Some(n as u32),
        find_char(padded(n, w), '-') is None,
        date_chars(padded(n, w)),
{
    lemma_padded(n, w);
    lemma_unsigned_digits(padded(n, w));
    lemma_find_digits(padded(n, w), '-');
}

proof fn lemma_year_reads(y: int)
    requires
        0 <= y <= MAX_YEAR,
    ensures
        parse_i32_spec(year_text(y)) == Some(y as i32),
        find_char(year_text(y), '-') is None,
        date_chars(year_text(y)),
{
    if y <= 9999 {
        lemma_padded(y as nat, 4);
        lemma_unsigned_digits(padded(y as nat, 4));
        lemma_find_digits(padded(y as nat, 4), '-');
    } else {
        let d = decimal(y as nat);
        lemma_decimal(y as nat);
        let s = seq!['+'] + d;
        assert(s.drop_first() =~= d);
        lemma_find_digits(d, '-');
        lemma_find_concat(seq!['+'], d, '-');
        lemma_find_absent(seq!['+'], '-');
        assert forall|i: int| 0 <= i < s.len() implies date_char(#[trigger] s[i]) by {
            if i > 0 {
                assert(s[i] == d[i - 1]);
            }
        }
    }
}

proof fn lemma_dash_joined(a: Seq<char>, b: Seq<char>)
    requires
        find_char(a, '-') is None,
    ensures
        find_char(a + seq!['-'] + b, '-') == Some(a.len() as int),
        (a + seq!['-'] + b).subrange(0, a.len() as int) == a,
        (a + seq!['-'] + b).subrange(a.len() as int + 1, (a + seq!['-'] + b).len() as int) == b,
{
    let x = seq!['-'] + b;
    assert(a + seq!['-'] + b =~= a + x);
    lemma_find_concat(a, x, '-');
    assert((a + x).subrange(0, a.len() as int) =~= a);
    assert((a + x).subrange(a.len() as int + 1, (a + x).len() as int) =~= b);
}

proof fn lemma_date_chars_join(a: Seq<char>, b: Seq<char>)
    requires
        date_chars(a),
        date_chars(b),
    ensures
        date_chars(a + seq!['-'] + b),
{
    let s = a + seq!['-'] + b;
    assert forall|i: int| 0 <= i < s.len() implies date_char(#[trigger] s[i]) by {
        if i < a.len() {
            assert(s[i] == a[i]);
        } else if i > a.len() {
            assert(s[i] == b[i - a.len() - 1]);
        }
    }
}

/// A date of the calendar from year 0 on reads back from its text.
pub proof fn lemma_date_text_reads(d: Date)
    requires
        d.is_valid(),
        d.year >= 0,
    ensures
        date_from_text(d.text(), '-') == Some(d),
        date_chars(d.text()),
{
    let y = year_text(d.year as int);
    let m = padded(d.month as nat, 2);
    lemma_year_reads(d.year as int);
    lemma_padded_reads(d.month as nat, 2);
    lemma_dash_joined(y, m);
    lemma_date_chars_join(y, m);
    match d.day {
        Some(dd) => {
            let dt = padded(dd as nat, 2);
            lemma_padded_reads(dd as nat, 2);
            let rest = m + seq!['-'] + dt;
            lemma_dash_joined(m, dt);
            lemma_dash_joined(y, rest);
            lemma_date_chars_join(m, dt);
            lemma_date_chars_join(y, rest);
            assert(d.text() =~= y + seq!['-'] + rest);
        },
        None => {},
    }
}

} // verus!
