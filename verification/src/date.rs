//! Calendar days.

use crate::text;
use chrono::{Datelike, NaiveDate};
use vstd::prelude::*;

verus! {

/// The first day: January 1 of the year -262143.
pub const MIN_DAY: i32 = -95_746_129;

/// The last day: December 31 of the year 262142.
pub const MAX_DAY: i32 = 95_745_399;

/// A day of the proleptic Gregorian calendar, counted from January 1 of the
/// year 1, which is day 1 and a Monday.
#[derive(Debug, Clone, Copy, PartialEq, Eq, PartialOrd, Ord, Structural)]
pub struct Date {
    days: i32,
}

/// Whether `n` is the number of a day.
pub open spec fn is_day(n: int) -> bool {
    MIN_DAY <= n <= MAX_DAY
}

/// The day of the week of day `n`, Monday being 0.
pub open spec fn weekday(n: int) -> int {
    (n - 1) % 7
}

/// Whether the year `y` has a February 29.
pub open spec fn is_leap(y: int) -> bool {
    y % 4 == 0 && (y % 100 != 0 || y % 400 == 0)
}

/// How many days the month `m` of the year `y` has.
pub open spec fn month_len(y: int, m: int) -> int {
    if m == 2 {
        if is_leap(y) {
            29
        } else {
            28
        }
    } else if m == 4 || m == 6 || m == 9 || m == 11 {
        30
    } else {
        31
    }
}

/// The number of the last day before the year `y`.
pub open spec fn days_before_year(y: int) -> int {
    365 * (y - 1) + (y - 1) / 4 - (y - 1) / 100 + (y - 1) / 400
}

/// How many days of the year `y` come before its month `m`.
pub open spec fn days_before_month(y: int, m: int) -> int
    decreases m,
{
    if m <= 1 {
        0
    } else {
        days_before_month(y, m - 1) + month_len(y, m - 1)
    }
}

/// Whether day `n` is day `d` of the month `m` of the year `y`.
pub open spec fn falls_on(n: int, y: int, m: int, d: int) -> bool {
    &&& 1 <= m <= 12
    &&& 1 <= d <= month_len(y, m)
    &&& n == days_before_year(y) + days_before_month(y, m) + d
}

/// The year, month and day of the month of day `n`.
pub open spec fn civil(n: int) -> (int, int, int) {
    choose|y: int, m: int, d: int| falls_on(n, y, m, d)
}

/// The short name of a day of the week.
pub open spec fn weekday_name(w: int) -> Seq<char> {
    if w == 0 {
        "Mon"@
    } else if w == 1 {
        "Tue"@
    } else if w == 2 {
        "Wed"@
    } else if w == 3 {
        "Thu"@
    } else if w == 4 {
        "Fri"@
    } else if w == 5 {
        "Sat"@
    } else {
        "Sun"@
    }
}

/// The short name of a month.
pub open spec fn month_name(m: int) -> Seq<char> {
    if m == 1 {
        "Jan"@
    } else if m == 2 {
        "Feb"@
    } else if m == 3 {
        "Mar"@
    } else if m == 4 {
        "Apr"@
    } else if m == 5 {
        "May"@
    } else if m == 6 {
        "Jun"@
    } else if m == 7 {
        "Jul"@
    } else if m == 8 {
        "Aug"@
    } else if m == 9 {
        "Sep"@
    } else if m == 10 {
        "Oct"@
    } else if m == 11 {
        "Nov"@
    } else {
        "Dec"@
    }
}

/// `n` in decimal, with zeros in front up to `width` digits.
pub open spec fn zero_padded(n: nat, width: nat) -> Seq<char> {
    let digits = text::decimal(n);
    if digits.len() < width {
        text::repeated('0', (width - digits.len()) as nat) + digits
    } else {
        digits
    }
}

/// The year `y` in full: four digits or more, and a sign unless it lies between
/// 0 and 9999.
pub open spec fn year_text(y: int) -> Seq<char> {
    if y < 0 {
        "-"@ + zero_padded((-y) as nat, 4)
    } else if y <= 9999 {
        zero_padded(y as nat, 4)
    } else {
        "+"@ + zero_padded(y as nat, 4)
    }
}

/// How day `n` is written in headings, such as `Fri May 22`.
#[verifier::opaque]
pub open spec fn day_label(n: i32) -> Seq<char> {
    let (y, m, d) = civil(n as int);
    weekday_name(weekday(n as int)) + " "@ + month_name(m) + " "@ + text::decimal(d as nat)
}

/// How day `n` is written in full, such as `2026-05-22`.
#[verifier::opaque]
pub open spec fn day_iso(n: i32) -> Seq<char> {
    let (y, m, d) = civil(n as int);
    year_text(y) + "-"@ + zero_padded(m as nat, 2) + "-"@ + zero_padded(d as nat, 2)
}

/// A year is as long as its months together.
proof fn lemma_year_len(y: int)
    ensures
        days_before_year(y + 1) == days_before_year(y) + days_before_month(y, 12) + 31,
{
    lemma_last_month(y);
    lemma_quotient_step(y, 4);
    lemma_quotient_step(y, 100);
    lemma_quotient_step(y, 400);
    assert(y % 100 == 0 ==> y % 4 == 0);
    assert(y % 400 == 0 ==> y % 100 == 0);
}

/// December starts after the other eleven months.
proof fn lemma_last_month(y: int)
    ensures
        days_before_month(y, 12) == if is_leap(y) {
            335int
        } else {
            334
        },
{
    assert(days_before_month(y, 1) == 0);
    assert(days_before_month(y, 2) == 31);
    assert(days_before_month(y, 3) == 31 + month_len(y, 2));
    assert(days_before_month(y, 4) == 62 + month_len(y, 2));
    assert(days_before_month(y, 6) == 123 + month_len(y, 2)) by {
        assert(days_before_month(y, 5) == 92 + month_len(y, 2));
    }
    assert(days_before_month(y, 8) == 184 + month_len(y, 2)) by {
        assert(days_before_month(y, 7) == 153 + month_len(y, 2));
    }
    assert(days_before_month(y, 10) == 245 + month_len(y, 2)) by {
        assert(days_before_month(y, 9) == 215 + month_len(y, 2));
    }
    assert(days_before_month(y, 11) == 276 + month_len(y, 2));
}

/// Dividing by `k` steps up exactly at the multiples of `k`.
proof fn lemma_quotient_step(y: int, k: int)
    requires
        k == 4 || k == 100 || k == 400,
    ensures
        y / k == (y - 1) / k + if y % k == 0 {
            1int
        } else {
            0
        },
{
    if k == 4 {
        assert(y / 4 == (y - 1) / 4 + if y % 4 == 0 { 1int } else { 0 });
    } else if k == 100 {
        assert(y / 100 == (y - 1) / 100 + if y % 100 == 0 { 1int } else { 0 });
    } else {
        assert(y / 400 == (y - 1) / 400 + if y % 400 == 0 { 1int } else { 0 });
    }
}

/// A later year starts later.
proof fn lemma_years_in_order(y: int, z: int)
    requires
        y <= z,
    ensures
        days_before_year(y) <= days_before_year(z),
    decreases z - y,
{
}

/// A month ends before a later one of the year starts, and before the year ends.
proof fn lemma_months_in_order(y: int, m: int, k: int)
    requires
        1 <= m < k <= 12,
    ensures
        days_before_month(y, m) + month_len(y, m) <= days_before_month(y, k),
    decreases k,
{
    if m + 1 < k {
        lemma_months_in_order(y, m, k - 1);
    }
}

/// No day has two dates.
pub proof fn lemma_one_date(n: int, y: int, m: int, d: int, z: int, k: int, e: int)
    requires
        falls_on(n, y, m, d),
        falls_on(n, z, k, e),
    ensures
        y == z,
        m == k,
        d == e,
{
    lemma_inside_year(n, y, m, d);
    lemma_inside_year(n, z, k, e);
    if y < z {
        lemma_years_in_order(y + 1, z);
    } else if z < y {
        lemma_years_in_order(z + 1, y);
    } else if m < k {
        lemma_months_in_order(y, m, k);
    } else if k < m {
        lemma_months_in_order(y, k, m);
    }
}

/// A date lies between the ends of its year.
proof fn lemma_inside_year(n: int, y: int, m: int, d: int)
    requires
        falls_on(n, y, m, d),
    ensures
        days_before_year(y) < n <= days_before_year(y + 1),
{
    lemma_year_len(y);
    if m < 12 {
        lemma_months_in_order(y, m, 12);
    }
    lemma_month_starts(y, m);
}

/// No month starts before its year.
proof fn lemma_month_starts(y: int, m: int)
    ensures
        days_before_month(y, m) >= 0,
    decreases m,
{
    if m > 1 {
        lemma_month_starts(y, m - 1);
    }
}

/// Every day has a date, which `civil` gives.
pub proof fn lemma_has_date(n: int)
    ensures
        falls_on(n, civil(n).0, civil(n).1, civil(n).2),
    decreases if n > 0 {
        n
    } else {
        2 - n
    },
{
    reveal_with_fuel(days_before_month, 2);
    if n == 1 {
        assert(falls_on(1, 1, 1, 1));
    } else if n > 1 {
        lemma_has_date(n - 1);
        let (y, m, d) = civil(n - 1);
        if d < month_len(y, m) {
            assert(falls_on(n, y, m, d + 1));
        } else if m < 12 {
            assert(falls_on(n, y, m + 1, 1));
        } else {
            lemma_year_len(y);
            assert(falls_on(n, y + 1, 1, 1));
        }
    } else {
        lemma_has_date(n + 1);
        let (y, m, d) = civil(n + 1);
        if d > 1 {
            assert(falls_on(n, y, m, d - 1));
        } else if m > 1 {
            assert(falls_on(n, y, m - 1, month_len(y, m - 1)));
        } else {
            lemma_year_len(y - 1);
            assert(falls_on(n, y - 1, 12, 31));
        }
    }
}

impl View for Date {
    type V = i32;

    closed spec fn view(&self) -> i32 {
        self.days
    }
}

/// `chrono::NaiveDate::weekday`, counted from Monday.
#[verifier::external_body]
fn chrono_weekday(n: i32) -> (r: u32)
    requires
        is_day(n as int),
    ensures
        r == weekday(n as int),
{
    NaiveDate::from_num_days_from_ce_opt(n).unwrap().weekday().num_days_from_monday()
}

/// `chrono::NaiveDate::format` with `%a %b %-d`: the short names of the weekday
/// and of the month, and the day of the month without padding.
#[verifier::external_body]
fn chrono_label(n: i32) -> (r: String)
    requires
        is_day(n as int),
    ensures
        r@ == day_label(n),
{
    NaiveDate::from_num_days_from_ce_opt(n).unwrap().format("%a %b %-d").to_string()
}

/// `chrono::NaiveDate`'s `Display`: year, month and day of the month, padded
/// with zeros, the year signed outside 0 to 9999.
#[verifier::external_body]
fn chrono_iso(n: i32) -> (r: String)
    requires
        is_day(n as int),
    ensures
        r@ == day_iso(n),
{
    NaiveDate::from_num_days_from_ce_opt(n).unwrap().to_string()
}

impl Date {
    #[verifier::type_invariant]
    spec fn valid(self) -> bool {
        is_day(self.days as int)
    }

    /// The day numbered `n`.
    pub fn from_days(n: i32) -> (r: Option<Date>)
        ensures
            r is Some == is_day(n as int),
            r matches Some(d) ==> d@ == n,
    {
        if MIN_DAY <= n && n <= MAX_DAY {
            Some(Date { days: n })
        } else {
            None
        }
    }

    /// The number of the day.
    pub fn days(self) -> (r: i32)
        ensures
            r == self@,
            is_day(r as int),
    {
        proof {
            use_type_invariant(&self);
        }
        self.days
    }

    /// Whether two days are the same.
    pub fn same(self, other: Date) -> (r: bool)
        ensures
            r == (self@ == other@),
            r == (self == other),
    {
        self.days == other.days
    }

    /// The day `n` days later; `n` may be negative.
    pub fn plus(self, n: i64) -> (r: Date)
        requires
            is_day(self@ + n),
        ensures
            r@ == self@ + n,
    {
        proof {
            use_type_invariant(&self);
        }
        let days: i64 = self.days as i64 + n;
        Date { days: days as i32 }
    }

    /// The day before, unless there is none.
    pub fn pred(self) -> (r: Option<Date>)
        ensures
            r is Some == (self@ > MIN_DAY),
            r matches Some(d) ==> d@ == self@ - 1,
    {
        proof {
            use_type_invariant(&self);
        }
        Self::from_days(self.days - 1)
    }

    /// The day after, unless there is none.
    pub fn succ(self) -> (r: Option<Date>)
        ensures
            r is Some == (self@ < MAX_DAY),
            r matches Some(d) ==> d@ == self@ + 1,
    {
        proof {
            use_type_invariant(&self);
        }
        Self::from_days(self.days + 1)
    }

    /// The day of the week, Monday being 0.
    pub fn weekday(self) -> (r: u32)
        ensures
            r == weekday(self@ as int),
    {
        proof {
            use_type_invariant(&self);
        }
        chrono_weekday(self.days)
    }

    /// The day as headings show it.
    pub fn label(self) -> (r: String)
        ensures
            r@ == day_label(self@),
    {
        proof {
            use_type_invariant(&self);
        }
        chrono_label(self.days)
    }

    /// The day in full.
    pub fn iso(self) -> (r: String)
        ensures
            r@ == day_iso(self@),
    {
        proof {
            use_type_invariant(&self);
        }
        chrono_iso(self.days)
    }
}

// ---------------------------------------------------------------------------
// Laws
// ---------------------------------------------------------------------------

/// The days of the week follow one another, from Monday on, and the first day of the
/// year 1 is a Monday.
pub proof fn lemma_weekdays(n: int)
    ensures
        weekday(1) == 0,
        0 <= weekday(n) < 7,
        weekday(n + 1) == if weekday(n) == 6 {
            0
        } else {
            weekday(n) + 1
        },
        weekday(n + 7) == weekday(n),
{
}

/// The label of a date: the short names of the day of the week and of the month, and
/// the day of the month without padding.
pub proof fn lemma_label_of_date(n: i32, y: int, m: int, d: int)
    requires
        falls_on(n as int, y, m, d),
    ensures
        day_label(n) == seq![
            "Mon"@,
            "Tue"@,
            "Wed"@,
            "Thu"@,
            "Fri"@,
            "Sat"@,
            "Sun"@,
        ][weekday(n as int)] + " "@ + seq![
            "Jan"@,
            "Feb"@,
            "Mar"@,
            "Apr"@,
            "May"@,
            "Jun"@,
            "Jul"@,
            "Aug"@,
            "Sep"@,
            "Oct"@,
            "Nov"@,
            "Dec"@,
        ][m - 1] + " "@ + text::decimal(d as nat),
{
    reveal(day_label);
    lemma_has_date(n as int);
    let (z, k, e) = civil(n as int);
    lemma_one_date(n as int, y, m, d, z, k, e);
}

/// A date in full, for the years that have up to four digits: four digits of the year,
/// two of the month and two of the day, with dashes between.
pub proof fn lemma_iso_of_date(n: i32, y: int, m: int, d: int)
    requires
        falls_on(n as int, y, m, d),
        0 <= y <= 9999,
    ensures
        day_iso(n) == seq![
            text::digit((y / 1000) as nat),
            text::digit((y / 100 % 10) as nat),
            text::digit((y / 10 % 10) as nat),
            text::digit((y % 10) as nat),
            '-',
            text::digit((m / 10) as nat),
            text::digit((m % 10) as nat),
            '-',
            text::digit((d / 10) as nat),
            text::digit((d % 10) as nat),
        ],
{
    reveal(day_iso);
    reveal_strlit("-");
    lemma_has_date(n as int);
    let (z, k, e) = civil(n as int);
    lemma_one_date(n as int, y, m, d, z, k, e);
    lemma_four_digits(y as nat);
    lemma_two_digits(m as nat);
    lemma_two_digits(d as nat);
    assert(day_iso(n) =~= seq![
        text::digit((y / 1000) as nat),
        text::digit((y / 100 % 10) as nat),
        text::digit((y / 10 % 10) as nat),
        text::digit((y % 10) as nat),
        '-',
        text::digit((m / 10) as nat),
        text::digit((m % 10) as nat),
        '-',
        text::digit((d / 10) as nat),
        text::digit((d % 10) as nat),
    ]);
}

proof fn lemma_two_digits(n: nat)
    requires
        n < 100,
    ensures
        zero_padded(n, 2) == seq![text::digit(n / 10), text::digit(n % 10)],
{
    reveal_with_fuel(text::decimal, 3);
    assert(zero_padded(n, 2) =~= seq![text::digit(n / 10), text::digit(n % 10)]);
}

proof fn lemma_four_digits(n: nat)
    requires
        n < 10000,
    ensures
        zero_padded(n, 4) == seq![
            text::digit(n / 1000),
            text::digit(n / 100 % 10),
            text::digit(n / 10 % 10),
            text::digit(n % 10),
        ],
{
    reveal_with_fuel(text::decimal, 5);
    assert(n / 10 / 10 == n / 100 && n / 10 / 10 / 10 == n / 1000);
    assert(zero_padded(n, 4) =~= seq![
        text::digit(n / 1000),
        text::digit(n / 100 % 10),
        text::digit(n / 10 % 10),
        text::digit(n % 10),
    ]);
}

} // verus!
