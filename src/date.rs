//! Calendar dates of the proleptic Gregorian calendar, as year, month and
//! day, with the few calendar steps that span resolution needs.

use crate::text::{padded, push_char, push_padded};
use chrono::Datelike;
use vstd::prelude::*;

verus! {

#[verifier::external_type_specification]
#[verifier::external_body]
pub struct ExChronoParseError(chrono::format::ParseError);

/// First year that a date can have.
pub const MIN_YEAR: i32 = -262143;

/// Last year that a date can have.
pub const MAX_YEAR: i32 = 262142;

/// A calendar date.
#[derive(Debug, Clone, Copy, PartialEq, Eq, Structural, Hash)]
pub struct Date {
    pub year: i32,
    pub month: u32,
    pub day: u32,
}

pub open spec fn is_leap_year(y: int) -> bool {
    (y % 4 == 0 && y % 100 != 0) || y % 400 == 0
}

pub open spec fn days_in_month(y: int, m: int) -> int {
    if m == 2 {
        if is_leap_year(y) {
            29
        } else {
            28
        }
    } else if m == 4 || m == 6 || m == 9 || m == 11 {
        30
    } else {
        31
    }
}

/// Days from 0001-01-01 to the first of January of year `y`.
pub open spec fn days_before_year(y: int) -> int {
    365 * (y - 1) + (y - 1) / 4 - (y - 1) / 100 + (y - 1) / 400
}

/// Days from the first of January of year `y` to the first of month `m`.
pub open spec fn days_before_month(y: int, m: int) -> int
    decreases m,
{
    if m <= 1 {
        0
    } else {
        days_before_month(y, m - 1) + days_in_month(y, m - 1)
    }
}

/// Days from 0001-01-01 (a Monday) to `d`.
pub open spec fn day_number(d: Date) -> int {
    days_before_year(d.year as int) + days_before_month(d.year as int, d.month as int) + d.day - 1
}

/// Day of the week: 0 for Monday up to 6 for Sunday.
pub open spec fn weekday_of(d: Date) -> int {
    day_number(d) % 7
}

pub open spec fn first_date() -> Date {
    Date { year: MIN_YEAR, month: 1, day: 1 }
}

pub open spec fn last_date() -> Date {
    Date { year: MAX_YEAR, month: 12, day: 31 }
}

/// The calendar day before `d`.
pub open spec fn prev_day(d: Date) -> Date {
    if d.day > 1 {
        Date { year: d.year, month: d.month, day: (d.day - 1) as u32 }
    } else if d.month > 1 {
        Date {
            year: d.year,
            month: (d.month - 1) as u32,
            day: days_in_month(d.year as int, d.month - 1) as u32,
        }
    } else {
        Date { year: (d.year - 1) as i32, month: 12, day: 31 }
    }
}

/// The calendar day after `d`.
pub open spec fn next_day(d: Date) -> Date {
    if d.day < days_in_month(d.year as int, d.month as int) {
        Date { year: d.year, month: d.month, day: (d.day + 1) as u32 }
    } else if d.month < 12 {
        Date { year: d.year, month: (d.month + 1) as u32, day: 1 }
    } else {
        Date { year: (d.year + 1) as i32, month: 1, day: 1 }
    }
}

/// `n` days before `d`.
pub open spec fn days_back(d: Date, n: nat) -> Date
    decreases n,
{
    if n == 0 {
        d
    } else {
        prev_day(days_back(d, (n - 1) as nat))
    }
}

/// `n` days after `d`.
pub open spec fn days_forward(d: Date, n: nat) -> Date
    decreases n,
{
    if n == 0 {
        d
    } else {
        next_day(days_forward(d, (n - 1) as nat))
    }
}

pub open spec fn first_of_month(d: Date) -> Date {
    Date { year: d.year, month: d.month, day: 1 }
}

pub open spec fn last_of_month(d: Date) -> Date {
    Date { year: d.year, month: d.month, day: days_in_month(d.year as int, d.month as int) as u32 }
}

/// `YYYY-MM-DD`; a year outside 0..=9999 carries its sign and at least four digits.
pub open spec fn date_text(d: Date) -> Seq<char> {
    let y = d.year as int;
    let year = if 0 <= y <= 9999 {
        padded(y as nat, 4)
    } else if y < 0 {
        seq!['-'] + padded((-y) as nat, 4)
    } else {
        seq!['+'] + padded(y as nat, 4)
    };
    year.push('-') + padded(d.month as nat, 2).push('-') + padded(d.day as nat, 2)
}

/// What chrono reads from a text in the `%Y-%m-%d` format: year, month and day.
pub uninterp spec fn parsed_ymd(s: Seq<char>) -> Option<(int, int, int)>;

impl Date {
    /// A real date within the years that can be represented.
    pub open spec fn wf(self) -> bool {
        &&& MIN_YEAR <= self.year <= MAX_YEAR
        &&& 1 <= self.month <= 12
        &&& 1 <= self.day <= days_in_month(self.year as int, self.month as int)
    }

    /// A date whose neighbourhood of a year on both sides can be represented.
    pub open spec fn inner(self) -> bool {
        &&& self.wf()
        &&& MIN_YEAR < self.year < MAX_YEAR
    }

    /// The `YYYY-MM-DD` text of this date.
    pub fn to_string(&self) -> (r: String)
        ensures
            r@ == date_text(*self),
    {
        let mut r = String::new();
        if 0 <= self.year && self.year <= 9999 {
            push_padded(&mut r, self.year as u64, 4);
        } else if self.year < 0 {
            push_char(&mut r, '-');
            push_padded(&mut r, (-(self.year as i64)) as u64, 4);
        } else {
            push_char(&mut r, '+');
            push_padded(&mut r, self.year as u64, 4);
        }
        push_char(&mut r, '-');
        push_padded(&mut r, self.month as u64, 2);
        push_char(&mut r, '-');
        push_padded(&mut r, self.day as u64, 2);
        assert(r@ =~= date_text(*self));
        r
    }
}

pub proof fn lemma_prev_day_wf(d: Date)
    requires
        d.wf(),
        d != first_date(),
    ensures
        prev_day(d).wf(),
{
}

pub proof fn lemma_next_day_wf(d: Date)
    requires
        d.wf(),
        d != last_date(),
    ensures
        next_day(d).wf(),
{
}

proof fn lemma_days_back_add(d: Date, a: nat, b: nat)
    ensures
        days_back(days_back(d, a), b) == days_back(d, a + b),
    decreases b,
{
    if b > 0 {
        lemma_days_back_add(d, a, (b - 1) as nat);
        assert(days_back(d, a + b) == prev_day(days_back(d, (a + b - 1) as nat)));
    }
}

/// The local calendar date now.
/// Relies on chrono's Local::now: the current date in the local time zone.
#[verifier::external_body]
pub(crate) fn today() -> (r: Date)
    ensures
        r.wf(),
{
    let d = chrono::Local::now().date_naive();
    Date { year: d.year(), month: d.month(), day: d.day() }
}

/// The day before, if it can be represented.
/// Relies on chrono's NaiveDate::pred_opt: the previous calendar date, none
/// before the first representable date.
#[verifier::external_body]
fn chrono_pred(d: Date) -> (r: Option<Date>)
    requires
        d.wf(),
    ensures
        d == first_date() ==> r is None,
        d != first_date() ==> r == Some(prev_day(d)),
{
    let nd = chrono::NaiveDate::from_ymd_opt(d.year, d.month, d.day).unwrap();
    nd.pred_opt().map(|p| Date { year: p.year(), month: p.month(), day: p.day() })
}

/// The day after, if it can be represented.
/// Relies on chrono's NaiveDate::succ_opt: the next calendar date, none
/// after the last representable date.
#[verifier::external_body]
fn chrono_succ(d: Date) -> (r: Option<Date>)
    requires
        d.wf(),
    ensures
        d == last_date() ==> r is None,
        d != last_date() ==> r == Some(next_day(d)),
{
    let nd = chrono::NaiveDate::from_ymd_opt(d.year, d.month, d.day).unwrap();
    nd.succ_opt().map(|p| Date { year: p.year(), month: p.month(), day: p.day() })
}

/// Day of the week, counted from Monday.
/// Relies on chrono's Weekday::num_days_from_monday of the date's weekday.
#[verifier::external_body]
pub(crate) fn weekday_index(d: Date) -> (r: u32)
    requires
        d.wf(),
    ensures
        r == weekday_of(d),
{
    let nd = chrono::NaiveDate::from_ymd_opt(d.year, d.month, d.day).unwrap();
    nd.weekday().num_days_from_monday()
}

/// Reads a `YYYY-MM-DD` date.
/// Relies on chrono's NaiveDate::parse_from_str with the format `%Y-%m-%d`.
#[verifier::external_body]
pub(crate) fn parse_date(s: &str) -> (r: Result<Date, chrono::format::ParseError>)
    ensures
        r is Ok <==> parsed_ymd(s@) is Some,
        r is Ok ==> r->Ok_0.wf() && parsed_ymd(s@) == Some(
            (r->Ok_0.year as int, r->Ok_0.month as int, r->Ok_0.day as int),
        ),
{
    chrono::NaiveDate::parse_from_str(s, "%Y-%m-%d").map(
        |p| Date { year: p.year(), month: p.month(), day: p.day() },
    )
}

/// The day before `d`.
pub fn day_before(d: Date) -> (r: Date)
    requires
        d.wf(),
        d != first_date(),
    ensures
        r == prev_day(d),
        r.wf(),
{
    proof {
        lemma_prev_day_wf(d);
    }
    match chrono_pred(d) {
        Some(p) => p,
        None => {
            proof {
                assert(false);
            }
            d
        },
    }
}

/// The day after `d`.
pub fn day_after(d: Date) -> (r: Date)
    requires
        d.wf(),
        d != last_date(),
    ensures
        r == next_day(d),
        r.wf(),
{
    proof {
        lemma_next_day_wf(d);
    }
    match chrono_succ(d) {
        Some(p) => p,
        None => {
            proof {
                assert(false);
            }
            d
        },
    }
}

/// `n` days before `d`, for a short distance.
pub(crate) fn step_back(d: Date, n: u32) -> (r: Date)
    requires
        d.wf(),
        d.year > MIN_YEAR,
        n <= 20,
    ensures
        r == days_back(d, n as nat),
        r.wf(),
        d.year - 1 <= r.year <= d.year,
        r.year == d.year - 1 ==> r.month == 12 && r.day + n >= 31,
{
    let mut cur = d;
    let mut i: u32 = 0;
    while i < n
        invariant
            d.wf(),
            d.year > MIN_YEAR,
            n <= 20,
            i <= n,
            cur == days_back(d, i as nat),
            cur.wf(),
            d.year - 1 <= cur.year <= d.year,
            cur.year == d.year - 1 ==> cur.month == 12 && cur.day + i >= 31,
        decreases n - i,
    {
        cur = day_before(cur);
        i = i + 1;
    }
    cur
}

/// `n` days after `d`, for a short distance.
pub(crate) fn step_forward(d: Date, n: u32) -> (r: Date)
    requires
        d.wf(),
        d.year < MAX_YEAR,
        n <= 20,
    ensures
        r == days_forward(d, n as nat),
        r.wf(),
        d.year <= r.year <= d.year + 1,
        r.year == d.year + 1 ==> r.month == 1 && r.day <= n,
{
    let mut cur = d;
    let mut i: u32 = 0;
    while i < n
        invariant
            d.wf(),
            d.year < MAX_YEAR,
            n <= 20,
            i <= n,
            cur == days_forward(d, i as nat),
            cur.wf(),
            d.year <= cur.year <= d.year + 1,
            cur.year == d.year + 1 ==> cur.month == 1 && cur.day <= i,
        decreases n - i,
    {
        cur = day_after(cur);
        i = i + 1;
    }
    cur
}

proof fn lemma_days_before_year_step(y: int)
    ensures
        days_before_year(y) == days_before_year(y - 1) + if is_leap_year(y - 1) { 366int } else { 365int },
{
    let x = y - 1;
    assert(x / 4 - (x - 1) / 4 == if x % 4 == 0 { 1int } else { 0int });
    assert(x / 100 - (x - 1) / 100 == if x % 100 == 0 { 1int } else { 0int });
    assert(x / 400 - (x - 1) / 400 == if x % 400 == 0 { 1int } else { 0int });
}

proof fn lemma_days_before_december(y: int)
    ensures
        days_before_month(y, 12) + 31 == if is_leap_year(y) { 366int } else { 365int },
{
    reveal_with_fuel(days_before_month, 12);
}

/// The day before has the day number one less.
pub proof fn lemma_prev_day_number(d: Date)
    requires
        d.wf(),
        d != first_date(),
    ensures
        day_number(prev_day(d)) == day_number(d) - 1,
{
    if d.day == 1 && d.month == 1 {
        lemma_days_before_year_step(d.year as int);
        lemma_days_before_december(d.year - 1);
    }
}

/// The day after has the day number one more.
pub proof fn lemma_next_day_number(d: Date)
    requires
        d.wf(),
        d != last_date(),
    ensures
        day_number(next_day(d)) == day_number(d) + 1,
{
    if d.day == days_in_month(d.year as int, d.month as int) && d.month == 12 {
        lemma_days_before_year_step(d.year + 1);
        lemma_days_before_december(d.year as int);
    }
}

proof fn lemma_days_back_number(d: Date, n: nat)
    requires
        d.wf(),
        d.year > MIN_YEAR,
        n <= 20,
    ensures
        days_back(d, n).wf(),
        day_number(days_back(d, n)) == day_number(d) - n,
        d.year - 1 <= days_back(d, n).year <= d.year,
        days_back(d, n).year == d.year - 1 ==> days_back(d, n).month == 12 && days_back(d, n).day + n >= 31,
    decreases n,
{
    if n > 0 {
        lemma_days_back_number(d, (n - 1) as nat);
        let p = days_back(d, (n - 1) as nat);
        lemma_prev_day_wf(p);
        lemma_prev_day_number(p);
    }
}

proof fn lemma_days_forward_number(d: Date, n: nat)
    requires
        d.wf(),
        d.year < MAX_YEAR,
        n <= 20,
    ensures
        days_forward(d, n).wf(),
        day_number(days_forward(d, n)) == day_number(d) + n,
        d.year <= days_forward(d, n).year <= d.year + 1,
        days_forward(d, n).year == d.year + 1 ==> days_forward(d, n).month == 1 && days_forward(d, n).day <= n,
    decreases n,
{
    if n > 0 {
        lemma_days_forward_number(d, (n - 1) as nat);
        let p = days_forward(d, (n - 1) as nat);
        lemma_next_day_wf(p);
        lemma_next_day_number(p);
    }
}

/// A span of days, both ends included.
#[derive(Debug, Clone, Copy, PartialEq, Eq, Structural)]
pub struct DateRange {
    pub start: Date,
    pub end: Date,
}

/// The Monday-to-Sunday week that holds `d`.
pub open spec fn week_of(d: Date) -> DateRange {
    let monday = days_back(d, weekday_of(d) as nat);
    DateRange { start: monday, end: days_forward(monday, 6) }
}

/// The week before the one that holds `d`.
pub open spec fn week_before(d: Date) -> DateRange {
    let sunday = days_back(d, (weekday_of(d) + 1) as nat);
    week_of(sunday)
}

pub open spec fn month_of(d: Date) -> DateRange {
    DateRange { start: first_of_month(d), end: last_of_month(d) }
}

/// The month before the one that holds `d`.
pub open spec fn month_before(d: Date) -> DateRange {
    month_of(prev_day(first_of_month(d)))
}

/// The week of a date runs from a Monday to the Sunday six days later, and
/// holds the date.
pub proof fn lemma_week_of_is_monday_to_sunday(d: Date)
    requires
        d.inner(),
    ensures
        weekday_of(week_of(d).start) == 0,
        day_number(week_of(d).end) == day_number(week_of(d).start) + 6,
        day_number(week_of(d).start) <= day_number(d) <= day_number(week_of(d).end),
{
    let w = weekday_of(d);
    lemma_days_back_number(d, w as nat);
    let monday = days_back(d, w as nat);
    lemma_days_forward_number(monday, 6);
    let n = day_number(d);
    assert((n - n % 7) % 7 == 0) by (nonlinear_arith);
}

/// The week before a date's week runs from a Monday to a Sunday, and ends
/// the day before the date's week starts.
pub proof fn lemma_week_before_is_previous_week(d: Date)
    requires
        d.inner(),
    ensures
        weekday_of(week_before(d).start) == 0,
        day_number(week_before(d).end) == day_number(week_before(d).start) + 6,
        day_number(week_before(d).end) + 1 == day_number(week_of(d).start),
{
    let n = day_number(d);
    let w = weekday_of(d);
    lemma_days_back_number(d, (w + 1) as nat);
    lemma_days_back_number(d, w as nat);
    let sunday = days_back(d, (w + 1) as nat);
    assert(weekday_of(sunday) == 6) by {
        assert((n - n % 7 - 1) % 7 == 6) by (nonlinear_arith);
    }
    lemma_days_back_add(d, (w + 1) as nat, 6);
    lemma_days_back_number(d, (w + 7) as nat);
    let monday = days_back(d, (w + 7) as nat);
    assert(week_before(d).start == monday);
    lemma_days_forward_number(monday, 6);
    assert((n - n % 7 - 7) % 7 == 0) by (nonlinear_arith);
}

/// The week that holds `d`: Monday to Sunday.
pub fn resolve_week(d: Date) -> (r: DateRange)
    requires
        d.inner(),
    ensures
        r == week_of(d),
{
    let w = weekday_index(d);
    let monday = step_back(d, w);
    let sunday = step_forward(monday, 6);
    DateRange { start: monday, end: sunday }
}

/// The week before the one that holds `d`.
pub fn resolve_last_week(d: Date) -> (r: DateRange)
    requires
        d.inner(),
    ensures
        r == week_before(d),
{
    let w = weekday_index(d);
    let sunday = step_back(d, w + 1);
    let ws = weekday_index(sunday);
    let monday = step_back(d, w + 1 + ws);
    proof {
        lemma_days_back_add(d, (w + 1) as nat, ws as nat);
    }
    let end = step_forward(monday, 6);
    DateRange { start: monday, end }
}

/// The first to the last day of the month that holds `d`: the day before
/// the first of the next month closes it.
pub fn resolve_month(d: Date) -> (r: DateRange)
    requires
        d.wf(),
        d.year < MAX_YEAR,
    ensures
        r == month_of(d),
{
    let start = Date { year: d.year, month: d.month, day: 1 };
    let next = if d.month == 12 {
        Date { year: d.year + 1, month: 1, day: 1 }
    } else {
        Date { year: d.year, month: d.month + 1, day: 1 }
    };
    let end = day_before(next);
    DateRange { start, end }
}

/// The month before the one that holds `d`: the month of the day before the
/// first of this month.
pub fn resolve_last_month(d: Date) -> (r: DateRange)
    requires
        d.inner(),
    ensures
        r == month_before(d),
{
    let first = Date { year: d.year, month: d.month, day: 1 };
    let last_of_previous = day_before(first);
    resolve_month(last_of_previous)
}

/// The month before any first of January is the December of the year before.
pub proof fn lemma_last_month_of_new_year(d: Date)
    requires
        d.inner(),
        d.month == 1,
        d.day == 1,
    ensures
        month_before(d) == (DateRange {
            start: Date { year: (d.year - 1) as i32, month: 12, day: 1 },
            end: Date { year: (d.year - 1) as i32, month: 12, day: 31 },
        }),
{
}

} // verus!
