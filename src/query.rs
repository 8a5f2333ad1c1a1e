//! Days and date spans as a user names them, and the concrete dates they
//! resolve to.

use crate::date::{
    day_before, month_before, month_of, parse_date, parsed_ymd, prev_day,
    resolve_last_month, resolve_last_week, resolve_month, resolve_week, week_before, week_of,
    lemma_last_month_of_new_year, today, Date, DateRange, MAX_YEAR, MIN_YEAR,
};
use crate::error::AcariError;
use crate::text::{chars_of, contains_char, find_char, first_at, lemma_first_at_unique, push_str, same_text};
use vstd::prelude::*;

verus! {

/// A single day: today, yesterday, or a given date.
#[derive(Debug, Clone, Copy, PartialEq, Eq, Structural)]
pub enum Day {
    Today,
    Yesterday,
    Date(Date),
}

/// A span of days to query.
#[derive(Debug, Clone, Copy, PartialEq, Eq, Structural)]
pub enum DateSpan {
    ThisWeek,
    LastWeek,
    ThisMonth,
    LastMonth,
    Day(Day),
    FromTo(Date, Date),
}

/// What `str::to_lowercase` makes of a text.
pub uninterp spec fn lower_of(s: Seq<char>) -> Seq<char>;

/// Relies on str::to_lowercase: the result depends on the characters alone.
#[verifier::external_body]
fn lowercase(s: &str) -> (r: String)
    ensures
        r@ == lower_of(s@),
{
    s.to_lowercase()
}

/// The date that `day` names, seen from `today`.
pub open spec fn day_date(day: Day, today: Date) -> Date {
    match day {
        Day::Today => today,
        Day::Yesterday => prev_day(today),
        Day::Date(d) => d,
    }
}

/// The dates that `span` covers, seen from `today`.
pub open spec fn span_range(span: DateSpan, today: Date) -> DateRange {
    match span {
        DateSpan::ThisWeek => week_of(today),
        DateSpan::LastWeek => week_before(today),
        DateSpan::ThisMonth => month_of(today),
        DateSpan::LastMonth => month_before(today),
        DateSpan::Day(day) => DateRange { start: day_date(day, today), end: day_date(day, today) },
        DateSpan::FromTo(from, to) => DateRange { start: from, end: to },
    }
}

pub open spec fn date_of_ymd(ymd: (int, int, int)) -> Date {
    Date { year: ymd.0 as i32, month: ymd.1 as u32, day: ymd.2 as u32 }
}

/// The keywords for a day, in lower case.
pub open spec fn day_word(t: Seq<char>) -> Option<Day> {
    if t == "today"@ || t == "now"@ {
        Some(Day::Today)
    } else if t == "yesterday"@ {
        Some(Day::Yesterday)
    } else {
        None
    }
}

/// The keywords for a span of several days, in lower case.
pub open spec fn span_word(t: Seq<char>) -> Option<DateSpan> {
    if t == "this-week"@ || t == "week"@ {
        Some(DateSpan::ThisWeek)
    } else if t == "last-week"@ {
        Some(DateSpan::LastWeek)
    } else if t == "this-month"@ || t == "month"@ {
        Some(DateSpan::ThisMonth)
    } else if t == "last-month"@ {
        Some(DateSpan::LastMonth)
    } else {
        None
    }
}

/// The user's error for a text that names no day or span: it quotes the
/// text `shown`.
pub open spec fn is_invalid_date(e: AcariError, shown: Seq<char>) -> bool {
    e matches AcariError::UserError(m) && m@ == "Invalid date or span: "@ + shown
}

/// `r` is what reading the lower-case text `t` as a day gives: a keyword,
/// else a `YYYY-MM-DD` date, else the user's error quoting `shown`.
pub open spec fn reads_as_day(t: Seq<char>, shown: Seq<char>, r: Result<Day, AcariError>) -> bool {
    match day_word(t) {
        Some(d) => r == Ok::<Day, AcariError>(d),
        None => match parsed_ymd(t) {
            Some(ymd) => r == Ok::<Day, AcariError>(Day::Date(date_of_ymd(ymd))),
            None => r is Err && is_invalid_date(r->Err_0, shown),
        },
    }
}

/// `r` is what reading the lower-case text `t` as a span gives: a keyword,
/// else two dates around the first `/`, else a single day; else the user's
/// error quoting `shown`.
pub open spec fn reads_as_span(t: Seq<char>, shown: Seq<char>, r: Result<DateSpan, AcariError>) -> bool {
    match span_word(t) {
        Some(sp) => r == Ok::<DateSpan, AcariError>(sp),
        None => if contains_char(t, '/') {
            let i = choose|i: int| first_at(t, '/', i);
            match (parsed_ymd(t.subrange(0, i)), parsed_ymd(t.subrange(i + 1, t.len() as int))) {
                (Some(a), Some(b)) => r == Ok::<DateSpan, AcariError>(
                    DateSpan::FromTo(date_of_ymd(a), date_of_ymd(b)),
                ),
                _ => r is Err && is_invalid_date(r->Err_0, shown),
            }
        } else {
            match day_word(t) {
                Some(d) => r == Ok::<DateSpan, AcariError>(DateSpan::Day(d)),
                None => match parsed_ymd(t) {
                    Some(ymd) => r == Ok::<DateSpan, AcariError>(
                        DateSpan::Day(Day::Date(date_of_ymd(ymd))),
                    ),
                    None => r is Err && is_invalid_date(r->Err_0, shown),
                },
            }
        },
    }
}

fn invalid_date(shown: &str) -> (e: AcariError)
    ensures
        is_invalid_date(e, shown@),
{
    let mut m = String::from_str("Invalid date or span: ");
    push_str(&mut m, shown);
    AcariError::UserError(m)
}

fn read_date(t: &str) -> (r: Option<Date>)
    ensures
        match parsed_ymd(t@) {
            Some(ymd) => r == Some(date_of_ymd(ymd)) && r->Some_0.wf(),
            None => r is None,
        },
{
    match parse_date(t) {
        Ok(d) => Some(d),
        Err(_) => None,
    }
}

/// What `day` names, seen from a clock that reads `t`: nothing where `t` is
/// at the edge of the representable years.
pub open spec fn resolved_at(day: Day, t: Date) -> Option<Date> {
    if t.inner() {
        Some(day_date(day, t))
    } else {
        None
    }
}

impl Day {
    /// Reads a day from lower-case text: `today`, `now`, `yesterday` or
    /// `YYYY-MM-DD`.
    pub fn from_lowercase(t: &str) -> (r: Result<Day, AcariError>)
        ensures
            reads_as_day(t@, t@, r),
    {
        proof {
            reveal_strlit("today");
            reveal_strlit("now");
            reveal_strlit("yesterday");
        }
        if same_text(t, "today") || same_text(t, "now") {
            Ok(Day::Today)
        } else if same_text(t, "yesterday") {
            Ok(Day::Yesterday)
        } else {
            match read_date(t) {
                Some(d) => Ok(Day::Date(d)),
                None => Err(invalid_date(t)),
            }
        }
    }

    /// Reads a day from text in any case; an error quotes the text as given.
    pub fn parse(s: &str) -> (r: Result<Day, AcariError>)
        ensures
            reads_as_day(lower_of(s@), s@, r),
    {
        let t = lowercase(s);
        match Day::from_lowercase(t.as_str()) {
            Ok(d) => Ok(d),
            Err(_) => Err(invalid_date(s)),
        }
    }

    /// The date this day names, seen from a clock that reads `t`.
    pub fn resolve_at(self, t: Date) -> (r: Option<Date>)
        requires
            t.wf(),
        ensures
            r == resolved_at(self, t),
    {
        if MIN_YEAR < t.year && t.year < MAX_YEAR {
            Some(self.resolve(t))
        } else {
            None
        }
    }

    /// The date this day names, seen from the local clock.
    pub fn as_date(self) -> (r: Option<Date>)
        ensures
            self matches Day::Date(d) ==> r == Some(d),
            !(self is Date) ==> exists|t: Date| t.wf() && r == resolved_at(self, t),
    {
        if let Day::Date(d) = self {
            return Some(d);
        }
        let t = today();
        self.resolve_at(t)
    }

    /// The date this day names, seen from `today`.
    pub fn resolve(self, today: Date) -> (r: Date)
        requires
            today.inner(),
        ensures
            r == day_date(self, today),
    {
        match self {
            Day::Today => today,
            Day::Yesterday => day_before(today),
            Day::Date(d) => d,
        }
    }
}

impl DateSpan {
    /// Reads a span from lower-case text: a keyword (`this-week`, `week`,
    /// `last-week`, `this-month`, `month`, `last-month`), two dates joined by
    /// `/`, or a single day.
    pub fn from_lowercase(t: &str) -> (r: Result<DateSpan, AcariError>)
        ensures
            reads_as_span(t@, t@, r),
    {
        proof {
            reveal_strlit("this-week");
            reveal_strlit("week");
            reveal_strlit("last-week");
            reveal_strlit("this-month");
            reveal_strlit("month");
            reveal_strlit("last-month");
        }
        if same_text(t, "this-week") || same_text(t, "week") {
            return Ok(DateSpan::ThisWeek);
        } else if same_text(t, "last-week") {
            return Ok(DateSpan::LastWeek);
        } else if same_text(t, "this-month") || same_text(t, "month") {
            return Ok(DateSpan::ThisMonth);
        } else if same_text(t, "last-month") {
            return Ok(DateSpan::LastMonth);
        }
        let cs = chars_of(t);
        let i = find_char(cs.as_slice(), '/');
        if i < cs.len() {
            proof {
                let k = choose|k: int| first_at(t@, '/', k);
                lemma_first_at_unique(t@, '/', i as int, k);
            }
            let from = match read_date(t.substring_char(0, i)) {
                Some(d) => d,
                None => {
                    return Err(invalid_date(t));
                },
            };
            let to = match read_date(t.substring_char(i + 1, cs.len())) {
                Some(d) => d,
                None => {
                    return Err(invalid_date(t));
                },
            };
            Ok(DateSpan::FromTo(from, to))
        } else {
            match Day::from_lowercase(t) {
                Ok(d) => Ok(DateSpan::Day(d)),
                Err(e) => Err(e),
            }
        }
    }

    /// Reads a span from text in any case; an error quotes the text as given.
    pub fn parse(s: &str) -> (r: Result<DateSpan, AcariError>)
        ensures
            reads_as_span(lower_of(s@), s@, r),
    {
        let t = lowercase(s);
        match DateSpan::from_lowercase(t.as_str()) {
            Ok(sp) => Ok(sp),
            Err(_) => Err(invalid_date(s)),
        }
    }

    /// The first and last date of this span, seen from `today`.
    pub fn resolve(&self, today: Date) -> (r: DateRange)
        requires
            today.inner(),
        ensures
            r == span_range(*self, today),
    {
        match self {
            DateSpan::ThisWeek => resolve_week(today),
            DateSpan::LastWeek => resolve_last_week(today),
            DateSpan::ThisMonth => resolve_month(today),
            DateSpan::LastMonth => resolve_last_month(today),
            DateSpan::Day(day) => {
                let d = day.resolve(today);
                DateRange { start: d, end: d }
            },
            DateSpan::FromTo(from, to) => DateRange { start: *from, end: *to },
        }
    }
}

impl From<Date> for Day {
    fn from(d: Date) -> (r: Day)
        ensures
            r == Day::Date(d),
    {
        Day::Date(d)
    }
}

impl vstd::std_specs::convert::FromSpecImpl<Date> for Day {
    open spec fn obeys_from_spec() -> bool {
        true
    }

    open spec fn from_spec(d: Date) -> Day {
        Day::Date(d)
    }
}

impl From<Day> for DateSpan {
    fn from(day: Day) -> (r: DateSpan)
        ensures
            r == DateSpan::Day(day),
    {
        DateSpan::Day(day)
    }
}

impl vstd::std_specs::convert::FromSpecImpl<Day> for DateSpan {
    open spec fn obeys_from_spec() -> bool {
        true
    }

    open spec fn from_spec(day: Day) -> DateSpan {
        DateSpan::Day(day)
    }
}

impl core::str::FromStr for Day {
    type Err = AcariError;

    fn from_str(s: &str) -> Result<Day, AcariError> {
        Day::parse(s)
    }
}

impl core::str::FromStr for DateSpan {
    type Err = AcariError;

    fn from_str(s: &str) -> Result<DateSpan, AcariError> {
        DateSpan::parse(s)
    }
}

/// On a first of January, "last month" is the whole December before it.
pub proof fn lemma_last_month_from_new_year(today: Date)
    requires
        today.inner(),
        today.month == 1,
        today.day == 1,
    ensures
        span_range(DateSpan::LastMonth, today).start == (Date {
            year: (today.year - 1) as i32,
            month: 12,
            day: 1,
        }),
        span_range(DateSpan::LastMonth, today).end == (Date {
            year: (today.year - 1) as i32,
            month: 12,
            day: 31,
        }),
{
    lemma_last_month_of_new_year(today);
}

} // verus!
