use acari::date::{resolve_last_month, resolve_last_week, resolve_month, resolve_week, Date, DateRange};
use acari::query::{DateSpan, Day};

fn d(year: i32, month: u32, day: u32) -> Date {
    Date { year, month, day }
}

#[test]
fn date_text_is_zero_padded() {
    assert_eq!(d(2020, 3, 4).to_string(), "2020-03-04");
    assert_eq!(d(5, 1, 1).to_string(), "0005-01-01");
    assert_eq!(d(-1, 12, 31).to_string(), "-0001-12-31");
    assert_eq!(d(12345, 6, 7).to_string(), "+12345-06-07");
}

#[test]
fn weeks_start_on_monday() {
    for day in 2..=8 {
        assert_eq!(resolve_week(d(2020, 3, day)).start, d(2020, 3, 2));
    }
    assert_eq!(resolve_week(d(2020, 3, 9)).start, d(2020, 3, 9));
}

#[test]
fn steps_cross_month_and_year() {
    assert_eq!(Day::Yesterday.resolve(d(2020, 3, 1)), d(2020, 2, 29));
    assert_eq!(Day::Yesterday.resolve(d(2021, 1, 1)), d(2020, 12, 31));
    assert_eq!(Day::Yesterday.resolve(d(2019, 3, 1)), d(2019, 2, 28));
    assert_eq!(resolve_week(d(2020, 12, 30)).end, d(2021, 1, 3));
}

#[test]
fn week_spans_are_monday_to_sunday() {
    assert_eq!(resolve_week(d(2020, 3, 4)), DateRange { start: d(2020, 3, 2), end: d(2020, 3, 8) });
    assert_eq!(resolve_week(d(2021, 1, 1)), DateRange { start: d(2020, 12, 28), end: d(2021, 1, 3) });
    assert_eq!(resolve_last_week(d(2020, 3, 4)), DateRange { start: d(2020, 2, 24), end: d(2020, 3, 1) });
    assert_eq!(resolve_last_week(d(2020, 3, 2)), DateRange { start: d(2020, 2, 24), end: d(2020, 3, 1) });
    assert_eq!(resolve_last_week(d(2021, 1, 6)), DateRange { start: d(2020, 12, 28), end: d(2021, 1, 3) });
}

#[test]
fn month_spans() {
    assert_eq!(resolve_month(d(2020, 2, 10)), DateRange { start: d(2020, 2, 1), end: d(2020, 2, 29) });
    assert_eq!(resolve_month(d(2021, 12, 31)), DateRange { start: d(2021, 12, 1), end: d(2021, 12, 31) });
    assert_eq!(resolve_last_month(d(2020, 3, 15)), DateRange { start: d(2020, 2, 1), end: d(2020, 2, 29) });
}

#[test]
fn last_month_on_new_year_is_december() {
    for year in [1999, 2000, 2024, 2100] {
        let r = DateSpan::LastMonth.resolve(d(year, 1, 1));
        assert_eq!(r, DateRange { start: d(year - 1, 12, 1), end: d(year - 1, 12, 31) });
    }
}

#[test]
fn day_resolution() {
    let today = d(2020, 3, 1);
    assert_eq!(Day::Today.resolve(today), today);
    assert_eq!(Day::Yesterday.resolve(today), d(2020, 2, 29));
    assert_eq!(Day::Date(d(2019, 7, 7)).resolve(today), d(2019, 7, 7));
    assert_eq!(
        DateSpan::Day(Day::Yesterday).resolve(today),
        DateRange { start: d(2020, 2, 29), end: d(2020, 2, 29) }
    );
    assert_eq!(
        DateSpan::FromTo(d(2020, 1, 1), d(2020, 1, 31)).resolve(today),
        DateRange { start: d(2020, 1, 1), end: d(2020, 1, 31) }
    );
}

#[test]
fn resolving_at_a_clock_date() {
    assert_eq!(Day::Yesterday.resolve_at(d(2020, 3, 1)), Some(d(2020, 2, 29)));
    assert_eq!(Day::Today.resolve_at(d(2020, 3, 1)), Some(d(2020, 3, 1)));
    assert_eq!(Day::Today.resolve_at(d(acari::date::MIN_YEAR, 1, 1)), None);
    assert_eq!(Day::Date(d(2019, 7, 7)).resolve_at(d(acari::date::MAX_YEAR, 12, 31)), None);
}

#[test]
fn today_is_a_real_date() {
    let t = Day::Today.as_date().unwrap();
    assert_eq!(Day::Date(d(2019, 7, 7)).as_date(), Some(d(2019, 7, 7)));
    assert!((1..=12).contains(&t.month));
    assert!((1..=31).contains(&t.day));
}
