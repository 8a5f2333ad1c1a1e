use acari::date::Date;
use acari::minutes::Minutes;
use acari::query::{DateSpan, Day};

#[test]
fn test_parse_minutes() {
    assert_eq!("123".parse::<Minutes>().unwrap(), Minutes(123));
    assert_eq!("0:40".parse::<Minutes>().unwrap(), Minutes(40));
    assert_eq!("5:35".parse::<Minutes>().unwrap(), Minutes(5 * 60 + 35));
}

#[test]
fn test_parse_day() {
    assert_eq!(Day::Today, "today".parse::<Day>().unwrap());
    assert_eq!(Day::Today, "now".parse::<Day>().unwrap());
    assert_eq!(Day::Yesterday, "yesterday".parse::<Day>().unwrap());
    assert_eq!(
        Day::Date(Date { year: 2020, month: 3, day: 4 }),
        "2020-03-04".parse::<Day>().unwrap()
    );
}

#[test]
fn test_parse_datespan() {
    assert_eq!(DateSpan::Day(Day::Today), "today".parse::<DateSpan>().unwrap());
    assert_eq!(DateSpan::Day(Day::Today), "now".parse::<DateSpan>().unwrap());
    assert_eq!(DateSpan::Day(Day::Yesterday), "yesterday".parse::<DateSpan>().unwrap());
    assert_eq!(
        DateSpan::Day(Day::Date(Date { year: 2020, month: 3, day: 4 })),
        "2020-03-04".parse::<DateSpan>().unwrap()
    );
    assert_eq!(DateSpan::ThisWeek, "this-week".parse::<DateSpan>().unwrap());
    assert_eq!(DateSpan::LastWeek, "last-week".parse::<DateSpan>().unwrap());
    assert_eq!(DateSpan::ThisMonth, "this-month".parse::<DateSpan>().unwrap());
    assert_eq!(DateSpan::LastMonth, "last-month".parse::<DateSpan>().unwrap());
}

#[test]
fn minutes_display_is_hours_and_two_digit_minutes() {
    assert_eq!(Minutes(90).to_string(), "1:30");
    assert_eq!(Minutes(5).to_string(), "0:05");
    assert_eq!(Minutes(0).to_string(), "0:00");
    assert_eq!(Minutes(1500).to_string(), "25:00");
}

#[test]
fn minutes_hours_form_round_trips() {
    for text in ["0:00", "1:30", "7:05", "23:59", "100:01"] {
        let m = Minutes::parse(text).unwrap();
        assert_eq!(m.to_string(), text);
    }
}

#[test]
fn minutes_bare_number_keeps_value() {
    let m = Minutes::parse("0090").unwrap();
    assert_eq!(m, Minutes(90));
    assert_eq!(Minutes::parse(&m.to_string()).unwrap(), m);
    assert_eq!(Minutes::parse("+15").unwrap(), Minutes(15));
}

#[test]
fn minutes_rejects_bad_text() {
    for text in ["", "abc", "1:60", "1:", ":30", "4294967296", "1:2:3", "-5"] {
        match Minutes::parse(text) {
            Err(acari::error::AcariError::UserError(_)) => {}
            other => panic!("{} gave {:?}", text, other),
        }
    }
    match Minutes::parse("1:75") {
        Err(acari::error::AcariError::UserError(msg)) => assert_eq!(msg, "No more than 60 minutes per hour"),
        other => panic!("{:?}", other),
    }
    match Minutes::parse("x") {
        Err(acari::error::AcariError::UserError(msg)) => {
            assert_eq!(msg, "Invalid time format: invalid digit found in string")
        }
        other => panic!("{:?}", other),
    }
}

#[test]
fn minutes_sum_and_checked_add() {
    assert_eq!(Minutes(30).checked_add(Minutes(45)), Some(Minutes(75)));
    assert_eq!(Minutes(u32::MAX).checked_add(Minutes(1)), None);
    assert_eq!(Minutes::sum(&[Minutes(10), Minutes(20), Minutes(30)]), Some(Minutes(60)));
    assert_eq!(Minutes::sum(&[]), Some(Minutes(0)));
    assert_eq!(Minutes::sum(&[Minutes(u32::MAX), Minutes(1)]), None);
}

#[test]
fn day_parse_ignores_case() {
    assert_eq!(Day::parse("TODAY").unwrap(), Day::Today);
    assert_eq!(Day::parse("Yesterday").unwrap(), Day::Yesterday);
    assert_eq!(DateSpan::parse("Last-Month").unwrap(), DateSpan::LastMonth);
    assert_eq!(DateSpan::parse("WEEK").unwrap(), DateSpan::ThisWeek);
    assert_eq!(DateSpan::parse("month").unwrap(), DateSpan::ThisMonth);
}

#[test]
fn date_span_range_form() {
    assert_eq!(
        DateSpan::parse("2020-03-01/2020-03-15").unwrap(),
        DateSpan::FromTo(Date { year: 2020, month: 3, day: 1 }, Date { year: 2020, month: 3, day: 15 })
    );
    assert!(matches!(
        DateSpan::parse("2020-03-01/someday"),
        Err(acari::error::AcariError::UserError(_))
    ));
}

#[test]
fn bad_dates_are_date_format_errors() {
    match Day::parse("2020-02-30") {
        Err(acari::error::AcariError::UserError(msg)) => assert_eq!(msg, "Invalid date or span: 2020-02-30"),
        other => panic!("{:?}", other),
    }
    match Day::parse("Tomorrow") {
        Err(acari::error::AcariError::UserError(msg)) => assert_eq!(msg, "Invalid date or span: Tomorrow"),
        other => panic!("{:?}", other),
    }
    match DateSpan::parse("Next-Week") {
        Err(acari::error::AcariError::UserError(msg)) => assert_eq!(msg, "Invalid date or span: Next-Week"),
        other => panic!("{:?}", other),
    }
}
