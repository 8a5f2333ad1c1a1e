use acari::date::Date;
use acari::error::AcariError;
use acari::everhour::{
    build_time_entry_id, created_entry, customers_from_projects, minutes_from_seconds, parse_time_entry_id,
    seconds_from_minutes, stopped_tracker, tracker_from_timer, EverhourCurrency, EverhourProject, EverhourTask,
    EverhourTeam, EverhourTimeEntry, EverhourTimer, EverhourUser, EverhourUserSimple,
};
use acari::ids::Id;
use acari::minutes::Minutes;
use acari::mite::{
    customers_in, date_span_query_param, merge_tracker, response_error, time_entries_in, MiteEntity,
    MiteTracker, MiteTrackingTimeEntry,
};
use acari::model::{Customer, TimeEntry, Timestamp};
use acari::query::{DateSpan, Day};

fn d(year: i32, month: u32, day: u32) -> Date {
    Date { year, month, day }
}

fn ts(year: i32, month: u32, day: u32, seconds: u32) -> Timestamp {
    Timestamp { date: d(year, month, day), seconds, nanos: 0 }
}

fn entry(id: u64, minutes: u32) -> TimeEntry {
    TimeEntry {
        id: Id::Num(id),
        date_at: d(2015, 10, 16),
        minutes: Minutes(minutes),
        customer_id: Id::Num(3213),
        customer_name: "König".to_string(),
        project_id: Id::Num(88309),
        project_name: "API v2".to_string(),
        service_id: Id::Num(12984),
        service_name: "Entwurf".to_string(),
        user_id: Id::Num(211),
        user_name: "Fridolin Frei".to_string(),
        note: "Feedback einarbeiten".to_string(),
        billable: true,
        locked: false,
        created_at: ts(2015, 10, 16, 12 * 3600),
    }
}

fn project(id: &str, workspace: &str, workspace_name: &str, status: &str, created: Timestamp) -> EverhourProject {
    EverhourProject {
        id: Id::Str(id.to_string()),
        name: format!("Project {}", id),
        workspace_id: Id::Str(workspace.to_string()),
        workspace_name: workspace_name.to_string(),
        status: status.to_string(),
        created_at: created,
    }
}

fn everhour_user() -> EverhourUser {
    EverhourUser {
        id: Id::Num(12345),
        name: "August Ausgedacht".to_string(),
        email: "august.ausgedacht@demo.de".to_string(),
        status: "active".to_string(),
        role: "member".to_string(),
        headline: "".to_string(),
        is_suspended: false,
        team: EverhourTeam {
            id: Id::Num(1234),
            name: "Demo GmbH".to_string(),
            currency_details: EverhourCurrency { code: "EUR".to_string(), name: "Euro".to_string() },
            created_at: ts(2021, 1, 14, 18 * 3600 + 59 * 60 + 59),
        },
        created_at: ts(2021, 1, 29, 12 * 3600 + 50),
    }
}

fn task(id: &str, projects: Vec<Id>) -> EverhourTask {
    EverhourTask {
        id: Id::Str(id.to_string()),
        name: "Task 1".to_string(),
        status: "open".to_string(),
        iteration: "Untitled section".to_string(),
        projects,
        created_at: ts(2021, 1, 18, 0),
    }
}

#[test]
fn ids_encode_and_decode() {
    assert_eq!(Id::Num(42).str_encoded(), "n42");
    assert_eq!(Id::Str("as:1".to_string()).str_encoded(), "sas:1");
    assert_eq!(Id::parse_encoded("n42").unwrap(), Id::Num(42));
    assert_eq!(Id::parse_encoded("sas:1").unwrap(), Id::Str("as:1".to_string()));
    assert_eq!(Id::parse_encoded("s").unwrap(), Id::Str(String::new()));
    assert!(matches!(Id::parse_encoded("x1"), Err(AcariError::InternalError(_))));
    assert!(matches!(Id::parse_encoded(""), Err(AcariError::InternalError(_))));
    assert!(matches!(
        Id::parse_encoded("nabc"),
        Err(AcariError::ParseNum(acari::text::NumberError::InvalidDigit))
    ));
    assert!(matches!(Id::parse_encoded("n"), Err(AcariError::ParseNum(acari::text::NumberError::Empty))));
    assert!(matches!(
        Id::parse_encoded("n18446744073709551616"),
        Err(AcariError::ParseNum(acari::text::NumberError::TooLarge))
    ));
}

#[test]
fn ids_in_paths_and_text() {
    assert_eq!(Id::Str("as:12345".to_string()).path_encoded(), "as%3A12345");
    assert_eq!(Id::Str("a b/ä".to_string()).path_encoded(), "a%20b%2F%C3%A4");
    assert_eq!(Id::Num(52324).path_encoded(), "52324");
    assert_eq!(Id::Num(7).to_string(), "7");
    assert_eq!(Id::Str("as:7".to_string()).to_string(), "as:7");
    assert!(Id::Num(7) != Id::Str("7".to_string()));
}

#[test]
fn composite_entry_ids_round_trip() {
    let id = build_time_entry_id(&Id::Num(12345), &Id::Str("as:123451234".to_string()), &d(2021, 1, 18));
    assert_eq!(id, Id::Str("n12345|sas:123451234|2021-01-18".to_string()));
    let (user, task, date) = parse_time_entry_id(&id).unwrap();
    assert_eq!(user, Id::Num(12345));
    assert_eq!(task, Id::Str("as:123451234".to_string()));
    assert_eq!(date, d(2021, 1, 18));
}

#[test]
fn malformed_composite_ids_are_internal_errors() {
    assert!(matches!(parse_time_entry_id(&Id::Num(5)), Err(AcariError::InternalError(_))));
    assert!(matches!(parse_time_entry_id(&Id::Str("n1|s2".to_string())), Err(AcariError::InternalError(_))));
    assert!(matches!(
        parse_time_entry_id(&Id::Str("n1|s2|2021-01-18|x".to_string())),
        Err(AcariError::InternalError(_))
    ));
    assert!(matches!(parse_time_entry_id(&Id::Str("n1|s2|2021-13-01".to_string())), Err(AcariError::InternalError(_))));
    assert!(matches!(parse_time_entry_id(&Id::Str("nabc|s2|2021-01-01".to_string())), Err(AcariError::InternalError(_))));
    assert!(matches!(parse_time_entry_id(&Id::Str("n1|n|2021-01-01".to_string())), Err(AcariError::InternalError(_))));
    assert!(matches!(parse_time_entry_id(&Id::Str("q1|s2|2021-01-01".to_string())), Err(AcariError::InternalError(_))));
}

#[test]
fn durations_travel_in_seconds() {
    assert_eq!(minutes_from_seconds(5400), Minutes(90));
    assert_eq!(minutes_from_seconds(119), Minutes(1));
    assert_eq!(seconds_from_minutes(Minutes(90)), 5400);
    assert_eq!(seconds_from_minutes(Minutes(u32::MAX)), u32::MAX as u64 * 60);
}

#[test]
fn customers_are_synthesized_from_workspaces() {
    let projects = vec![
        project("as:12345", "as:54321", "Workspace 1", "archived", ts(2021, 1, 14, 0)),
        project("as:12346", "as:54322", "Workspace 2", "open", ts(2021, 1, 15, 0)),
        project("as:12347", "as:54321", "Workspace 1", "archived", ts(2021, 1, 16, 0)),
        project("as:12348", "as:54322", "Workspace 2", "archived", ts(2021, 1, 10, 0)),
    ];
    let customers: Vec<Customer> = customers_from_projects(&projects);
    assert_eq!(customers.len(), 2);
    assert_eq!(customers[0].id, Id::Str("as:54321".to_string()));
    assert_eq!(customers[0].name, "Workspace 1");
    assert!(customers[0].archived);
    assert_eq!(customers[0].created_at, ts(2021, 1, 14, 0));
    assert_eq!(customers[1].id, Id::Str("as:54322".to_string()));
    assert!(!customers[1].archived);
    assert_eq!(customers[1].created_at, ts(2021, 1, 10, 0));
    assert!(customers_from_projects(&vec![]).is_empty());
}

#[test]
fn everhour_conversions() {
    let user = everhour_user();
    let account = user.to_account();
    assert_eq!(account.id, Id::Num(1234));
    assert_eq!(account.title, "Demo GmbH");
    assert_eq!(account.currency, "EUR");
    let me = user.to_user();
    assert_eq!(me.id, Id::Num(12345));
    assert_eq!(me.language, "");
    let p = project("as:12345", "as:54321", "Workspace 1", "open", ts(2021, 1, 14, 0));
    assert!(!p.to_project().archived);
    assert_eq!(p.to_project().customer_name, "Workspace 1");
    let service = task("as:123451234", vec![]).to_service();
    assert!(service.billable && !service.archived);
    assert_eq!(service.note, "Untitled section");
}

#[test]
fn booked_time_becomes_an_entry() {
    let user = everhour_user();
    let projects = vec![project("as:12345", "as:54321", "Workspace 1", "open", ts(2021, 1, 14, 0))];
    let booked = EverhourTimeEntry {
        date: d(2021, 1, 18),
        comment: "work".to_string(),
        task: Some(task("as:1", vec![Id::Str("as:999".to_string()), Id::Str("as:12345".to_string())])),
        time: Minutes(90),
        user: Id::Num(12345),
        is_locked: true,
        created_at: ts(2021, 1, 18, 100),
    };
    let e = booked.clone().into_entry(&projects, &user).unwrap();
    assert_eq!(e.id, Id::Str("n12345|sas:1|2021-01-18".to_string()));
    assert_eq!(e.project_id, Id::Str("as:12345".to_string()));
    assert_eq!(e.customer_name, "Workspace 1");
    assert_eq!(e.minutes, Minutes(90));
    assert!(e.locked && e.billable);
    let unplaced = EverhourTimeEntry { task: Some(task("as:1", vec![Id::Str("as:999".to_string())])), ..booked.clone() };
    assert!(unplaced.clone().into_entry(&projects, &user).is_none());
    assert!(matches!(created_entry(unplaced, &projects, &user), Err(AcariError::InternalError(_))));
    let no_task = EverhourTimeEntry { task: None, ..booked };
    assert!(no_task.into_entry(&projects, &user).is_none());
}

#[test]
fn running_timer_becomes_the_tracked_entry() {
    let started = ts(2021, 1, 25, 3600);
    let timer = EverhourTimer {
        status: "active".to_string(),
        task: Some(task("as:1", vec![Id::Str("as:12345".to_string())])),
        user: Some(EverhourUserSimple { id: Id::Num(7), name: "A".to_string(), email: "a@b".to_string() }),
        duration: Minutes(12),
        started_at: started,
        comment: None,
    };
    assert_eq!(timer.project_to_fetch(), Some(Id::Str("as:12345".to_string())));
    let p = project("as:12345", "as:54321", "Workspace 1", "open", ts(2021, 1, 14, 0));
    let e = timer.to_entry(Some(&p)).unwrap();
    assert_eq!(e.id, Id::Str("n7|sas:1|2021-01-25".to_string()));
    assert_eq!(e.project_name, p.name);
    assert_eq!(e.note, "");
    let bare = timer.to_entry(None).unwrap();
    assert_eq!(bare.project_id, Id::Num(0));
    let tracker = tracker_from_timer(started, Some(e.clone()));
    assert_eq!(tracker.since, Some(started));
    assert!(tracker.tracking_time_entry.is_some() && tracker.stopped_time_entry.is_none());
    let stopped = stopped_tracker(Some(e));
    assert!(stopped.tracking_time_entry.is_none() && stopped.stopped_time_entry.is_some());

    let idle = EverhourTimer { status: "stopped".to_string(), ..timer };
    assert!(idle.project_to_fetch().is_none());
    assert!(idle.to_entry(Some(&p)).is_none());
    let tracker = tracker_from_timer(started, None);
    assert!(tracker.since.is_none() && tracker.tracking_time_entry.is_none() && tracker.stopped_time_entry.is_none());
}

#[test]
fn everhour_queries_name_dates() {
    let today = d(2020, 3, 4);
    assert_eq!(acari::everhour::date_span_query_param(&DateSpan::ThisWeek, today), "from=2020-03-02&to=2020-03-08");
    assert_eq!(acari::everhour::date_span_query_param(&DateSpan::LastMonth, today), "from=2020-02-01&to=2020-02-29");
    assert_eq!(
        acari::everhour::date_span_query_param(&DateSpan::Day(Day::Yesterday), today),
        "from=2020-03-03&to=2020-03-03"
    );
    assert_eq!(acari::everhour::day_query_param(&Day::Today, today), "2020-03-04");
    let record = acari::everhour::create_record(Day::Yesterday, today, &Id::Num(5), Minutes(30), None);
    assert_eq!(record.date, d(2020, 3, 3));
    let (task_id, update) =
        acari::everhour::update_record(&Id::Str("n5|sas:9|2020-03-01".to_string()), Minutes(45), Some("x".to_string()))
            .unwrap();
    assert_eq!(task_id, Id::Str("as:9".to_string()));
    assert_eq!(update.user, Id::Num(5));
    assert_eq!(update.date, d(2020, 3, 1));
    assert_eq!(update.time, Minutes(45));
}

#[test]
fn mite_queries_use_keywords() {
    assert_eq!(date_span_query_param(&DateSpan::ThisWeek), "at=this_week");
    assert_eq!(date_span_query_param(&DateSpan::LastWeek), "at=last_week");
    assert_eq!(date_span_query_param(&DateSpan::ThisMonth), "at=this_month");
    assert_eq!(date_span_query_param(&DateSpan::LastMonth), "at=last_month");
    assert_eq!(date_span_query_param(&DateSpan::Day(Day::Today)), "at=today");
    assert_eq!(date_span_query_param(&DateSpan::Day(Day::Date(d(2015, 10, 16)))), "at=2015-10-16");
    assert_eq!(
        date_span_query_param(&DateSpan::FromTo(d(2015, 10, 1), d(2015, 10, 31))),
        "from=2015-10-01&to=2015-10-31"
    );
    assert_eq!(acari::mite::day_query_param(&Day::Yesterday), "yesterday");
}

#[test]
fn mite_tracker_with_tracking_entry_only() {
    let since = ts(2015, 10, 15, 15 * 3600 + 5 * 60 + 4);
    let tracker = MiteTracker {
        tracking_time_entry: Some(MiteTrackingTimeEntry { id: Id::Num(36135321), minutes: Minutes(247), since: Some(since) }),
        stopped_time_entry: None,
    };
    let merged = merge_tracker(tracker, Some(entry(36135321, 10)), None);
    assert_eq!(merged.since, Some(since));
    let tracking = merged.tracking_time_entry.unwrap();
    assert_eq!(tracking.minutes, Minutes(247));
    assert_eq!(tracking.note, "Feedback einarbeiten");
    assert!(merged.stopped_time_entry.is_none());
}

#[test]
fn mite_tracker_with_stopped_entry_only() {
    let tracker = MiteTracker {
        tracking_time_entry: None,
        stopped_time_entry: Some(MiteTrackingTimeEntry { id: Id::Num(36135322), minutes: Minutes(46), since: None }),
    };
    let merged = merge_tracker(tracker, None, Some(entry(36135322, 46)));
    assert!(merged.since.is_none());
    assert!(merged.tracking_time_entry.is_none());
    assert_eq!(merged.stopped_time_entry.unwrap().id, Id::Num(36135322));
}

#[test]
fn mite_lists_keep_the_requested_kind() {
    let list = vec![
        MiteEntity::TimeEntry(entry(1, 10)),
        MiteEntity::Error("x".to_string()),
        MiteEntity::TimeEntry(entry(2, 20)),
    ];
    let entries = time_entries_in(&list);
    assert_eq!(entries.len(), 2);
    assert_eq!(entries[1].id, Id::Num(2));
    assert!(customers_in(&list).is_empty());
}

#[test]
fn failed_answers_become_backend_errors() {
    assert!(acari::mite::is_success(200) && acari::mite::is_success(201) && !acari::mite::is_success(404));
    match response_error(422, Some((422, "Invalid".to_string())), "422 Unprocessable Entity".to_string()) {
        AcariError::Mite(code, msg) => assert_eq!((code, msg.as_str()), (422, "Invalid")),
        other => panic!("{:?}", other),
    }
    match response_error(500, None, "500 Internal Server Error".to_string()) {
        AcariError::Mite(code, msg) => assert_eq!((code, msg.as_str()), (500, "500 Internal Server Error")),
        other => panic!("{:?}", other),
    }
}
