use acari::cache::{cache_name, cache_root, clear_cache, CacheStep, CachedClient, Operation};
use acari::config::{default_cache_ttl, ClientType, Config, ProjectsCmd, Profile};
use acari::date::Date;
use acari::error::AcariError;
use acari::ids::Id;
use acari::minutes::Minutes;
use acari::model::{Customer, Project, TimeEntry, Timestamp, Tracker};
use acari::reconcile::{
    find_customer, find_project, find_service, plan_set, shown_entry, stop_step, EntryAction, Slot, StartCmd,
    StopStep,
};

fn d(year: i32, month: u32, day: u32) -> Date {
    Date { year, month, day }
}

fn at(seconds: u32) -> Timestamp {
    Timestamp { date: d(2024, 3, 4), seconds, nanos: 0 }
}

fn slot() -> Slot {
    Slot { date: d(2024, 3, 4), customer_id: Id::Num(1), project_id: Id::Num(2), service_id: Id::Num(3) }
}

fn entry(id: u64, date: Date, project: u64, minutes: u32, created: u32) -> TimeEntry {
    TimeEntry {
        id: Id::Num(id),
        date_at: date,
        minutes: Minutes(minutes),
        customer_id: Id::Num(1),
        customer_name: "acme".to_string(),
        project_id: Id::Num(project),
        project_name: "web".to_string(),
        service_id: Id::Num(3),
        service_name: "dev".to_string(),
        user_id: Id::Num(9),
        user_name: "me".to_string(),
        note: String::new(),
        billable: true,
        locked: false,
        created_at: at(created),
    }
}

/// A backend that keeps entries in memory and performs what a plan asks.
fn perform(backend: &mut Vec<TimeEntry>, plan: &[EntryAction], minutes: Minutes, next_id: &mut u64) {
    for action in plan {
        match action {
            EntryAction::Update(id) => {
                for e in backend.iter_mut().filter(|e| e.id == *id) {
                    e.minutes = minutes;
                }
            }
            EntryAction::Delete(id) => backend.retain(|e| e.id != *id),
            EntryAction::Create => {
                *next_id += 1;
                backend.push(entry(*next_id, d(2024, 3, 4), 2, minutes.0, 0));
            }
        }
    }
}

fn set(backend: &mut Vec<TimeEntry>, time: &str, next_id: &mut u64) {
    let minutes = Minutes::parse(time).unwrap();
    let plan = plan_set(backend, &slot());
    perform(backend, &plan, minutes, next_id);
}

#[test]
fn set_creates_then_updates_the_same_entry() {
    let mut backend: Vec<TimeEntry> = Vec::new();
    let mut next_id = 100;
    set(&mut backend, "1:30", &mut next_id);
    assert_eq!(backend.len(), 1);
    assert_eq!(backend[0].minutes, Minutes(90));
    assert_eq!(backend[0].date_at, d(2024, 3, 4));
    let first_id = backend[0].id.clone();
    set(&mut backend, "2:00", &mut next_id);
    assert_eq!(backend.len(), 1);
    assert_eq!(backend[0].id, first_id);
    assert_eq!(backend[0].minutes, Minutes(120));
}

#[test]
fn set_collapses_duplicates_and_leaves_others() {
    let mut backend = vec![
        entry(1, d(2024, 3, 4), 2, 10, 0),
        entry(2, d(2024, 3, 4), 5, 20, 0),
        entry(3, d(2024, 3, 4), 2, 30, 0),
        entry(4, d(2024, 3, 5), 2, 40, 0),
        entry(5, d(2024, 3, 4), 2, 50, 0),
    ];
    let plan = plan_set(&backend, &slot());
    assert_eq!(plan.len(), 3);
    assert!(matches!(&plan[0], EntryAction::Update(Id::Num(1))));
    assert!(matches!(&plan[1], EntryAction::Delete(Id::Num(3))));
    assert!(matches!(&plan[2], EntryAction::Delete(Id::Num(5))));
    let mut next_id = 100;
    perform(&mut backend, &plan, Minutes(60), &mut next_id);
    assert_eq!(backend.len(), 3);
    set(&mut backend, "60", &mut next_id);
    assert_eq!(backend.len(), 3);
}

#[test]
fn start_reuses_the_latest_entry() {
    let entries = vec![
        entry(1, d(2024, 3, 4), 2, 10, 100),
        entry(2, d(2024, 3, 4), 2, 20, 300),
        entry(3, d(2024, 3, 4), 2, 30, 300),
        entry(4, d(2024, 3, 4), 7, 40, 900),
    ];
    let cmd = StartCmd {
        customer: "acme".to_string(),
        project: "web".to_string(),
        service: "dev".to_string(),
        offset: None,
        note: None,
    };
    assert_eq!(cmd.existing_entry(&entries, &slot()).unwrap().id, Id::Num(2));
    assert_eq!(cmd.initial_minutes(), Minutes(0));
    assert!(cmd.existing_entry(&vec![], &slot()).is_none());
    let with_offset = StartCmd { offset: Some(Minutes(15)), ..cmd };
    assert!(with_offset.existing_entry(&entries, &slot()).is_none());
    assert_eq!(with_offset.initial_minutes(), Minutes(15));
}

#[test]
fn stop_and_tracking_views() {
    let e = entry(1, d(2024, 3, 4), 2, 10, 0);
    let running = Tracker { since: Some(at(5)), tracking_time_entry: Some(e.clone()), stopped_time_entry: None };
    assert!(matches!(stop_step(&running), StopStep::Detach(Id::Num(1))));
    assert_eq!(shown_entry(&running).unwrap().id, Id::Num(1));
    let stopped = Tracker { since: None, tracking_time_entry: None, stopped_time_entry: Some(entry(2, d(2024, 3, 4), 2, 10, 0)) };
    assert!(matches!(stop_step(&stopped), StopStep::AlreadyStopped));
    assert_eq!(shown_entry(&stopped).unwrap().id, Id::Num(2));
    let idle = Tracker { since: None, tracking_time_entry: None, stopped_time_entry: None };
    assert!(matches!(stop_step(&idle), StopStep::NotTracking));
    assert!(shown_entry(&idle).is_none());
}

#[test]
fn names_are_looked_up() {
    let customers = vec![
        Customer { id: Id::Num(1), name: "acme".to_string(), note: String::new(), archived: false, created_at: at(0) },
        Customer { id: Id::Num(2), name: "acme".to_string(), note: String::new(), archived: false, created_at: at(0) },
    ];
    assert_eq!(find_customer(&customers, "acme").unwrap().id, Id::Num(1));
    match find_customer(&customers, "nobody") {
        Err(AcariError::UserError(msg)) => assert_eq!(msg, "No customer with name: nobody"),
        other => panic!("{:?}", other),
    }
    let projects = vec![
        Project {
            id: Id::Num(10),
            name: "web".to_string(),
            customer_id: Id::Num(2),
            customer_name: "acme".to_string(),
            note: String::new(),
            archived: false,
            created_at: at(0),
        },
        Project {
            id: Id::Num(11),
            name: "web".to_string(),
            customer_id: Id::Num(1),
            customer_name: "other".to_string(),
            note: String::new(),
            archived: false,
            created_at: at(0),
        },
    ];
    assert_eq!(find_project(&projects, &Id::Num(1), "web").unwrap().id, Id::Num(11));
    assert!(matches!(find_project(&projects, &Id::Num(3), "web"), Err(AcariError::UserError(_))));
    assert!(matches!(find_service(&vec![], "dev"), Err(AcariError::UserError(_))));
    let only_acme = ProjectsCmd { customer: Some("acme".to_string()) }.select(&projects);
    assert_eq!(only_acme.len(), 1);
    assert_eq!(only_acme[0].id, Id::Num(10));
    assert_eq!(ProjectsCmd { customer: None }.select(&projects).len(), 2);
}

#[test]
fn cache_keeps_only_slow_reads() {
    assert_eq!(cache_name(&Operation::GetAccount).unwrap(), "account.json");
    assert_eq!(cache_name(&Operation::GetMyself).unwrap(), "user.json");
    assert_eq!(cache_name(&Operation::GetCustomers).unwrap(), "customers.json");
    assert_eq!(cache_name(&Operation::GetProjects).unwrap(), "projects.json");
    assert_eq!(cache_name(&Operation::GetServices(Id::Str("as:1".to_string()))).unwrap(), "services-sas:1.json");
    assert_eq!(cache_name(&Operation::GetServices(Id::Num(643))).unwrap(), "services-n643.json");
    assert_ne!(
        cache_name(&Operation::GetServices(Id::Num(5))),
        cache_name(&Operation::GetServices(Id::Str("5".to_string())))
    );
    for op in [
        Operation::GetTimeEntries,
        Operation::GetTracker,
        Operation::CreateTimeEntry,
        Operation::UpdateTimeEntry,
        Operation::DeleteTimeEntry,
        Operation::CreateTracker,
        Operation::DeleteTracker,
    ] {
        assert!(cache_name(&op).is_none());
    }
}

#[test]
fn cache_asks_backend_once_within_ttl() {
    let cached = CachedClient::new((), "/tmp/cache", "demo.mite.de", 60);
    assert_eq!(cached.cache_dir(), "/tmp/cache/demo.mite.de");
    assert_eq!(cached.cache_ttl(), 60);
    let mut written_at: Option<u64> = None;
    let mut calls = 0;
    for now in [1000u64, 1030, 1059, 1060, 1100] {
        match cached.read_step(written_at.map(|w| now - w)) {
            CacheStep::UseCached => {}
            CacheStep::Fetch => {
                calls += 1;
                written_at = Some(now);
            }
        }
    }
    assert_eq!(calls, 2);
}

#[test]
fn cache_root_and_clearing() {
    assert_eq!(cache_root(Some("/home/a/.cache"), Some("/home/a")), "/home/a/.cache/acari");
    assert_eq!(cache_root(None, Some("/home/a")), "/home/a/.acari_cache");
    assert_eq!(cache_root(None, None), "./.acari_cache");
    assert_eq!(clear_cache(Some("/c"), None), "/c/acari");
}

#[test]
fn profiles_pick_a_connection() {
    let config = Config {
        domain: "demo.mite.de".to_string(),
        token: "SECRET-REDACTED".to_string(),
        client: ClientType::Mite,
        cache_ttl_minutes: default_cache_ttl(),
        profiles: vec![(
            "work".to_string(),
            Profile { domain: "api.everhour.com".to_string(), token: "t2".to_string(), client: ClientType::Everhour },
        )],
    };
    assert_eq!(default_cache_ttl(), 1440);
    assert_eq!(config.cache_ttl_seconds(), 86400);
    let (domain, _, client) = config.connection(None).unwrap();
    assert_eq!((domain.as_str(), client), ("demo.mite.de", ClientType::Mite));
    let (domain, token, client) = config.connection(Some("work")).unwrap();
    assert_eq!((domain.as_str(), token.as_str(), client), ("api.everhour.com", "t2", ClientType::Everhour));
    match config.connection(Some("home")) {
        Err(AcariError::UserError(msg)) => assert_eq!(msg, "No such profile: home"),
        other => panic!("{:?}", other),
    }
    let huge = Config { cache_ttl_minutes: u64::MAX, ..config };
    assert_eq!(huge.cache_ttl_seconds(), u64::MAX);
    assert_eq!(ClientType::default(), ClientType::Mite);
}

#[test]
fn set_scenario_calls_carry_their_arguments() {
    let cmd = acari::reconcile::SetCmd {
        customer: "acme".to_string(),
        project: "web".to_string(),
        service: "dev".to_string(),
        time: "1:30".parse().unwrap(),
        day: "2024-03-04".parse().unwrap(),
        note: None,
    };
    let calls = cmd.calls(&vec![], &slot());
    assert_eq!(calls.len(), 1);
    match &calls[0] {
        acari::reconcile::EntryCall::Create { day, project_id, service_id, minutes, note } => {
            assert_eq!(*day, acari::query::Day::Date(d(2024, 3, 4)));
            assert_eq!(*project_id, Id::Num(2));
            assert_eq!(*service_id, Id::Num(3));
            assert_eq!(*minutes, Minutes(90));
            assert!(note.is_none());
        }
        other => panic!("{:?}", other),
    }
    let again = acari::reconcile::SetCmd { time: "2:00".parse().unwrap(), ..cmd };
    let existing = vec![entry(7, d(2024, 3, 4), 2, 90, 0)];
    let calls = again.calls(&existing, &slot());
    assert_eq!(calls.len(), 1);
    match &calls[0] {
        acari::reconcile::EntryCall::Update { id, minutes, note } => {
            assert_eq!(*id, Id::Num(7));
            assert_eq!(*minutes, Minutes(120));
            assert!(note.is_none());
        }
        other => panic!("{:?}", other),
    }
}

#[test]
fn missing_names_are_named_in_errors() {
    match find_project(&vec![], &Id::Num(1), "web") {
        Err(AcariError::UserError(msg)) => assert_eq!(msg, "No project with name: web"),
        other => panic!("{:?}", other),
    }
    match find_service(&vec![], "dev") {
        Err(AcariError::UserError(msg)) => assert_eq!(msg, "No service with name: dev"),
        other => panic!("{:?}", other),
    }
}
