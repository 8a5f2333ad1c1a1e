//! The numeric-id backend: its tagged payloads, its symbolic query dialect,
//! and how its tracker becomes the common model.

use crate::date::date_text;
use crate::error::AcariError;
use crate::ids::TimeEntryId;
use crate::minutes::Minutes;
use crate::model::{Account, Customer, Project, Service, TimeEntry, Timestamp, Tracker, User};
use crate::query::{Day, DateSpan};
use crate::text::push_str;
use vstd::prelude::*;

verus! {

/// The tracker's view of an entry: its id, its live minutes and, while it
/// runs, since when.
#[derive(Debug, Clone)]
pub struct MiteTrackingTimeEntry {
    pub id: TimeEntryId,
    pub minutes: Minutes,
    pub since: Option<Timestamp>,
}

/// The backend's tracker: what runs now, and what ran last.
#[derive(Debug, Clone)]
pub struct MiteTracker {
    pub tracking_time_entry: Option<MiteTrackingTimeEntry>,
    pub stopped_time_entry: Option<MiteTrackingTimeEntry>,
}

/// One tagged object of the backend's answers.
#[derive(Debug, Clone)]
pub enum MiteEntity {
    Account(Account),
    User(User),
    Customer(Customer),
    Project(Project),
    Service(Service),
    TimeEntry(TimeEntry),
    Tracker(MiteTracker),
    Error(String),
}

/// The tracker in the common model, from the backend's tracker and the
/// entries fetched by the ids that it names. The minutes of the running
/// entry come from the tracker, which counts them live; everything else
/// comes from the fetched entry.
pub open spec fn merged_tracker(tracker: MiteTracker, tracking_entry: Option<TimeEntry>, stopped_entry: Option<TimeEntry>) -> Tracker {
    Tracker {
        since: match tracker.tracking_time_entry {
            Some(t) => t.since,
            None => None,
        },
        tracking_time_entry: match (tracker.tracking_time_entry, tracking_entry) {
            (Some(t), Some(e)) => Some(TimeEntry { minutes: t.minutes, ..e }),
            _ => None,
        },
        stopped_time_entry: match tracker.stopped_time_entry {
            Some(_) => stopped_entry,
            None => None,
        },
    }
}

pub fn merge_tracker(tracker: MiteTracker, tracking_entry: Option<TimeEntry>, stopped_entry: Option<TimeEntry>) -> (r: Tracker)
    ensures
        r == merged_tracker(tracker, tracking_entry, stopped_entry),
{
    let since = match &tracker.tracking_time_entry {
        Some(t) => t.since,
        None => None,
    };
    let tracking = match (&tracker.tracking_time_entry, tracking_entry) {
        (Some(t), Some(e)) => Some(e.with_minutes(t.minutes)),
        _ => None,
    };
    let stopped = match &tracker.stopped_time_entry {
        Some(_) => stopped_entry,
        None => None,
    };
    Tracker { since, tracking_time_entry: tracking, stopped_time_entry: stopped }
}

/// A tracker that names a running entry and no stopped one reads as
/// tracking and not stopped; one that names only a stopped entry reads as
/// stopped and not tracking.
pub proof fn lemma_tracker_views(tracker: MiteTracker, tracking_entry: Option<TimeEntry>, stopped_entry: Option<TimeEntry>)
    ensures
        tracker.tracking_time_entry is Some && tracking_entry is Some && tracker.stopped_time_entry is None ==> {
            &&& merged_tracker(tracker, tracking_entry, stopped_entry).tracking_time_entry is Some
            &&& merged_tracker(tracker, tracking_entry, stopped_entry).stopped_time_entry is None
        },
        tracker.tracking_time_entry is None && tracker.stopped_time_entry is Some && stopped_entry is Some ==> {
            &&& merged_tracker(tracker, tracking_entry, stopped_entry).tracking_time_entry is None
            &&& merged_tracker(tracker, tracking_entry, stopped_entry).stopped_time_entry is Some
        },
{
}

/// The customers among the tagged objects, in order.
pub open spec fn customers_among(s: Seq<MiteEntity>) -> Seq<Customer>
    decreases s.len(),
{
    if s.len() == 0 {
        Seq::empty()
    } else {
        let rest = customers_among(s.drop_last());
        match s.last() {
            MiteEntity::Customer(c) => rest.push(c),
            _ => rest,
        }
    }
}

pub open spec fn projects_among(s: Seq<MiteEntity>) -> Seq<Project>
    decreases s.len(),
{
    if s.len() == 0 {
        Seq::empty()
    } else {
        let rest = projects_among(s.drop_last());
        match s.last() {
            MiteEntity::Project(p) => rest.push(p),
            _ => rest,
        }
    }
}

pub open spec fn services_among(s: Seq<MiteEntity>) -> Seq<Service>
    decreases s.len(),
{
    if s.len() == 0 {
        Seq::empty()
    } else {
        let rest = services_among(s.drop_last());
        match s.last() {
            MiteEntity::Service(x) => rest.push(x),
            _ => rest,
        }
    }
}

pub open spec fn time_entries_among(s: Seq<MiteEntity>) -> Seq<TimeEntry>
    decreases s.len(),
{
    if s.len() == 0 {
        Seq::empty()
    } else {
        let rest = time_entries_among(s.drop_last());
        match s.last() {
            MiteEntity::TimeEntry(e) => rest.push(e),
            _ => rest,
        }
    }
}

/// Keeps the customers of a list answer.
pub fn customers_in(entities: &Vec<MiteEntity>) -> (r: Vec<Customer>)
    ensures
        r@ == customers_among(entities@),
{
    let mut r: Vec<Customer> = Vec::new();
    let mut i: usize = 0;
    while i < entities.len()
        invariant
            i <= entities@.len(),
            r@ == customers_among(entities@.subrange(0, i as int)),
        decreases entities@.len() - i,
    {
        assert(entities@.subrange(0, i + 1).drop_last() =~= entities@.subrange(0, i as int));
        match &entities[i] {
            MiteEntity::Customer(c) => r.push(c.duplicate()),
            _ => {},
        }
        i = i + 1;
    }
    assert(entities@.subrange(0, i as int) =~= entities@);
    r
}

/// Keeps the projects of a list answer.
pub fn projects_in(entities: &Vec<MiteEntity>) -> (r: Vec<Project>)
    ensures
        r@ == projects_among(entities@),
{
    let mut r: Vec<Project> = Vec::new();
    let mut i: usize = 0;
    while i < entities.len()
        invariant
            i <= entities@.len(),
            r@ == projects_among(entities@.subrange(0, i as int)),
        decreases entities@.len() - i,
    {
        assert(entities@.subrange(0, i + 1).drop_last() =~= entities@.subrange(0, i as int));
        match &entities[i] {
            MiteEntity::Project(p) => r.push(p.duplicate()),
            _ => {},
        }
        i = i + 1;
    }
    assert(entities@.subrange(0, i as int) =~= entities@);
    r
}

/// Keeps the services of a list answer.
pub fn services_in(entities: &Vec<MiteEntity>) -> (r: Vec<Service>)
    ensures
        r@ == services_among(entities@),
{
    let mut r: Vec<Service> = Vec::new();
    let mut i: usize = 0;
    while i < entities.len()
        invariant
            i <= entities@.len(),
            r@ == services_among(entities@.subrange(0, i as int)),
        decreases entities@.len() - i,
    {
        assert(entities@.subrange(0, i + 1).drop_last() =~= entities@.subrange(0, i as int));
        match &entities[i] {
            MiteEntity::Service(x) => r.push(x.duplicate()),
            _ => {},
        }
        i = i + 1;
    }
    assert(entities@.subrange(0, i as int) =~= entities@);
    r
}

/// Keeps the time entries of a list answer.
pub fn time_entries_in(entities: &Vec<MiteEntity>) -> (r: Vec<TimeEntry>)
    ensures
        r@ == time_entries_among(entities@),
{
    let mut r: Vec<TimeEntry> = Vec::new();
    let mut i: usize = 0;
    while i < entities.len()
        invariant
            i <= entities@.len(),
            r@ == time_entries_among(entities@.subrange(0, i as int)),
        decreases entities@.len() - i,
    {
        assert(entities@.subrange(0, i + 1).drop_last() =~= entities@.subrange(0, i as int));
        match &entities[i] {
            MiteEntity::TimeEntry(e) => r.push(e.duplicate()),
            _ => {},
        }
        i = i + 1;
    }
    assert(entities@.subrange(0, i as int) =~= entities@);
    r
}

/// The text of a day in this backend's queries: a keyword where there is one.
pub open spec fn day_param(day: Day) -> Seq<char> {
    match day {
        Day::Today => "today"@,
        Day::Yesterday => "yesterday"@,
        Day::Date(d) => date_text(d),
    }
}

/// The query for a span in this backend's dialect: a named span where it
/// has one, else explicit dates.
pub open spec fn span_param(span: DateSpan) -> Seq<char> {
    match span {
        DateSpan::ThisWeek => "at=this_week"@,
        DateSpan::LastWeek => "at=last_week"@,
        DateSpan::ThisMonth => "at=this_month"@,
        DateSpan::LastMonth => "at=last_month"@,
        DateSpan::Day(day) => "at="@ + day_param(day),
        DateSpan::FromTo(from, to) => "from="@ + date_text(from) + "&to="@ + date_text(to),
    }
}

impl Day {
    /// The text of this day in the numeric-id backend's queries.
    pub fn query_param(self) -> (r: String)
        ensures
            r@ == day_param(self),
    {
        day_query_param(&self)
    }
}

impl DateSpan {
    /// The query for this span in the numeric-id backend's dialect.
    pub fn query_param(&self) -> (r: String)
        ensures
            r@ == span_param(*self),
    {
        date_span_query_param(self)
    }
}

pub fn day_query_param(day: &Day) -> (r: String)
    ensures
        r@ == day_param(*day),
{
    match day {
        Day::Today => String::from_str("today"),
        Day::Yesterday => String::from_str("yesterday"),
        Day::Date(d) => d.to_string(),
    }
}

pub fn date_span_query_param(span: &DateSpan) -> (r: String)
    ensures
        r@ == span_param(*span),
{
    match span {
        DateSpan::ThisWeek => String::from_str("at=this_week"),
        DateSpan::LastWeek => String::from_str("at=last_week"),
        DateSpan::ThisMonth => String::from_str("at=this_month"),
        DateSpan::LastMonth => String::from_str("at=last_month"),
        DateSpan::Day(day) => {
            let mut r = String::from_str("at=");
            let t = day_query_param(day);
            push_str(&mut r, t.as_str());
            r
        },
        DateSpan::FromTo(from, to) => {
            let mut r = String::from_str("from=");
            let a = from.to_string();
            push_str(&mut r, a.as_str());
            push_str(&mut r, "&to=");
            let b = to.to_string();
            push_str(&mut r, b.as_str());
            r
        },
    }
}

/// Whether an HTTP status means that the answer carries the payload.
pub fn is_success(status: u16) -> (r: bool)
    ensures
        r == (status == 200 || status == 201),
{
    status == 200 || status == 201
}

/// The error for a failed answer: the backend's own error code and message
/// where its envelope could be read, else the bare HTTP status and its line.
pub fn response_error(status: u16, envelope: Option<(u16, String)>, status_line: String) -> (r: AcariError)
    ensures
        r == match envelope {
            Some((code, message)) => AcariError::Mite(code, message),
            None => AcariError::Mite(status, status_line),
        },
{
    match envelope {
        Some((code, message)) => AcariError::Mite(code, message),
        None => AcariError::Mite(status, status_line),
    }
}

} // verus!
