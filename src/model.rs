//! The common model that both backends are read into.

use crate::date::Date;
use crate::ids::{AccountId, CustomerId, ProjectId, ServiceId, TimeEntryId, UserId};
use crate::minutes::Minutes;
use vstd::prelude::*;

verus! {

/// A moment in UTC: a date, the seconds since its midnight, and the
/// nanoseconds within that second.
#[derive(Debug, Clone, Copy, PartialEq, Eq, Structural, Hash)]
pub struct Timestamp {
    pub date: Date,
    pub seconds: u32,
    pub nanos: u32,
}

/// Whether `a` comes strictly before `b`.
pub open spec fn ts_before(a: Timestamp, b: Timestamp) -> bool {
    if a.date.year != b.date.year {
        a.date.year < b.date.year
    } else if a.date.month != b.date.month {
        a.date.month < b.date.month
    } else if a.date.day != b.date.day {
        a.date.day < b.date.day
    } else if a.seconds != b.seconds {
        a.seconds < b.seconds
    } else {
        a.nanos < b.nanos
    }
}

pub proof fn lemma_ts_before_transitive(a: Timestamp, b: Timestamp, c: Timestamp)
    requires
        ts_before(a, b),
        ts_before(b, c),
    ensures
        ts_before(a, c),
{
}

pub proof fn lemma_ts_total(a: Timestamp, b: Timestamp)
    ensures
        ts_before(a, b) || ts_before(b, a) || a == b,
{
}

impl Timestamp {
    pub fn is_before(&self, other: &Timestamp) -> (r: bool)
        ensures
            r == ts_before(*self, *other),
    {
        if self.date.year != other.date.year {
            self.date.year < other.date.year
        } else if self.date.month != other.date.month {
            self.date.month < other.date.month
        } else if self.date.day != other.date.day {
            self.date.day < other.date.day
        } else if self.seconds != other.seconds {
            self.seconds < other.seconds
        } else {
            self.nanos < other.nanos
        }
    }
}

#[derive(Debug, Clone)]
pub struct Account {
    pub id: AccountId,
    pub name: String,
    pub title: String,
    pub currency: String,
    pub created_at: Timestamp,
}

#[derive(Debug, Clone)]
pub struct User {
    pub id: UserId,
    pub name: String,
    pub email: String,
    pub note: String,
    pub role: String,
    pub language: String,
    pub archived: bool,
    pub created_at: Timestamp,
}

#[derive(Debug, Clone)]
pub struct Customer {
    pub id: CustomerId,
    pub name: String,
    pub note: String,
    pub archived: bool,
    pub created_at: Timestamp,
}

#[derive(Debug, Clone)]
pub struct Project {
    pub id: ProjectId,
    pub name: String,
    pub customer_id: CustomerId,
    pub customer_name: String,
    pub note: String,
    pub archived: bool,
    pub created_at: Timestamp,
}

#[derive(Debug, Clone)]
pub struct Service {
    pub id: ServiceId,
    pub name: String,
    pub note: String,
    pub billable: bool,
    pub archived: bool,
    pub created_at: Timestamp,
}

/// A booking of minutes on a day for a project and service; it carries the
/// names of customer, project, service and user so that showing it needs no
/// further lookups.
#[derive(Debug, Clone)]
pub struct TimeEntry {
    pub id: TimeEntryId,
    pub date_at: Date,
    pub minutes: Minutes,
    pub customer_id: CustomerId,
    pub customer_name: String,
    pub project_id: ProjectId,
    pub project_name: String,
    pub service_id: ServiceId,
    pub service_name: String,
    pub user_id: UserId,
    pub user_name: String,
    pub note: String,
    pub billable: bool,
    pub locked: bool,
    pub created_at: Timestamp,
}

/// What is being timed right now, if anything, and what was timed last.
#[derive(Debug, Clone)]
pub struct Tracker {
    pub since: Option<Timestamp>,
    pub tracking_time_entry: Option<TimeEntry>,
    pub stopped_time_entry: Option<TimeEntry>,
}

impl Customer {
    pub fn duplicate(&self) -> (r: Customer)
        ensures
            r == *self,
    {
        Customer {
            id: self.id.duplicate(),
            name: self.name.clone(),
            note: self.note.clone(),
            archived: self.archived,
            created_at: self.created_at,
        }
    }
}

impl Project {
    pub fn duplicate(&self) -> (r: Project)
        ensures
            r == *self,
    {
        Project {
            id: self.id.duplicate(),
            name: self.name.clone(),
            customer_id: self.customer_id.duplicate(),
            customer_name: self.customer_name.clone(),
            note: self.note.clone(),
            archived: self.archived,
            created_at: self.created_at,
        }
    }
}

impl Service {
    pub fn duplicate(&self) -> (r: Service)
        ensures
            r == *self,
    {
        Service {
            id: self.id.duplicate(),
            name: self.name.clone(),
            note: self.note.clone(),
            billable: self.billable,
            archived: self.archived,
            created_at: self.created_at,
        }
    }
}

impl TimeEntry {
    pub fn duplicate(&self) -> (r: TimeEntry)
        ensures
            r == *self,
    {
        TimeEntry {
            id: self.id.duplicate(),
            date_at: self.date_at,
            minutes: self.minutes,
            customer_id: self.customer_id.duplicate(),
            customer_name: self.customer_name.clone(),
            project_id: self.project_id.duplicate(),
            project_name: self.project_name.clone(),
            service_id: self.service_id.duplicate(),
            service_name: self.service_name.clone(),
            user_id: self.user_id.duplicate(),
            user_name: self.user_name.clone(),
            note: self.note.clone(),
            billable: self.billable,
            locked: self.locked,
            created_at: self.created_at,
        }
    }

    /// The same entry with other minutes.
    pub fn with_minutes(self, minutes: Minutes) -> (r: TimeEntry)
        ensures
            r == (TimeEntry { minutes, ..self }),
    {
        TimeEntry { minutes, ..self }
    }
}

} // verus!
