//! The string-id backend: its payloads, and how they become the common
//! model. It has no customers of its own, no time-entry ids of its own, and
//! a timer in place of a tracker; all three are synthesized here.

use crate::date::{date_text, parsed_ymd, Date};
use crate::error::AcariError;
use crate::ids::{decoded_id, encoded_text, lemma_encoded_id_round_trip, AccountId, CustomerId, Id, IdView, ProjectId, ServiceId, TimeEntryId, UserId};
use crate::minutes::Minutes;
use crate::model::{lemma_ts_before_transitive, ts_before, Account, Customer, Project, Service, TimeEntry, Timestamp, Tracker, User};
use crate::query::{date_of_ymd, day_date, span_range, Day, DateSpan};
use crate::text::{
    all_digits, chars_of, contains_char, find_char_from, first_at, is_digit, lemma_first_at_unique, lemma_padded_digits,
    padded, push_char, push_str, same_text,
};
use vstd::prelude::*;

verus! {

/// The error envelope of the backend.
#[derive(Debug, Clone)]
pub struct EverhourError {
    pub code: u16,
    pub message: String,
}

#[derive(Debug, Clone)]
pub struct EverhourCurrency {
    pub code: String,
    pub name: String,
}

#[derive(Debug, Clone)]
pub struct EverhourTeam {
    pub id: AccountId,
    pub name: String,
    pub currency_details: EverhourCurrency,
    pub created_at: Timestamp,
}

#[derive(Debug, Clone)]
pub struct EverhourUser {
    pub id: UserId,
    pub name: String,
    pub email: String,
    pub status: String,
    pub role: String,
    pub headline: String,
    pub is_suspended: bool,
    pub team: EverhourTeam,
    pub created_at: Timestamp,
}

/// A project; its workspace plays the customer's part.
#[derive(Debug, Clone)]
pub struct EverhourProject {
    pub id: ProjectId,
    pub name: String,
    pub workspace_id: CustomerId,
    pub workspace_name: String,
    pub status: String,
    pub created_at: Timestamp,
}

/// A task; it plays the service's part.
#[derive(Debug, Clone)]
pub struct EverhourTask {
    pub id: ServiceId,
    pub name: String,
    pub status: String,
    pub iteration: String,
    pub projects: Vec<ProjectId>,
    pub created_at: Timestamp,
}

/// Time that a user booked on a task for a day.
#[derive(Debug, Clone)]
pub struct EverhourTimeEntry {
    pub date: Date,
    pub comment: String,
    pub task: Option<EverhourTask>,
    pub time: Minutes,
    pub user: UserId,
    pub is_locked: bool,
    pub created_at: Timestamp,
}

/// The body that books time on a task.
#[derive(Debug, Clone)]
pub struct EverhourCreateTimeRecord {
    pub date: Date,
    pub time: Minutes,
    pub user: UserId,
    pub comment: Option<String>,
}

#[derive(Debug, Clone)]
pub struct EverhourUserSimple {
    pub id: UserId,
    pub name: String,
    pub email: String,
}

/// The running timer, or the lack of one.
#[derive(Debug, Clone)]
pub struct EverhourTimer {
    pub status: String,
    pub task: Option<EverhourTask>,
    pub user: Option<EverhourUserSimple>,
    pub duration: Minutes,
    pub started_at: Timestamp,
    pub comment: Option<String>,
}

/// Whether a backend status word means open.
pub open spec fn is_open(status: Seq<char>) -> bool {
    status == "open"@
}

fn status_is_open(status: &String) -> (r: bool)
    ensures
        r == is_open(status@),
{
    same_text(status.as_str(), "open")
}

/// Durations travel in seconds; the model counts whole minutes.
pub fn minutes_from_seconds(seconds: u32) -> (r: Minutes)
    ensures
        r.0 == seconds / 60,
{
    Minutes(seconds / 60)
}

/// Durations travel in seconds; the model counts whole minutes.
pub fn seconds_from_minutes(minutes: Minutes) -> (r: u64)
    ensures
        r == minutes.0 * 60,
{
    minutes.0 as u64 * 60
}

impl EverhourUser {
    /// The account is the user's team.
    pub fn to_account(&self) -> (r: Account)
        ensures
            r.id == self.team.id,
            r.name == self.team.name,
            r.title == self.team.name,
            r.currency == self.team.currency_details.code,
            r.created_at == self.team.created_at,
    {
        Account {
            id: self.team.id.duplicate(),
            name: self.team.name.clone(),
            title: self.team.name.clone(),
            currency: self.team.currency_details.code.clone(),
            created_at: self.team.created_at,
        }
    }

    /// The user; the headline serves as note, and suspended users count as
    /// archived.
    pub fn to_user(&self) -> (r: User)
        ensures
            r.id == self.id,
            r.name == self.name,
            r.email == self.email,
            r.role == self.role,
            r.note == self.headline,
            r.language@ == Seq::<char>::empty(),
            r.archived == self.is_suspended,
            r.created_at == self.created_at,
    {
        User {
            id: self.id.duplicate(),
            name: self.name.clone(),
            email: self.email.clone(),
            role: self.role.clone(),
            note: self.headline.clone(),
            language: String::new(),
            archived: self.is_suspended,
            created_at: self.created_at,
        }
    }
}

impl EverhourProject {
    /// The customer that this project's workspace stands for, seen from this
    /// project alone.
    pub fn to_customer(&self) -> (r: Customer)
        ensures
            r.id == self.workspace_id,
            r.name == self.workspace_name,
            r.note@ == Seq::<char>::empty(),
            r.archived == !is_open(self.status@),
            r.created_at == self.created_at,
    {
        Customer {
            id: self.workspace_id.duplicate(),
            name: self.workspace_name.clone(),
            note: String::new(),
            archived: !status_is_open(&self.status),
            created_at: self.created_at,
        }
    }

    pub fn to_project(&self) -> (r: Project)
        ensures
            r.id == self.id,
            r.name == self.name,
            r.note@ == Seq::<char>::empty(),
            r.customer_id == self.workspace_id,
            r.customer_name == self.workspace_name,
            r.archived == !is_open(self.status@),
            r.created_at == self.created_at,
    {
        Project {
            id: self.id.duplicate(),
            name: self.name.clone(),
            note: String::new(),
            customer_id: self.workspace_id.duplicate(),
            customer_name: self.workspace_name.clone(),
            archived: !status_is_open(&self.status),
            created_at: self.created_at,
        }
    }
}

impl EverhourTask {
    /// The service; the task's section serves as note, and every task is
    /// billable.
    pub fn to_service(&self) -> (r: Service)
        ensures
            r.id == self.id,
            r.name == self.name,
            r.note == self.iteration,
            r.archived == !is_open(self.status@),
            r.billable,
            r.created_at == self.created_at,
    {
        Service {
            id: self.id.duplicate(),
            name: self.name.clone(),
            note: self.iteration.clone(),
            archived: !status_is_open(&self.status),
            billable: true,
            created_at: self.created_at,
        }
    }
}

/// The text of a synthesized time-entry id: user, task and date, joined by `|`.
pub open spec fn composite_text(user: IdView, service: IdView, date: Date) -> Seq<char> {
    encoded_text(user).push('|') + encoded_text(service).push('|') + date_text(date)
}

/// The three parts of a text with exactly two `|`.
pub open spec fn three_parts(s: Seq<char>) -> Option<(Seq<char>, Seq<char>, Seq<char>)> {
    if !contains_char(s, '|') {
        None
    } else {
        let i = choose|i: int| first_at(s, '|', i);
        let rest = s.subrange(i + 1, s.len() as int);
        if !contains_char(rest, '|') {
            None
        } else {
            let j = choose|j: int| first_at(rest, '|', j);
            let tail = rest.subrange(j + 1, rest.len() as int);
            if contains_char(tail, '|') {
                None
            } else {
                Some((s.subrange(0, i), rest.subrange(0, j), tail))
            }
        }
    }
}

/// `r` is what reading the time-entry id `id` back into user, task and date gives.
pub open spec fn reads_as_entry_key(id: IdView, r: Result<(UserId, ServiceId, Date), AcariError>) -> bool {
    match entry_key_of(id) {
        Some((u, t, d)) => r is Ok && r->Ok_0.0@ == u && r->Ok_0.1@ == t && r->Ok_0.2 == d,
        None => r is Err && r->Err_0 is InternalError,
    }
}

/// User, task and date that a synthesized time-entry id names, if it is
/// well formed: a text of three `|`-separated parts, two embedded
/// identifiers and a date.
pub open spec fn entry_key_of(id: IdView) -> Option<(IdView, IdView, Date)> {
    match id {
        IdView::Num(_) => None,
        IdView::Str(s) => match three_parts(s) {
            None => None,
            Some((a, b, c)) => match (decoded_id(a), decoded_id(b), parsed_ymd(c)) {
                (Ok(u), Ok(t), Some(ymd)) => Some((u, t, date_of_ymd(ymd))),
                _ => None,
            },
        },
    }
}

/// A stable id for the time a user booked on a task for a day.
pub fn build_time_entry_id(user_id: &UserId, service_id: &ServiceId, date: &Date) -> (r: TimeEntryId)
    ensures
        r@ == IdView::Str(composite_text(user_id@, service_id@, *date)),
{
    let mut s = user_id.str_encoded();
    push_char(&mut s, '|');
    let t = service_id.str_encoded();
    push_str(&mut s, t.as_str());
    push_char(&mut s, '|');
    let d = date.to_string();
    push_str(&mut s, d.as_str());
    assert(s@ =~= composite_text(user_id@, service_id@, *date));
    Id::Str(s)
}

proof fn lemma_digits_no_bar(s: Seq<char>)
    requires
        all_digits(s),
    ensures
        !contains_char(s, '|'),
{
    assert forall|i: int| 0 <= i < s.len() implies s[i] != '|' by {
        assert(is_digit(s[i]));
    }
}

proof fn lemma_date_text_no_bar(d: Date)
    ensures
        !contains_char(date_text(d), '|'),
{
    let y = d.year as int;
    let year = if 0 <= y <= 9999 {
        padded(y as nat, 4)
    } else if y < 0 {
        seq!['-'] + padded((-y) as nat, 4)
    } else {
        seq!['+'] + padded(y as nat, 4)
    };
    let yp = if 0 <= y <= 9999 { y as nat } else if y < 0 { (-y) as nat } else { y as nat };
    lemma_padded_digits(yp, 4);
    lemma_padded_digits(d.month as nat, 2);
    lemma_padded_digits(d.day as nat, 2);
    lemma_digits_no_bar(padded(yp, 4));
    lemma_digits_no_bar(padded(d.month as nat, 2));
    lemma_digits_no_bar(padded(d.day as nat, 2));
    let t = date_text(d);
    assert(t == year.push('-') + padded(d.month as nat, 2).push('-') + padded(d.day as nat, 2));
    assert forall|i: int| 0 <= i < t.len() implies t[i] != '|' by {
        let a = year.push('-');
        let b = padded(d.month as nat, 2).push('-');
        let c = padded(d.day as nat, 2);
        assert(t == a + b + c);
        if i < a.len() {
            if i < year.len() {
                if 0 <= y <= 9999 {
                    assert(year[i] == padded(yp, 4)[i]);
                } else if i > 0 {
                    assert(year[i] == padded(yp, 4)[i - 1]);
                }
            }
        } else if i < a.len() + b.len() {
            let k = i - a.len();
            if k < b.len() - 1 {
                assert(b[k] == padded(d.month as nat, 2)[k]);
            }
        } else {
            let k = i - a.len() - b.len();
            assert(t[i] == c[k]);
        }
    }
}

proof fn lemma_three_parts_of_join(a: Seq<char>, b: Seq<char>, c: Seq<char>)
    requires
        !contains_char(a, '|'),
        !contains_char(b, '|'),
        !contains_char(c, '|'),
    ensures
        three_parts(a.push('|') + b.push('|') + c) == Some((a, b, c)),
{
    let s = a.push('|') + b.push('|') + c;
    let i = a.len() as int;
    assert(s[i] == '|');
    assert forall|j: int| 0 <= j < i implies s[j] != '|' by {
        assert(s[j] == a[j]);
    }
    assert(first_at(s, '|', i));
    let k = choose|k: int| first_at(s, '|', k);
    lemma_first_at_unique(s, '|', i, k);
    let rest = s.subrange(i + 1, s.len() as int);
    assert(rest =~= b.push('|') + c);
    let j = b.len() as int;
    assert(rest[j] == '|');
    assert forall|q: int| 0 <= q < j implies rest[q] != '|' by {
        assert(rest[q] == b[q]);
    }
    assert(first_at(rest, '|', j));
    let k2 = choose|k2: int| first_at(rest, '|', k2);
    lemma_first_at_unique(rest, '|', j, k2);
    assert(rest.subrange(j + 1, rest.len() as int) =~= c);
    assert(s.subrange(0, i) =~= a);
    assert(rest.subrange(0, j) =~= b);
}

/// Reading back a synthesized time-entry id gives the user and the task it
/// was built from, and the date that the date's text reads as; identifiers
/// whose embedding text holds a `|` are left out.
pub proof fn lemma_entry_key_round_trip(
    u: IdView,
    t: IdView,
    d: Date,
    r: Result<(UserId, ServiceId, Date), AcariError>,
)
    requires
        !contains_char(encoded_text(u), '|'),
        !contains_char(encoded_text(t), '|'),
        reads_as_entry_key(IdView::Str(composite_text(u, t, d)), r),
    ensures
        parsed_ymd(date_text(d)) matches Some(ymd) ==> r is Ok && r->Ok_0.0@ == u && r->Ok_0.1@ == t
            && r->Ok_0.2 == date_of_ymd(ymd),
        parsed_ymd(date_text(d)) is None ==> r is Err && r->Err_0 is InternalError,
{
    lemma_date_text_no_bar(d);
    lemma_three_parts_of_join(encoded_text(u), encoded_text(t), date_text(d));
    lemma_encoded_id_round_trip(u);
    lemma_encoded_id_round_trip(t);
}

/// Where the two `|` of a composite id text stand.
fn bar_positions(s: &str) -> (r: Option<(usize, usize)>)
    ensures
        match three_parts(s@) {
            None => r is None,
            Some((a, b, c)) => r matches Some((i, j)) && i < j < s@.len() && a == s@.subrange(0, i as int)
                && b == s@.subrange(i + 1, j as int) && c == s@.subrange(j + 1, s@.len() as int),
        },
{
    let cs = chars_of(s);
    let n = cs.len();
    let i = find_char_from(cs.as_slice(), '|', 0);
    assert(cs@.subrange(0, n as int) =~= s@);
    if i == n {
        return None;
    }
    let ghost rest = s@.subrange(i + 1, n as int);
    proof {
        let k = choose|k: int| first_at(s@, '|', k);
        lemma_first_at_unique(s@, '|', i as int, k);
    }
    let j = find_char_from(cs.as_slice(), '|', i + 1);
    assert(rest =~= cs@.subrange(i + 1, n as int));
    if j == n {
        return None;
    }
    proof {
        let k = choose|k: int| first_at(rest, '|', k);
        lemma_first_at_unique(rest, '|', j - i - 1, k);
    }
    let m = find_char_from(cs.as_slice(), '|', j + 1);
    let ghost tail = rest.subrange(j - i, rest.len() as int);
    assert(tail =~= cs@.subrange(j + 1, n as int));
    assert(rest.subrange(0, j - i - 1) =~= s@.subrange(i + 1, j as int));
    assert(tail =~= s@.subrange(j + 1, n as int));
    if m < n {
        return None;
    }
    Some((i, j))
}

/// Reads a synthesized time-entry id back into user, task and date; any
/// malformed id is a broken assumption of the mapping to the backend, an internal error.
pub fn parse_time_entry_id(time_entry_id: &TimeEntryId) -> (r: Result<(UserId, ServiceId, Date), AcariError>)
    ensures
        reads_as_entry_key(time_entry_id@, r),
{
    let s = match time_entry_id {
        Id::Str(s) => s,
        Id::Num(_) => {
            return Err(AcariError::InternalError(String::from_str("Invalid time entry id (no number)")));
        },
    };
    let whole = s.as_str();
    let (i, j) = match bar_positions(whole) {
        Some(p) => p,
        None => {
            return Err(AcariError::InternalError(String::from_str("Invalid time entry id (invalid parts)")));
        },
    };
    let n = whole.unicode_len();
    let a = whole.substring_char(0, i);
    let b = whole.substring_char(i + 1, j);
    let c = whole.substring_char(j + 1, n);
    let user_id = match Id::parse_encoded(a) {
        Ok(u) => u,
        Err(_) => {
            return Err(AcariError::InternalError(String::from_str("Invalid time entry id (invalid user)")));
        },
    };
    let service_id = match Id::parse_encoded(b) {
        Ok(t) => t,
        Err(_) => {
            return Err(AcariError::InternalError(String::from_str("Invalid time entry id (invalid task)")));
        },
    };
    let date = match crate::date::parse_date(c) {
        Ok(d) => d,
        Err(_) => {
            return Err(AcariError::InternalError(String::from_str("Invalid time entry id (invalid date)")));
        },
    };
    Ok((user_id, service_id, date))
}

/// The date of a day in this backend's queries: always explicit.
pub fn day_query_param(day: &Day, today: Date) -> (r: String)
    requires
        today.inner(),
    ensures
        r@ == date_text(day_date(*day, today)),
{
    day.resolve(today).to_string()
}

/// The query for a span in this backend's dialect: explicit `from` and `to`
/// dates, since it knows no named spans.
pub fn date_span_query_param(span: &DateSpan, today: Date) -> (r: String)
    requires
        today.inner(),
    ensures
        r@ == "from="@ + date_text(span_range(*span, today).start) + "&to="@ + date_text(
            span_range(*span, today).end,
        ),
{
    let range = span.resolve(today);
    let mut r = String::from_str("from=");
    let a = range.start.to_string();
    push_str(&mut r, a.as_str());
    push_str(&mut r, "&to=");
    let b = range.end.to_string();
    push_str(&mut r, b.as_str());
    r
}

/// Whether project `q` belongs to the workspace `id`.
pub open spec fn in_workspace(ps: Seq<EverhourProject>, q: int, id: IdView) -> bool {
    0 <= q < ps.len() && ps[q].workspace_id@ == id
}

/// Whether every one of the first `k` projects of workspace `id` is closed.
pub open spec fn all_closed(ps: Seq<EverhourProject>, k: int, id: IdView) -> bool {
    forall|q: int| 0 <= q < k && in_workspace(ps, q, id) ==> !is_open(#[trigger] ps[q].status@)
}

/// Whether none of the first `k` projects of workspace `id` was created before `t`.
pub open spec fn none_earlier(ps: Seq<EverhourProject>, k: int, id: IdView, t: Timestamp) -> bool {
    forall|q: int| 0 <= q < k && in_workspace(ps, q, id) ==> !ts_before(#[trigger] ps[q].created_at, t)
}

/// Project `f` is the first of workspace `id`.
pub open spec fn first_of_workspace(ps: Seq<EverhourProject>, id: IdView, f: int) -> bool {
    &&& in_workspace(ps, f, id)
    &&& forall|q: int| 0 <= q < f ==> !in_workspace(ps, q, id)
}

/// `c` is the customer that the first `k` projects of its workspace make
/// together: named after the first of them, archived only if all of them
/// are, created when the earliest of them was.
pub open spec fn customer_of_workspace(ps: Seq<EverhourProject>, k: int, c: Customer) -> bool {
    &&& exists|f: int|
        #![trigger ps[f]]
        0 <= f < k && in_workspace(ps, f, c.id@) && (forall|q: int|
            0 <= q < f ==> !in_workspace(ps, q, c.id@)) && c.id == ps[f].workspace_id && c.name
            == ps[f].workspace_name
    &&& c.note@ == Seq::<char>::empty()
    &&& c.archived == all_closed(ps, k, c.id@)
    &&& exists|e: int| #![trigger ps[e]] 0 <= e < k && in_workspace(ps, e, c.id@) && ps[e].created_at == c.created_at
    &&& none_earlier(ps, k, c.id@, c.created_at)
}

proof fn lemma_all_closed_step(ps: Seq<EverhourProject>, k: int, id: IdView)
    requires
        0 <= k < ps.len(),
    ensures
        all_closed(ps, k + 1, id) == (all_closed(ps, k, id) && (ps[k].workspace_id@ == id ==> !is_open(ps[k].status@))),
{
    if all_closed(ps, k, id) && (ps[k].workspace_id@ == id ==> !is_open(ps[k].status@)) {
        assert forall|q: int| 0 <= q < k + 1 && in_workspace(ps, q, id) implies !is_open(#[trigger] ps[q].status@) by {
        }
    }
}

proof fn lemma_none_earlier_step(ps: Seq<EverhourProject>, k: int, id: IdView, t: Timestamp)
    requires
        0 <= k < ps.len(),
        none_earlier(ps, k, id, t),
        ps[k].workspace_id@ == id ==> !ts_before(ps[k].created_at, t),
    ensures
        none_earlier(ps, k + 1, id, t),
{
}

proof fn lemma_none_earlier_lower(ps: Seq<EverhourProject>, k: int, id: IdView, t: Timestamp, u: Timestamp)
    requires
        0 <= k <= ps.len(),
        none_earlier(ps, k, id, t),
        ts_before(u, t),
    ensures
        none_earlier(ps, k, id, u),
{
    assert forall|q: int| 0 <= q < k && in_workspace(ps, q, id) implies !ts_before(#[trigger] ps[q].created_at, u) by {
        if ts_before(ps[q].created_at, u) {
            lemma_ts_before_transitive(ps[q].created_at, u, t);
        }
    }
}

/// The customers that the projects' workspaces stand for: one for each
/// workspace, in the order in which the workspaces first appear.
pub fn customers_from_projects(projects: &Vec<EverhourProject>) -> (r: Vec<Customer>)
    ensures
        forall|i: int, j: int| 0 <= i < j < r@.len() ==> r@[i].id@ != r@[j].id@,
        forall|q: int|
            #![trigger projects@[q]]
            0 <= q < projects@.len() ==> exists|i: int|
                0 <= i < r@.len() && r@[i].id@ == projects@[q].workspace_id@,
        forall|i: int| 0 <= i < r@.len() ==> customer_of_workspace(projects@, projects@.len() as int, #[trigger] r@[i]),
        forall|i: int, j: int, fi: int, fj: int|
            #![trigger first_of_workspace(projects@, r@[i].id@, fi), first_of_workspace(projects@, r@[j].id@, fj)]
            0 <= i < j < r@.len() && first_of_workspace(projects@, r@[i].id@, fi) && first_of_workspace(
                projects@,
                r@[j].id@,
                fj,
            ) ==> fi < fj,
{
    let ghost ps = projects@;
    let mut r: Vec<Customer> = Vec::new();
    let ghost mut first: Seq<int> = Seq::empty();
    let ghost mut earliest: Seq<int> = Seq::empty();
    let ghost mut owner: Seq<int> = Seq::empty();
    let mut k: usize = 0;
    while k < projects.len()
        invariant
            ps == projects@,
            k <= ps.len(),
            r@.len() == first.len() == earliest.len(),
            owner.len() == k,
            forall|i: int, j: int| 0 <= i < j < r@.len() ==> r@[i].id@ != r@[j].id@,
            forall|q: int|
                0 <= q < k ==> 0 <= #[trigger] owner[q] < r@.len() && r@[owner[q]].id@ == ps[q].workspace_id@,
            forall|i: int|
                0 <= i < r@.len() ==> {
                    let f = #[trigger] first[i];
                    &&& 0 <= f < k
                    &&& in_workspace(ps, f, r@[i].id@)
                    &&& forall|q: int| 0 <= q < f ==> !in_workspace(ps, q, r@[i].id@)
                    &&& r@[i].id == ps[f].workspace_id
                    &&& r@[i].name == ps[f].workspace_name
                    &&& r@[i].note@ == Seq::<char>::empty()
                },
            forall|i: int|
                0 <= i < r@.len() ==> (#[trigger] r@[i]).archived == all_closed(ps, k as int, r@[i].id@),
            forall|i: int|
                0 <= i < r@.len() ==> {
                    let e = #[trigger] earliest[i];
                    &&& 0 <= e < k
                    &&& in_workspace(ps, e, r@[i].id@)
                    &&& ps[e].created_at == r@[i].created_at
                },
            forall|i: int|
                0 <= i < r@.len() ==> none_earlier(ps, k as int, (#[trigger] r@[i]).id@, r@[i].created_at),
            forall|i: int, j: int| 0 <= i < j < r@.len() ==> first[i] < first[j],
        decreases ps.len() - k,
    {
        let p = &projects[k];
        let mut i: usize = 0;
        while i < r.len()
            invariant
                i <= r@.len(),
                forall|j: int| 0 <= j < i ==> r@[j].id@ != p.workspace_id@,
            ensures
                i <= r@.len(),
                forall|j: int| 0 <= j < i ==> r@[j].id@ != p.workspace_id@,
                i < r@.len() ==> r@[i as int].id@ == p.workspace_id@,
            decreases r@.len() - i,
        {
            if r[i].id == p.workspace_id {
                break;
            }
            i = i + 1;
        }
        let ghost old_r = r@;
        proof {
            assert forall|j: int| 0 <= j < old_r.len() && old_r[j].id@ != p.workspace_id@ implies
                all_closed(ps, k + 1, old_r[j].id@) == all_closed(ps, k as int, old_r[j].id@)
                && none_earlier(ps, k + 1, old_r[j].id@, old_r[j].created_at) by {
                lemma_all_closed_step(ps, k as int, old_r[j].id@);
                assert(old_r[j] == old_r[j]);
                lemma_none_earlier_step(ps, k as int, old_r[j].id@, old_r[j].created_at);
            }
        }
        if i < r.len() {
            let old_c = r[i].duplicate();
            let open = status_is_open(&p.status);
            let earlier = p.created_at.is_before(&old_c.created_at);
            let created_at = if earlier {
                p.created_at
            } else {
                old_c.created_at
            };
            let c = Customer {
                id: old_c.id,
                name: old_c.name,
                note: old_c.note,
                archived: old_c.archived && !open,
                created_at,
            };
            proof {
                lemma_all_closed_step(ps, k as int, c.id@);
                if earlier {
                    lemma_none_earlier_lower(ps, k as int, c.id@, old_c.created_at, created_at);
                }
                lemma_none_earlier_step(ps, k as int, c.id@, created_at);
            }
            r.set(i, c);
            proof {
                if earlier {
                    earliest = earliest.update(i as int, k as int);
                }
                owner = owner.push(i as int);
                assert forall|j: int| 0 <= j < r@.len() && j != i implies old_r[j].id@ != p.workspace_id@ by {
                    assert(old_r[j].id@ != old_r[i as int].id@);
                }
            }
        } else {
            let c = p.to_customer();
            proof {
                assert forall|q: int| 0 <= q < k implies !in_workspace(ps, q, p.workspace_id@) by {
                    assert(old_r[owner[q]].id@ == ps[q].workspace_id@);
                }
                assert(all_closed(ps, k as int, c.id@));
                lemma_all_closed_step(ps, k as int, c.id@);
                assert(none_earlier(ps, k as int, c.id@, c.created_at));
                lemma_none_earlier_step(ps, k as int, c.id@, c.created_at);
            }
            r.push(c);
            proof {
                first = first.push(k as int);
                earliest = earliest.push(k as int);
                owner = owner.push(i as int);
            }
        }
        k = k + 1;
    }
    proof {
        assert forall|q: int| #![trigger projects@[q]] 0 <= q < projects@.len() implies exists|i: int|
            0 <= i < r@.len() && r@[i].id@ == projects@[q].workspace_id@ by {
            let i = owner[q];
            assert(0 <= i < r@.len() && r@[i].id@ == projects@[q].workspace_id@);
        }
        assert forall|i: int| 0 <= i < r@.len() implies customer_of_workspace(ps, ps.len() as int, #[trigger] r@[i]) by {
            let f = first[i];
            let e = earliest[i];
            assert(in_workspace(ps, f, r@[i].id@));
            assert(in_workspace(ps, e, r@[i].id@));
        }
        assert forall|i: int, j: int, fi: int, fj: int|
            #![trigger first_of_workspace(projects@, r@[i].id@, fi), first_of_workspace(projects@, r@[j].id@, fj)]
            0 <= i < j < r@.len() && first_of_workspace(projects@, r@[i].id@, fi) && first_of_workspace(
                projects@,
                r@[j].id@,
                fj,
            ) implies fi < fj by {
            let a = first[i];
            let b = first[j];
            assert(first_of_workspace(ps, r@[i].id@, a));
            assert(first_of_workspace(ps, r@[j].id@, b));
            if fi < a {
                assert(!in_workspace(ps, fi, r@[i].id@));
            }
            if a < fi {
                assert(!in_workspace(ps, a, r@[i].id@));
            }
            if fj < b {
                assert(!in_workspace(ps, fj, r@[j].id@));
            }
            if b < fj {
                assert(!in_workspace(ps, b, r@[j].id@));
            }
        }
    }
    r
}

/// Whether some project has the id `id`.
pub open spec fn has_project(ps: Seq<EverhourProject>, id: IdView) -> bool {
    exists|q: int| 0 <= q < ps.len() && (#[trigger] ps[q]).id@ == id
}

/// Project `q` is the last one with the id `id`, the one that a lookup by id
/// finds.
pub open spec fn found_project(ps: Seq<EverhourProject>, id: IdView, q: int) -> bool {
    &&& 0 <= q < ps.len()
    &&& ps[q].id@ == id
    &&& forall|j: int| q < j < ps.len() ==> (#[trigger] ps[j]).id@ != id
}

/// `t` is the first of the task's projects that can be looked up.
pub open spec fn first_known(task_projects: Seq<Id>, ps: Seq<EverhourProject>, t: int) -> bool {
    &&& 0 <= t < task_projects.len()
    &&& has_project(ps, task_projects[t]@)
    &&& forall|j: int| 0 <= j < t ==> !has_project(ps, (#[trigger] task_projects[j])@)
}

/// `x` is the entry that booked time `e` on `task` becomes, with project `p`
/// and user `user`.
pub open spec fn entry_from_booking(x: TimeEntry, e: EverhourTimeEntry, task: EverhourTask, p: EverhourProject, user: EverhourUser) -> bool {
    &&& x.id@ == IdView::Str(composite_text(e.user@, task.id@, e.date))
    &&& x.date_at == e.date
    &&& x.minutes == e.time
    &&& x.customer_id == p.workspace_id
    &&& x.customer_name == p.workspace_name
    &&& x.project_id == p.id
    &&& x.project_name == p.name
    &&& x.service_id == task.id
    &&& x.service_name == task.name
    &&& x.user_id == user.id
    &&& x.user_name == user.name
    &&& x.note == e.comment
    &&& x.billable
    &&& x.locked == e.is_locked
    &&& x.created_at == e.created_at
}

/// The position of the project with id `id`: the last one, as a map from id
/// to project would keep it.
fn lookup_project(projects: &Vec<EverhourProject>, id: &ProjectId) -> (r: Option<usize>)
    ensures
        r is None <==> !has_project(projects@, id@),
        r matches Some(q) ==> found_project(projects@, id@, q as int),
{
    let mut i: usize = projects.len();
    while i > 0
        invariant
            i <= projects@.len(),
            forall|j: int| i <= j < projects@.len() ==> (#[trigger] projects@[j]).id@ != id@,
        decreases i,
    {
        if projects[i - 1].id == *id {
            return Some(i - 1);
        }
        i = i - 1;
    }
    None
}

impl EverhourTimeEntry {
    /// The entry in the common model. The project is the first of the task's
    /// projects that is known; without a task or a known project there is
    /// no entry.
    pub fn into_entry(self, projects: &Vec<EverhourProject>, user: &EverhourUser) -> (r: Option<TimeEntry>)
        ensures
            self.task is None ==> r is None,
            self.task matches Some(task) ==> {
                &&& (forall|t: int| 0 <= t < task.projects@.len() ==> !has_project(projects@, (#[trigger] task.projects@[t])@)) ==> r is None
                &&& r is Some ==> exists|t: int, q: int|
                    #![trigger task.projects@[t], projects@[q]]
                    first_known(task.projects@, projects@, t) && found_project(projects@, task.projects@[t]@, q)
                        && entry_from_booking(r->Some_0, self, task, projects@[q], *user)
                &&& (exists|t: int| first_known(task.projects@, projects@, t)) ==> r is Some
            },
    {
        let ghost this = self;
        let task = match self.task {
            Some(task) => task,
            None => {
                return None;
            },
        };
        let mut t: usize = 0;
        let mut found: Option<usize> = None;
        while t < task.projects.len()
            invariant_except_break
                found is None,
            invariant
                t <= task.projects@.len(),
                forall|j: int| 0 <= j < t ==> !has_project(projects@, (#[trigger] task.projects@[j])@),
            ensures
                t <= task.projects@.len(),
                forall|j: int| 0 <= j < t ==> !has_project(projects@, (#[trigger] task.projects@[j])@),
                t < task.projects@.len() ==> (found matches Some(q) && first_known(task.projects@, projects@, t as int)
                    && found_project(projects@, task.projects@[t as int]@, q as int)),
                t == task.projects@.len() ==> found is None,
            decreases task.projects@.len() - t,
        {
            match lookup_project(projects, &task.projects[t]) {
                Some(q) => {
                    found = Some(q);
                    break;
                },
                None => {},
            }
            t = t + 1;
        }
        let q = match found {
            Some(q) => q,
            None => {
                proof {
                    assert forall|t2: int| !first_known(task.projects@, projects@, t2) by {
                        if 0 <= t2 < task.projects@.len() {
                            assert(!has_project(projects@, task.projects@[t2]@));
                        }
                    }
                }
                return None;
            },
        };
        let p = &projects[q];
        let id = build_time_entry_id(&self.user, &task.id, &self.date);
        let x = TimeEntry {
            id,
            date_at: self.date,
            minutes: self.time,
            customer_id: p.workspace_id.duplicate(),
            customer_name: p.workspace_name.clone(),
            project_id: p.id.duplicate(),
            project_name: p.name.clone(),
            service_id: task.id.duplicate(),
            service_name: task.name.clone(),
            user_id: user.id.duplicate(),
            user_name: user.name.clone(),
            note: self.comment,
            billable: true,
            locked: self.is_locked,
            created_at: self.created_at,
        };
        proof {
            assert(entry_from_booking(x, this, task, projects@[q as int], *user));
            assert(first_known(task.projects@, projects@, t as int));
            assert(found_project(projects@, task.projects@[t as int]@, q as int));
        }
        Some(x)
    }
}

/// Booked time as the backend answers a booking: an entry, or a broken
/// assumption when it cannot be placed.
pub fn created_entry(entry: EverhourTimeEntry, projects: &Vec<EverhourProject>, user: &EverhourUser) -> (r: Result<TimeEntry, AcariError>)
    ensures
        r is Ok <==> (entry.task matches Some(task) && exists|t: int| first_known(task.projects@, projects@, t)),
        match r {
            Ok(x) => entry.task matches Some(task) && exists|q: int|
                entry_from_booking(x, entry, task, #[trigger] projects@[q], *user),
            Err(e) => e is InternalError,
        },
{
    match entry.into_entry(projects, user) {
        Some(x) => Ok(x),
        None => Err(AcariError::InternalError(String::from_str("Invalid time entry id (invalid parts)"))),
    }
}

/// The body that books `minutes` for `user_id` on the date of `day`.
pub fn create_record(day: Day, today: Date, user_id: &UserId, minutes: Minutes, note: Option<String>) -> (r: EverhourCreateTimeRecord)
    requires
        today.inner(),
    ensures
        r.date == day_date(day, today),
        r.time == minutes,
        r.user == *user_id,
        r.comment == note,
{
    EverhourCreateTimeRecord { date: day.resolve(today), time: minutes, user: user_id.duplicate(), comment: note }
}

/// The task and the body that set the time of the entry with a synthesized
/// id: booking again for the same user, task and date replaces the time.
pub fn update_record(entry_id: &TimeEntryId, minutes: Minutes, note: Option<String>) -> (r: Result<(ServiceId, EverhourCreateTimeRecord), AcariError>)
    ensures
        match r {
            Ok((task, record)) => reads_as_entry_key(entry_id@, Ok((record.user, task, record.date)))
                && record.time == minutes && record.comment == note,
            Err(e) => reads_as_entry_key(entry_id@, Err(e)),
        },
{
    match parse_time_entry_id(entry_id) {
        Ok((user, task, date)) => Ok((task, EverhourCreateTimeRecord { date, time: minutes, user, comment: note })),
        Err(e) => Err(e),
    }
}

/// Whether a timer word means running.
pub open spec fn is_active(status: Seq<char>) -> bool {
    status == "active"@
}

/// `x` is the entry that a running timer on `task` for `user` stands for, with
/// `project` as its task's first project where there is one.
pub open spec fn entry_from_timer_spec(x: TimeEntry, timer: EverhourTimer, task: EverhourTask, user: EverhourUserSimple, project: Option<EverhourProject>) -> bool {
    &&& x.id@ == IdView::Str(composite_text(user.id@, task.id@, timer.started_at.date))
    &&& x.date_at == timer.started_at.date
    &&& x.minutes == timer.duration
    &&& match project {
        Some(p) => x.customer_id == p.workspace_id && x.customer_name == p.workspace_name && x.project_id
            == p.id && x.project_name == p.name,
        None => x.customer_id@ == IdView::Num(0) && x.customer_name@ == Seq::<char>::empty()
            && x.project_id@ == IdView::Num(0) && x.project_name@ == Seq::<char>::empty(),
    }
    &&& x.service_id == task.id
    &&& x.service_name == task.name
    &&& x.user_id == user.id
    &&& x.user_name == user.name
    &&& match timer.comment {
        Some(c) => x.note == c,
        None => x.note@ == Seq::<char>::empty(),
    }
    &&& x.billable
    &&& !x.locked
    &&& x.created_at == timer.started_at
}

impl EverhourTimer {
    /// Whether the timer runs, on a task and for a user.
    pub open spec fn running(self) -> bool {
        is_active(self.status@) && self.task is Some && self.user is Some
    }

    fn is_running(&self) -> (r: bool)
        ensures
            r == self.running(),
    {
        same_text(self.status.as_str(), "active") && self.task.is_some() && self.user.is_some()
    }

    /// The project to look up for a running timer: the first of its task's
    /// projects.
    pub fn project_to_fetch(&self) -> (r: Option<ProjectId>)
        ensures
            !self.running() ==> r is None,
            self.running() ==> match r {
                Some(id) => self.task->Some_0.projects@.len() > 0 && id == self.task->Some_0.projects@[0],
                None => self.task->Some_0.projects@.len() == 0,
            },
    {
        if !self.is_running() {
            return None;
        }
        match &self.task {
            Some(task) => if task.projects.len() > 0 {
                Some(task.projects[0].duplicate())
            } else {
                None
            },
            None => None,
        }
    }

    /// The entry that a running timer stands for; none when it does not run.
    /// `project` is the project that the timer's task belongs to first, if any.
    pub fn to_entry(&self, project: Option<&EverhourProject>) -> (r: Option<TimeEntry>)
        ensures
            !self.running() ==> r is None,
            self.running() ==> r is Some && entry_from_timer_spec(
                r->Some_0,
                *self,
                self.task->Some_0,
                self.user->Some_0,
                match project {
                    Some(p) => Some(*p),
                    None => None,
                },
            ),
    {
        if !self.is_running() {
            return None;
        }
        let (task, user) = match (&self.task, &self.user) {
            (Some(task), Some(user)) => (task, user),
            _ => {
                return None;
            },
        };
        let (customer_id, customer_name, project_id, project_name) = match project {
            Some(p) => (p.workspace_id.duplicate(), p.workspace_name.clone(), p.id.duplicate(), p.name.clone()),
            None => (Id::Num(0), String::new(), Id::Num(0), String::new()),
        };
        let note = match &self.comment {
            Some(c) => c.clone(),
            None => String::new(),
        };
        let date = self.started_at.date;
        Some(TimeEntry {
            id: build_time_entry_id(&user.id, &task.id, &date),
            date_at: date,
            minutes: self.duration,
            customer_id,
            customer_name,
            project_id,
            project_name,
            service_id: task.id.duplicate(),
            service_name: task.name.clone(),
            user_id: user.id.duplicate(),
            user_name: user.name.clone(),
            note,
            billable: true,
            locked: false,
            created_at: self.started_at,
        })
    }
}

/// The tracker as read: a running timer is tracking since it started; with
/// no timer running, nothing is tracked and nothing counts as stopped.
pub fn tracker_from_timer(started_at: Timestamp, entry: Option<TimeEntry>) -> (r: Tracker)
    ensures
        entry is Some ==> r.since == Some(started_at),
        entry is None ==> r.since is None,
        r.tracking_time_entry == entry,
        r.stopped_time_entry is None,
{
    match entry {
        Some(e) => Tracker { since: Some(started_at), tracking_time_entry: Some(e), stopped_time_entry: None },
        None => Tracker { since: None, tracking_time_entry: None, stopped_time_entry: None },
    }
}

/// The tracker after starting a timer at `now`.
pub fn started_tracker(now: Timestamp, entry: Option<TimeEntry>) -> (r: Tracker)
    ensures
        r.since == Some(now),
        r.tracking_time_entry == entry,
        r.stopped_time_entry is None,
{
    Tracker { since: Some(now), tracking_time_entry: entry, stopped_time_entry: None }
}

/// The tracker after stopping the timer: what ran is now the stopped entry.
pub fn stopped_tracker(entry: Option<TimeEntry>) -> (r: Tracker)
    ensures
        r.since is None,
        r.tracking_time_entry is None,
        r.stopped_time_entry == entry,
{
    Tracker { since: None, tracking_time_entry: None, stopped_time_entry: entry }
}

} // verus!
