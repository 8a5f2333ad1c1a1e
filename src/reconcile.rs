//! The operations that keep one entry per slot: setting the time of a day,
//! and starting and stopping the tracker. They decide; the caller performs
//! the calls that they ask for.

use crate::date::Date;
use crate::error::AcariError;
use crate::ids::{CustomerId, IdView, ProjectId, ServiceId, TimeEntryId};
use crate::minutes::Minutes;
use crate::model::{lemma_ts_before_transitive, lemma_ts_total, ts_before, Customer, Project, Service, TimeEntry, Tracker};
use crate::query::Day;
use crate::text::{push_str, same_text};
use vstd::prelude::*;

verus! {

/// The date, customer, project and service that an entry is booked on.
#[derive(Debug, Clone)]
pub struct Slot {
    pub date: Date,
    pub customer_id: CustomerId,
    pub project_id: ProjectId,
    pub service_id: ServiceId,
}

pub open spec fn in_slot(e: TimeEntry, slot: Slot) -> bool {
    &&& e.date_at == slot.date
    &&& e.customer_id@ == slot.customer_id@
    &&& e.project_id@ == slot.project_id@
    &&& e.service_id@ == slot.service_id@
}

fn is_in_slot(e: &TimeEntry, slot: &Slot) -> (r: bool)
    ensures
        r == in_slot(*e, *slot),
{
    e.date_at == slot.date && e.customer_id == slot.customer_id && e.project_id == slot.project_id
        && e.service_id == slot.service_id
}

/// The entries of `s` that are booked on `slot`, in order.
pub open spec fn slot_entries(s: Seq<TimeEntry>, slot: Slot) -> Seq<TimeEntry>
    decreases s.len(),
{
    if s.len() == 0 {
        Seq::empty()
    } else {
        let rest = slot_entries(s.drop_last(), slot);
        if in_slot(s.last(), slot) {
            rest.push(s.last())
        } else {
            rest
        }
    }
}

/// A call that `set` asks for.
#[derive(Debug, Clone)]
pub enum EntryAction {
    /// Set minutes and note of this entry.
    Update(TimeEntryId),
    /// Remove this entry.
    Delete(TimeEntryId),
    /// Book a new entry on the slot.
    Create,
}

/// The value of an action.
pub ghost enum ActionView {
    Update(IdView),
    Delete(IdView),
    Create,
}

impl View for EntryAction {
    type V = ActionView;

    open spec fn view(&self) -> ActionView {
        match self {
            EntryAction::Update(id) => ActionView::Update(id@),
            EntryAction::Delete(id) => ActionView::Delete(id@),
            EntryAction::Create => ActionView::Create,
        }
    }
}

/// What `set` asks for, given the entries already on the slot: update the
/// first, delete all others; or create one where there is none.
pub open spec fn set_plan(matches: Seq<TimeEntry>) -> Seq<ActionView> {
    if matches.len() == 0 {
        seq![ActionView::Create]
    } else {
        Seq::new(
            matches.len(),
            |i: int|
                if i == 0 {
                    ActionView::Update(matches[0].id@)
                } else {
                    ActionView::Delete(matches[i].id@)
                },
        )
    }
}

/// The entries of `entries` that are booked on `slot`.
pub fn entries_in_slot(entries: &Vec<TimeEntry>, slot: &Slot) -> (r: Vec<TimeEntry>)
    ensures
        r@ == slot_entries(entries@, *slot),
{
    let mut r: Vec<TimeEntry> = Vec::new();
    let mut i: usize = 0;
    while i < entries.len()
        invariant
            i <= entries@.len(),
            r@ == slot_entries(entries@.subrange(0, i as int), *slot),
        decreases entries@.len() - i,
    {
        assert(entries@.subrange(0, i + 1).drop_last() =~= entries@.subrange(0, i as int));
        if is_in_slot(&entries[i], slot) {
            r.push(entries[i].duplicate());
        }
        i = i + 1;
    }
    assert(entries@.subrange(0, i as int) =~= entries@);
    r
}

/// The calls that set the time of `slot` to a single entry, given the
/// entries of its day.
pub fn plan_set(entries: &Vec<TimeEntry>, slot: &Slot) -> (r: Vec<EntryAction>)
    ensures
        r@.len() == set_plan(slot_entries(entries@, *slot)).len(),
        forall|i: int| 0 <= i < r@.len() ==> (#[trigger] r@[i])@ == set_plan(slot_entries(entries@, *slot))[i],
{
    let matches = entries_in_slot(entries, slot);
    let mut r: Vec<EntryAction> = Vec::new();
    if matches.len() == 0 {
        r.push(EntryAction::Create);
        return r;
    }
    r.push(EntryAction::Update(matches[0].id.duplicate()));
    let mut i: usize = 1;
    while i < matches.len()
        invariant
            1 <= i <= matches@.len(),
            r@.len() == i,
            forall|j: int| 0 <= j < i ==> (#[trigger] r@[j])@ == set_plan(matches@)[j],
        decreases matches@.len() - i,
    {
        r.push(EntryAction::Delete(matches[i].id.duplicate()));
        i = i + 1;
    }
    r
}

/// Entry `i` is the one to reuse among those on the slot: created last, and
/// the first in order among those created at that same moment.
pub open spec fn latest_at(s: Seq<TimeEntry>, slot: Slot, i: int) -> bool {
    &&& 0 <= i < s.len()
    &&& in_slot(s[i], slot)
    &&& forall|j: int| 0 <= j < s.len() && in_slot(#[trigger] s[j], slot) ==> !ts_before(s[i].created_at, s[j].created_at)
    &&& forall|j: int| 0 <= j < i && in_slot(#[trigger] s[j], slot) ==> ts_before(s[j].created_at, s[i].created_at)
}

/// The entry on the slot that was created last, if any.
pub fn latest_in_slot(entries: &Vec<TimeEntry>, slot: &Slot) -> (r: Option<TimeEntry>)
    ensures
        r is None <==> forall|j: int| 0 <= j < entries@.len() ==> !in_slot(#[trigger] entries@[j], *slot),
        r matches Some(e) ==> exists|i: int| latest_at(entries@, *slot, i) && e == #[trigger] entries@[i],
{
    let mut best: Option<usize> = None;
    let mut k: usize = 0;
    while k < entries.len()
        invariant
            k <= entries@.len(),
            best is None ==> forall|j: int| 0 <= j < k ==> !in_slot(#[trigger] entries@[j], *slot),
            best matches Some(b) ==> {
                &&& b < k
                &&& in_slot(entries@[b as int], *slot)
                &&& forall|j: int| 0 <= j < k && in_slot(#[trigger] entries@[j], *slot) ==> !ts_before(entries@[b as int].created_at, entries@[j].created_at)
                &&& forall|j: int| 0 <= j < b && in_slot(#[trigger] entries@[j], *slot) ==> ts_before(entries@[j].created_at, entries@[b as int].created_at)
            },
        decreases entries@.len() - k,
    {
        if is_in_slot(&entries[k], slot) {
            match best {
                None => {
                    best = Some(k);
                },
                Some(b) => {
                    if entries[b].created_at.is_before(&entries[k].created_at) {
                        proof {
                            assert forall|j: int| 0 <= j < k && in_slot(#[trigger] entries@[j], *slot) implies ts_before(entries@[j].created_at, entries@[k as int].created_at) by {
                                lemma_ts_total(entries@[j].created_at, entries@[b as int].created_at);
                                if ts_before(entries@[j].created_at, entries@[b as int].created_at) {
                                    lemma_ts_before_transitive(entries@[j].created_at, entries@[b as int].created_at, entries@[k as int].created_at);
                                }
                            }
                            assert forall|j: int| 0 <= j < k + 1 && in_slot(#[trigger] entries@[j], *slot) implies !ts_before(entries@[k as int].created_at, entries@[j].created_at) by {
                                if j < k {
                                    lemma_ts_total(entries@[j].created_at, entries@[k as int].created_at);
                                }
                            }
                        }
                        best = Some(k);
                    }
                },
            }
        }
        k = k + 1;
    }
    match best {
        Some(b) => {
            proof {
                assert(latest_at(entries@, *slot, b as int));
            }
            Some(entries[b].duplicate())
        },
        None => None,
    }
}

/// The first customer with this name.
pub fn find_customer(customers: &Vec<Customer>, name: &str) -> (r: Result<Customer, AcariError>)
    ensures
        match r {
            Ok(c) => exists|i: int|
                0 <= i < customers@.len() && c == #[trigger] customers@[i] && c.name@ == name@ && forall|j: int|
                    0 <= j < i ==> (#[trigger] customers@[j]).name@ != name@,
            Err(e) => (e matches AcariError::UserError(m) && m@ == "No customer with name: "@ + name@) && forall|j: int|
                0 <= j < customers@.len() ==> (#[trigger] customers@[j]).name@ != name@,
        },
{
    let mut i: usize = 0;
    while i < customers.len()
        invariant
            i <= customers@.len(),
            forall|j: int| 0 <= j < i ==> (#[trigger] customers@[j]).name@ != name@,
        decreases customers@.len() - i,
    {
        if same_text(customers[i].name.as_str(), name) {
            return Ok(customers[i].duplicate());
        }
        i = i + 1;
    }
    let mut msg = String::from_str("No customer with name: ");
    push_str(&mut msg, name);
    Err(AcariError::UserError(msg))
}

/// The first project of the customer with this name.
pub fn find_project(projects: &Vec<Project>, customer_id: &CustomerId, name: &str) -> (r: Result<Project, AcariError>)
    ensures
        match r {
            Ok(p) => exists|i: int|
                0 <= i < projects@.len() && p == #[trigger] projects@[i] && p.name@ == name@ && p.customer_id@
                    == customer_id@ && forall|j: int|
                    0 <= j < i ==> !((#[trigger] projects@[j]).name@ == name@ && projects@[j].customer_id@
                        == customer_id@),
            Err(e) => (e matches AcariError::UserError(m) && m@ == "No project with name: "@ + name@) && forall|j: int|
                0 <= j < projects@.len() ==> !((#[trigger] projects@[j]).name@ == name@ && projects@[j].customer_id@
                    == customer_id@),
        },
{
    let mut i: usize = 0;
    while i < projects.len()
        invariant
            i <= projects@.len(),
            forall|j: int|
                0 <= j < i ==> !((#[trigger] projects@[j]).name@ == name@ && projects@[j].customer_id@
                    == customer_id@),
        decreases projects@.len() - i,
    {
        if same_text(projects[i].name.as_str(), name) && projects[i].customer_id == *customer_id {
            return Ok(projects[i].duplicate());
        }
        i = i + 1;
    }
    let mut msg = String::from_str("No project with name: ");
    push_str(&mut msg, name);
    Err(AcariError::UserError(msg))
}

/// The first service with this name.
pub fn find_service(services: &Vec<Service>, name: &str) -> (r: Result<Service, AcariError>)
    ensures
        match r {
            Ok(s) => exists|i: int|
                0 <= i < services@.len() && s == #[trigger] services@[i] && s.name@ == name@ && forall|j: int|
                    0 <= j < i ==> (#[trigger] services@[j]).name@ != name@,
            Err(e) => (e matches AcariError::UserError(m) && m@ == "No service with name: "@ + name@) && forall|j: int|
                0 <= j < services@.len() ==> (#[trigger] services@[j]).name@ != name@,
        },
{
    let mut i: usize = 0;
    while i < services.len()
        invariant
            i <= services@.len(),
            forall|j: int| 0 <= j < i ==> (#[trigger] services@[j]).name@ != name@,
        decreases services@.len() - i,
    {
        if same_text(services[i].name.as_str(), name) {
            return Ok(services[i].duplicate());
        }
        i = i + 1;
    }
    let mut msg = String::from_str("No service with name: ");
    push_str(&mut msg, name);
    Err(AcariError::UserError(msg))
}

/// Sets the time of a slot on a day.
#[derive(Debug, Clone)]
pub struct SetCmd {
    pub customer: String,
    pub project: String,
    pub service: String,
    pub time: Minutes,
    pub day: Day,
    pub note: Option<String>,
}

/// A backend call that `set` makes, with its arguments.
#[derive(Debug, Clone)]
pub enum EntryCall {
    /// Set minutes and note of this entry.
    Update { id: TimeEntryId, minutes: Minutes, note: Option<String> },
    /// Remove this entry.
    Delete { id: TimeEntryId },
    /// Book a new entry.
    Create { day: Day, project_id: ProjectId, service_id: ServiceId, minutes: Minutes, note: Option<String> },
}

/// `c` is the call that action `a` of `cmd`'s plan for `slot` stands for.
pub open spec fn call_for(c: EntryCall, a: ActionView, cmd: SetCmd, slot: Slot) -> bool {
    match a {
        ActionView::Update(id) => c matches EntryCall::Update { id: x, minutes, note } && x@ == id && minutes
            == cmd.time && note == cmd.note,
        ActionView::Delete(id) => c matches EntryCall::Delete { id: x } && x@ == id,
        ActionView::Create => c matches EntryCall::Create { day, project_id, service_id, minutes, note } && day
            == cmd.day && project_id == slot.project_id && service_id == slot.service_id && minutes == cmd.time
            && note == cmd.note,
    }
}

fn copy_note(note: &Option<String>) -> (r: Option<String>)
    ensures
        r == *note,
{
    match note {
        Some(n) => Some(n.clone()),
        None => None,
    }
}

impl SetCmd {
    /// The calls that set the slot to this command's time, given the entries
    /// of its day: update the first entry on the slot and delete the others,
    /// or create one where there is none.
    pub fn calls(&self, entries: &Vec<TimeEntry>, slot: &Slot) -> (r: Vec<EntryCall>)
        ensures
            r@.len() == set_plan(slot_entries(entries@, *slot)).len(),
            forall|i: int|
                0 <= i < r@.len() ==> call_for(
                    #[trigger] r@[i],
                    set_plan(slot_entries(entries@, *slot))[i],
                    *self,
                    *slot,
                ),
    {
        let plan = plan_set(entries, slot);
        let ghost p = set_plan(slot_entries(entries@, *slot));
        let mut r: Vec<EntryCall> = Vec::new();
        let mut i: usize = 0;
        while i < plan.len()
            invariant
                i <= plan@.len(),
                plan@.len() == p.len(),
                forall|j: int| 0 <= j < plan@.len() ==> (#[trigger] plan@[j])@ == p[j],
                r@.len() == i,
                forall|j: int| 0 <= j < i ==> call_for(#[trigger] r@[j], p[j], *self, *slot),
            decreases plan@.len() - i,
        {
            let c = match &plan[i] {
                EntryAction::Update(id) => EntryCall::Update {
                    id: id.duplicate(),
                    minutes: self.time,
                    note: copy_note(&self.note),
                },
                EntryAction::Delete(id) => EntryCall::Delete { id: id.duplicate() },
                EntryAction::Create => EntryCall::Create {
                    day: self.day,
                    project_id: slot.project_id.duplicate(),
                    service_id: slot.service_id.duplicate(),
                    minutes: self.time,
                    note: copy_note(&self.note),
                },
            };
            r.push(c);
            i = i + 1;
        }
        r
    }
}

/// Starts tracking time on a slot today, from an optional offset.
#[derive(Debug, Clone)]
pub struct StartCmd {
    pub customer: String,
    pub project: String,
    pub service: String,
    pub offset: Option<Minutes>,
    pub note: Option<String>,
}

impl StartCmd {
    /// The entry to track on: with an explicit offset always a new one;
    /// else the one on the slot created last, if any.
    pub fn existing_entry(&self, entries: &Vec<TimeEntry>, slot: &Slot) -> (r: Option<TimeEntry>)
        ensures
            self.offset is Some ==> r is None,
            self.offset is None ==> (r is None <==> forall|j: int|
                0 <= j < entries@.len() ==> !in_slot(#[trigger] entries@[j], *slot)),
            self.offset is None ==> (r matches Some(e) ==> exists|i: int|
                latest_at(entries@, *slot, i) && e == #[trigger] entries@[i]),
    {
        match self.offset {
            Some(_) => None,
            None => latest_in_slot(entries, slot),
        }
    }

    /// The minutes that a new entry starts with.
    pub fn initial_minutes(&self) -> (r: Minutes)
        ensures
            r == match self.offset {
                Some(m) => m,
                None => Minutes(0),
            },
    {
        match self.offset {
            Some(m) => m,
            None => Minutes(0),
        }
    }
}

/// What `stop` does with the tracker as it reads.
#[derive(Debug, Clone)]
pub enum StopStep {
    /// Detach the tracker from this running entry.
    Detach(TimeEntryId),
    /// Nothing runs, but this entry was just stopped.
    AlreadyStopped,
    NotTracking,
}

pub fn stop_step(tracker: &Tracker) -> (r: StopStep)
    ensures
        tracker.tracking_time_entry matches Some(e) ==> r matches StopStep::Detach(id) && id == e.id,
        tracker.tracking_time_entry is None && tracker.stopped_time_entry is Some ==> r is AlreadyStopped,
        tracker.tracking_time_entry is None && tracker.stopped_time_entry is None ==> r is NotTracking,
{
    match &tracker.tracking_time_entry {
        Some(e) => StopStep::Detach(e.id.duplicate()),
        None => match &tracker.stopped_time_entry {
            Some(_) => StopStep::AlreadyStopped,
            None => StopStep::NotTracking,
        },
    }
}

/// The entry to show for the tracker: the running one, else the one just
/// stopped.
pub fn shown_entry(tracker: &Tracker) -> (r: Option<TimeEntry>)
    ensures
        r == match tracker.tracking_time_entry {
            Some(e) => Some(e),
            None => tracker.stopped_time_entry,
        },
{
    match &tracker.tracking_time_entry {
        Some(e) => Some(e.duplicate()),
        None => match &tracker.stopped_time_entry {
            Some(e) => Some(e.duplicate()),
            None => None,
        },
    }
}

/// Entries `s` after the entries with id `id` got `m` minutes.
pub open spec fn with_minutes_for(s: Seq<TimeEntry>, id: IdView, m: Minutes) -> Seq<TimeEntry> {
    Seq::new(s.len(), |i: int| if s[i].id@ == id { TimeEntry { minutes: m, ..s[i] } } else { s[i] })
}

/// Entries `s` without those with id `id`.
pub open spec fn without_id(s: Seq<TimeEntry>, id: IdView) -> Seq<TimeEntry>
    decreases s.len(),
{
    if s.len() == 0 {
        s
    } else {
        let rest = without_id(s.drop_last(), id);
        if s.last().id@ == id {
            rest
        } else {
            rest.push(s.last())
        }
    }
}

/// A backend's entries after one call of a `set` plan that books `m`
/// minutes; a created entry is `created`.
pub open spec fn apply_action(s: Seq<TimeEntry>, a: ActionView, m: Minutes, created: TimeEntry) -> Seq<TimeEntry> {
    match a {
        ActionView::Update(id) => with_minutes_for(s, id, m),
        ActionView::Delete(id) => without_id(s, id),
        ActionView::Create => s.push(created),
    }
}

/// A backend's entries after the calls `acts`, in order.
pub open spec fn apply_actions(s: Seq<TimeEntry>, acts: Seq<ActionView>, m: Minutes, created: TimeEntry) -> Seq<TimeEntry>
    decreases acts.len(),
{
    if acts.len() == 0 {
        s
    } else {
        apply_actions(apply_action(s, acts[0], m, created), acts.drop_first(), m, created)
    }
}

pub open spec fn unique_ids(s: Seq<TimeEntry>) -> bool {
    forall|i: int, j: int| 0 <= i < j < s.len() ==> s[i].id@ != s[j].id@
}

proof fn lemma_slot_entries_update(s: Seq<TimeEntry>, slot: Slot, id: IdView, m: Minutes)
    ensures
        slot_entries(with_minutes_for(s, id, m), slot) == with_minutes_for(slot_entries(s, slot), id, m),
    decreases s.len(),
{
    if s.len() > 0 {
        lemma_slot_entries_update(s.drop_last(), slot, id, m);
        assert(with_minutes_for(s, id, m).drop_last() =~= with_minutes_for(s.drop_last(), id, m));
        let rest = slot_entries(s.drop_last(), slot);
        if in_slot(s.last(), slot) {
            assert(with_minutes_for(rest.push(s.last()), id, m) =~= with_minutes_for(rest, id, m).push(
                with_minutes_for(s, id, m).last(),
            ));
        }
    } else {
        assert(with_minutes_for(s, id, m) =~= s);
        assert(with_minutes_for(slot_entries(s, slot), id, m) =~= slot_entries(s, slot));
    }
}

proof fn lemma_slot_entries_without(s: Seq<TimeEntry>, slot: Slot, id: IdView)
    ensures
        slot_entries(without_id(s, id), slot) == without_id(slot_entries(s, slot), id),
    decreases s.len(),
{
    if s.len() > 0 {
        lemma_slot_entries_without(s.drop_last(), slot, id);
        let rest = without_id(s.drop_last(), id);
        if s.last().id@ != id {
            assert(rest.push(s.last()).drop_last() =~= rest);
            let sr = slot_entries(s.drop_last(), slot);
            if in_slot(s.last(), slot) {
                assert(sr.push(s.last()).drop_last() =~= sr);
            }
        } else {
            let sr = slot_entries(s.drop_last(), slot);
            if in_slot(s.last(), slot) {
                assert(sr.push(s.last()).drop_last() =~= sr);
            }
        }
    }
}

proof fn lemma_slot_entries_push(s: Seq<TimeEntry>, slot: Slot, c: TimeEntry)
    requires
        in_slot(c, slot),
    ensures
        slot_entries(s.push(c), slot) == slot_entries(s, slot).push(c),
{
    assert(s.push(c).drop_last() =~= s);
}

proof fn lemma_slot_entries_actions(s: Seq<TimeEntry>, acts: Seq<ActionView>, slot: Slot, m: Minutes, c: TimeEntry)
    requires
        in_slot(c, slot),
    ensures
        slot_entries(apply_actions(s, acts, m, c), slot) == apply_actions(slot_entries(s, slot), acts, m, c),
    decreases acts.len(),
{
    if acts.len() > 0 {
        match acts[0] {
            ActionView::Update(id) => lemma_slot_entries_update(s, slot, id, m),
            ActionView::Delete(id) => lemma_slot_entries_without(s, slot, id),
            ActionView::Create => lemma_slot_entries_push(s, slot, c),
        }
        lemma_slot_entries_actions(apply_action(s, acts[0], m, c), acts.drop_first(), slot, m, c);
    }
}

proof fn lemma_without_absent(s: Seq<TimeEntry>, id: IdView)
    requires
        forall|i: int| 0 <= i < s.len() ==> s[i].id@ != id,
    ensures
        without_id(s, id) == s,
    decreases s.len(),
{
    if s.len() > 0 {
        lemma_without_absent(s.drop_last(), id);
        assert(s.drop_last().push(s.last()) =~= s);
    }
}

proof fn lemma_without_concat(a: Seq<TimeEntry>, b: Seq<TimeEntry>, id: IdView)
    ensures
        without_id(a + b, id) == without_id(a, id) + without_id(b, id),
    decreases b.len(),
{
    if b.len() == 0 {
        assert(a + b =~= a);
        assert(without_id(a, id) + without_id(b, id) =~= without_id(a, id));
    } else {
        lemma_without_concat(a, b.drop_last(), id);
        assert((a + b).drop_last() =~= a + b.drop_last());
        assert((a + b).last() == b.last());
        let wa = without_id(a, id);
        let wb = without_id(b.drop_last(), id);
        assert((wa + wb).push(b.last()) =~= wa + wb.push(b.last()));
    }
}

pub open spec fn deletes_of(y: Seq<TimeEntry>) -> Seq<ActionView> {
    Seq::new(y.len(), |i: int| ActionView::Delete(y[i].id@))
}

proof fn lemma_deletes_leave_first(x: TimeEntry, y: Seq<TimeEntry>, m: Minutes, c: TimeEntry)
    requires
        unique_ids(y),
        forall|i: int| 0 <= i < y.len() ==> y[i].id@ != x.id@,
    ensures
        apply_actions(seq![x] + y, deletes_of(y), m, c) == seq![x],
    decreases y.len(),
{
    if y.len() == 0 {
        assert(seq![x] + y =~= seq![x]);
    } else {
        let id = y[0].id@;
        let rest = y.drop_first();
        assert(seq![x] + y =~= seq![x, y[0]] + rest);
        lemma_without_concat(seq![x, y[0]], rest, id);
        assert(seq![x, y[0]].drop_last() =~= seq![x]);
        assert(seq![x].drop_last() =~= Seq::<TimeEntry>::empty());
        assert(y[0].id@ != x.id@);
        assert(without_id(seq![x].drop_last(), id) =~= Seq::<TimeEntry>::empty());
        assert(Seq::<TimeEntry>::empty().push(x) =~= seq![x]);
        assert(without_id(seq![x], id) =~= seq![x]);
        assert(without_id(seq![x, y[0]], id) =~= seq![x]);
        assert forall|i: int| 0 <= i < rest.len() implies rest[i].id@ != id by {
            assert(rest[i] == y[i + 1]);
        }
        lemma_without_absent(rest, id);
        assert(deletes_of(y)[0] == ActionView::Delete(id));
        assert(deletes_of(y).drop_first() =~= deletes_of(rest));
        assert(apply_action(seq![x] + y, deletes_of(y)[0], m, c) =~= seq![x] + rest);
        assert forall|i: int, j: int| 0 <= i < j < rest.len() implies rest[i].id@ != rest[j].id@ by {
            assert(rest[i] == y[i + 1] && rest[j] == y[j + 1]);
        }
        lemma_deletes_leave_first(x, rest, m, c);
    }
}

proof fn lemma_plan_on_slot(x: Seq<TimeEntry>, m: Minutes, c: TimeEntry)
    requires
        unique_ids(x),
    ensures
        x.len() == 0 ==> apply_actions(x, set_plan(x), m, c) == seq![c],
        x.len() > 0 ==> apply_actions(x, set_plan(x), m, c) == seq![TimeEntry { minutes: m, ..x[0] }],
{
    reveal_with_fuel(apply_actions, 2);
    if x.len() == 0 {
        assert(set_plan(x).drop_first() =~= Seq::<ActionView>::empty());
        assert(x.push(c) =~= seq![c]);
    } else {
        let x0 = TimeEntry { minutes: m, ..x[0] };
        let y = x.subrange(1, x.len() as int);
        let after = with_minutes_for(x, x[0].id@, m);
        assert(after =~= seq![x0] + y) by {
            assert forall|i: int| 1 <= i < x.len() implies (#[trigger] x[i]).id@ != x[0].id@ by {
            }
        }
        assert(set_plan(x).drop_first() =~= deletes_of(y));
        assert forall|i: int| 0 <= i < y.len() implies y[i].id@ != x0.id@ by {
            assert(y[i] == x[i + 1]);
        }
        assert forall|i: int, j: int| 0 <= i < j < y.len() implies y[i].id@ != y[j].id@ by {
            assert(y[i] == x[i + 1] && y[j] == x[j + 1]);
        }
        lemma_deletes_leave_first(x0, y, m, c);
    }
}

proof fn lemma_slot_entries_from(s: Seq<TimeEntry>, slot: Slot)
    ensures
        forall|i: int| 0 <= i < slot_entries(s, slot).len() ==> exists|j: int|
            0 <= j < s.len() && #[trigger] slot_entries(s, slot)[i] == s[j],
    decreases s.len(),
{
    if s.len() > 0 {
        lemma_slot_entries_from(s.drop_last(), slot);
        let rest = slot_entries(s.drop_last(), slot);
        assert forall|i: int| 0 <= i < slot_entries(s, slot).len() implies exists|j: int|
            0 <= j < s.len() && #[trigger] slot_entries(s, slot)[i] == s[j] by {
            if i < rest.len() {
                let j = choose|j: int| 0 <= j < s.drop_last().len() && rest[i] == s.drop_last()[j];
                assert(slot_entries(s, slot)[i] == s[j]);
            } else {
                assert(slot_entries(s, slot)[i] == s[s.len() - 1]);
            }
        }
    }
}

proof fn lemma_slot_entries_unique(s: Seq<TimeEntry>, slot: Slot)
    requires
        unique_ids(s),
    ensures
        unique_ids(slot_entries(s, slot)),
    decreases s.len(),
{
    if s.len() > 0 {
        let d = s.drop_last();
        assert(unique_ids(d)) by {
            assert forall|i: int, j: int| 0 <= i < j < d.len() implies d[i].id@ != d[j].id@ by {
                assert(d[i] == s[i] && d[j] == s[j]);
            }
        }
        lemma_slot_entries_unique(d, slot);
        lemma_slot_entries_from(d, slot);
        let rest = slot_entries(d, slot);
        if in_slot(s.last(), slot) {
            let r = rest.push(s.last());
            assert forall|i: int, j: int| 0 <= i < j < r.len() implies r[i].id@ != r[j].id@ by {
                if j == r.len() - 1 {
                    let k = choose|k: int| 0 <= k < d.len() && #[trigger] rest[i] == d[k];
                    assert(rest[i] == s[k]);
                }
            }
        }
    }
}

/// Setting the time of a slot leaves exactly one entry on it, with the new
/// minutes, whatever entries were there before; setting it again updates
/// that same entry instead of creating a second one.
pub proof fn lemma_set_twice_keeps_one_entry(
    s: Seq<TimeEntry>,
    slot: Slot,
    m: Minutes,
    created: TimeEntry,
    m2: Minutes,
    created2: TimeEntry,
)
    requires
        unique_ids(s),
        in_slot(created, slot),
        created.minutes == m,
        in_slot(created2, slot),
    ensures
        ({
            let s1 = apply_actions(s, set_plan(slot_entries(s, slot)), m, created);
            let one = slot_entries(s1, slot);
            let s2 = apply_actions(s1, set_plan(one), m2, created2);
            &&& one.len() == 1
            &&& one[0].minutes == m
            &&& set_plan(one) == seq![ActionView::Update(one[0].id@)]
            &&& slot_entries(s2, slot).len() == 1
            &&& slot_entries(s2, slot)[0].id@ == one[0].id@
            &&& slot_entries(s2, slot)[0].minutes == m2
        }),
{
    let x = slot_entries(s, slot);
    lemma_slot_entries_unique(s, slot);
    lemma_slot_entries_actions(s, set_plan(x), slot, m, created);
    lemma_plan_on_slot(x, m, created);
    let s1 = apply_actions(s, set_plan(x), m, created);
    let one = slot_entries(s1, slot);
    assert(one.len() == 1);
    assert(set_plan(one) =~= seq![ActionView::Update(one[0].id@)]);
    lemma_slot_entries_actions(s1, set_plan(one), slot, m2, created2);
    assert(unique_ids(one));
    lemma_plan_on_slot(one, m2, created2);
}

} // verus!
