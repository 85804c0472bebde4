//! The schedule store and the scheduler's control state.
//!
//! `SchedulerManager` owns the collection of schedules and the running flag.
//! The polling loop itself performs process I/O and sleeps, so it lives with
//! the embedding program; every decision it takes — which schedules are due,
//! how a schedule advances after a dispatch, when it deactivates — is a
//! verified function here.

use vstd::prelude::*;
use crate::errors::ApiError;
use crate::bridge::fresh_uuid;
use crate::calendar::{spec_ts_in_range, spec_now_in_range, timestamp_in_range};
use crate::model::{Recurrence, Schedule, ScheduleView, spec_schedule_views};
use crate::recurrence::{
    next_fire, spec_next_fire, spec_rec_wf, spec_rec_valid, opt_u32_view, opt_u64_view,
    validate_cron_expression,
};

verus! {

/// No two schedules share an id.
pub open spec fn spec_ids_unique(s: Seq<ScheduleView>) -> bool {
    forall|i: int, j: int| 0 <= i < j < s.len() ==> s[i].id != s[j].id
}

/// Whether some schedule carries the id.
pub open spec fn spec_contains_id(s: Seq<ScheduleView>, id: Seq<char>) -> bool {
    exists|i: int| 0 <= i < s.len() && s[i].id == id
}

/// The index of the schedule with the id.
pub open spec fn spec_index_of_id(s: Seq<ScheduleView>, id: Seq<char>) -> int {
    choose|i: int| 0 <= i < s.len() && s[i].id == id
}

/// The input sequence with every schedule whose id repeats an earlier one
/// dropped.
pub open spec fn spec_dedup_ids(s: Seq<ScheduleView>) -> Seq<ScheduleView>
    decreases s.len(),
{
    if s.len() == 0 {
        Seq::empty()
    } else {
        let prefix = spec_dedup_ids(s.drop_last());
        if spec_contains_id(prefix, s.last().id) {
            prefix
        } else {
            prefix.push(s.last())
        }
    }
}

/// An id occurs in a non-empty sequence exactly when it occurs before the
/// last element or is the last element's.
pub proof fn lemma_contains_id_split(s: Seq<ScheduleView>, id: Seq<char>)
    requires
        s.len() > 0,
    ensures
        spec_contains_id(s, id) == (spec_contains_id(s.drop_last(), id) || s.last().id == id),
{
    if spec_contains_id(s, id) {
        let i = spec_index_of_id(s, id);
        if i < s.len() - 1 {
            assert(s.drop_last()[i].id == id);
        }
    }
    if spec_contains_id(s.drop_last(), id) {
        let i = spec_index_of_id(s.drop_last(), id);
        assert(s[i].id == id);
    }
    if s.last().id == id {
        assert(s[s.len() - 1].id == id);
    }
}

/// An id occurs in a pushed sequence exactly when it occurs in the base or
/// is the pushed element's.
pub proof fn lemma_contains_id_push(s: Seq<ScheduleView>, x: ScheduleView, id: Seq<char>)
    ensures
        spec_contains_id(s.push(x), id) == (spec_contains_id(s, id) || x.id == id),
{
    let p = s.push(x);
    if spec_contains_id(p, id) {
        let i = spec_index_of_id(p, id);
        if i < s.len() {
            assert(s[i].id == id);
        }
    }
    if spec_contains_id(s, id) {
        let i = spec_index_of_id(s, id);
        assert(p[i].id == id);
    }
    if x.id == id {
        assert(p[s.len() as int].id == id);
    }
}

/// Dropping repeated ids yields unique ids and keeps exactly the ids of the
/// input.
pub proof fn lemma_dedup_ids(s: Seq<ScheduleView>)
    ensures
        spec_ids_unique(spec_dedup_ids(s)),
        forall|id: Seq<char>|
            spec_contains_id(spec_dedup_ids(s), id) == spec_contains_id(s, id),
    decreases s.len(),
{
    if s.len() > 0 {
        lemma_dedup_ids(s.drop_last());
        let prefix = spec_dedup_ids(s.drop_last());
        let out = spec_dedup_ids(s);
        assert forall|id: Seq<char>|
            spec_contains_id(out, id) == spec_contains_id(s, id) by {
            lemma_contains_id_split(s, id);
            if !spec_contains_id(prefix, s.last().id) {
                lemma_contains_id_push(prefix, s.last(), id);
            }
        }
        if !spec_contains_id(prefix, s.last().id) {
            assert forall|i: int, j: int|
                0 <= i < j < out.len() implies out[i].id != out[j].id by {
                if j == out.len() - 1 {
                    if out[i].id == out[j].id {
                        assert(prefix[i].id == s.last().id);
                        assert(spec_contains_id(prefix, s.last().id));
                    }
                }
            }
        }
    }
}

/// The fold of imported schedules into current ones: an import whose id is
/// already present replaces the standing schedule in place; a new id is
/// appended, in import order.
pub open spec fn spec_extend_ids(
    cur: Seq<ScheduleView>,
    imp: Seq<ScheduleView>,
) -> Seq<ScheduleView>
    decreases imp.len(),
{
    if imp.len() == 0 {
        cur
    } else {
        let prev = spec_extend_ids(cur, imp.drop_last());
        let x = imp.last();
        if spec_contains_id(prev, x.id) {
            prev.update(spec_index_of_id(prev, x.id), x)
        } else {
            prev.push(x)
        }
    }
}

/// Due for dispatch: active, and its next fire instant has arrived.
pub open spec fn spec_is_due(s: ScheduleView, now: int) -> bool {
    s.is_active && s.next_execution <= now
}

/// A schedule as it stands after one completed dispatch cycle at `now`:
/// the dispatch is recorded, the count advances, and the recurrence
/// calculator's verdict either sets the new fire instant or permanently
/// deactivates the schedule. A schedule whose persisted fields have become
/// unusable (anchor outside the modeled years, a zero custom interval, or a
/// count at the machine limit) deactivates rather than firing again.
pub open spec fn spec_after_execution(s: ScheduleView, now: int) -> ScheduleView {
    if spec_ts_in_range(s.scheduled_time) && spec_rec_wf(s.recurrence) && s.execution_count
        < u32::MAX {
        let count2 = s.execution_count + 1;
        match spec_next_fire(s.recurrence, s.scheduled_time, now, count2, s.max_executions) {
            Option::Some(t) => ScheduleView {
                last_execution: Option::Some(now),
                execution_count: count2,
                next_execution: t,
                ..s
            },
            Option::None => ScheduleView {
                last_execution: Option::Some(now),
                execution_count: count2,
                is_active: false,
                ..s
            },
        }
    } else {
        ScheduleView { last_execution: Option::Some(now), is_active: false, ..s }
    }
}

/// A stored schedule after an edit: the caller's configuration fields —
/// target, recurrence, anchor, cap — replace the stored ones and the fire
/// instant becomes `next`, while identity and progress (id, active flag,
/// creation time, last execution, execution count) are the stored
/// schedule's own.
pub open spec fn spec_edited(stored: ScheduleView, cfg: ScheduleView, next: int) -> ScheduleView {
    ScheduleView {
        group_id: cfg.group_id,
        command_id: cfg.command_id,
        recurrence: cfg.recurrence,
        scheduled_time: cfg.scheduled_time,
        max_executions: cfg.max_executions,
        next_execution: next,
        ..stored
    }
}

/// The merge of imported schedules into current ones: an import whose id is
/// already present is skipped — the standing schedule keeps its content —
/// and the rest are appended in import order.
pub open spec fn spec_merge_sids(
    cur: Seq<ScheduleView>,
    imp: Seq<ScheduleView>,
) -> Seq<ScheduleView>
    decreases imp.len(),
{
    if imp.len() == 0 {
        cur
    } else {
        let prev = spec_merge_sids(cur, imp.drop_last());
        if spec_contains_id(prev, imp.last().id) {
            prev
        } else {
            prev.push(imp.last())
        }
    }
}

/// A schedule merge never disturbs what was already there: the current
/// schedules stand unchanged as the merged sequence's prefix, and only
/// appended imports follow. In particular a colliding import leaves the
/// standing schedule's content untouched.
pub proof fn lemma_merge_sids_keeps_current(cur: Seq<ScheduleView>, imp: Seq<ScheduleView>)
    ensures
        cur.len() <= spec_merge_sids(cur, imp).len() <= cur.len() + imp.len(),
        forall|i: int| 0 <= i < cur.len() ==> spec_merge_sids(cur, imp)[i] == cur[i],
    decreases imp.len(),
{
    if imp.len() > 0 {
        lemma_merge_sids_keeps_current(cur, imp.drop_last());
    }
}

/// The predicate selecting schedules due at `now`.
pub open spec fn spec_due_pred(now: int) -> spec_fn(ScheduleView) -> bool {
    |s: ScheduleView| spec_is_due(s, now)
}

/// Whether a recurrence is structurally sound, executably.
pub fn rec_is_wf(rec: &Recurrence) -> (r: bool)
    ensures
        r == spec_rec_wf(rec@),
{
    match rec {
        Recurrence::Custom { interval_minutes } => *interval_minutes >= 1,
        _ => true,
    }
}

/// Whether a recurrence passes creation-time validation, executably.
pub fn rec_is_valid(rec: &Recurrence) -> (r: bool)
    ensures
        r == spec_rec_valid(rec@),
{
    match rec {
        Recurrence::Custom { interval_minutes } => *interval_minutes >= 1,
        Recurrence::Cron { expression } => validate_cron_expression(expression.as_str()),
        _ => true,
    }
}

/// Whether some schedule in the vector carries the id.
fn vec_has_id(v: &Vec<Schedule>, id: &String) -> (r: bool)
    ensures
        r == spec_contains_id(spec_schedule_views(v@), id@),
{
    let n = v.len();
    let mut i: usize = 0;
    while i < n
        invariant
            n == v@.len(),
            0 <= i <= n,
            forall|j: int| 0 <= j < i ==> spec_schedule_views(v@)[j].id != id@,
        decreases n - i,
    {
        if v[i].id == *id {
            proof {
                assert(spec_schedule_views(v@)[i as int].id == id@);
            }
            return true;
        }
        i = i + 1;
    }
    false
}

/// One completed dispatch cycle applied to a schedule: record the dispatch,
/// advance the count, and let the recurrence calculator either set the next
/// fire instant or permanently deactivate the schedule.
pub fn advance_after_dispatch(schedule: &mut Schedule, now: u64)
    requires
        spec_now_in_range(now as int),
    ensures
        final(schedule)@ == spec_after_execution(old(schedule)@, now as int),
{
    schedule.last_execution = Option::Some(now);
    if timestamp_in_range(schedule.scheduled_time) && rec_is_wf(&schedule.recurrence)
        && schedule.execution_count < u32::MAX {
        let count2 = schedule.execution_count + 1;
        schedule.execution_count = count2;
        match next_fire(
            &schedule.recurrence,
            schedule.scheduled_time,
            now,
            count2,
            schedule.max_executions,
        ) {
            Option::Some(t) => {
                schedule.next_execution = t;
            },
            Option::None => {
                schedule.is_active = false;
            },
        }
    } else {
        schedule.is_active = false;
    }
}

/// A dispatch cycle whose target was not found: nothing ran, so the
/// execution count and the dispatch record stay untouched; the orphaned
/// schedule is parked — deactivated — rather than retried every tick.
/// Toggling or editing it brings it back deliberately.
pub fn skip_orphaned_dispatch(schedule: &mut Schedule)
    ensures
        final(schedule)@ == (ScheduleView { is_active: false, ..old(schedule)@ }),
{
    schedule.is_active = false;
}

/// A schedule capped at `n` executions deactivates on exactly the dispatch
/// that completes its `n`th execution — never on an earlier one. An earlier
/// dispatch of a repeating recurrence leaves the active flag as it was and
/// only moves the fire instant forward.
pub proof fn lemma_cap_deactivates_exactly(s: ScheduleView, now: int, n: int)
    requires
        s.max_executions == Option::Some(n),
        0 <= s.execution_count < n,
        s.execution_count < u32::MAX,
        spec_ts_in_range(s.scheduled_time),
        spec_rec_wf(s.recurrence),
    ensures
        spec_after_execution(s, now).execution_count == s.execution_count + 1,
        s.execution_count + 1 == n ==> !spec_after_execution(s, now).is_active,
        s.execution_count + 1 < n && !(s.recurrence is Once) && !(s.recurrence is Cron)
            ==> spec_after_execution(s, now).is_active == s.is_active,
{
}

/// Mathematical image of a `SchedulerManager`.
pub ghost struct SchedulerManagerView {
    pub schedules: Seq<ScheduleView>,
    pub running: bool,
}

/// The schedule store and the scheduler lifecycle flag.
pub struct SchedulerManager {
    schedules: Vec<Schedule>,
    is_running: bool,
}

impl View for SchedulerManager {
    type V = SchedulerManagerView;

    closed spec fn view(&self) -> SchedulerManagerView {
        SchedulerManagerView {
            schedules: spec_schedule_views(self.schedules@),
            running: self.is_running,
        }
    }
}

impl SchedulerManager {
    /// Every schedule well formed and no two ids equal.
    pub open spec fn wf(&self) -> bool {
        spec_ids_unique(self@.schedules)
    }

    /// A fresh manager: no schedules, not running.
    pub fn new() -> (r: Self)
        ensures
            r@.schedules.len() == 0,
            !r@.running,
            r.wf(),
    {
        let r = SchedulerManager { schedules: Vec::new(), is_running: false };
        proof {
            assert(r@.schedules =~= Seq::<ScheduleView>::empty());
        }
        r
    }

    /// Move from stopped to running; a second start is refused and changes
    /// nothing.
    pub fn start(&mut self) -> (r: Result<(), ApiError>)
        ensures
            final(self)@.schedules == old(self)@.schedules,
            old(self)@.running ==> r == Result::<(), ApiError>::Err(ApiError::AlreadyRunning)
                && final(self)@.running,
            !old(self)@.running ==> r is Ok && final(self)@.running,
    {
        if self.is_running {
            Result::Err(ApiError::AlreadyRunning)
        } else {
            self.is_running = true;
            Result::Ok(())
        }
    }

    /// Stop the scheduler; idempotent.
    pub fn stop(&mut self)
        ensures
            final(self)@.schedules == old(self)@.schedules,
            !final(self)@.running,
    {
        self.is_running = false;
    }

    /// Whether the scheduler is currently running.
    pub fn is_running(&self) -> (r: bool)
        ensures
            r == self@.running,
    {
        self.is_running
    }

    /// The index of the schedule with the id, if any.
    fn find_index(&self, id: &String) -> (r: Option<usize>)
        ensures
            match r {
                Option::Some(i) => 0 <= i < self@.schedules.len()
                    && self@.schedules[i as int].id == id@,
                Option::None => !spec_contains_id(self@.schedules, id@),
            },
    {
        let n = self.schedules.len();
        let mut i: usize = 0;
        while i < n
            invariant
                n == self@.schedules.len(),
                0 <= i <= n,
                forall|j: int| 0 <= j < i ==> self@.schedules[j].id != id@,
            decreases n - i,
        {
            if self.schedules[i].id == *id {
                return Option::Some(i);
            }
            i = i + 1;
        }
        Option::None
    }

    /// A point-in-time copy of every schedule, in store order.
    pub fn get_schedules(&self) -> (r: Vec<Schedule>)
        ensures
            spec_schedule_views(r@) == self@.schedules,
    {
        let n = self.schedules.len();
        let mut out: Vec<Schedule> = Vec::new();
        let mut i: usize = 0;
        while i < n
            invariant
                n == self@.schedules.len(),
                0 <= i <= n,
                out@.len() == i,
                forall|j: int| 0 <= j < i ==> out@[j]@ == self@.schedules[j],
            decreases n - i,
        {
            out.push(self.schedules[i].clone());
            i = i + 1;
        }
        proof {
            assert(spec_schedule_views(out@) =~= self@.schedules);
        }
        out
    }

    /// Flip the active flag of the schedule with the id and report the new
    /// value; an unknown id is refused and the store is untouched.
    pub fn toggle_schedule(&mut self, id: &String) -> (r: Result<bool, ApiError>)
        requires
            old(self).wf(),
        ensures
            final(self).wf(),
            final(self)@.running == old(self)@.running,
            match r {
                Result::Ok(active) => {
                    &&& spec_contains_id(old(self)@.schedules, id@)
                    &&& {
                        let i = spec_index_of_id(old(self)@.schedules, id@);
                        &&& active == !old(self)@.schedules[i].is_active
                        &&& final(self)@.schedules == old(self)@.schedules.update(
                            i,
                            ScheduleView {
                                is_active: active,
                                ..old(self)@.schedules[i]
                            },
                        )
                    }
                },
                Result::Err(e) => {
                    &&& e == ApiError::NotFound
                    &&& !spec_contains_id(old(self)@.schedules, id@)
                    &&& final(self)@.schedules == old(self)@.schedules
                },
            },
    {
        match self.find_index(id) {
            Option::Some(i) => {
                let mut s = self.schedules[i].clone();
                let active = !s.is_active;
                s.is_active = active;
                self.schedules.set(i, s);
                proof {
                    let ghost idx = spec_index_of_id(old(self)@.schedules, id@);
                    assert(old(self)@.schedules[idx].id == id@);
                    if idx != i {
                        assert(false);
                    }
                    assert(final(self)@.schedules =~= old(self)@.schedules.update(
                        i as int,
                        ScheduleView { is_active: active, ..old(self)@.schedules[i as int] },
                    ));
                }
                Result::Ok(active)
            },
            Option::None => Result::Err(ApiError::NotFound),
        }
    }

    /// Replace the whole store, as when hydrating from persisted storage at
    /// startup; a schedule whose id repeats an earlier one is dropped.
    pub fn load_schedules(&mut self, schedules_data: Vec<Schedule>)
        ensures
            final(self).wf(),
            final(self)@.running == old(self)@.running,
            final(self)@.schedules == spec_dedup_ids(spec_schedule_views(schedules_data@)),
    {
        let n = schedules_data.len();
        let mut out: Vec<Schedule> = Vec::new();
        proof {
            let all = spec_schedule_views(schedules_data@);
            assert(spec_schedule_views(out@) =~= spec_dedup_ids(all.take(0)));
        }
        let mut i: usize = 0;
        while i < n
            invariant
                n == schedules_data@.len(),
                0 <= i <= n,
                spec_schedule_views(out@) == spec_dedup_ids(
                    spec_schedule_views(schedules_data@).take(i as int),
                ),
            decreases n - i,
        {
            let ghost all = spec_schedule_views(schedules_data@);
            let ghost prev = out@;
            if !vec_has_id(&out, &schedules_data[i].id) {
                out.push(schedules_data[i].clone());
            }
            proof {
                assert(all.take(i + 1).drop_last() =~= all.take(i as int));
                assert(all.take(i + 1).last() == schedules_data@[i as int]@);
                assert(spec_schedule_views(out@) =~= spec_dedup_ids(all.take(i + 1)));
            }
            i = i + 1;
        }
        proof {
            let all = spec_schedule_views(schedules_data@);
            assert(all.take(n as int) =~= all);
            lemma_dedup_ids(all);
        }
        self.schedules = out;
    }

    /// Validate a schedule, give it a fresh id, compute its first fire
    /// instant, and append it; the id is returned. A schedule whose anchor
    /// lies outside the modeled years, whose recurrence fails validation, or
    /// whose recurrence is already exhausted is refused and the store is
    /// untouched.
    pub fn add_schedule(&mut self, schedule: Schedule, now: u64) -> (r: Result<String, ApiError>)
        requires
            old(self).wf(),
            spec_now_in_range(now as int),
        ensures
            final(self).wf(),
            final(self)@.running == old(self)@.running,
            ({
                let v = schedule@;
                let nf = spec_next_fire(
                    v.recurrence,
                    v.scheduled_time,
                    now as int,
                    v.execution_count,
                    v.max_executions,
                );
                match r {
                    Result::Ok(id) => {
                        &&& spec_ts_in_range(v.scheduled_time)
                        &&& spec_rec_valid(v.recurrence)
                        &&& nf is Some
                        &&& !spec_contains_id(old(self)@.schedules, id@)
                        &&& final(self)@.schedules == old(self)@.schedules.push(
                            ScheduleView { id: id@, next_execution: nf->Some_0, ..v },
                        )
                    },
                    Result::Err(e) => {
                        &&& e == ApiError::InvalidInput
                        &&& final(self)@.schedules == old(self)@.schedules
                    },
                }
            }),
            !(spec_ts_in_range(schedule@.scheduled_time) && spec_rec_valid(schedule@.recurrence)
                && spec_next_fire(
                schedule@.recurrence,
                schedule@.scheduled_time,
                now as int,
                schedule@.execution_count,
                schedule@.max_executions,
            ) is Some) ==> r is Err,
            (spec_ts_in_range(schedule@.scheduled_time) && spec_rec_valid(schedule@.recurrence)
                && spec_next_fire(
                schedule@.recurrence,
                schedule@.scheduled_time,
                now as int,
                schedule@.execution_count,
                schedule@.max_executions,
            ) is Some && old(self)@.schedules.len() == 0) ==> r is Ok,
    {
        let mut schedule = schedule;
        if !timestamp_in_range(schedule.scheduled_time) {
            return Result::Err(ApiError::InvalidInput);
        }
        if !rec_is_valid(&schedule.recurrence) {
            return Result::Err(ApiError::InvalidInput);
        }
        let t = match next_fire(
            &schedule.recurrence,
            schedule.scheduled_time,
            now,
            schedule.execution_count,
            schedule.max_executions,
        ) {
            Option::Some(t) => t,
            Option::None => {
                return Result::Err(ApiError::InvalidInput);
            },
        };
        let mut id = fresh_uuid();
        let mut attempts: usize = 0;
        while attempts < 16 && vec_has_id(&self.schedules, &id)
            invariant
                *self == *old(self),
            decreases 16 - attempts,
        {
            id = fresh_uuid();
            attempts = attempts + 1;
        }
        if vec_has_id(&self.schedules, &id) {
            return Result::Err(ApiError::InvalidInput);
        }
        schedule.id = id.clone();
        schedule.next_execution = t;
        self.schedules.push(schedule);
        proof {
            let oldv = old(self)@.schedules;
            let newv = final(self)@.schedules;
            assert(newv =~= oldv.push(newv.last()));
            assert forall|i: int, j: int|
                0 <= i < j < newv.len() implies newv[i].id != newv[j].id by {
                if j == oldv.len() {
                    if newv[i].id == newv[j].id {
                        assert(spec_contains_id(oldv, id@));
                    }
                }
            }
        }
        Result::Ok(id)
    }

    /// Edit the schedule with the id: the configuration fields of `updated`
    /// (target, recurrence, anchor, cap) replace the stored ones and the
    /// fire instant is recomputed, while the schedule's identity and
    /// progress — creation time, execution count, last execution, active
    /// flag — are preserved, so an edit never resets the count nor revives
    /// a deactivated schedule. The identity and progress fields of
    /// `updated` are ignored. An unknown id is refused with `NotFound`, a
    /// failed validation or an exhausted new configuration with
    /// `InvalidInput`, and either way the store is untouched.
    pub fn update_schedule(&mut self, id: &String, updated: Schedule, now: u64) -> (r: Result<
        (),
        ApiError,
    >)
        requires
            old(self).wf(),
            spec_now_in_range(now as int),
        ensures
            final(self).wf(),
            final(self)@.running == old(self)@.running,
            ({
                let cfg = updated@;
                match r {
                    Result::Ok(()) => {
                        &&& spec_contains_id(old(self)@.schedules, id@)
                        &&& spec_ts_in_range(cfg.scheduled_time)
                        &&& spec_rec_valid(cfg.recurrence)
                        &&& {
                            let idx = spec_index_of_id(old(self)@.schedules, id@);
                            let stored = old(self)@.schedules[idx];
                            let nf = spec_next_fire(
                                cfg.recurrence,
                                cfg.scheduled_time,
                                now as int,
                                stored.execution_count,
                                cfg.max_executions,
                            );
                            &&& nf is Some
                            &&& final(self)@.schedules == old(self)@.schedules.update(
                                idx,
                                spec_edited(stored, cfg, nf->Some_0),
                            )
                        }
                    },
                    Result::Err(e) => {
                        &&& final(self)@.schedules == old(self)@.schedules
                        &&& (e == ApiError::NotFound <==> !spec_contains_id(
                            old(self)@.schedules,
                            id@,
                        ))
                        &&& (e == ApiError::NotFound || e == ApiError::InvalidInput)
                    },
                }
            }),
            !(spec_ts_in_range(updated@.scheduled_time) && spec_rec_valid(updated@.recurrence))
                ==> r is Err,
            (spec_contains_id(old(self)@.schedules, id@) && spec_ts_in_range(
                updated@.scheduled_time,
            ) && spec_rec_valid(updated@.recurrence) && spec_next_fire(
                updated@.recurrence,
                updated@.scheduled_time,
                now as int,
                old(self)@.schedules[spec_index_of_id(old(self)@.schedules, id@)]
                    .execution_count,
                updated@.max_executions,
            ) is Some) ==> r is Ok,
    {
        let i = match self.find_index(id) {
            Option::Some(i) => i,
            Option::None => {
                return Result::Err(ApiError::NotFound);
            },
        };
        proof {
            let idx = spec_index_of_id(old(self)@.schedules, id@);
            assert(old(self)@.schedules[idx].id == id@);
            if idx != i {
                assert(false);
            }
        }
        if !timestamp_in_range(updated.scheduled_time) {
            return Result::Err(ApiError::InvalidInput);
        }
        if !rec_is_valid(&updated.recurrence) {
            return Result::Err(ApiError::InvalidInput);
        }
        let stored = self.schedules[i].clone();
        let t = match next_fire(
            &updated.recurrence,
            updated.scheduled_time,
            now,
            stored.execution_count,
            updated.max_executions,
        ) {
            Option::Some(t) => t,
            Option::None => {
                return Result::Err(ApiError::InvalidInput);
            },
        };
        let merged = Schedule {
            id: stored.id,
            group_id: updated.group_id,
            command_id: updated.command_id,
            recurrence: updated.recurrence,
            scheduled_time: updated.scheduled_time,
            is_active: stored.is_active,
            created_at: stored.created_at,
            last_execution: stored.last_execution,
            next_execution: t,
            execution_count: stored.execution_count,
            max_executions: updated.max_executions,
        };
        self.schedules.set(i, merged);
        proof {
            let oldv = old(self)@.schedules;
            let newv = final(self)@.schedules;
            assert(newv =~= oldv.update(i as int, newv[i as int]));
            assert forall|a: int, b: int|
                0 <= a < b < newv.len() implies newv[a].id != newv[b].id by {
                assert(oldv[a].id != oldv[b].id);
            }
        }
        Result::Ok(())
    }

    /// The schedules due for dispatch at `now`: active, with a fire instant
    /// that has arrived. Copies, in store order.
    pub fn due_schedules(&self, now: u64) -> (r: Vec<Schedule>)
        ensures
            spec_schedule_views(r@) == self@.schedules.filter(spec_due_pred(now as int)),
    {
        let n = self.schedules.len();
        let mut out: Vec<Schedule> = Vec::new();
        proof {
            reveal_with_fuel(Seq::<_>::filter, 2);
            assert(spec_schedule_views(out@) =~= self@.schedules.take(0).filter(
                spec_due_pred(now as int),
            ));
        }
        let mut i: usize = 0;
        while i < n
            invariant
                n == self@.schedules.len(),
                0 <= i <= n,
                spec_schedule_views(out@) == self@.schedules.take(i as int).filter(
                    spec_due_pred(now as int),
                ),
            decreases n - i,
        {
            let s = &self.schedules[i];
            if s.is_active && s.next_execution <= now {
                out.push(s.clone());
            }
            proof {
                reveal_with_fuel(Seq::<_>::filter, 2);
                let all = self@.schedules;
                let pred = spec_due_pred(now as int);
                assert(all.take(i + 1).drop_last() =~= all.take(i as int));
                assert(all.take(i + 1).last() == all[i as int]);
                assert(spec_schedule_views(out@) =~= all.take(i + 1).filter(pred));
            }
            i = i + 1;
        }
        proof {
            assert(self@.schedules.take(n as int) =~= self@.schedules);
        }
        out
    }

    /// A copy of the schedule with the id, if it exists.
    pub fn get_schedule(&self, id: &String) -> (r: Option<Schedule>)
        requires
            self.wf(),
        ensures
            match r {
                Option::Some(s) => spec_contains_id(self@.schedules, id@) && s@
                    == self@.schedules[spec_index_of_id(self@.schedules, id@)],
                Option::None => !spec_contains_id(self@.schedules, id@),
            },
    {
        match self.find_index(id) {
            Option::Some(i) => {
                let s = self.schedules[i].clone();
                proof {
                    let idx = spec_index_of_id(self@.schedules, id@);
                    assert(self@.schedules[idx].id == id@);
                    if idx != i {
                        assert(false);
                    }
                }
                Option::Some(s)
            },
            Option::None => Option::None,
        }
    }

    /// Merge imported schedules into the store: one whose id is already
    /// taken is skipped and the standing schedule keeps its content; the
    /// rest are appended in import order.
    pub fn merge_schedules(&mut self, imported: Vec<Schedule>)
        requires
            old(self).wf(),
        ensures
            final(self).wf(),
            final(self)@.running == old(self)@.running,
            final(self)@.schedules == spec_merge_sids(
                old(self)@.schedules,
                spec_schedule_views(imported@),
            ),
    {
        let n = imported.len();
        let mut i: usize = 0;
        while i < n
            invariant
                n == imported@.len(),
                0 <= i <= n,
                self.wf(),
                self@.running == old(self)@.running,
                self@.schedules == spec_merge_sids(
                    old(self)@.schedules,
                    spec_schedule_views(imported@).take(i as int),
                ),
            decreases n - i,
        {
            let ghost allv = spec_schedule_views(imported@);
            let ghost prev = self@.schedules;
            let item = imported[i].clone();
            let ghost itemv = item@;
            if self.find_index(&item.id).is_none() {
                self.schedules.push(item);
                proof {
                    assert(self@.schedules =~= prev.push(itemv));
                    assert forall|a: int, b: int|
                        0 <= a < b < self@.schedules.len()
                            implies self@.schedules[a].id != self@.schedules[b].id by {
                        if b == prev.len() {
                            if self@.schedules[a].id == self@.schedules[b].id {
                                assert(spec_contains_id(prev, itemv.id));
                            }
                        }
                    }
                }
            }
            proof {
                assert(allv.take(i + 1).drop_last() =~= allv.take(i as int));
                assert(allv.take(i + 1).last() == imported@[i as int]@);
                assert(self@.schedules =~= spec_merge_sids(
                    old(self)@.schedules,
                    allv.take(i + 1),
                ));
            }
            i = i + 1;
        }
        proof {
            assert(spec_schedule_views(imported@).take(n as int) =~= spec_schedule_views(
                imported@,
            ));
        }
    }

    /// Write dispatched schedules back into the store after a tick: one
    /// whose id is already present replaces the standing schedule, a new id
    /// is appended, in order.
    pub fn extend_schedules(&mut self, imported: Vec<Schedule>)
        requires
            old(self).wf(),
        ensures
            final(self).wf(),
            final(self)@.running == old(self)@.running,
            final(self)@.schedules == spec_extend_ids(
                old(self)@.schedules,
                spec_schedule_views(imported@),
            ),
    {
        let n = imported.len();
        let mut i: usize = 0;
        while i < n
            invariant
                n == imported@.len(),
                0 <= i <= n,
                self.wf(),
                self@.running == old(self)@.running,
                self@.schedules == spec_extend_ids(
                    old(self)@.schedules,
                    spec_schedule_views(imported@).take(i as int),
                ),
            decreases n - i,
        {
            let ghost allv = spec_schedule_views(imported@);
            let ghost prev = self@.schedules;
            let item = imported[i].clone();
            let ghost itemv = item@;
            match self.find_index(&item.id) {
                Option::Some(j) => {
                    self.schedules.set(j, item);
                    proof {
                        let idx = spec_index_of_id(prev, itemv.id);
                        assert(prev[idx].id == itemv.id);
                        if idx != j {
                            assert(false);
                        }
                        assert(self@.schedules =~= prev.update(idx, itemv));
                        assert forall|a: int, b: int|
                            0 <= a < b < self@.schedules.len()
                                implies self@.schedules[a].id != self@.schedules[b].id by {
                            assert(prev[a].id != prev[b].id);
                        }
                    }
                },
                Option::None => {
                    self.schedules.push(item);
                    proof {
                        assert(self@.schedules =~= prev.push(itemv));
                        assert forall|a: int, b: int|
                            0 <= a < b < self@.schedules.len()
                                implies self@.schedules[a].id != self@.schedules[b].id by {
                            if b == prev.len() {
                                if self@.schedules[a].id == self@.schedules[b].id {
                                    assert(spec_contains_id(prev, itemv.id));
                                }
                            }
                        }
                    }
                },
            }
            proof {
                assert(allv.take(i + 1).drop_last() =~= allv.take(i as int));
                assert(allv.take(i + 1).last() == imported@[i as int]@);
                assert(self@.schedules =~= spec_extend_ids(
                    old(self)@.schedules,
                    allv.take(i + 1),
                ));
            }
            i = i + 1;
        }
        proof {
            assert(spec_schedule_views(imported@).take(n as int) =~= spec_schedule_views(
                imported@,
            ));
        }
    }

    /// Remove the schedule with the id; an unknown id is refused and the
    /// store is untouched.
    pub fn remove_schedule(&mut self, id: &String) -> (r: Result<(), ApiError>)
        requires
            old(self).wf(),
        ensures
            final(self).wf(),
            final(self)@.running == old(self)@.running,
            match r {
                Result::Ok(()) => {
                    &&& spec_contains_id(old(self)@.schedules, id@)
                    &&& {
                        let i = spec_index_of_id(old(self)@.schedules, id@);
                        final(self)@.schedules == old(self)@.schedules.remove(i)
                    }
                },
                Result::Err(e) => {
                    &&& e == ApiError::NotFound
                    &&& !spec_contains_id(old(self)@.schedules, id@)
                    &&& final(self)@.schedules == old(self)@.schedules
                },
            },
    {
        match self.find_index(id) {
            Option::Some(i) => {
                self.schedules.remove(i);
                proof {
                    let ghost idx = spec_index_of_id(old(self)@.schedules, id@);
                    assert(old(self)@.schedules[idx].id == id@);
                    if idx != i {
                        assert(false);
                    }
                    assert(final(self)@.schedules =~= old(self)@.schedules.remove(i as int));
                }
                Result::Ok(())
            },
            Option::None => Result::Err(ApiError::NotFound),
        }
    }
}

} // verus!
