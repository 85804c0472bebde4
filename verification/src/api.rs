//! The operations the user-facing layer calls: schedule creation against the
//! registry, enriched schedule information, and cron-expression preview.

use vstd::prelude::*;
use crate::bridge::{cron_accepts, cron_next, cron_next_after};
use crate::calendar::{spec_now_in_range, spec_ts_in_range, timestamp_in_range};
use crate::errors::ApiError;
use crate::model::{
    AppData,
    CommandGroup, CommandGroupView, CommandItem, Recurrence, RecurrenceView, Schedule,
    ScheduleView,
};
use crate::recurrence::{spec_next_fire, spec_rec_valid, opt_u32_view, validate_cron_expression};
use crate::registry::{GroupRegistry, spec_contains_gid, spec_index_of_gid, spec_contains_cid,
    spec_index_of_cid};
use crate::scheduler::{SchedulerManager, spec_contains_id, spec_index_of_id, rec_is_valid};

verus! {

impl Schedule {
    /// Whether this schedule targets its whole group.
    pub fn is_group_schedule(&self) -> (r: bool)
        ensures
            r == (self@.command_id is None),
    {
        self.command_id.is_none()
    }

    /// Whether this schedule targets one command of its group.
    pub fn is_command_schedule(&self) -> (r: bool)
        ensures
            r == (self@.command_id is Some),
    {
        self.command_id.is_some()
    }

    /// The group this schedule points at, if it still exists.
    pub fn get_group(&self, groups: &GroupRegistry) -> (r: Option<CommandGroup>)
        requires
            groups.wf(),
        ensures
            match r {
                Option::Some(g) => spec_contains_gid(groups@.groups, self@.group_id) && g@
                    == groups@.groups[spec_index_of_gid(groups@.groups, self@.group_id)],
                Option::None => !spec_contains_gid(groups@.groups, self@.group_id),
            },
    {
        groups.resolve_group(&self.group_id)
    }

    /// The single command this schedule points at, if this is a command
    /// schedule and the command still exists.
    pub fn get_command(&self, groups: &GroupRegistry) -> (r: Option<CommandItem>)
        requires
            groups.wf(),
        ensures
            self@.command_id is None ==> r is None,
            match r {
                Option::Some(c) => {
                    &&& self@.command_id is Some
                    &&& spec_contains_gid(groups@.groups, self@.group_id)
                    &&& {
                        let g = groups@.groups[spec_index_of_gid(groups@.groups, self@.group_id)];
                        &&& spec_contains_cid(g.commands, self@.command_id->Some_0)
                        &&& c@ == g.commands[spec_index_of_cid(
                            g.commands,
                            self@.command_id->Some_0,
                        )]
                    }
                },
                Option::None => true,
            },
            (self@.command_id is Some && spec_contains_gid(groups@.groups, self@.group_id)
                && spec_contains_cid(
                groups@.groups[spec_index_of_gid(groups@.groups, self@.group_id)].commands,
                self@.command_id->Some_0,
            )) ==> r is Some,
    {
        match &self.command_id {
            Option::Some(cid) => groups.resolve_command(&self.group_id, cid),
            Option::None => Option::None,
        }
    }
}

/// The display name owed for a schedule against the current groups: its
/// group's title (with the command's label for a command schedule), or an
/// unknown-target marker for an orphaned schedule — never an error.
pub open spec fn spec_display_name(s: ScheduleView, groups: Seq<CommandGroupView>) -> Seq<char> {
    if !spec_contains_gid(groups, s.group_id) {
        "[Unknown Group]"@
    } else {
        let g = groups[spec_index_of_gid(groups, s.group_id)];
        match s.command_id {
            Option::None => "Group: "@ + g.title,
            Option::Some(cid) => if spec_contains_cid(g.commands, cid) {
                g.title + " -> "@ + g.commands[spec_index_of_cid(g.commands, cid)].label
            } else {
                g.title + " -> [Unknown Command]"@
            },
        }
    }
}

impl Schedule {
    /// The schedule's display name against the current groups.
    pub fn get_display_name(&self, groups: &GroupRegistry) -> (r: String)
        requires
            groups.wf(),
        ensures
            r@ == spec_display_name(self@, groups@.groups),
    {
        match self.get_group(groups) {
            Option::None => "[Unknown Group]".to_owned(),
            Option::Some(g) => {
                match &self.command_id {
                    Option::None => {
                        let mut s = "Group: ".to_owned();
                        s.append(g.title.as_str());
                        proof {
                            assert(s@ =~= spec_display_name(self@, groups@.groups));
                        }
                        s
                    },
                    Option::Some(cid) => {
                        match groups.resolve_command(&self.group_id, cid) {
                            Option::Some(c) => {
                                let mut s = g.title.clone();
                                s.append(" -> ");
                                s.append(c.label.as_str());
                                proof {
                                    assert(s@ =~= spec_display_name(self@, groups@.groups));
                                }
                                s
                            },
                            Option::None => {
                                let mut s = g.title.clone();
                                s.append(" -> [Unknown Command]");
                                proof {
                                    assert(s@ =~= spec_display_name(self@, groups@.groups));
                                }
                                s
                            },
                        }
                    },
                }
            },
        }
    }
}

/// An enriched, display-ready picture of one schedule.
#[derive(Debug, PartialEq, Eq)]
pub struct ScheduleInfo {
    pub id: String,
    pub display_name: String,
    pub schedule_type: String,
    pub group_id: String,
    pub command_id: Option<String>,
    pub recurrence: Recurrence,
    pub is_active: bool,
    pub next_execution: u64,
    pub last_execution: Option<u64>,
    pub execution_count: u32,
    pub max_executions: Option<u32>,
}

/// Mathematical image of a `ScheduleInfo`.
pub ghost struct ScheduleInfoView {
    pub id: Seq<char>,
    pub display_name: Seq<char>,
    pub schedule_type: Seq<char>,
    pub group_id: Seq<char>,
    pub command_id: Option<Seq<char>>,
    pub recurrence: RecurrenceView,
    pub is_active: bool,
    pub next_execution: int,
    pub last_execution: Option<int>,
    pub execution_count: int,
    pub max_executions: Option<int>,
}

impl View for ScheduleInfo {
    type V = ScheduleInfoView;

    open spec fn view(&self) -> ScheduleInfoView {
        ScheduleInfoView {
            id: self.id@,
            display_name: self.display_name@,
            schedule_type: self.schedule_type@,
            group_id: self.group_id@,
            command_id: match self.command_id {
                Option::Some(ref s) => Option::Some(s@),
                Option::None => Option::None,
            },
            recurrence: self.recurrence@,
            is_active: self.is_active,
            next_execution: self.next_execution as int,
            last_execution: match self.last_execution {
                Option::Some(t) => Option::Some(t as int),
                Option::None => Option::None,
            },
            execution_count: self.execution_count as int,
            max_executions: match self.max_executions {
                Option::Some(m) => Option::Some(m as int),
                Option::None => Option::None,
            },
        }
    }
}

/// The information owed for a schedule against the current groups.
pub open spec fn spec_info_of(s: ScheduleView, groups: Seq<CommandGroupView>) -> ScheduleInfoView {
    ScheduleInfoView {
        id: s.id,
        display_name: spec_display_name(s, groups),
        schedule_type: if s.command_id is Some {
            "command"@
        } else {
            "group"@
        },
        group_id: s.group_id,
        command_id: s.command_id,
        recurrence: s.recurrence,
        is_active: s.is_active,
        next_execution: s.next_execution,
        last_execution: s.last_execution,
        execution_count: s.execution_count,
        max_executions: s.max_executions,
    }
}

/// Build the enriched picture of one schedule.
fn build_info(schedule: &Schedule, registry: &GroupRegistry) -> (r: ScheduleInfo)
    requires
        registry.wf(),
    ensures
        r@ == spec_info_of(schedule@, registry@.groups),
{
    let display_name = schedule.get_display_name(registry);
    let schedule_type: String = if schedule.is_command_schedule() {
        "command".to_owned()
    } else {
        "group".to_owned()
    };
    ScheduleInfo {
        id: schedule.id.clone(),
        display_name,
        schedule_type,
        group_id: schedule.group_id.clone(),
        command_id: match &schedule.command_id {
            Option::Some(cid) => Option::Some(cid.clone()),
            Option::None => Option::None,
        },
        recurrence: schedule.recurrence.clone(),
        is_active: schedule.is_active,
        next_execution: schedule.next_execution,
        last_execution: schedule.last_execution,
        execution_count: schedule.execution_count,
        max_executions: schedule.max_executions,
    }
}

/// The enriched picture of the schedule with the id; an unknown id is
/// refused with `NotFound`.
pub fn get_schedule_info(
    scheduler: &SchedulerManager,
    registry: &GroupRegistry,
    id: &String,
) -> (r: Result<ScheduleInfo, ApiError>)
    requires
        scheduler.wf(),
        registry.wf(),
    ensures
        match r {
            Result::Ok(info) => spec_contains_id(scheduler@.schedules, id@) && info@
                == spec_info_of(
                scheduler@.schedules[spec_index_of_id(scheduler@.schedules, id@)],
                registry@.groups,
            ),
            Result::Err(e) => e == ApiError::NotFound && !spec_contains_id(
                scheduler@.schedules,
                id@,
            ),
        },
{
    match scheduler.get_schedule(id) {
        Option::Some(s) => Result::Ok(build_info(&s, registry)),
        Option::None => Result::Err(ApiError::NotFound),
    }
}

/// The enriched picture of every schedule, in store order.
pub fn get_schedules_with_info(scheduler: &SchedulerManager, registry: &GroupRegistry) -> (r: Vec<
    ScheduleInfo,
>)
    requires
        scheduler.wf(),
        registry.wf(),
    ensures
        r@.len() == scheduler@.schedules.len(),
        forall|i: int|
            0 <= i < r@.len() ==> #[trigger] r@[i]@ == spec_info_of(
                scheduler@.schedules[i],
                registry@.groups,
            ),
{
    let schedules = scheduler.get_schedules();
    let n = schedules.len();
    let mut out: Vec<ScheduleInfo> = Vec::new();
    let mut i: usize = 0;
    while i < n
        invariant
            n == schedules@.len(),
            crate::model::spec_schedule_views(schedules@) == scheduler@.schedules,
            registry.wf(),
            0 <= i <= n,
            out@.len() == i,
            forall|j: int|
                0 <= j < i ==> #[trigger] out@[j]@ == spec_info_of(
                    scheduler@.schedules[j],
                    registry@.groups,
                ),
        decreases n - i,
    {
        out.push(build_info(&schedules[i], registry));
        proof {
            assert(schedules@[i as int]@ == scheduler@.schedules[i as int]);
        }
        i = i + 1;
    }
    out
}

/// Validate a requested schedule and add it to the store: the recurrence and
/// anchor must validate (`InvalidInput` otherwise, before any lookup), the
/// target group — and command, if one is named — must exist (`NotFound`),
/// and the recurrence must have a first fire instant (`InvalidInput`).
pub fn create_schedule(
    scheduler: &mut SchedulerManager,
    registry: &GroupRegistry,
    group_id: String,
    command_id: Option<String>,
    recurrence: Recurrence,
    scheduled_time: u64,
    max_executions: Option<u32>,
    now: u64,
) -> (r: Result<String, ApiError>)
    requires
        old(scheduler).wf(),
        registry.wf(),
        spec_now_in_range(now as int),
    ensures
        final(scheduler).wf(),
        final(scheduler)@.running == old(scheduler)@.running,
        r is Err ==> final(scheduler)@.schedules == old(scheduler)@.schedules,
        !(spec_rec_valid(recurrence@) && spec_ts_in_range(scheduled_time as int)) ==> r
            == Result::<String, ApiError>::Err(ApiError::InvalidInput),
        (spec_rec_valid(recurrence@) && spec_ts_in_range(scheduled_time as int) && !(
        spec_contains_gid(registry@.groups, group_id@) && (command_id matches Some(cid)
            ==> spec_contains_cid(
            registry@.groups[spec_index_of_gid(registry@.groups, group_id@)].commands,
            cid@,
        )))) ==> r == Result::<String, ApiError>::Err(ApiError::NotFound),
        ({
            let nf = spec_next_fire(
                recurrence@,
                scheduled_time as int,
                now as int,
                0,
                opt_u32_view(max_executions),
            );
            r matches Ok(id) ==> {
                &&& spec_rec_valid(recurrence@)
                &&& spec_ts_in_range(scheduled_time as int)
                &&& spec_contains_gid(registry@.groups, group_id@)
                &&& nf is Some
                &&& !spec_contains_id(old(scheduler)@.schedules, id@)
                &&& final(scheduler)@.schedules == old(scheduler)@.schedules.push(
                    ScheduleView {
                        id: id@,
                        group_id: group_id@,
                        command_id: match command_id {
                            Option::Some(ref cid) => Option::Some(cid@),
                            Option::None => Option::None,
                        },
                        recurrence: recurrence@,
                        scheduled_time: scheduled_time as int,
                        is_active: true,
                        created_at: now as int,
                        last_execution: Option::None,
                        next_execution: nf->Some_0,
                        execution_count: 0,
                        max_executions: opt_u32_view(max_executions),
                    },
                )
            }
        }),
        (spec_rec_valid(recurrence@) && spec_ts_in_range(scheduled_time as int)
            && spec_contains_gid(registry@.groups, group_id@) && (command_id matches Some(cid)
            ==> spec_contains_cid(
            registry@.groups[spec_index_of_gid(registry@.groups, group_id@)].commands,
            cid@,
        )) && spec_next_fire(
            recurrence@,
            scheduled_time as int,
            now as int,
            0,
            opt_u32_view(max_executions),
        ) is Some && old(scheduler)@.schedules.len() == 0) ==> r is Ok,
{
    if !timestamp_in_range(scheduled_time) {
        return Result::Err(ApiError::InvalidInput);
    }
    if !rec_is_valid(&recurrence) {
        return Result::Err(ApiError::InvalidInput);
    }
    if registry.resolve_group(&group_id).is_none() {
        return Result::Err(ApiError::NotFound);
    }
    match &command_id {
        Option::Some(cid) => {
            if registry.resolve_command(&group_id, cid).is_none() {
                return Result::Err(ApiError::NotFound);
            }
        },
        Option::None => {},
    }
    let schedule = Schedule {
        id: String::new(),
        group_id,
        command_id,
        recurrence,
        scheduled_time,
        is_active: true,
        created_at: now,
        last_execution: Option::None,
        next_execution: now,
        execution_count: 0,
        max_executions,
    };
    scheduler.add_schedule(schedule, now)
}

/// Edit the schedule with the id: the given configuration — target,
/// recurrence, anchor, cap — replaces the stored one and the fire instant
/// is recomputed at the schedule's current progress; the schedule's
/// identity and progress (creation time, execution count, last execution,
/// active flag) are preserved, so an edit never resets the count nor
/// revives a deactivated schedule. The same verdicts as creation, with
/// `NotFound` also for an unknown schedule id.
pub fn update_schedule(
    scheduler: &mut SchedulerManager,
    registry: &GroupRegistry,
    id: &String,
    group_id: String,
    command_id: Option<String>,
    recurrence: Recurrence,
    scheduled_time: u64,
    max_executions: Option<u32>,
    now: u64,
) -> (r: Result<(), ApiError>)
    requires
        old(scheduler).wf(),
        registry.wf(),
        spec_now_in_range(now as int),
    ensures
        final(scheduler).wf(),
        final(scheduler)@.running == old(scheduler)@.running,
        r is Err ==> final(scheduler)@.schedules == old(scheduler)@.schedules,
        !(spec_rec_valid(recurrence@) && spec_ts_in_range(scheduled_time as int)) ==> r
            == Result::<(), ApiError>::Err(ApiError::InvalidInput),
        (spec_rec_valid(recurrence@) && spec_ts_in_range(scheduled_time as int) && !(
        spec_contains_gid(registry@.groups, group_id@) && (command_id matches Some(cid)
            ==> spec_contains_cid(
            registry@.groups[spec_index_of_gid(registry@.groups, group_id@)].commands,
            cid@,
        )))) ==> r == Result::<(), ApiError>::Err(ApiError::NotFound),
        ({
            r is Ok ==> {
                &&& spec_contains_id(old(scheduler)@.schedules, id@)
                &&& {
                    let idx = spec_index_of_id(old(scheduler)@.schedules, id@);
                    let stored = old(scheduler)@.schedules[idx];
                    let nf = spec_next_fire(
                        recurrence@,
                        scheduled_time as int,
                        now as int,
                        stored.execution_count,
                        opt_u32_view(max_executions),
                    );
                    &&& nf is Some
                    &&& final(scheduler)@.schedules == old(scheduler)@.schedules.update(
                        idx,
                        ScheduleView {
                            group_id: group_id@,
                            command_id: match command_id {
                                Option::Some(ref cid) => Option::Some(cid@),
                                Option::None => Option::None,
                            },
                            recurrence: recurrence@,
                            scheduled_time: scheduled_time as int,
                            max_executions: opt_u32_view(max_executions),
                            next_execution: nf->Some_0,
                            ..stored
                        },
                    )
                }
            }
        }),
        (spec_rec_valid(recurrence@) && spec_ts_in_range(scheduled_time as int)
            && spec_contains_gid(registry@.groups, group_id@) && (command_id matches Some(cid)
            ==> spec_contains_cid(
            registry@.groups[spec_index_of_gid(registry@.groups, group_id@)].commands,
            cid@,
        )) && !spec_contains_id(old(scheduler)@.schedules, id@)) ==> r == Result::<
            (),
            ApiError,
        >::Err(ApiError::NotFound),
        (spec_rec_valid(recurrence@) && spec_ts_in_range(scheduled_time as int)
            && spec_contains_gid(registry@.groups, group_id@) && (command_id matches Some(cid)
            ==> spec_contains_cid(
            registry@.groups[spec_index_of_gid(registry@.groups, group_id@)].commands,
            cid@,
        )) && spec_contains_id(old(scheduler)@.schedules, id@) && spec_next_fire(
            recurrence@,
            scheduled_time as int,
            now as int,
            old(scheduler)@.schedules[spec_index_of_id(old(scheduler)@.schedules, id@)]
                .execution_count,
            opt_u32_view(max_executions),
        ) is Some) ==> r is Ok,
{
    if !timestamp_in_range(scheduled_time) {
        return Result::Err(ApiError::InvalidInput);
    }
    if !rec_is_valid(&recurrence) {
        return Result::Err(ApiError::InvalidInput);
    }
    if registry.resolve_group(&group_id).is_none() {
        return Result::Err(ApiError::NotFound);
    }
    match &command_id {
        Option::Some(cid) => {
            if registry.resolve_command(&group_id, cid).is_none() {
                return Result::Err(ApiError::NotFound);
            }
        },
        Option::None => {},
    }
    // Only the configuration fields matter: the store-level edit preserves
    // the stored schedule's identity and progress.
    let updated = Schedule {
        id: String::new(),
        group_id,
        command_id,
        recurrence,
        scheduled_time,
        is_active: false,
        created_at: 0,
        last_execution: Option::None,
        next_execution: 0,
        execution_count: 0,
        max_executions,
    };
    scheduler.update_schedule(id, updated, now)
}

/// Fold an imported document into the stores with merge semantics: a by-id
/// collision is skipped and the standing group or schedule keeps its
/// content; everything else joins. The counts of added and skipped groups
/// are reported.
pub fn import_data(
    registry: &mut GroupRegistry,
    scheduler: &mut SchedulerManager,
    data: AppData,
) -> (r: (usize, usize))
    requires
        old(registry).wf(),
        old(scheduler).wf(),
    ensures
        final(registry).wf(),
        final(scheduler).wf(),
        final(scheduler)@.running == old(scheduler)@.running,
        final(registry)@.groups == crate::registry::spec_load_groups(
            crate::storage::spec_merge_groups(
                old(registry)@.groups,
                crate::model::spec_group_views(data.groups@),
            ),
        ),
        r.0 == crate::storage::spec_merge_added(
            old(registry)@.groups,
            crate::model::spec_group_views(data.groups@),
        ),
        r.0 + r.1 == data.groups@.len(),
        final(scheduler)@.schedules == crate::scheduler::spec_merge_sids(
            old(scheduler)@.schedules,
            crate::model::spec_schedule_views(data.schedules@),
        ),
{
    let current = registry.get_groups();
    let (merged, added, skipped) = crate::storage::merge_data(&current, data.groups);
    registry.load_groups(merged);
    scheduler.merge_schedules(data.schedules);
    (added, skipped)
}

/// The next fire instants a cron expression selects, starting strictly after
/// `now`: each is the evaluator's first match after the one before, and the
/// list stops early when no further match exists.
pub open spec fn spec_cron_upcoming(e: Seq<char>, now: u64, k: int) -> Seq<u64>
    decreases k,
{
    if k <= 0 {
        Seq::empty()
    } else {
        match cron_next(e, now) {
            Option::Some(t) => seq![t] + spec_cron_upcoming(e, t, k - 1),
            Option::None => Seq::empty(),
        }
    }
}

/// The next `count` fire instants of a cron expression, for preview: at
/// most `count` of them, each strictly after `now`, in strictly increasing
/// order. The bound on `now` is the evaluator's representable ceiling.
pub fn get_next_executions(expression: &str, count: usize, now: u64) -> (r: Vec<u64>)
    requires
        now < 8210266876799,
    ensures
        r@ == spec_cron_upcoming(expression@, now, count as int),
        r@.len() <= count,
        forall|i: int| 0 <= i < r@.len() ==> now < #[trigger] r@[i],
        forall|i: int, j: int| 0 <= i < j < r@.len() ==> r@[i] < r@[j],
    decreases count,
{
    if count == 0 {
        let out: Vec<u64> = Vec::new();
        proof {
            assert(out@ =~= spec_cron_upcoming(expression@, now, 0));
        }
        return out;
    }
    match cron_next_after(expression, now) {
        Option::Some(t) => {
            let mut rest = get_next_executions(expression, count - 1, t);
            let ghost restv = rest@;
            rest.insert(0, t);
            proof {
                assert(rest@ =~= seq![t] + restv);
                assert(forall|i: int| 1 <= i < rest@.len() ==> rest@[i] == restv[i - 1]);
            }
            rest
        },
        Option::None => {
            let out: Vec<u64> = Vec::new();
            proof {
                assert(out@ =~= Seq::<u64>::empty());
            }
            out
        },
    }
}

/// What a validation request reports: the verdict, a message when the
/// expression is refused, and a preview of coming fire instants when it is
/// accepted.
#[derive(Debug, PartialEq, Eq)]
pub struct CronValidationResult {
    pub is_valid: bool,
    pub error_message: Option<String>,
    pub next_executions: Vec<u64>,
}

/// How many fire instants a validation previews.
pub const CRON_PREVIEW_COUNT: usize = 5;

/// Validate a cron expression and, when it is accepted, preview its next
/// few fire instants, each strictly after `now` and strictly increasing.
pub fn validate_cron_expression_command(expression: &str, now: u64) -> (r: CronValidationResult)
    requires
        now < 8210266876799,
    ensures
        r.is_valid == cron_accepts(expression@),
        r.is_valid ==> r.error_message is None && r.next_executions@ == spec_cron_upcoming(
            expression@,
            now,
            CRON_PREVIEW_COUNT as int,
        ),
        r.next_executions@.len() <= CRON_PREVIEW_COUNT,
        forall|i: int| 0 <= i < r.next_executions@.len() ==> now < #[trigger] r.next_executions@[i],
        forall|i: int, j: int|
            0 <= i < j < r.next_executions@.len() ==> r.next_executions@[i]
                < r.next_executions@[j],
        !r.is_valid ==> (r.error_message matches Some(m) && m@ == "invalid cron expression"@)
            && r.next_executions@.len() == 0,
{
    if validate_cron_expression(expression) {
        CronValidationResult {
            is_valid: true,
            error_message: Option::None,
            next_executions: get_next_executions(expression, CRON_PREVIEW_COUNT, now),
        }
    } else {
        let msg = "invalid cron expression".to_owned();
        CronValidationResult {
            is_valid: false,
            error_message: Option::Some(msg),
            next_executions: Vec::new(),
        }
    }
}

} // verus!
