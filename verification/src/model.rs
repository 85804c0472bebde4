//! The data model: commands, command groups, schedules, and the persisted
//! document that holds them.
//!
//! Each executable type has a mathematical view: strings become sequences of
//! characters, machine integers become `int`, and collections become `Seq`.
//! Contracts elsewhere in the crate speak of these views.

use vstd::prelude::*;

verus! {

/// One shell command: an id, a display label, the command text, and whether it
/// runs detached (fire-and-forget) or in the foreground with a timeout.
#[derive(Debug, PartialEq, Eq)]
pub struct CommandItem {
    pub id: String,
    pub label: String,
    pub cmd: String,
    pub is_detached: bool,
}

/// Mathematical image of a `CommandItem`.
pub ghost struct CommandItemView {
    pub id: Seq<char>,
    pub label: Seq<char>,
    pub cmd: Seq<char>,
    pub is_detached: bool,
}

impl View for CommandItem {
    type V = CommandItemView;

    open spec fn view(&self) -> CommandItemView {
        CommandItemView {
            id: self.id@,
            label: self.label@,
            cmd: self.cmd@,
            is_detached: self.is_detached,
        }
    }
}

impl Clone for CommandItem {
    fn clone(&self) -> (r: Self)
        ensures
            r == *self,
    {
        CommandItem {
            id: self.id.clone(),
            label: self.label.clone(),
            cmd: self.cmd.clone(),
            is_detached: self.is_detached,
        }
    }
}

/// The views of a sequence of commands, elementwise.
pub open spec fn spec_item_views(s: Seq<CommandItem>) -> Seq<CommandItemView> {
    Seq::new(s.len(), |i: int| s[i]@)
}

/// The views of a sequence of groups, elementwise.
pub open spec fn spec_group_views(s: Seq<CommandGroup>) -> Seq<CommandGroupView> {
    Seq::new(s.len(), |i: int| s[i]@)
}

/// The views of a sequence of schedules, elementwise.
pub open spec fn spec_schedule_views(s: Seq<Schedule>) -> Seq<ScheduleView> {
    Seq::new(s.len(), |i: int| s[i]@)
}

/// An ordered collection of commands under one title; the order is both
/// display order and execution order.
#[derive(Debug, PartialEq, Eq)]
pub struct CommandGroup {
    pub id: String,
    pub title: String,
    pub commands: Vec<CommandItem>,
}

/// Mathematical image of a `CommandGroup`.
pub ghost struct CommandGroupView {
    pub id: Seq<char>,
    pub title: Seq<char>,
    pub commands: Seq<CommandItemView>,
}

impl View for CommandGroup {
    type V = CommandGroupView;

    open spec fn view(&self) -> CommandGroupView {
        CommandGroupView {
            id: self.id@,
            title: self.title@,
            commands: spec_item_views(self.commands@),
        }
    }
}

impl Clone for CommandGroup {
    fn clone(&self) -> (r: Self)
        ensures
            r@ == self@,
            r.id == self.id,
            r.title == self.title,
    {
        let commands = self.commands.clone();
        proof {
            assert(forall|i: int|
                0 <= i < self.commands@.len() ==> commands@[i] == self.commands@[i]);
            assert(commands@ =~= self.commands@);
        }
        let res = CommandGroup { id: self.id.clone(), title: self.title.clone(), commands };
        proof {
            assert(res@.commands =~= self@.commands);
        }
        res
    }
}

/// When a schedule fires again: once at its anchor, on a calendar pattern tied
/// to the anchor's time-of-day, every fixed number of minutes, or at the
/// instants a cron expression selects.
#[derive(Debug, PartialEq, Eq)]
pub enum Recurrence {
    Once,
    Daily,
    Weekly,
    Monthly,
    Custom { interval_minutes: u32 },
    Cron { expression: String },
}

/// Mathematical image of a `Recurrence`.
pub ghost enum RecurrenceView {
    Once,
    Daily,
    Weekly,
    Monthly,
    Custom { interval_minutes: int },
    Cron { expression: Seq<char> },
}

impl View for Recurrence {
    type V = RecurrenceView;

    open spec fn view(&self) -> RecurrenceView {
        match self {
            Recurrence::Once => RecurrenceView::Once,
            Recurrence::Daily => RecurrenceView::Daily,
            Recurrence::Weekly => RecurrenceView::Weekly,
            Recurrence::Monthly => RecurrenceView::Monthly,
            Recurrence::Custom { interval_minutes } => RecurrenceView::Custom {
                interval_minutes: *interval_minutes as int,
            },
            Recurrence::Cron { expression } => RecurrenceView::Cron { expression: expression@ },
        }
    }
}

impl Clone for Recurrence {
    fn clone(&self) -> (r: Self)
        ensures
            r == *self,
    {
        match self {
            Recurrence::Once => Recurrence::Once,
            Recurrence::Daily => Recurrence::Daily,
            Recurrence::Weekly => Recurrence::Weekly,
            Recurrence::Monthly => Recurrence::Monthly,
            Recurrence::Custom { interval_minutes } => Recurrence::Custom {
                interval_minutes: *interval_minutes,
            },
            Recurrence::Cron { expression } => Recurrence::Cron {
                expression: expression.clone(),
            },
        }
    }
}

/// A rule binding a recurrence to a target: one command of a group when
/// `command_id` is present, the whole group when it is absent.
///
/// All instants are whole seconds since 1970-01-01 00:00:00 UTC.
/// `scheduled_time` is the anchor whose time-of-day, weekday and day-of-month
/// the calendar patterns reuse each cycle.
#[derive(Debug, PartialEq, Eq)]
pub struct Schedule {
    pub id: String,
    pub group_id: String,
    pub command_id: Option<String>,
    pub recurrence: Recurrence,
    pub scheduled_time: u64,
    pub is_active: bool,
    pub created_at: u64,
    pub last_execution: Option<u64>,
    pub next_execution: u64,
    pub execution_count: u32,
    pub max_executions: Option<u32>,
}

/// Mathematical image of a `Schedule`.
pub ghost struct ScheduleView {
    pub id: Seq<char>,
    pub group_id: Seq<char>,
    pub command_id: Option<Seq<char>>,
    pub recurrence: RecurrenceView,
    pub scheduled_time: int,
    pub is_active: bool,
    pub created_at: int,
    pub last_execution: Option<int>,
    pub next_execution: int,
    pub execution_count: int,
    pub max_executions: Option<int>,
}

impl View for Schedule {
    type V = ScheduleView;

    open spec fn view(&self) -> ScheduleView {
        ScheduleView {
            id: self.id@,
            group_id: self.group_id@,
            command_id: match self.command_id {
                Option::Some(ref s) => Option::Some(s@),
                Option::None => Option::None,
            },
            recurrence: self.recurrence@,
            scheduled_time: self.scheduled_time as int,
            is_active: self.is_active,
            created_at: self.created_at as int,
            last_execution: match self.last_execution {
                Option::Some(t) => Option::Some(t as int),
                Option::None => Option::None,
            },
            next_execution: self.next_execution as int,
            execution_count: self.execution_count as int,
            max_executions: match self.max_executions {
                Option::Some(m) => Option::Some(m as int),
                Option::None => Option::None,
            },
        }
    }
}

impl Clone for Schedule {
    fn clone(&self) -> (r: Self)
        ensures
            r == *self,
    {
        Schedule {
            id: self.id.clone(),
            group_id: self.group_id.clone(),
            command_id: match self.command_id {
                Option::Some(ref s) => Option::Some(s.clone()),
                Option::None => Option::None,
            },
            recurrence: self.recurrence.clone(),
            scheduled_time: self.scheduled_time,
            is_active: self.is_active,
            created_at: self.created_at,
            last_execution: self.last_execution,
            next_execution: self.next_execution,
            execution_count: self.execution_count,
            max_executions: self.max_executions,
        }
    }
}

/// The persisted document: every group and every schedule.
#[derive(Debug, PartialEq, Eq)]
pub struct AppData {
    pub groups: Vec<CommandGroup>,
    pub schedules: Vec<Schedule>,
}

/// Mathematical image of an `AppData` document.
pub ghost struct AppDataView {
    pub groups: Seq<CommandGroupView>,
    pub schedules: Seq<ScheduleView>,
}

impl View for AppData {
    type V = AppDataView;

    open spec fn view(&self) -> AppDataView {
        AppDataView {
            groups: spec_group_views(self.groups@),
            schedules: spec_schedule_views(self.schedules@),
        }
    }
}

impl Clone for AppData {
    fn clone(&self) -> (r: Self)
        ensures
            r@ == self@,
    {
        let groups = self.groups.clone();
        let schedules = self.schedules.clone();
        proof {
            assert(forall|i: int|
                0 <= i < self.groups@.len() ==> groups@[i]@ == self.groups@[i]@);
            assert(forall|i: int|
                0 <= i < self.schedules@.len() ==> schedules@[i] == self.schedules@[i]);
        }
        let res = AppData { groups, schedules };
        proof {
            assert(res@.groups =~= self@.groups);
            assert(res@.schedules =~= self@.schedules);
        }
        res
    }
}

} // verus!
