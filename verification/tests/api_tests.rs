use ordito::api::{
    create_schedule, get_next_executions, get_schedule_info, get_schedules_with_info,
    import_data, update_schedule, validate_cron_expression_command,
};
use ordito::errors::ApiError;
use ordito::model::{AppData, CommandGroup, Recurrence, Schedule};
use ordito::registry::GroupRegistry;
use ordito::scheduler::SchedulerManager;

const DAY: u64 = 86400;

fn setup() -> (SchedulerManager, GroupRegistry, String, String) {
    let mut registry = GroupRegistry::new();
    let gid = registry.create_group(String::from("build")).unwrap();
    let cid = registry
        .add_command_to_group(&gid, String::from("compile"), String::from("make"), false)
        .unwrap();
    (SchedulerManager::new(), registry, gid, cid)
}

#[test]
fn zero_interval_is_rejected_before_any_lookup() {
    let (mut scheduler, registry, _gid, _cid) = setup();
    // Even with a group id that does not exist, the malformed recurrence
    // is what gets reported: validation runs before any lookup.
    let r = create_schedule(
        &mut scheduler,
        &registry,
        String::from("no-such-group"),
        None,
        Recurrence::Custom { interval_minutes: 0 },
        0,
        None,
        1000,
    );
    assert_eq!(r, Err(ApiError::InvalidInput));
    assert_eq!(scheduler.get_schedules().len(), 0);
}

#[test]
fn invalid_cron_is_rejected_at_creation() {
    let (mut scheduler, registry, gid, _cid) = setup();
    let r = create_schedule(
        &mut scheduler,
        &registry,
        gid,
        None,
        Recurrence::Cron { expression: String::from("not a cron") },
        0,
        None,
        1000,
    );
    assert_eq!(r, Err(ApiError::InvalidInput));
}

#[test]
fn unknown_targets_are_not_found() {
    let (mut scheduler, registry, gid, _cid) = setup();
    let r = create_schedule(
        &mut scheduler,
        &registry,
        String::from("no-such-group"),
        None,
        Recurrence::Daily,
        3600,
        None,
        1000,
    );
    assert_eq!(r, Err(ApiError::NotFound));
    let r = create_schedule(
        &mut scheduler,
        &registry,
        gid,
        Some(String::from("no-such-command")),
        Recurrence::Daily,
        3600,
        None,
        1000,
    );
    assert_eq!(r, Err(ApiError::NotFound));
    assert_eq!(scheduler.get_schedules().len(), 0);
}

#[test]
fn creation_computes_first_fire_and_defaults() {
    let (mut scheduler, registry, gid, cid) = setup();
    let id = create_schedule(
        &mut scheduler,
        &registry,
        gid.clone(),
        Some(cid.clone()),
        Recurrence::Daily,
        3600,
        Some(5),
        1800,
    )
    .unwrap();
    let s = scheduler.get_schedule(&id).unwrap();
    assert_eq!(s.group_id, gid);
    assert_eq!(s.command_id, Some(cid));
    assert!(s.is_active);
    assert_eq!(s.created_at, 1800);
    assert_eq!(s.last_execution, None);
    assert_eq!(s.next_execution, 3600);
    assert_eq!(s.execution_count, 0);
    assert_eq!(s.max_executions, Some(5));
}

#[test]
fn schedule_info_and_display_names() {
    let (mut scheduler, mut registry, gid, cid) = setup();
    let group_sched = create_schedule(
        &mut scheduler,
        &registry,
        gid.clone(),
        None,
        Recurrence::Daily,
        3600,
        None,
        1800,
    )
    .unwrap();
    let cmd_sched = create_schedule(
        &mut scheduler,
        &registry,
        gid.clone(),
        Some(cid.clone()),
        Recurrence::Daily,
        3600,
        None,
        1800,
    )
    .unwrap();

    let missing = String::from("no-such-id");
    assert_eq!(get_schedule_info(&scheduler, &registry, &missing), Err(ApiError::NotFound));

    let info = get_schedule_info(&scheduler, &registry, &group_sched).unwrap();
    assert_eq!(info.schedule_type, "group");
    assert_eq!(info.display_name, "Group: build");

    let info = get_schedule_info(&scheduler, &registry, &cmd_sched).unwrap();
    assert_eq!(info.schedule_type, "command");
    assert_eq!(info.display_name, "build -> compile");

    // Deleting the command orphans the schedule: it degrades, not errors.
    registry.delete_command_from_group(&gid, &cid).unwrap();
    let info = get_schedule_info(&scheduler, &registry, &cmd_sched).unwrap();
    assert_eq!(info.display_name, "build -> [Unknown Command]");

    // Deleting the whole group degrades further.
    registry.delete_group(&gid);
    let info = get_schedule_info(&scheduler, &registry, &cmd_sched).unwrap();
    assert_eq!(info.display_name, "[Unknown Group]");

    let all = get_schedules_with_info(&scheduler, &registry);
    assert_eq!(all.len(), 2);
    assert_eq!(all[0].id, group_sched);
    assert_eq!(all[1].id, cmd_sched);
}

#[test]
fn cron_preview_advances_strictly() {
    // Noon every day, from the epoch: five successive noons.
    let fires = get_next_executions("0 0 12 * * *", 5, 0);
    assert_eq!(
        fires,
        vec![43200, 43200 + DAY, 43200 + 2 * DAY, 43200 + 3 * DAY, 43200 + 4 * DAY]
    );
}

#[test]
fn cron_validation_command_reports_both_verdicts() {
    let good = validate_cron_expression_command("0 0 12 * * *", 0);
    assert!(good.is_valid);
    assert_eq!(good.error_message, None);
    assert_eq!(good.next_executions.len(), 5);
    assert_eq!(good.next_executions[0], 43200);

    let bad = validate_cron_expression_command("not a cron", 0);
    assert!(!bad.is_valid);
    assert_eq!(bad.error_message.as_deref(), Some("invalid cron expression"));
    assert!(bad.next_executions.is_empty());
}

#[test]
fn api_update_schedule_paths() {
    let (mut scheduler, registry, gid, cid) = setup();
    let id = create_schedule(
        &mut scheduler,
        &registry,
        gid.clone(),
        None,
        Recurrence::Daily,
        3600,
        None,
        1800,
    )
    .unwrap();
    // Malformed recurrence is refused before anything else.
    assert_eq!(
        update_schedule(
            &mut scheduler,
            &registry,
            &id,
            gid.clone(),
            None,
            Recurrence::Custom { interval_minutes: 0 },
            3600,
            None,
            1800,
        ),
        Err(ApiError::InvalidInput)
    );
    // A dangling target is refused.
    assert_eq!(
        update_schedule(
            &mut scheduler,
            &registry,
            &id,
            String::from("no-such-group"),
            None,
            Recurrence::Daily,
            3600,
            None,
            1800,
        ),
        Err(ApiError::NotFound)
    );
    // A sound update retargets the schedule and recomputes its fire instant.
    assert_eq!(
        update_schedule(
            &mut scheduler,
            &registry,
            &id,
            gid.clone(),
            Some(cid.clone()),
            Recurrence::Custom { interval_minutes: 10 },
            3600,
            Some(4),
            2000,
        ),
        Ok(())
    );
    let s = scheduler.get_schedule(&id).unwrap();
    assert_eq!(s.id, id);
    assert_eq!(s.command_id, Some(cid));
    assert_eq!(s.next_execution, 2000 + 600);
    assert_eq!(s.max_executions, Some(4));
    // The edit replaced configuration only: creation time, count and the
    // active flag are the schedule's own.
    assert_eq!(s.created_at, 1800);
    assert_eq!(s.execution_count, 0);
    assert_eq!(s.last_execution, None);
    assert!(s.is_active);
}

#[test]
fn import_merges_groups_and_extends_schedules() {
    let (mut scheduler, mut registry, gid, _cid) = setup();
    let kept = create_schedule(
        &mut scheduler,
        &registry,
        gid.clone(),
        None,
        Recurrence::Daily,
        3600,
        None,
        1800,
    )
    .unwrap();
    let colliding = CommandGroup {
        id: gid.clone(),
        title: String::from("imported title"),
        commands: vec![],
    };
    let fresh = CommandGroup {
        id: String::from("fresh"),
        title: String::from("new group"),
        commands: vec![],
    };
    let imported_schedule = Schedule {
        id: String::from("imp"),
        group_id: String::from("fresh"),
        command_id: None,
        recurrence: Recurrence::Daily,
        scheduled_time: 3600,
        is_active: true,
        created_at: 0,
        last_execution: None,
        next_execution: 3600,
        execution_count: 0,
        max_executions: None,
    };
    // A schedule colliding with a stored id must not displace it.
    let colliding_schedule = Schedule {
        id: kept.clone(),
        group_id: String::from("fresh"),
        command_id: None,
        recurrence: Recurrence::Custom { interval_minutes: 42 },
        scheduled_time: 7777,
        is_active: false,
        created_at: 0,
        last_execution: None,
        next_execution: 7777,
        execution_count: 9,
        max_executions: None,
    };
    let data = AppData {
        groups: vec![colliding, fresh],
        schedules: vec![imported_schedule, colliding_schedule],
    };
    let (added, skipped) = import_data(&mut registry, &mut scheduler, data);
    assert_eq!((added, skipped), (1, 1));
    // The colliding group keeps its original title.
    assert_eq!(registry.resolve_group(&gid).unwrap().title, "build");
    assert_eq!(registry.get_groups().len(), 2);
    // The kept schedule stands untouched despite the colliding import...
    let standing = scheduler.get_schedule(&kept).unwrap();
    assert_eq!(standing.group_id, gid);
    assert_eq!(standing.recurrence, Recurrence::Daily);
    assert_eq!(standing.execution_count, 0);
    // ...and the new schedule joined.
    let imp = String::from("imp");
    assert!(scheduler.get_schedule(&imp).is_some());
}
