use ordito::errors::ApiError;
use ordito::model::{CommandGroup, CommandItem};
use ordito::registry::GroupRegistry;

#[test]
fn create_group_assigns_uuid_id() {
    let mut r = GroupRegistry::new();
    let id = r.create_group(String::from("build")).unwrap();
    assert_eq!(id.chars().count(), 36);
    let groups = r.get_groups();
    assert_eq!(groups.len(), 1);
    assert_eq!(groups[0].id, id);
    assert_eq!(groups[0].title, "build");
    assert!(groups[0].commands.is_empty());
}

#[test]
fn update_group_paths() {
    let mut r = GroupRegistry::new();
    let id = r.create_group(String::from("old")).unwrap();
    let missing = String::from("no-such-id");
    assert_eq!(r.update_group(&missing, String::from("x")), Err(ApiError::NotFound));
    assert_eq!(r.update_group(&id, String::from("new")), Ok(()));
    assert_eq!(r.resolve_group(&id).unwrap().title, "new");
}

#[test]
fn delete_group_is_quiet_on_unknown_id() {
    let mut r = GroupRegistry::new();
    let id = r.create_group(String::from("g")).unwrap();
    let missing = String::from("no-such-id");
    r.delete_group(&missing);
    assert_eq!(r.get_groups().len(), 1);
    r.delete_group(&id);
    assert_eq!(r.get_groups().len(), 0);
}

#[test]
fn command_lifecycle_in_group() {
    let mut r = GroupRegistry::new();
    let gid = r.create_group(String::from("g")).unwrap();
    let missing = String::from("no-such-id");
    assert_eq!(
        r.add_command_to_group(&missing, String::from("l"), String::from("c"), false),
        Err(ApiError::NotFound)
    );
    let cid = r
        .add_command_to_group(&gid, String::from("list"), String::from("ls -l"), false)
        .unwrap();
    assert_eq!(cid.chars().count(), 36);
    let found = r.resolve_command(&gid, &cid).unwrap();
    assert_eq!(found.label, "list");
    assert_eq!(found.cmd, "ls -l");
    assert!(!found.is_detached);

    assert_eq!(
        r.update_command(&gid, &missing, String::from("x"), String::from("y"), true),
        Err(ApiError::NotFound)
    );
    assert_eq!(
        r.update_command(&gid, &cid, String::from("count"), String::from("wc -l"), true),
        Ok(())
    );
    let updated = r.resolve_command(&gid, &cid).unwrap();
    assert_eq!(updated.id, cid);
    assert_eq!(updated.label, "count");
    assert_eq!(updated.cmd, "wc -l");
    assert!(updated.is_detached);

    assert_eq!(r.delete_command_from_group(&missing, &cid), Err(ApiError::NotFound));
    // Deleting an unknown command in a known group changes nothing.
    assert_eq!(r.delete_command_from_group(&gid, &missing), Ok(()));
    assert_eq!(r.resolve_group(&gid).unwrap().commands.len(), 1);
    assert_eq!(r.delete_command_from_group(&gid, &cid), Ok(()));
    assert!(r.resolve_command(&gid, &cid).is_none());
    assert_eq!(r.resolve_group(&gid).unwrap().commands.len(), 0);
}

#[test]
fn commands_keep_insertion_order() {
    let mut r = GroupRegistry::new();
    let gid = r.create_group(String::from("g")).unwrap();
    let c1 = r
        .add_command_to_group(&gid, String::from("one"), String::from("echo 1"), false)
        .unwrap();
    let c2 = r
        .add_command_to_group(&gid, String::from("two"), String::from("echo 2"), false)
        .unwrap();
    let c3 = r
        .add_command_to_group(&gid, String::from("three"), String::from("echo 3"), true)
        .unwrap();
    let g = r.resolve_group(&gid).unwrap();
    assert_eq!(
        g.commands.iter().map(|c| c.id.clone()).collect::<Vec<_>>(),
        vec![c1, c2, c3]
    );
}

#[test]
fn load_drops_repeated_group_and_command_ids() {
    let cmd = |id: &str, label: &str| CommandItem {
        id: String::from(id),
        label: String::from(label),
        cmd: String::from("true"),
        is_detached: false,
    };
    let mut r = GroupRegistry::new();
    r.load_groups(vec![
        CommandGroup {
            id: String::from("g1"),
            title: String::from("first"),
            commands: vec![cmd("c", "kept"), cmd("c", "dropped"), cmd("d", "kept too")],
        },
        CommandGroup {
            id: String::from("g1"),
            title: String::from("dropped"),
            commands: vec![],
        },
        CommandGroup { id: String::from("g2"), title: String::from("second"), commands: vec![] },
    ]);
    let groups = r.get_groups();
    assert_eq!(groups.len(), 2);
    assert_eq!(groups[0].id, "g1");
    assert_eq!(groups[0].title, "first");
    assert_eq!(
        groups[0].commands.iter().map(|c| c.label.as_str()).collect::<Vec<_>>(),
        vec!["kept", "kept too"]
    );
    assert_eq!(groups[1].id, "g2");
}
