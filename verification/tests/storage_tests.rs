use ordito::model::{AppData, CommandGroup, CommandItem, Recurrence, Schedule};
use ordito::storage::{encode_u64, merge_data, parse_document, parse_u64, encode_document};

fn item(id: &str, label: &str, cmd: &str, detached: bool) -> CommandItem {
    CommandItem {
        id: String::from(id),
        label: String::from(label),
        cmd: String::from(cmd),
        is_detached: detached,
    }
}

fn group(id: &str, title: &str, commands: Vec<CommandItem>) -> CommandGroup {
    CommandGroup { id: String::from(id), title: String::from(title), commands }
}

#[test]
fn number_round_trip() {
    for n in [0u64, 7, 10, 12345, u64::MAX] {
        let text = encode_u64(n);
        assert_eq!(parse_u64(&text, 0), Some((n, text.chars().count())));
    }
    assert_eq!(encode_u64(0), "0;");
    assert_eq!(encode_u64(1234), "1234;");
}

#[test]
fn number_parse_rejects_garbage() {
    assert_eq!(parse_u64("", 0), None);
    assert_eq!(parse_u64("x;", 0), None);
    assert_eq!(parse_u64(";", 0), None);
    assert_eq!(parse_u64("12", 0), None);
    // One past the largest machine value overflows and is refused.
    assert_eq!(parse_u64("18446744073709551616;", 0), None);
    assert_eq!(parse_u64("18446744073709551615;", 0), Some((u64::MAX, 21)));
}

#[test]
fn document_round_trip() {
    // Three groups: one empty, one with five commands, one with a detached
    // command; two schedules: one cron-based, one calendar-based.
    let five = vec![
        item("c1", "one", "echo 1", false),
        item("c2", "two", "echo 2", false),
        item("c3", "three", "echo 3", false),
        item("c4", "four", "echo 4", false),
        item("c5", "five", "echo 5", false),
    ];
    let data = AppData {
        groups: vec![
            group("g-empty", "Empty", vec![]),
            group("g-five", "Five", five),
            group("g-detached", "Detached", vec![item("cd", "bg", "sleep 60", true)]),
        ],
        schedules: vec![
            Schedule {
                id: String::from("s-cron"),
                group_id: String::from("g-five"),
                command_id: None,
                recurrence: Recurrence::Cron { expression: String::from("0 0 12 * * *") },
                scheduled_time: 0,
                is_active: true,
                created_at: 100,
                last_execution: None,
                next_execution: 43200,
                execution_count: 0,
                max_executions: None,
            },
            Schedule {
                id: String::from("s-cal"),
                group_id: String::from("g-detached"),
                command_id: Some(String::from("cd")),
                recurrence: Recurrence::Daily,
                scheduled_time: 3600,
                is_active: false,
                created_at: 200,
                last_execution: Some(90000),
                next_execution: 90000 + 86400,
                execution_count: 3,
                max_executions: Some(10),
            },
        ],
    };
    let text = encode_document(&data);
    let back = parse_document(&text).expect("a just-written document parses");
    assert_eq!(back, data);
}

#[test]
fn document_with_awkward_text_round_trips() {
    // Separators, quotes and non-ASCII text inside commands survive, since
    // nothing is escaped and lengths direct the parse.
    let data = AppData {
        groups: vec![group(
            "g",
            "weird; \"title\" 123;",
            vec![item("c", "uni\u{00e9}ode \u{2192}", "echo ';;;' && echo \"1;2\"", false)],
        )],
        schedules: vec![],
    };
    let text = encode_document(&data);
    assert_eq!(parse_document(&text), Some(data));
}

#[test]
fn parse_rejects_corrupt_document() {
    assert_eq!(parse_document(""), None);
    assert_eq!(parse_document("hello"), None);
    assert_eq!(parse_document("2;"), None);
    // A valid document with its tail cut off fails.
    let data = AppData {
        groups: vec![group("g", "t", vec![item("c", "l", "x", false)])],
        schedules: vec![],
    };
    let text = encode_document(&data);
    let cut: String = text.chars().take(text.chars().count() - 3).collect();
    assert_eq!(parse_document(&cut), None);
}

#[test]
fn merge_skips_colliding_group_and_keeps_its_content() {
    let current = vec![group("shared", "original title", vec![item("c", "l", "x", false)])];
    let imported = vec![
        group("shared", "imported title", vec![]),
        group("fresh", "new group", vec![]),
    ];
    let (merged, added, skipped) = merge_data(&current, imported);
    assert_eq!(added, 1);
    assert_eq!(skipped, 1);
    assert_eq!(merged.len(), 2);
    // The colliding group keeps its original content, untouched.
    assert_eq!(merged[0].id, "shared");
    assert_eq!(merged[0].title, "original title");
    assert_eq!(merged[0].commands.len(), 1);
    // The new group is appended.
    assert_eq!(merged[1].id, "fresh");
}

#[test]
fn merge_of_disjoint_sets_adds_everything() {
    let current = vec![group("a", "A", vec![])];
    let imported = vec![group("b", "B", vec![]), group("c", "C", vec![])];
    let (merged, added, skipped) = merge_data(&current, imported);
    assert_eq!((added, skipped), (2, 0));
    assert_eq!(merged.len(), 3);
}
