use sigo::active_params::ActiveParams;
use sigo::codec::{completed_from_json, completed_to_json, dec_string, tasks_from_json, tasks_to_json};
use sigo::date::Date;
use sigo::priority::Priority;
use sigo::task::{CompletedTask, ReadyTask, WaitingTask};

fn ready(id: u32, lines: &[&str], priority: Option<Priority>, due: Option<Date>) -> ReadyTask {
    ReadyTask {
        active_params: ActiveParams {
            id,
            priority,
            description: lines.iter().map(|s| s.to_string()).collect(),
            due,
        },
    }
}

#[test]
fn round_trip_empty_collection() {
    let tasks: Vec<ReadyTask> = Vec::new();
    let json = tasks_to_json(&tasks);
    assert_eq!(json, "[]");
    let back: Vec<ReadyTask> = tasks_from_json(&json).unwrap();
    assert_eq!(back, tasks);
}

#[test]
fn round_trip_keeps_every_field() {
    let tasks = vec![
        ready(1, &["buy milk", "2% please"], Some(Priority::H), None),
        ready(7, &["write report"], None, Some(Date { year: 2024, month: 7, day: 20 })),
        ready(4294967295, &["max id"], Some(Priority::L), Some(Date { year: 1, month: 1, day: 1 })),
    ];
    let json = tasks_to_json(&tasks);
    let back: Vec<ReadyTask> = tasks_from_json(&json).unwrap();
    assert_eq!(back, tasks);
}

#[test]
fn round_trip_escapes_special_characters() {
    let tasks = vec![ready(
        2,
        &["say \"hi\"", "path C:\\tmp", "line\nbreak\tand\rmore", "emoji ✅ and é"],
        None,
        None,
    )];
    let json = tasks_to_json(&tasks);
    let back: Vec<ReadyTask> = tasks_from_json(&json).unwrap();
    assert_eq!(back, tasks);
}

#[test]
fn round_trip_waiting_kind() {
    let tasks = vec![WaitingTask {
        active_params: ActiveParams {
            id: 3,
            priority: Some(Priority::M),
            description: vec!["blocked".to_string()],
            due: None,
        },
    }];
    let json = tasks_to_json(&tasks);
    let back: Vec<WaitingTask> = tasks_from_json(&json).unwrap();
    assert_eq!(back, tasks);
}

#[test]
fn serialized_form_is_exactly_canonical() {
    let tasks = vec![ready(
        1,
        &["buy milk"],
        Some(Priority::H),
        Some(Date { year: 2024, month: 7, day: 20 }),
    )];
    let json = tasks_to_json(&tasks);
    assert_eq!(
        json,
        "[{\"id\":1,\"priority\":\"H\",\"description\":[\"buy milk\"],\"due\":\"2024-07-20\"}]"
    );
    let tasks = vec![ready(2, &["a", "b"], None, None)];
    let json = tasks_to_json(&tasks);
    assert_eq!(json, "[{\"id\":2,\"priority\":null,\"description\":[\"a\",\"b\"],\"due\":null}]");
}

#[test]
fn control_characters_are_written_as_unicode_escapes() {
    let tasks = vec![ready(1, &["a\nb"], None, None)];
    let json = tasks_to_json(&tasks);
    assert_eq!(json, "[{\"id\":1,\"priority\":null,\"description\":[\"a\\u000ab\"],\"due\":null}]");
}

#[test]
fn parser_accepts_only_whole_well_formed_lists() {
    assert!(tasks_from_json::<ReadyTask>("").is_none());
    assert!(tasks_from_json::<ReadyTask>("[").is_none());
    assert!(tasks_from_json::<ReadyTask>("{}").is_none());
    assert!(tasks_from_json::<ReadyTask>("[]extra").is_none());
    assert!(tasks_from_json::<ReadyTask>("[{}]").is_none());
    let good = "[{\"id\":1,\"priority\":null,\"description\":[\"a\"],\"due\":null}]";
    assert!(tasks_from_json::<ReadyTask>(good).is_some());
    let trailing = "[{\"id\":1,\"priority\":null,\"description\":[\"a\"],\"due\":null}] ";
    assert!(tasks_from_json::<ReadyTask>(trailing).is_none());
}

#[test]
fn parser_rejects_records_that_break_the_invariants() {
    let zero_id = "[{\"id\":0,\"priority\":null,\"description\":[\"a\"],\"due\":null}]";
    assert!(tasks_from_json::<ReadyTask>(zero_id).is_none());
    let empty_description = "[{\"id\":1,\"priority\":null,\"description\":[],\"due\":null}]";
    assert!(tasks_from_json::<ReadyTask>(empty_description).is_none());
    let id_overflow = "[{\"id\":4294967296,\"priority\":null,\"description\":[\"a\"],\"due\":null}]";
    assert!(tasks_from_json::<ReadyTask>(id_overflow).is_none());
    let bad_month = "[{\"id\":1,\"priority\":null,\"description\":[\"a\"],\"due\":\"2024-13-01\"}]";
    assert!(tasks_from_json::<ReadyTask>(bad_month).is_none());
}

#[test]
fn completed_round_trip_and_exact_form() {
    let archive = vec![
        CompletedTask { summary: "buy milk".to_string() },
        CompletedTask { summary: "with \"quotes\"".to_string() },
    ];
    let json = completed_to_json(&archive);
    assert_eq!(
        json,
        "[{\"summary\":\"buy milk\"},{\"summary\":\"with \\\"quotes\\\"\"}]"
    );
    let back = completed_from_json(&json).unwrap();
    assert_eq!(back, archive);
    let empty: Vec<CompletedTask> = Vec::new();
    assert_eq!(completed_to_json(&empty), "[]");
    assert_eq!(completed_from_json("[]").unwrap(), empty);
    assert!(completed_from_json("[{\"summary\":\"x\"}").is_none());
}

#[test]
fn decimal_rendering_is_exact() {
    assert_eq!(dec_string(0), "0");
    assert_eq!(dec_string(42), "42");
    assert_eq!(dec_string(4294967295), "4294967295");
}
