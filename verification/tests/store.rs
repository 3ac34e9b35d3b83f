use sigo::active_params::ActiveParams;
use sigo::date::Date;
use sigo::error::SigoError;
use sigo::priority::Priority;
use sigo::store::{add_task, delete_by_id, get_by_id, has_id, ActiveFilable, Filable};
use sigo::task::{CompletedTask, ReadyTask, WaitingTask};

fn ready(id: u32, line: &str) -> ReadyTask {
    ReadyTask {
        active_params: ActiveParams {
            id,
            priority: None,
            description: vec![line.to_string()],
            due: None,
        },
    }
}

#[test]
fn each_kind_names_its_file() {
    assert_eq!(ReadyTask::get_filename(), "ready_tasks");
    assert_eq!(WaitingTask::get_filename(), "waiting_tasks");
    assert_eq!(CompletedTask::get_filename(), "completed_tasks");
}

#[test]
fn add_appends_and_returns_the_record() {
    let mut tasks: Vec<ReadyTask> = Vec::new();
    let r = add_task(&mut tasks, ready(1, "a"));
    assert_eq!(r, ready(1, "a"));
    add_task(&mut tasks, ready(2, "b"));
    assert_eq!(tasks, vec![ready(1, "a"), ready(2, "b")]);
}

#[test]
fn get_by_id_returns_the_first_match_or_fails() {
    let tasks = vec![ready(1, "a"), ready(2, "b")];
    assert_eq!(get_by_id(&tasks, 2), Ok(ready(2, "b")));
    assert_eq!(get_by_id(&tasks, 3), Err(SigoError::TaskNotFound(3)));
    assert!(has_id(&tasks, 1));
    assert!(!has_id(&tasks, 3));
}

#[test]
fn delete_by_id_keeps_the_others_in_order() {
    let mut tasks = vec![ready(1, "a"), ready(2, "b"), ready(3, "c")];
    delete_by_id(&mut tasks, 2);
    assert_eq!(tasks, vec![ready(1, "a"), ready(3, "c")]);
    delete_by_id(&mut tasks, 9);
    assert_eq!(tasks, vec![ready(1, "a"), ready(3, "c")]);
}

#[test]
fn params_accessors_copy_the_payload() {
    let t = ReadyTask {
        active_params: ActiveParams {
            id: 4,
            priority: Some(Priority::M),
            description: vec!["x".to_string(), "y".to_string()],
            due: None,
        },
    };
    assert_eq!(t.get_id(), 4);
    assert_eq!(t.get_description(), vec!["x".to_string(), "y".to_string()]);
    assert_eq!(t.active_params.get_primary_description(), "x");
}

#[test]
fn annotate_description_appends_a_line() {
    let p = ActiveParams {
        id: 1,
        priority: None,
        description: vec!["first".to_string()],
        due: None,
    };
    let p2 = p.annotate_description("second");
    assert_eq!(p2.description, vec!["first", "second"]);
    assert_eq!(p.description, vec!["first"]);
}

#[test]
fn modify_priority_and_due_replace_only_when_supplied() {
    let d1 = Date { year: 2024, month: 1, day: 2 };
    let d2 = Date { year: 2025, month: 3, day: 4 };
    let p = ActiveParams {
        id: 1,
        priority: Some(Priority::H),
        description: vec!["t".to_string()],
        due: Some(d1),
    };
    let p2 = p.modify_priority(Some(Priority::L)).modify_due(None);
    assert_eq!(p2.priority, Some(Priority::L));
    assert_eq!(p2.due, Some(d1));
    let p3 = p.modify_priority(None).modify_due(Some(d2));
    assert_eq!(p3.priority, Some(Priority::H));
    assert_eq!(p3.due, Some(d2));
}

#[test]
fn date_from_ymd_checks_the_form() {
    assert_eq!(
        Date::from_ymd(2024, 7, 20),
        Some(Date { year: 2024, month: 7, day: 20 })
    );
    assert_eq!(Date::from_ymd(2024, 13, 1), None);
    assert_eq!(Date::from_ymd(2024, 0, 1), None);
    assert_eq!(Date::from_ymd(2024, 1, 32), None);
    assert_eq!(Date::from_ymd(10000, 1, 1), None);
}
