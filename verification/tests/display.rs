use sigo::active_params::ActiveParams;
use sigo::config::{Mode, MyConfig};
use sigo::display::SigoDisplay;
use sigo::error::SigoError;
use sigo::priority::{display_option_priority, Priority};
use sigo::task::ReadyTask;
use sigo::utils::display_vec_string;

fn cfg(mode: Mode) -> MyConfig {
    MyConfig { data: "/tmp/tasks".to_string(), mode }
}

#[test]
fn option_priority_shows_its_letter_or_nothing() {
    assert_eq!(display_option_priority(&Some(Priority::H)), "H");
    assert_eq!(display_option_priority(&Some(Priority::M)), "M");
    assert_eq!(display_option_priority(&Some(Priority::L)), "L");
    assert_eq!(display_option_priority(&None), "");
}

#[test]
fn vec_string_joins_later_lines_as_bullets() {
    let v = vec!["buy milk".to_string(), "2% please".to_string(), "or oat".to_string()];
    assert_eq!(display_vec_string(&v), "buy milk\n* 2% please\n* or oat");
    let one = vec!["only".to_string()];
    assert_eq!(display_vec_string(&one), "only");
    let none: Vec<String> = Vec::new();
    assert_eq!(display_vec_string(&none), "");
}

#[test]
fn error_messages_name_the_failure() {
    let e = SigoError::FileCreateErr("/tmp/t".to_string(), "denied".to_string());
    assert_eq!(e.message(), "unable to create file /tmp/t: denied\n");
    let e = SigoError::FileRenameErr("/a".to_string(), "/b".to_string(), "busy".to_string());
    assert_eq!(e.message(), "unable to rename file /a to file /b: busy\n");
    let e = SigoError::ParseStrToTasksErr("/tmp/ready_tasks".to_string());
    assert_eq!(e.message(), "unable to parse file /tmp/ready_tasks\n");
    let e = SigoError::TaskNotFound(17);
    assert_eq!(e.message(), "not found sigo 17\n");
}

#[test]
fn minimum_mode_renders_one_line() {
    let d = SigoDisplay::CreateReadyTask(3);
    assert_eq!(d.display(&cfg(Mode::Minimum), ""), "Created sigo 3\n");
    let d = SigoDisplay::CompleteTask(5, "buy milk".to_string());
    assert_eq!(d.display(&cfg(Mode::Minimum), ""), "Complete sigo 5 'buy milk'\n");
    let d = SigoDisplay::WaitWaitingTask(2, "blocked".to_string());
    assert_eq!(d.display(&cfg(Mode::Minimum), ""), "Already waiting sigo 2 'blocked'\n");
}

#[test]
fn minimum_mode_lists_show_the_table() {
    let d = SigoDisplay::ListReadyTasks(Vec::new());
    assert_eq!(d.display(&cfg(Mode::Minimum), "id P desc"), "id P desc\n");
}

#[test]
fn simple_mode_renders_hints() {
    let d = SigoDisplay::CreateReadyTask(3);
    assert_eq!(
        d.display(&cfg(Mode::Simple), ""),
        "✅ Created sigo 3.\n\n    (use \"sigo done 3\" to complete sigo)\n    (use \"sigo wait 3\" to change sigo waiting)\n"
    );
    let d = SigoDisplay::AnnotateTask(1, "buy milk".to_string());
    assert_eq!(d.display(&cfg(Mode::Simple), ""), "✅ Annotated sigo 1 'buy milk'.\n");
}

#[test]
fn simple_mode_empty_listing_celebrates() {
    let d = SigoDisplay::ListReadyTasks(Vec::new());
    assert_eq!(
        d.display(&cfg(Mode::Simple), ""),
        "No sigos! Woot woot!\n    (use \"sigo add\" to add sigo)\n    (use \"sigo waiting\" to list waiting sigos)\n"
    );
}

#[test]
fn simple_mode_listing_counts_tasks() {
    let tasks = vec![ReadyTask {
        active_params: ActiveParams {
            id: 1,
            priority: None,
            description: vec!["a".to_string()],
            due: None,
        },
    }];
    let d = SigoDisplay::ListReadyTasks(tasks);
    assert_eq!(
        d.display(&cfg(Mode::Simple), "TABLE"),
        "TABLE\n\n1 sigos\n    (use \"sigo done\" to complete sigo)\n    (use \"sigo waiting\" to list waiting sigos)\n"
    );
}
