use sigo::active_params::ActiveParams;
use sigo::command::{run, Command};
use sigo::display::SigoDisplay;
use sigo::error::SigoError;
use sigo::priority::Priority;
use sigo::store::Store;
use sigo::task::{ReadyTask, Task, WaitingTask};

fn empty_store() -> Store {
    Store { ready: Vec::new(), waiting: Vec::new(), completed: Vec::new() }
}

fn ready(id: u32, lines: &[&str], priority: Option<Priority>) -> ReadyTask {
    ReadyTask {
        active_params: ActiveParams {
            id,
            priority,
            description: lines.iter().map(|s| s.to_string()).collect(),
            due: None,
        },
    }
}

fn waiting(id: u32, lines: &[&str], priority: Option<Priority>) -> WaitingTask {
    WaitingTask {
        active_params: ActiveParams {
            id,
            priority,
            description: lines.iter().map(|s| s.to_string()).collect(),
            due: None,
        },
    }
}

fn add(store: &mut Store, text: &str) -> u32 {
    let r = run(
        store,
        Command::Add {
            description: text.to_string(),
            priority: None,
            waiting: false,
            due: None,
        },
    );
    match r {
        Ok(SigoDisplay::CreateReadyTask(id)) => id,
        other => panic!("unexpected outcome: {:?}", other),
    }
}

#[test]
fn create_assigns_successive_ids() {
    let mut store = empty_store();
    assert_eq!(add(&mut store, "one"), 1);
    assert_eq!(add(&mut store, "two"), 2);
    assert_eq!(add(&mut store, "three"), 3);
    assert!(store.check_wf());
}

#[test]
fn completing_frees_the_lowest_id_for_reuse() {
    let mut store = empty_store();
    add(&mut store, "one");
    add(&mut store, "two");
    add(&mut store, "three");
    let r = run(&mut store, Command::Done { id: 2 });
    assert!(matches!(r, Ok(SigoDisplay::CompleteTask(2, _))));
    let new_id = add(&mut store, "four");
    assert_eq!(new_id, 2);
    assert!(store.check_wf());
}

#[test]
fn id_unique_across_collections_through_a_command_sequence() {
    let mut store = empty_store();
    add(&mut store, "a");
    add(&mut store, "b");
    run(&mut store, Command::Wait { id: 1, text: None }).unwrap();
    add(&mut store, "c");
    run(&mut store, Command::Done { id: 2 }).unwrap();
    add(&mut store, "d");
    run(&mut store, Command::Wait { id: 2, text: None }).unwrap();
    assert!(store.check_wf());
    let mut seen = Vec::new();
    for t in &store.ready {
        assert!(!seen.contains(&t.active_params.id));
        seen.push(t.active_params.id);
    }
    for t in &store.waiting {
        assert!(!seen.contains(&t.active_params.id));
        seen.push(t.active_params.id);
    }
}

#[test]
fn complete_archives_summary_and_frees_id() {
    let mut store = empty_store();
    store.ready.push(ready(5, &["buy milk"], Some(Priority::H)));
    let r = run(&mut store, Command::Done { id: 5 });
    assert!(matches!(r, Ok(SigoDisplay::CompleteTask(5, _))));
    assert_eq!(store.completed.len(), 1);
    assert_eq!(store.completed[0].summary, "buy milk");
    assert!(store.ready.iter().all(|t| t.active_params.id != 5));
    assert!(store.waiting.iter().all(|t| t.active_params.id != 5));
    assert!(matches!(
        Task::get_by_id(&store.ready, &store.waiting, 5),
        Err(SigoError::TaskNotFound(5))
    ));
}

#[test]
fn complete_concatenates_all_description_lines() {
    let mut store = empty_store();
    store.ready.push(ready(1, &["buy milk", "2% please"], None));
    run(&mut store, Command::Done { id: 1 }).unwrap();
    assert_eq!(store.completed[0].summary, "buy milk2% please");
}

#[test]
fn annotate_appends_and_does_not_replace() {
    let mut store = empty_store();
    store.ready.push(ready(1, &["buy milk"], None));
    run(&mut store, Command::Annotate { id: 1, text: "2% please".to_string() }).unwrap();
    assert_eq!(store.ready[0].active_params.description, vec!["buy milk", "2% please"]);
    run(&mut store, Command::Annotate { id: 1, text: "or oat".to_string() }).unwrap();
    assert_eq!(
        store.ready[0].active_params.description,
        vec!["buy milk", "2% please", "or oat"]
    );
}

#[test]
fn modify_replaces_only_the_primary_line() {
    let mut store = empty_store();
    store.ready.push(ready(1, &["buy milk", "2% please"], None));
    run(
        &mut store,
        Command::Modify {
            id: 1,
            text: Some("buy oat milk".to_string()),
            priority: None,
            due: None,
        },
    )
    .unwrap();
    assert_eq!(store.ready[0].active_params.description, vec!["buy oat milk", "2% please"]);
}

#[test]
fn modify_without_text_leaves_description_unchanged() {
    let mut store = empty_store();
    store.ready.push(ready(1, &["buy milk", "2% please"], None));
    run(
        &mut store,
        Command::Modify { id: 1, text: None, priority: Some(Priority::L), due: None },
    )
    .unwrap();
    assert_eq!(store.ready[0].active_params.description, vec!["buy milk", "2% please"]);
    assert_eq!(store.ready[0].active_params.priority, Some(Priority::L));
}

#[test]
fn modify_keeps_old_priority_when_none_supplied() {
    let mut store = empty_store();
    store.ready.push(ready(1, &["task"], Some(Priority::H)));
    run(&mut store, Command::Modify { id: 1, text: None, priority: None, due: None }).unwrap();
    assert_eq!(store.ready[0].active_params.priority, Some(Priority::H));
}

#[test]
fn wait_moves_task_and_back_returns_it() {
    let mut store = empty_store();
    store.ready.push(ready(1, &["call mom"], None));
    let r = run(&mut store, Command::Wait { id: 1, text: None });
    assert!(matches!(r, Ok(SigoDisplay::WaitTask(1, _))));
    assert!(store.ready.is_empty());
    assert_eq!(store.waiting.len(), 1);
    assert_eq!(store.waiting[0].active_params.id, 1);
    let r = run(&mut store, Command::Back { id: 1, text: None });
    assert!(matches!(r, Ok(SigoDisplay::BackTask(1, _))));
    assert!(store.waiting.is_empty());
    assert_eq!(store.ready.len(), 1);
    assert_eq!(store.ready[0].active_params.id, 1);
}

#[test]
fn wait_with_text_appends_an_annotation() {
    let mut store = empty_store();
    store.ready.push(ready(1, &["call mom"], None));
    run(&mut store, Command::Wait { id: 1, text: Some("after lunch".to_string()) }).unwrap();
    assert_eq!(store.waiting[0].active_params.description, vec!["call mom", "after lunch"]);
}

#[test]
fn wait_with_empty_text_appends_an_empty_line() {
    let mut store = empty_store();
    store.ready.push(ready(1, &["call mom"], None));
    run(&mut store, Command::Wait { id: 1, text: Some(String::new()) }).unwrap();
    assert_eq!(store.waiting[0].active_params.description, vec!["call mom", ""]);
}

#[test]
fn wait_on_already_waiting_task_changes_nothing() {
    let mut store = empty_store();
    store.waiting.push(waiting(3, &["blocked"], None));
    store.ready.push(ready(1, &["other"], None));
    let before_ready = store.ready.clone();
    let before_waiting = store.waiting.clone();
    let r = run(&mut store, Command::Wait { id: 3, text: None });
    match r {
        Ok(SigoDisplay::WaitWaitingTask(3, text)) => assert_eq!(text, "blocked"),
        other => panic!("unexpected outcome: {:?}", other),
    }
    assert_eq!(store.ready, before_ready);
    assert_eq!(store.waiting, before_waiting);
}

#[test]
fn back_on_already_ready_task_changes_nothing() {
    let mut store = empty_store();
    store.ready.push(ready(4, &["here"], None));
    let before = store.ready.clone();
    let r = run(&mut store, Command::Back { id: 4, text: None });
    match r {
        Ok(SigoDisplay::BackReadyTask(4, text)) => assert_eq!(text, "here"),
        other => panic!("unexpected outcome: {:?}", other),
    }
    assert_eq!(store.ready, before);
    assert!(store.waiting.is_empty());
}

#[test]
fn waiting_tasks_can_be_completed_annotated_and_modified() {
    let mut store = empty_store();
    store.waiting.push(waiting(6, &["waiting on mail"], None));
    run(&mut store, Command::Annotate { id: 6, text: "pinged them".to_string() }).unwrap();
    assert_eq!(
        store.waiting[0].active_params.description,
        vec!["waiting on mail", "pinged them"]
    );
    run(
        &mut store,
        Command::Modify { id: 6, text: None, priority: Some(Priority::M), due: None },
    )
    .unwrap();
    assert_eq!(store.waiting[0].active_params.priority, Some(Priority::M));
    let r = run(&mut store, Command::Done { id: 6 });
    assert!(matches!(r, Ok(SigoDisplay::CompleteTask(6, _))));
    assert!(store.waiting.is_empty());
    assert_eq!(store.completed.len(), 1);
    assert_eq!(store.completed[0].summary, "waiting on mailpinged them");
}

#[test]
fn lookup_miss_reports_task_not_found() {
    let mut store = empty_store();
    store.ready.push(ready(1, &["a"], None));
    store.waiting.push(waiting(2, &["b"], None));
    let r = run(&mut store, Command::Done { id: 9 });
    assert_eq!(r, Err(SigoError::TaskNotFound(9)));
    let r = Task::get_by_id(&store.ready, &store.waiting, 9);
    assert_eq!(r, Err(SigoError::TaskNotFound(9)));
}

#[test]
fn lookup_prefers_ready_and_wraps_the_matching_kind() {
    let mut store = empty_store();
    store.ready.push(ready(1, &["a"], None));
    store.waiting.push(waiting(2, &["b"], None));
    assert!(matches!(
        Task::get_by_id(&store.ready, &store.waiting, 1),
        Ok(Task::Ready(_))
    ));
    assert!(matches!(
        Task::get_by_id(&store.ready, &store.waiting, 2),
        Ok(Task::Waiting(_))
    ));
}

#[test]
fn list_orders_by_priority_rank() {
    let mut store = empty_store();
    store.ready.push(ready(1, &["none"], None));
    store.ready.push(ready(2, &["low"], Some(Priority::L)));
    store.ready.push(ready(3, &["high"], Some(Priority::H)));
    store.ready.push(ready(4, &["medium"], Some(Priority::M)));
    let r = run(&mut store, Command::List);
    match r {
        Ok(SigoDisplay::ListReadyTasks(tasks)) => {
            let prios: Vec<Option<Priority>> =
                tasks.iter().map(|t| t.active_params.priority).collect();
            assert_eq!(
                prios,
                vec![Some(Priority::H), Some(Priority::M), Some(Priority::L), None]
            );
        }
        other => panic!("unexpected outcome: {:?}", other),
    }
    assert_eq!(store.ready.len(), 4);
}

#[test]
fn waiting_listing_orders_by_priority_rank_too() {
    let mut store = empty_store();
    store.waiting.push(waiting(1, &["none"], None));
    store.waiting.push(waiting(2, &["high"], Some(Priority::H)));
    let r = run(&mut store, Command::Waiting);
    match r {
        Ok(SigoDisplay::ListWaitingTasks(tasks)) => {
            let ids: Vec<u32> = tasks.iter().map(|t| t.active_params.id).collect();
            assert_eq!(ids, vec![2, 1]);
        }
        other => panic!("unexpected outcome: {:?}", other),
    }
}

#[test]
fn add_waiting_lands_in_the_waiting_collection() {
    let mut store = empty_store();
    let r = run(
        &mut store,
        Command::Add {
            description: "blocked from birth".to_string(),
            priority: None,
            waiting: true,
            due: None,
        },
    );
    assert!(matches!(r, Ok(SigoDisplay::CreateWaitingTask(1))));
    assert!(store.ready.is_empty());
    assert_eq!(store.waiting.len(), 1);
    assert_eq!(store.waiting[0].active_params.id, 1);
}

#[test]
fn check_wf_rejects_duplicate_and_shared_ids() {
    let mut store = empty_store();
    store.ready.push(ready(1, &["a"], None));
    store.ready.push(ready(1, &["b"], None));
    assert!(!store.check_wf());
    let mut store = empty_store();
    store.ready.push(ready(1, &["a"], None));
    store.waiting.push(waiting(1, &["b"], None));
    assert!(!store.check_wf());
    let mut store = empty_store();
    store.ready.push(ready(0, &["zero id"], None));
    assert!(!store.check_wf());
    let mut store = empty_store();
    store.ready.push(ReadyTask {
        active_params: ActiveParams { id: 1, priority: None, description: vec![], due: None },
    });
    assert!(!store.check_wf());
}
