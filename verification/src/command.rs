//! The commands and the one entry point that runs them on a store.

use vstd::prelude::*;

use crate::active_params::{spec_annotate, spec_modify, ParamsV};
use crate::date::Date;
use crate::display::SigoDisplay;
use crate::error::SigoError;
use crate::priority::Priority;
use crate::store::{
    add_task, annotate, complete, concat_all, contains_id, find_id, lemma_contains_id_push,
    lemma_disjoint_sym, lemma_find_id_is_match, lemma_remove_id_absent, lemma_remove_id_props,
    lemma_remove_id_push, lemma_update_one_wf, modify, remove_id, sort_tasks, sorted_by_rank,
    clone_tasks, views_of, Store, StoreV,
};
use crate::task::{is_smallest_free, ReadyTask, Task, WaitingTask};

verus! {

/// A command as the surrounding argument layer hands it to the core, with
/// every value already validated: dates are well formed, ids are plain
/// numbers, text is free-form.
#[derive(Debug, PartialEq, Eq)]
#[allow(inconsistent_fields)]
pub enum Command {
    Add { description: String, priority: Option<Priority>, waiting: bool, due: Option<Date> },
    Modify { id: u32, text: Option<String>, priority: Option<Priority>, due: Option<Date> },
    Done { id: u32 },
    Wait { id: u32, text: Option<String> },
    Back { id: u32, text: Option<String> },
    Annotate { id: u32, text: String },
    List,
    Waiting,
}

/// What the core asks of a command's values: any supplied due date fits the
/// `YYYY-MM-DD` form, as the excluded date-parsing layer guarantees.
pub open spec fn cmd_wf(cmd: Command) -> bool {
    match cmd {
        Command::Add { due, .. } => match due {
            Some(d) => d.valid(),
            None => true,
        },
        Command::Modify { due, .. } => match due {
            Some(d) => d.valid(),
            None => true,
        },
        _ => true,
    }
}

/// The payload of a task created fresh: one description line, the given
/// priority and due date, the issued id.
pub open spec fn new_params(
    id: u32,
    priority: Option<Priority>,
    description: Seq<char>,
    due: Option<Date>,
) -> ParamsV {
    ParamsV { id, priority, description: seq![description], due }
}

/// What `run` did, case by case: how the store after the command relates to
/// the store before it, and what outcome the caller was handed.
pub open spec fn run_post(
    pre: StoreV,
    post: StoreV,
    cmd: Command,
    r: Result<SigoDisplay, SigoError>,
) -> bool {
    match cmd {
        Command::Add { description, priority, waiting, due } => match r {
            Ok(SigoDisplay::CreateReadyTask(id)) => {
                &&& !waiting
                &&& is_smallest_free(pre.ready, pre.waiting, id)
                &&& post.ready == pre.ready.push(new_params(id, priority, description@, due))
                &&& post.waiting == pre.waiting
                &&& post.completed == pre.completed
            },
            Ok(SigoDisplay::CreateWaitingTask(id)) => {
                &&& waiting
                &&& is_smallest_free(pre.ready, pre.waiting, id)
                &&& post.ready == pre.ready
                &&& post.waiting == pre.waiting.push(
                    new_params(id, priority, description@, due),
                )
                &&& post.completed == pre.completed
            },
            _ => false,
        },
        Command::Modify { id, text, priority, due } => match r {
            Ok(SigoDisplay::ModifyTask(rid, primary)) => {
                &&& rid == id
                &&& match find_id(pre.ready, id) {
                    Some(p) => {
                        let m = spec_modify(p, text.deep_view(), priority, due);
                        &&& post.ready == remove_id(pre.ready, id).push(m)
                        &&& post.waiting == pre.waiting
                        &&& post.completed == pre.completed
                        &&& primary@ == m.primary()
                    },
                    None => match find_id(pre.waiting, id) {
                        Some(p) => {
                            let m = spec_modify(p, text.deep_view(), priority, due);
                            &&& post.ready == pre.ready
                            &&& post.waiting == remove_id(pre.waiting, id).push(m)
                            &&& post.completed == pre.completed
                            &&& primary@ == m.primary()
                        },
                        None => false,
                    },
                }
            },
            Err(e) => {
                &&& e == SigoError::TaskNotFound(id)
                &&& find_id(pre.ready, id) is None
                &&& find_id(pre.waiting, id) is None
                &&& post == pre
            },
            _ => false,
        },
        Command::Done { id } => match r {
            Ok(SigoDisplay::CompleteTask(rid, primary)) => {
                &&& rid == id
                &&& match find_id(pre.ready, id) {
                    Some(p) => {
                        &&& post.ready == remove_id(pre.ready, id)
                        &&& post.waiting == pre.waiting
                        &&& post.completed == pre.completed.push(concat_all(p.description))
                        &&& primary@ == p.primary()
                    },
                    None => match find_id(pre.waiting, id) {
                        Some(p) => {
                            &&& post.ready == pre.ready
                            &&& post.waiting == remove_id(pre.waiting, id)
                            &&& post.completed == pre.completed.push(
                                concat_all(p.description),
                            )
                            &&& primary@ == p.primary()
                        },
                        None => false,
                    },
                }
            },
            Err(e) => {
                &&& e == SigoError::TaskNotFound(id)
                &&& find_id(pre.ready, id) is None
                &&& find_id(pre.waiting, id) is None
                &&& post == pre
            },
            _ => false,
        },
        Command::Wait { id, text } => match r {
            Ok(SigoDisplay::WaitTask(rid, primary)) => {
                &&& rid == id
                &&& match find_id(pre.ready, id) {
                    Some(p) => {
                        let moved = match text.deep_view() {
                            Some(t) => spec_annotate(p, t),
                            None => p,
                        };
                        &&& post.ready == remove_id(pre.ready, id)
                        &&& post.waiting == pre.waiting.push(moved)
                        &&& post.completed == pre.completed
                        &&& primary@ == p.primary()
                    },
                    None => false,
                }
            },
            Ok(SigoDisplay::WaitWaitingTask(rid, primary)) => {
                &&& rid == id
                &&& find_id(pre.ready, id) is None
                &&& match find_id(pre.waiting, id) {
                    Some(p) => primary@ == p.primary(),
                    None => false,
                }
                &&& post == pre
            },
            Err(e) => {
                &&& e == SigoError::TaskNotFound(id)
                &&& find_id(pre.ready, id) is None
                &&& find_id(pre.waiting, id) is None
                &&& post == pre
            },
            _ => false,
        },
        Command::Back { id, text } => match r {
            Ok(SigoDisplay::BackTask(rid, primary)) => {
                &&& rid == id
                &&& find_id(pre.ready, id) is None
                &&& match find_id(pre.waiting, id) {
                    Some(p) => {
                        let moved = match text.deep_view() {
                            Some(t) => spec_annotate(p, t),
                            None => p,
                        };
                        &&& post.ready == pre.ready.push(moved)
                        &&& post.waiting == remove_id(pre.waiting, id)
                        &&& post.completed == pre.completed
                        &&& primary@ == p.primary()
                    },
                    None => false,
                }
            },
            Ok(SigoDisplay::BackReadyTask(rid, primary)) => {
                &&& rid == id
                &&& match find_id(pre.ready, id) {
                    Some(p) => primary@ == p.primary(),
                    None => false,
                }
                &&& post == pre
            },
            Err(e) => {
                &&& e == SigoError::TaskNotFound(id)
                &&& find_id(pre.ready, id) is None
                &&& find_id(pre.waiting, id) is None
                &&& post == pre
            },
            _ => false,
        },
        Command::Annotate { id, text } => match r {
            Ok(SigoDisplay::AnnotateTask(rid, primary)) => {
                &&& rid == id
                &&& match find_id(pre.ready, id) {
                    Some(p) => {
                        &&& post.ready == remove_id(pre.ready, id).push(
                            spec_annotate(p, text@),
                        )
                        &&& post.waiting == pre.waiting
                        &&& post.completed == pre.completed
                        &&& primary@ == p.primary()
                    },
                    None => match find_id(pre.waiting, id) {
                        Some(p) => {
                            &&& post.ready == pre.ready
                            &&& post.waiting == remove_id(pre.waiting, id).push(
                                spec_annotate(p, text@),
                            )
                            &&& post.completed == pre.completed
                            &&& primary@ == p.primary()
                        },
                        None => false,
                    },
                }
            },
            Err(e) => {
                &&& e == SigoError::TaskNotFound(id)
                &&& find_id(pre.ready, id) is None
                &&& find_id(pre.waiting, id) is None
                &&& post == pre
            },
            _ => false,
        },
        Command::List => match r {
            Ok(SigoDisplay::ListReadyTasks(ts)) => {
                &&& post == pre
                &&& sorted_by_rank(views_of(ts@))
                &&& views_of(ts@).to_multiset() == pre.ready.to_multiset()
            },
            _ => false,
        },
        Command::Waiting => match r {
            Ok(SigoDisplay::ListWaitingTasks(ts)) => {
                &&& post == pre
                &&& sorted_by_rank(views_of(ts@))
                &&& views_of(ts@).to_multiset() == pre.waiting.to_multiset()
            },
            _ => false,
        },
    }
}

/// Runs one command against the in-memory store: resolves the id where one
/// is given, applies the lifecycle operation, and returns what to show.
/// The store invariant is kept; `TaskNotFound` is the one failure, reported
/// exactly when no active task carries the id asked for.
pub fn run(store: &mut Store, cmd: Command) -> (r: Result<SigoDisplay, SigoError>)
    requires
        old(store)@.wf(),
        cmd_wf(cmd),
        cmd matches Command::Add { .. } ==> old(store)@.ready.len() + old(store)@.waiting.len()
            + 1 <= u32::MAX,
    ensures
        final(store)@.wf(),
        run_post(old(store)@, final(store)@, cmd, r),
{
    let ghost pre = store@;
    match cmd {
        Command::Add { description, priority, waiting, due } => {
            let new_task = ReadyTask::new(
                &store.ready,
                &store.waiting,
                description.as_str(),
                priority,
                due,
            );
            let ghost np = new_task@;
            let ghost id = new_task@.id;
            if waiting {
                let new_task = add_task::<ReadyTask>(&mut store.ready, new_task);
                proof {
                    assert(views_of(store.ready@) =~= pre.ready.push(np));
                }
                let ghost mid = views_of(store.ready@);
                let new_task = new_task.wait(&mut store.ready, &mut store.waiting, &None);
                proof {
                    lemma_remove_id_push(pre.ready, id, np);
                    lemma_remove_id_absent(pre.ready, id);
                    assert(store@.ready == remove_id(mid, id));
                    assert(store@.ready == pre.ready);
                    assert(store@.waiting == pre.waiting.push(np));
                    assert forall|a: int, b: int|
                        0 <= a < b < store@.waiting.len() implies store@.waiting[a].id
                        != store@.waiting[b].id by {
                        if b == store@.waiting.len() - 1 {
                            if pre.waiting[a].id == id {
                                assert(contains_id(pre.waiting, id));
                            }
                        }
                    }
                    assert forall|k: u32|
                        contains_id(store@.ready, k) implies !contains_id(
                        store@.waiting,
                        k,
                    ) by {
                        lemma_contains_id_push(pre.waiting, np, k);
                        if k == id {
                            assert(!contains_id(pre.ready, id));
                        }
                    }
                    assert forall|i: int| 0 <= i < store@.waiting.len() implies store@.waiting[i].wf() by {
                        if i < pre.waiting.len() {
                        }
                    }
                }
                Ok(SigoDisplay::CreateWaitingTask(new_task.active_params.id))
            } else {
                let new_task = add_task::<ReadyTask>(&mut store.ready, new_task);
                proof {
                    assert(store@.ready =~= pre.ready.push(np));
                    assert forall|a: int, b: int|
                        0 <= a < b < store@.ready.len() implies store@.ready[a].id
                        != store@.ready[b].id by {
                        if b == store@.ready.len() - 1 {
                            if pre.ready[a].id == id {
                                assert(contains_id(pre.ready, id));
                            }
                        }
                    }
                    assert forall|k: u32|
                        contains_id(store@.ready, k) implies !contains_id(
                        store@.waiting,
                        k,
                    ) by {
                        lemma_contains_id_push(pre.ready, np, k);
                        if k == id {
                            assert(!contains_id(pre.waiting, id));
                        }
                    }
                    assert forall|i: int| 0 <= i < store@.ready.len() implies store@.ready[i].wf() by {
                        if i < pre.ready.len() {
                        }
                    }
                }
                Ok(SigoDisplay::CreateReadyTask(new_task.active_params.id))
            }
        },
        Command::Modify { id, text, priority, due } => {
            let task = match Task::get_by_id(&store.ready, &store.waiting, id) {
                Ok(t) => t,
                Err(e) => {
                    return Err(e);
                },
            };
            match task {
                Task::Ready(task) => {
                    let ghost m = spec_modify(task@, text.deep_view(), priority, due);
                    let modified = modify(&task, &mut store.ready, &text, priority, due);
                    proof {
                        lemma_find_id_is_match(pre.ready, id);
                        lemma_update_one_wf(pre.ready, id, m);
                        assert forall|k: u32|
                            contains_id(store@.ready, k) implies !contains_id(
                            store@.waiting,
                            k,
                        ) by {}
                    }
                    Ok(SigoDisplay::ModifyTask(id, modified.active_params.get_primary_description()))
                },
                Task::Waiting(task) => {
                    let ghost m = spec_modify(task@, text.deep_view(), priority, due);
                    let modified = modify(&task, &mut store.waiting, &text, priority, due);
                    proof {
                        lemma_find_id_is_match(pre.waiting, id);
                        lemma_update_one_wf(pre.waiting, id, m);
                        lemma_disjoint_sym(pre.ready, pre.waiting);
                        assert forall|k: u32|
                            contains_id(store@.ready, k) implies !contains_id(
                            store@.waiting,
                            k,
                        ) by {}
                    }
                    Ok(SigoDisplay::ModifyTask(id, modified.active_params.get_primary_description()))
                },
                Task::Completed(_) => {
                    proof {
                        assert(false);
                    }
                    Err(SigoError::TaskNotFound(id))
                },
            }
        },
        Command::Done { id } => {
            let task = match Task::get_by_id(&store.ready, &store.waiting, id) {
                Ok(t) => t,
                Err(e) => {
                    return Err(e);
                },
            };
            match task {
                Task::Ready(task) => {
                    let primary = task.active_params.get_primary_description();
                    complete(&task, &mut store.ready, &mut store.completed);
                    proof {
                        lemma_find_id_is_match(pre.ready, id);
                        lemma_remove_id_props(pre.ready, id);
                    }
                    Ok(SigoDisplay::CompleteTask(id, primary))
                },
                Task::Waiting(task) => {
                    let primary = task.active_params.get_primary_description();
                    complete(&task, &mut store.waiting, &mut store.completed);
                    proof {
                        lemma_find_id_is_match(pre.waiting, id);
                        lemma_remove_id_props(pre.waiting, id);
                        lemma_disjoint_sym(pre.ready, pre.waiting);
                    }
                    Ok(SigoDisplay::CompleteTask(id, primary))
                },
                Task::Completed(_) => {
                    proof {
                        assert(false);
                    }
                    Err(SigoError::TaskNotFound(id))
                },
            }
        },
        Command::Wait { id, text } => {
            let task = match Task::get_by_id(&store.ready, &store.waiting, id) {
                Ok(t) => t,
                Err(e) => {
                    return Err(e);
                },
            };
            match task {
                Task::Ready(task) => {
                    let primary = task.active_params.get_primary_description();
                    let ghost p = task@;
                    let ghost moved = match text.deep_view() {
                        Some(t) => spec_annotate(p, t),
                        None => p,
                    };
                    let moved_task = task.wait(&mut store.ready, &mut store.waiting, &text);
                    proof {
                        lemma_find_id_is_match(pre.ready, id);
                        lemma_remove_id_props(pre.ready, id);
                        lemma_disjoint_sym(pre.ready, pre.waiting);
                        lemma_remove_id_absent(pre.waiting, id);
                        assert(store@.waiting == pre.waiting.push(moved));
                        assert forall|a: int, b: int|
                            0 <= a < b < store@.waiting.len() implies store@.waiting[a].id
                            != store@.waiting[b].id by {
                            if b == store@.waiting.len() - 1 {
                                if pre.waiting[a].id == id {
                                    assert(contains_id(pre.waiting, id));
                                }
                            }
                        }
                        assert forall|k: u32|
                            contains_id(store@.ready, k) implies !contains_id(
                            store@.waiting,
                            k,
                        ) by {
                            lemma_contains_id_push(pre.waiting, moved, k);
                        }
                        assert forall|i: int| 0 <= i < store@.waiting.len() implies store@.waiting[i].wf() by {
                            if i < pre.waiting.len() {
                            }
                        }
                    }
                    Ok(SigoDisplay::WaitTask(id, primary))
                },
                Task::Waiting(task) => {
                    Ok(
                        SigoDisplay::WaitWaitingTask(
                            id,
                            task.active_params.get_primary_description(),
                        ),
                    )
                },
                Task::Completed(_) => {
                    proof {
                        assert(false);
                    }
                    Err(SigoError::TaskNotFound(id))
                },
            }
        },
        Command::Back { id, text } => {
            let task = match Task::get_by_id(&store.ready, &store.waiting, id) {
                Ok(t) => t,
                Err(e) => {
                    return Err(e);
                },
            };
            match task {
                Task::Ready(task) => {
                    Ok(
                        SigoDisplay::BackReadyTask(
                            id,
                            task.active_params.get_primary_description(),
                        ),
                    )
                },
                Task::Waiting(task) => {
                    let primary = task.active_params.get_primary_description();
                    let ghost p = task@;
                    let ghost moved = match text.deep_view() {
                        Some(t) => spec_annotate(p, t),
                        None => p,
                    };
                    let moved_task = task.back(&mut store.ready, &mut store.waiting, &text);
                    proof {
                        lemma_find_id_is_match(pre.waiting, id);
                        lemma_remove_id_props(pre.waiting, id);
                        lemma_disjoint_sym(pre.ready, pre.waiting);
                        lemma_remove_id_absent(pre.ready, id);
                        assert(store@.ready == pre.ready.push(moved));
                        assert forall|a: int, b: int|
                            0 <= a < b < store@.ready.len() implies store@.ready[a].id
                            != store@.ready[b].id by {
                            if b == store@.ready.len() - 1 {
                                if pre.ready[a].id == id {
                                    assert(contains_id(pre.ready, id));
                                }
                            }
                        }
                        assert forall|k: u32|
                            contains_id(store@.ready, k) implies !contains_id(
                            store@.waiting,
                            k,
                        ) by {
                            lemma_contains_id_push(pre.ready, moved, k);
                            lemma_remove_id_props(pre.waiting, id);
                        }
                        assert forall|i: int| 0 <= i < store@.ready.len() implies store@.ready[i].wf() by {
                            if i < pre.ready.len() {
                            }
                        }
                    }
                    Ok(SigoDisplay::BackTask(id, primary))
                },
                Task::Completed(_) => {
                    proof {
                        assert(false);
                    }
                    Err(SigoError::TaskNotFound(id))
                },
            }
        },
        Command::Annotate { id, text } => {
            let task = match Task::get_by_id(&store.ready, &store.waiting, id) {
                Ok(t) => t,
                Err(e) => {
                    return Err(e);
                },
            };
            match task {
                Task::Ready(task) => {
                    let primary = task.active_params.get_primary_description();
                    annotate(&task, &mut store.ready, text.as_str());
                    proof {
                        lemma_find_id_is_match(pre.ready, id);
                        lemma_update_one_wf(pre.ready, id, spec_annotate(task@, text@));
                    }
                    Ok(SigoDisplay::AnnotateTask(id, primary))
                },
                Task::Waiting(task) => {
                    let primary = task.active_params.get_primary_description();
                    annotate(&task, &mut store.waiting, text.as_str());
                    proof {
                        lemma_find_id_is_match(pre.waiting, id);
                        lemma_update_one_wf(pre.waiting, id, spec_annotate(task@, text@));
                        lemma_disjoint_sym(pre.ready, pre.waiting);
                    }
                    Ok(SigoDisplay::AnnotateTask(id, primary))
                },
                Task::Completed(_) => {
                    proof {
                        assert(false);
                    }
                    Err(SigoError::TaskNotFound(id))
                },
            }
        },
        Command::List => {
            let mut tasks = clone_tasks(&store.ready);
            sort_tasks(&mut tasks);
            Ok(SigoDisplay::ListReadyTasks(tasks))
        },
        Command::Waiting => {
            let mut tasks = clone_tasks(&store.waiting);
            sort_tasks(&mut tasks);
            Ok(SigoDisplay::ListWaitingTasks(tasks))
        },
    }
}

} // verus!
