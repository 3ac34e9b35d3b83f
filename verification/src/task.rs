//! The task kinds and the tagged union over them.

use vstd::prelude::*;

use crate::active_params::{spec_annotate, ActiveParams, ParamsV};
use crate::date::Date;
use crate::error::SigoError;
use crate::priority::Priority;
use crate::store::{
    add_task, annotate, contains_id, delete_by_id, find_id, get_by_id, has_id, remove_id,
    views_of, ActiveFilable, Filable,
};
use vstd::set_lib::{lemma_int_range, lemma_len_subset, lemma_len_union, set_int_range};

verus! {

/// A task that is actionable now.
#[derive(Debug, PartialEq, Eq)]
pub struct ReadyTask {
    pub active_params: ActiveParams,
}

/// A task blocked on something external.
#[derive(Debug, PartialEq, Eq)]
pub struct WaitingTask {
    pub active_params: ActiveParams,
}

/// An archived task: only the concatenation of its description lines
/// survives; the id is freed when the record is made.
#[derive(Debug, PartialEq, Eq)]
pub struct CompletedTask {
    pub summary: String,
}

/// A task classified by the collection it currently lives in.
#[derive(Debug, PartialEq, Eq)]
pub enum Task {
    Ready(ReadyTask),
    Waiting(WaitingTask),
    Completed(CompletedTask),
}

impl View for ReadyTask {
    type V = ParamsV;

    open spec fn view(&self) -> ParamsV {
        self.active_params@
    }
}

impl View for WaitingTask {
    type V = ParamsV;

    open spec fn view(&self) -> ParamsV {
        self.active_params@
    }
}

impl View for CompletedTask {
    type V = Seq<char>;

    open spec fn view(&self) -> Seq<char> {
        self.summary@
    }
}

impl Clone for ReadyTask {
    /// Copies the task; the copy has the same image.
    fn clone(&self) -> (res: Self)
        ensures
            res@ == self@,
    {
        ReadyTask { active_params: self.active_params.clone() }
    }
}

impl Clone for WaitingTask {
    /// Copies the task; the copy has the same image.
    fn clone(&self) -> (res: Self)
        ensures
            res@ == self@,
    {
        WaitingTask { active_params: self.active_params.clone() }
    }
}

impl Clone for CompletedTask {
    /// Copies the record; the copy has the same image.
    fn clone(&self) -> (res: Self)
        ensures
            res@ == self@,
    {
        CompletedTask { summary: self.summary.clone() }
    }
}

impl ReadyTask {
    /// Builds a ready task from a waiting one, keeping the payload.
    pub fn from_waiting(waiting_task: WaitingTask) -> (r: Self)
        ensures
            r@ == waiting_task@,
    {
        ReadyTask { active_params: waiting_task.active_params }
    }
}

impl WaitingTask {
    /// Builds a waiting task from a ready one, keeping the payload.
    pub fn from_ready(ready_task: ReadyTask) -> (r: Self)
        ensures
            r@ == ready_task@,
    {
        WaitingTask { active_params: ready_task.active_params }
    }
}

/// The smallest positive integer that no active task uses.
pub open spec fn is_smallest_free(r: Seq<ParamsV>, w: Seq<ParamsV>, id: u32) -> bool {
    &&& id >= 1
    &&& !contains_id(r, id)
    &&& !contains_id(w, id)
    &&& forall|k: u32| 1 <= k < id ==> contains_id(r, k) || contains_id(w, k)
}

/// Among the first `n + 1` positive integers, where `n` is the number of
/// active records, at least one is unused.
proof fn lemma_free_id_exists(r: Seq<ParamsV>, w: Seq<ParamsV>)
    requires
        r.len() + w.len() + 1 <= u32::MAX,
    ensures
        exists|k: u32|
            1 <= k <= r.len() + w.len() + 1 && !contains_id(r, k) && !contains_id(w, k),
{
    broadcast use vstd::seq_lib::seq_to_set_is_finite;

    let n = r.len() + w.len();
    if !(exists|k: u32|
        1 <= k <= r.len() + w.len() + 1 && !contains_id(r, k) && !contains_id(w, k)) {
        let rids = r.map_values(|p: ParamsV| p.id as int);
        let wids = w.map_values(|p: ParamsV| p.id as int);
        let ids = rids.to_set().union(wids.to_set());
        assert forall|k: int| set_int_range(1, n as int + 2).contains(k) implies ids.contains(
            k,
        ) by {
            let ku = k as u32;
            assert(1 <= ku <= n + 1);
            assert(contains_id(r, ku) || contains_id(w, ku));
            if contains_id(r, ku) {
                let i = choose|i: int| 0 <= i < r.len() && r[i].id == ku;
                assert(rids[i] == k);
                assert(rids.contains(k));
            } else {
                let i = choose|i: int| 0 <= i < w.len() && w[i].id == ku;
                assert(wids[i] == k);
                assert(wids.contains(k));
            }
        }
        rids.lemma_cardinality_of_set();
        wids.lemma_cardinality_of_set();
        lemma_len_union(rids.to_set(), wids.to_set());
        lemma_int_range(1, n as int + 2);
        lemma_len_subset(set_int_range(1, n as int + 2), ids);
        assert(false);
    }
}

impl Task {
    /// Resolves an id to the task that carries it: the first match in the
    /// ready collection, else the first match in the waiting collection,
    /// else `TaskNotFound`.  A completed record is never returned.
    pub fn get_by_id(ready: &Vec<ReadyTask>, waiting: &Vec<WaitingTask>, id: u32) -> (r: Result<
        Task,
        SigoError,
    >)
        ensures
            match r {
                Ok(Task::Ready(t)) => find_id(views_of(ready@), id) == Some(t@),
                Ok(Task::Waiting(t)) => find_id(views_of(ready@), id) is None && find_id(
                    views_of(waiting@),
                    id,
                ) == Some(t@),
                Ok(Task::Completed(_)) => false,
                Err(e) => {
                    &&& e == SigoError::TaskNotFound(id)
                    &&& find_id(views_of(ready@), id) is None
                    &&& find_id(views_of(waiting@), id) is None
                },
            },
    {
        if let Ok(task) = get_by_id::<ReadyTask>(ready, id) {
            return Ok(Task::Ready(task));
        }
        if let Ok(task) = get_by_id::<WaitingTask>(waiting, id) {
            return Ok(Task::Waiting(task));
        }
        Err(SigoError::TaskNotFound(id))
    }

    /// Issues the smallest positive id that no active task uses.
    pub(crate) fn issue_task_id(ready: &Vec<ReadyTask>, waiting: &Vec<WaitingTask>) -> (r: u32)
        requires
            ready@.len() + waiting@.len() + 1 <= u32::MAX,
        ensures
            is_smallest_free(views_of(ready@), views_of(waiting@), r),
    {
        let ghost rv = views_of(ready@);
        let ghost wv = views_of(waiting@);
        proof {
            lemma_free_id_exists(rv, wv);
        }
        let ghost kfree = choose|k: u32|
            1 <= k <= rv.len() + wv.len() + 1 && !contains_id(rv, k) && !contains_id(wv, k);
        let mut cand: u32 = 1;
        loop
            invariant
                1 <= cand <= kfree,
                rv == views_of(ready@),
                wv == views_of(waiting@),
                !contains_id(rv, kfree) && !contains_id(wv, kfree),
                forall|k: u32| 1 <= k < cand ==> contains_id(rv, k) || contains_id(wv, k),
            decreases kfree - cand,
        {
            if !has_id(ready, cand) && !has_id(waiting, cand) {
                return cand;
            }
            proof {
                assert(cand != kfree);
            }
            cand = cand + 1;
        }
    }
}

impl ReadyTask {
    /// Creates a ready task under the smallest free id, with the given text
    /// as its single description line.  The caller persists it by adding it
    /// to the ready collection.
    pub fn new(
        ready: &Vec<ReadyTask>,
        waiting: &Vec<WaitingTask>,
        description: &str,
        priority: Option<Priority>,
        due: Option<Date>,
    ) -> (r: ReadyTask)
        requires
            ready@.len() + waiting@.len() + 1 <= u32::MAX,
            match due {
                Some(d) => d.valid(),
                None => true,
            },
        ensures
            is_smallest_free(views_of(ready@), views_of(waiting@), r@.id),
            r@.priority == priority,
            r@.due == due,
            r@.description == seq![description@],
            r@.wf(),
    {
        let id = Task::issue_task_id(ready, waiting);
        let mut lines: Vec<String> = Vec::new();
        lines.push(description.to_owned());
        let r = ReadyTask {
            active_params: ActiveParams { id, description: lines, priority, due },
        };
        proof {
            assert(r@.description =~= seq![description@]);
        }
        r
    }

    /// Takes the task out of the ready collection and puts it, payload
    /// unchanged, into the waiting collection; supplied text is appended as a new
    /// description line.  Supplied empty text counts as supplied and appends
    /// an empty line; only absent text appends nothing.  Returns the waiting
    /// task as the collection now holds it.
    pub fn wait(
        self,
        ready: &mut Vec<ReadyTask>,
        waiting: &mut Vec<WaitingTask>,
        text: &Option<String>,
    ) -> (r: WaitingTask)
        ensures
            views_of(final(ready)@) == remove_id(views_of(old(ready)@), self@.id),
            views_of(final(waiting)@) == (match text.deep_view() {
                Some(t) => remove_id(views_of(old(waiting)@), self@.id).push(
                    spec_annotate(self@, t),
                ),
                None => views_of(old(waiting)@).push(self@),
            }),
            r@ == (match text.deep_view() {
                Some(t) => spec_annotate(self@, t),
                None => self@,
            }),
    {
        let ghost sv = self@;
        let id = self.active_params.id;
        delete_by_id::<ReadyTask>(ready, id);
        let task = add_task::<WaitingTask>(waiting, WaitingTask::from_ready(self));
        proof {
            assert(views_of(waiting@) =~= views_of(old(waiting)@).push(sv));
        }
        let ghost midv = views_of(waiting@);
        if let Some(t) = text {
            let r = annotate::<WaitingTask>(&task, waiting, t.as_str());
            proof {
                crate::store::lemma_remove_id_push(views_of(old(waiting)@), id, sv);
                assert(remove_id(midv, id) == remove_id(views_of(old(waiting)@), id));
            }
            r
        } else {
            task
        }
    }
}

impl WaitingTask {
    /// Takes the task out of the waiting collection and puts it, payload
    /// unchanged, back into the ready collection; supplied text is appended
    /// as a new description line.  Supplied empty text counts as supplied and
    /// appends an empty line; only absent text appends nothing.  Returns the
    /// ready task as the collection now holds it.
    pub fn back(
        self,
        ready: &mut Vec<ReadyTask>,
        waiting: &mut Vec<WaitingTask>,
        text: &Option<String>,
    ) -> (r: ReadyTask)
        ensures
            views_of(final(waiting)@) == remove_id(views_of(old(waiting)@), self@.id),
            views_of(final(ready)@) == (match text.deep_view() {
                Some(t) => remove_id(views_of(old(ready)@), self@.id).push(
                    spec_annotate(self@, t),
                ),
                None => views_of(old(ready)@).push(self@),
            }),
            r@ == (match text.deep_view() {
                Some(t) => spec_annotate(self@, t),
                None => self@,
            }),
    {
        let ghost sv = self@;
        let id = self.active_params.id;
        delete_by_id::<WaitingTask>(waiting, id);
        let task = add_task::<ReadyTask>(ready, ReadyTask::from_waiting(self));
        proof {
            assert(views_of(ready@) =~= views_of(old(ready)@).push(sv));
        }
        let ghost midv = views_of(ready@);
        if let Some(t) = text {
            let r = annotate::<ReadyTask>(&task, ready, t.as_str());
            proof {
                crate::store::lemma_remove_id_push(views_of(old(ready)@), id, sv);
                assert(remove_id(midv, id) == remove_id(views_of(old(ready)@), id));
            }
            r
        } else {
            task
        }
    }
}

} // verus!
