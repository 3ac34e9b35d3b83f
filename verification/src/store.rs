//! Collection operations shared by every task kind.
//!
//! Each task kind names the file its collection is stored in and exposes its
//! shared payload; the operations here — add, find by id, delete by id, and
//! the lifecycle steps built on them — are written once over those two
//! capabilities.

use vstd::prelude::*;

use crate::active_params::{spec_annotate, spec_modify, ActiveParams, ParamsV};
use crate::date::Date;
use crate::error::SigoError;
use crate::priority::Priority;
use crate::priority::{priority_rank, rank_of};
use crate::task::{CompletedTask, ReadyTask, WaitingTask};
use vstd::seq_lib::lemma_multiset_commutative;

verus! {

/// The images of a collection's records, in order.
pub open spec fn views_of<T: View>(s: Seq<T>) -> Seq<T::V> {
    s.map_values(|t: T| t@)
}

/// The first record with the given id, if any.
pub open spec fn find_id(s: Seq<ParamsV>, id: u32) -> Option<ParamsV>
    decreases s.len(),
{
    if s.len() == 0 {
        None
    } else if s[0].id == id {
        Some(s[0])
    } else {
        find_id(s.skip(1), id)
    }
}

/// Whether some record carries the given id.
pub open spec fn contains_id(s: Seq<ParamsV>, id: u32) -> bool {
    exists|i: int| 0 <= i < s.len() && s[i].id == id
}

/// The collection without the records of the given id, order kept.
pub open spec fn remove_id(s: Seq<ParamsV>, id: u32) -> Seq<ParamsV> {
    s.filter(|p: ParamsV| p.id != id)
}

/// No two records of one collection share an id.
pub open spec fn unique_ids(s: Seq<ParamsV>) -> bool {
    forall|i: int, j: int| 0 <= i < j < s.len() ==> s[i].id != s[j].id
}

/// No id occurs in both collections.
pub open spec fn disjoint_ids(a: Seq<ParamsV>, b: Seq<ParamsV>) -> bool {
    forall|k: u32| contains_id(a, k) ==> !contains_id(b, k)
}

/// Every record of the collection is well formed.
pub open spec fn all_wf(s: Seq<ParamsV>) -> bool {
    forall|i: int| 0 <= i < s.len() ==> s[i].wf()
}

/// All description lines of a task joined into one summary.
pub open spec fn concat_all(ss: Seq<Seq<char>>) -> Seq<char>
    decreases ss.len(),
{
    if ss.len() == 0 {
        Seq::<char>::empty()
    } else {
        ss[0] + concat_all(ss.skip(1))
    }
}

/// `find_id` returns the record at the first index whose id matches.
pub proof fn lemma_find_id_at(s: Seq<ParamsV>, id: u32, i: int)
    requires
        0 <= i < s.len(),
        s[i].id == id,
        forall|j: int| 0 <= j < i ==> s[j].id != id,
    ensures
        find_id(s, id) == Some(s[i]),
    decreases i,
{
    if i > 0 {
        lemma_find_id_at(s.skip(1), id, i - 1);
    }
}

/// `find_id` finds nothing when no record has the id.
pub proof fn lemma_find_id_none(s: Seq<ParamsV>, id: u32)
    requires
        forall|j: int| 0 <= j < s.len() ==> s[j].id != id,
    ensures
        find_id(s, id) is None,
    decreases s.len(),
{
    if s.len() > 0 {
        lemma_find_id_none(s.skip(1), id);
    }
}

/// What `find_id` returns is a record of the collection carrying the id.
pub proof fn lemma_find_id_is_match(s: Seq<ParamsV>, id: u32)
    requires
        find_id(s, id) is Some,
    ensures
        contains_id(s, id),
        find_id(s, id)->Some_0.id == id,
        exists|i: int| 0 <= i < s.len() && s[i] == find_id(s, id)->Some_0,
    decreases s.len(),
{
    if s.len() > 0 && s[0].id != id {
        lemma_find_id_is_match(s.skip(1), id);
        let p = find_id(s.skip(1), id)->Some_0;
        let i = choose|i: int| 0 <= i < s.skip(1).len() && s.skip(1)[i].id == id;
        assert(s[i + 1].id == id);
        let j = choose|j: int| 0 <= j < s.skip(1).len() && s.skip(1)[j] == p;
        assert(s[j + 1] == p);
    }
}

/// Concatenating one more line appends its text to the summary.
pub proof fn lemma_concat_all_push(ss: Seq<Seq<char>>, t: Seq<char>)
    ensures
        concat_all(ss.push(t)) == concat_all(ss) + t,
    decreases ss.len(),
{
    if ss.len() == 0 {
        assert(ss.push(t).skip(1) =~= Seq::<Seq<char>>::empty());
        assert(ss.push(t)[0] == t);
        assert(concat_all(ss.push(t)) == ss.push(t)[0] + concat_all(ss.push(t).skip(1)));
        assert(concat_all(ss.push(t)) =~= t);
        assert(concat_all(ss) + t =~= t);
    } else {
        assert(ss.push(t).skip(1) =~= ss.skip(1).push(t));
        lemma_concat_all_push(ss.skip(1), t);
        assert(concat_all(ss.push(t)) =~= concat_all(ss) + t);
    }
}

/// What deleting by id leaves: the same records but those of that id; the
/// other ids, their records, uniqueness and well-formedness are untouched.
pub proof fn lemma_remove_id_props(s: Seq<ParamsV>, id: u32)
    ensures
        forall|k: u32| k != id ==> (contains_id(remove_id(s, id), k) <==> contains_id(s, k)),
        !contains_id(remove_id(s, id), id),
        unique_ids(s) ==> unique_ids(remove_id(s, id)),
        all_wf(s) ==> all_wf(remove_id(s, id)),
    decreases s.len(),
{
    reveal(Seq::filter);
    let out = remove_id(s, id);
    if s.len() == 0 {
        assert(forall|k: u32| contains_id(s, k) ==> exists|i: int| 0 <= i < s.len() && s[i].id == k);
    } else {
        let d = s.drop_last();
        let last = s.last();
        lemma_remove_id_props(d, id);
        let dout = remove_id(d, id);
        assert forall|k: u32| k != id && contains_id(out, k) implies contains_id(s, k) by {
            let i = choose|i: int| 0 <= i < out.len() && out[i].id == k;
            if last.id != id {
                if i < out.len() - 1 {
                    assert(dout[i].id == k);
                    assert(contains_id(d, k));
                    let j = choose|j: int| 0 <= j < d.len() && d[j].id == k;
                    assert(s[j].id == k);
                } else {
                    assert(s[s.len() - 1].id == k);
                }
            } else {
                assert(dout[i].id == k);
                assert(contains_id(d, k));
                let j = choose|j: int| 0 <= j < d.len() && d[j].id == k;
                assert(s[j].id == k);
            }
        }
        assert forall|k: u32| k != id && contains_id(s, k) implies contains_id(out, k) by {
            let i = choose|i: int| 0 <= i < s.len() && s[i].id == k;
            if i < s.len() - 1 {
                assert(d[i].id == k);
                assert(contains_id(d, k));
                assert(contains_id(dout, k));
                let j = choose|j: int| 0 <= j < dout.len() && dout[j].id == k;
                assert(out[j].id == k);
            } else {
                assert(last.id == k && k != id);
                assert(out[out.len() - 1].id == k);
            }
        }
        assert forall|i: int| 0 <= i < out.len() implies out[i].id != id by {
            if last.id != id && i == out.len() - 1 {
            } else {
                assert(out[i] == dout[i]);
                assert(!contains_id(dout, id));
                assert(dout[i].id != id);
            }
        }
        if unique_ids(s) {
            assert(forall|i: int| 0 <= i < d.len() ==> d[i] == s[i]);
            assert(unique_ids(d));
            assert forall|i: int, j: int| 0 <= i < j < out.len() implies out[i].id != out[j].id by {
                if last.id != id && j == out.len() - 1 {
                    assert(out[i] == dout[i]);
                    let idk = dout[i].id;
                    assert(contains_id(dout, idk));
                    assert(idk != id);
                    assert(contains_id(d, idk));
                    let m = choose|m: int| 0 <= m < d.len() && d[m].id == dout[i].id;
                    assert(s[m].id == dout[i].id);
                    assert(s[m].id != last.id);
                } else {
                    assert(out[i] == dout[i] && out[j] == dout[j]);
                }
            }
        }
        if all_wf(s) {
            assert(forall|i: int| 0 <= i < d.len() ==> d[i] == s[i]);
            assert(all_wf(d));
            assert forall|i: int| 0 <= i < out.len() implies out[i].wf() by {
                if last.id != id && i == out.len() - 1 {
                } else {
                    assert(out[i] == dout[i]);
                }
            }
        }
    }
}

/// A listing ordered by rank: high priority before medium before low, tasks
/// without a priority last; nothing more is promised about equal ranks.
pub open spec fn sorted_by_rank(s: Seq<ParamsV>) -> bool {
    forall|i: int, j: int|
        0 <= i < j < s.len() ==> priority_rank(s[i].priority) <= priority_rank(s[j].priority)
}

/// Inserting an element anywhere adds exactly that element to the multiset.
proof fn lemma_insert_to_multiset<A>(s: Seq<A>, i: int, x: A)
    requires
        0 <= i <= s.len(),
    ensures
        s.insert(i, x).to_multiset() == s.to_multiset().insert(x),
{
    broadcast use vstd::seq_lib::group_to_multiset_ensures;

    let a = s.subrange(0, i);
    let b = s.subrange(i, s.len() as int);
    assert(s =~= a + b);
    assert(s.insert(i, x) =~= a.push(x) + b);
    lemma_multiset_commutative(a, b);
    lemma_multiset_commutative(a.push(x), b);
    assert(s.insert(i, x).to_multiset() =~= s.to_multiset().insert(x));
}

/// Returns the first position whose record outranks `r`, or the length when
/// none does.
fn insert_pos<T: ActiveFilable>(tasks: &Vec<T>, r: u8) -> (pos: usize)
    ensures
        pos <= tasks.len(),
        forall|k: int|
            0 <= k < pos ==> priority_rank(views_of(tasks@)[k].priority) <= r as int,
        pos < tasks.len() ==> priority_rank(views_of(tasks@)[pos as int].priority) > r as int,
{
    let mut j: usize = 0;
    while j < tasks.len()
        invariant
            j <= tasks.len(),
            forall|k: int|
                0 <= k < j ==> priority_rank(views_of(tasks@)[k].priority) <= r as int,
        decreases tasks.len() - j,
    {
        if rank_of(&(&tasks[j]).params().priority) > r {
            return j;
        }
        j += 1;
    }
    j
}

/// Sorts the collection by priority rank, keeping exactly the same records.
pub fn sort_tasks<T: ActiveFilable>(tasks: &mut Vec<T>)
    ensures
        sorted_by_rank(views_of(final(tasks)@)),
        views_of(final(tasks)@).to_multiset() == views_of(old(tasks)@).to_multiset(),
{
    broadcast use vstd::seq_lib::group_to_multiset_ensures;

    let ghost orig = views_of(tasks@);
    let mut out: Vec<T> = Vec::new();
    let mut i: usize = 0;
    proof {
        assert(views_of(out@) =~= Seq::<ParamsV>::empty());
        assert(orig.take(0) =~= Seq::<ParamsV>::empty());
        assert(views_of(out@).to_multiset() =~= orig.take(0).to_multiset());
    }
    while i < tasks.len()
        invariant
            i <= tasks.len(),
            orig == views_of(tasks@),
            sorted_by_rank(views_of(out@)),
            views_of(out@).to_multiset() == orig.take(i as int).to_multiset(),
        decreases tasks.len() - i,
    {
        let ghost outv = views_of(out@);
        let t = (&tasks[i]).clone_record();
        let r = rank_of(&t.params().priority);
        let pos = insert_pos(&out, r);
        out.insert(pos, t);
        proof {
            assert(views_of(out@) =~= outv.insert(pos as int, t@));
            lemma_insert_to_multiset(outv, pos as int, t@);
            assert(t@ == orig[i as int]);
            let prefix = orig.take(i as int);
            prefix.to_multiset_ensures();
            assert(orig.take(i + 1) =~= prefix.push(orig[i as int]));
            assert(prefix.push(orig[i as int]).to_multiset() =~= prefix.to_multiset().insert(
                orig[i as int],
            ));
            assert(views_of(out@).to_multiset() =~= orig.take(i + 1).to_multiset());
            assert forall|a: int, b: int| 0 <= a < b < views_of(out@).len() implies priority_rank(
                views_of(out@)[a].priority,
            ) <= priority_rank(views_of(out@)[b].priority) by {
                outv.insert_ensures(pos as int, t@);
            }
        }
        i += 1;
    }
    proof {
        assert(orig.take(tasks@.len() as int) =~= orig);
    }
    *tasks = out;
}

/// Appending a record adds exactly its id to those in use.
pub proof fn lemma_contains_id_push(s: Seq<ParamsV>, p: ParamsV, k: u32)
    ensures
        contains_id(s.push(p), k) <==> (contains_id(s, k) || p.id == k),
{
    if contains_id(s.push(p), k) {
        let i = choose|i: int| 0 <= i < s.push(p).len() && s.push(p)[i].id == k;
        if i < s.len() {
            assert(s[i].id == k);
        }
    }
    if contains_id(s, k) {
        let i = choose|i: int| 0 <= i < s.len() && s[i].id == k;
        assert(s.push(p)[i].id == k);
    }
    if p.id == k {
        assert(s.push(p)[s.len() as int].id == k);
    }
}

/// Id disjointness of two collections is mutual.
pub proof fn lemma_disjoint_sym(a: Seq<ParamsV>, b: Seq<ParamsV>)
    requires
        disjoint_ids(a, b),
    ensures
        disjoint_ids(b, a),
{
}

/// Replacing the records of one id by a single well-formed record with that
/// id keeps uniqueness, well-formedness, and the set of ids in use.
pub proof fn lemma_update_one_wf(s: Seq<ParamsV>, id: u32, m: ParamsV)
    requires
        unique_ids(s),
        all_wf(s),
        contains_id(s, id),
        m.id == id,
        m.wf(),
    ensures
        unique_ids(remove_id(s, id).push(m)),
        all_wf(remove_id(s, id).push(m)),
        forall|k: u32| contains_id(remove_id(s, id).push(m), k) <==> contains_id(s, k),
{
    lemma_remove_id_props(s, id);
    let rem = remove_id(s, id);
    let out = rem.push(m);
    assert forall|i: int, j: int| 0 <= i < j < out.len() implies out[i].id != out[j].id by {
        if j == out.len() - 1 {
            assert(out[j] == m);
            assert(out[i] == rem[i]);
            if out[i].id == id {
                assert(rem[i].id == id);
                assert(contains_id(rem, id));
            }
        } else {
            assert(out[i] == rem[i] && out[j] == rem[j]);
        }
    }
    assert forall|i: int| 0 <= i < out.len() implies out[i].wf() by {
        if i < out.len() - 1 {
            assert(out[i] == rem[i]);
        }
    }
    assert forall|k: u32| contains_id(out, k) <==> contains_id(s, k) by {
        lemma_contains_id_push(rem, m, k);
    }
}

/// Mathematical image of [`Store`]: the three collections as sequences of
/// record images.
#[verifier::ext_equal]
pub struct StoreV {
    pub ready: Seq<ParamsV>,
    pub waiting: Seq<ParamsV>,
    pub completed: Seq<Seq<char>>,
}

impl StoreV {
    /// The store invariant: within each active collection every id occurs
    /// once, no id occurs in both, and every record is well formed.
    pub open spec fn wf(self) -> bool {
        &&& unique_ids(self.ready)
        &&& unique_ids(self.waiting)
        &&& disjoint_ids(self.ready, self.waiting)
        &&& all_wf(self.ready)
        &&& all_wf(self.waiting)
    }
}

/// The in-memory image of the data directory: one vector per collection.
/// Callers fill it from the collection files and write changed collections
/// back after an operation.
#[derive(Debug, PartialEq, Eq)]
pub struct Store {
    pub ready: Vec<ReadyTask>,
    pub waiting: Vec<WaitingTask>,
    pub completed: Vec<CompletedTask>,
}

impl View for Store {
    type V = StoreV;

    open spec fn view(&self) -> StoreV {
        StoreV {
            ready: views_of(self.ready@),
            waiting: views_of(self.waiting@),
            completed: views_of(self.completed@),
        }
    }
}

impl Store {
    /// Checks the store invariant, so that an unverified caller can refuse
    /// collections that files outside this tool's control have corrupted.
    pub fn check_wf(&self) -> (r: bool)
        ensures
            r == self@.wf(),
    {
        check_unique(&self.ready) && check_unique(&self.waiting) && check_disjoint(
            &self.ready,
            &self.waiting,
        ) && check_all_wf(&self.ready) && check_all_wf(&self.waiting)
    }
}

/// Checks that no two records of the collection share an id.
fn check_unique<T: ActiveFilable>(tasks: &Vec<T>) -> (r: bool)
    ensures
        r == unique_ids(views_of(tasks@)),
{
    let ghost s = views_of(tasks@);
    let mut i: usize = 0;
    while i < tasks.len()
        invariant
            i <= tasks.len(),
            s == views_of(tasks@),
            forall|a: int, b: int| 0 <= a < b < i ==> s[a].id != s[b].id,
        decreases tasks.len() - i,
    {
        let mut j: usize = 0;
        while j < i
            invariant
                j <= i < tasks.len(),
                s == views_of(tasks@),
                forall|b: int| 0 <= b < j ==> s[b].id != s[i as int].id,
            decreases i - j,
        {
            if tasks[j].get_id() == tasks[i].get_id() {
                proof {
                    assert(s[j as int].id == s[i as int].id);
                    assert(!unique_ids(s));
                }
                return false;
            }
            j += 1;
        }
        i += 1;
    }
    true
}

/// Checks that no id occurs in both collections.
fn check_disjoint(a: &Vec<ReadyTask>, b: &Vec<WaitingTask>) -> (r: bool)
    ensures
        r == disjoint_ids(views_of(a@), views_of(b@)),
{
    let ghost av = views_of(a@);
    let ghost bv = views_of(b@);
    let mut i: usize = 0;
    while i < a.len()
        invariant
            i <= a.len(),
            av == views_of(a@),
            bv == views_of(b@),
            forall|x: int| 0 <= x < i ==> !contains_id(bv, av[x].id),
        decreases a.len() - i,
    {
        if has_id(b, a[i].get_id()) {
            proof {
                assert(contains_id(av, av[i as int].id));
            }
            return false;
        }
        i += 1;
    }
    proof {
        assert forall|k: u32| contains_id(av, k) implies !contains_id(bv, k) by {
            let x = choose|x: int| 0 <= x < av.len() && av[x].id == k;
            assert(!contains_id(bv, av[x].id));
        }
    }
    true
}

/// Checks that every record of the collection is well formed.
fn check_all_wf<T: ActiveFilable>(tasks: &Vec<T>) -> (r: bool)
    ensures
        r == all_wf(views_of(tasks@)),
{
    let ghost s = views_of(tasks@);
    let mut i: usize = 0;
    while i < tasks.len()
        invariant
            i <= tasks.len(),
            s == views_of(tasks@),
            forall|j: int| 0 <= j < i ==> s[j].wf(),
        decreases tasks.len() - i,
    {
        let p = (&tasks[i]).params();
        let due_ok = match p.due {
            Some(d) => d.year <= 9999 && 1 <= d.month && d.month <= 12 && 1 <= d.day && d.day
                <= 31,
            None => true,
        };
        if !(p.id >= 1 && p.description.len() >= 1 && due_ok) {
            proof {
                assert(p@ == s[i as int]);
                assert(!s[i as int].wf());
            }
            return false;
        }
        i += 1;
    }
    true
}

/// Copies a collection record for record.
pub fn clone_tasks<T: Filable>(tasks: &Vec<T>) -> (r: Vec<T>)
    ensures
        views_of(r@) == views_of(tasks@),
{
    let mut r: Vec<T> = Vec::new();
    let mut i: usize = 0;
    while i < tasks.len()
        invariant
            i <= tasks.len(),
            r@.len() == i,
            forall|j: int| 0 <= j < i ==> r@[j]@ == tasks@[j]@,
        decreases tasks.len() - i,
    {
        r.push((&tasks[i]).clone_record());
        i += 1;
    }
    proof {
        assert(views_of(r@) =~= views_of(tasks@));
    }
    r
}

/// A record kind that is persisted: it names its collection file and can be
/// copied record for record.
pub trait Filable: Sized + View {
    /// The name of the file its collection is stored in.
    spec fn spec_filename() -> Seq<char>;

    /// Returns the name of the file its collection is stored in.
    fn get_filename() -> (r: String)
        ensures
            r@ == Self::spec_filename(),
    ;

    /// Returns a copy of the record with the same image.
    fn clone_record(&self) -> (r: Self)
        ensures
            r@ == self@,
    ;
}

/// An active record kind — ready or waiting — addressed by id and carrying
/// the shared payload.
pub trait ActiveFilable: Filable + View<V = ParamsV> {
    /// Read access to the shared payload.
    fn params(&self) -> (r: &ActiveParams)
        ensures
            r@ == self@,
    ;

    /// Builds a record of this kind around a payload.
    fn from_params(params: ActiveParams) -> (r: Self)
        ensures
            r@ == params@,
    ;

    /// Returns the task's id.
    fn get_id(&self) -> (r: u32)
        ensures
            r == self@.id,
    ;

    /// Returns a copy of the task's description lines.
    fn get_description(&self) -> (r: Vec<String>)
        ensures
            r.deep_view() == self@.description,
    ;

    /// Returns the task with `text` appended as a new description line.
    fn add_annotation(&self, text: &str) -> (r: Self)
        ensures
            r@ == spec_annotate(self@, text@),
    ;

    /// Returns the task with primary line, priority and due date each
    /// replaced when a new value is supplied and kept otherwise.
    fn modify_params(&self, text: &Option<String>, priority: Option<Priority>, due: Option<
        Date,
    >) -> (r: Self)
        ensures
            r@ == spec_modify(self@, text.deep_view(), priority, due),
    ;

}

/// Removes the task from its collection, archives the concatenation of its
/// description lines, and returns the archived record.
pub fn complete<T: ActiveFilable>(
    task: &T,
    tasks: &mut Vec<T>,
    completed: &mut Vec<CompletedTask>,
) -> (r: CompletedTask)
    ensures
        views_of(final(tasks)@) == remove_id(views_of(old(tasks)@), task@.id),
        views_of(final(completed)@) == views_of(old(completed)@).push(
            concat_all(task@.description),
        ),
        r@ == concat_all(task@.description),
{
    delete_by_id::<T>(tasks, task.get_id());
    let summary = concat_lines(&task.get_description());
    let completed_task = CompletedTask { summary };
    let r = add_task::<CompletedTask>(completed, completed_task);
    proof {
        assert(views_of(completed@) =~= views_of(old(completed)@).push(
            concat_all(task@.description),
        ));
    }
    r
}

/// Replaces the task's record with one that has `text` appended as a new
/// description line, and returns the new record.
pub fn annotate<T: ActiveFilable>(task: &T, tasks: &mut Vec<T>, text: &str) -> (r: T)
    ensures
        views_of(final(tasks)@) == remove_id(views_of(old(tasks)@), task@.id).push(
            spec_annotate(task@, text@),
        ),
        r@ == spec_annotate(task@, text@),
{
    delete_by_id::<T>(tasks, task.get_id());
    let annotated_task = task.add_annotation(text);
    let r = add_task::<T>(tasks, annotated_task);
    proof {
        assert(views_of(tasks@) =~= remove_id(views_of(old(tasks)@), task@.id).push(
            spec_annotate(task@, text@),
        ));
    }
    r
}

/// Replaces the task's record with the modified one, and returns it.
pub fn modify<T: ActiveFilable>(
    task: &T,
    tasks: &mut Vec<T>,
    text: &Option<String>,
    priority: Option<Priority>,
    due: Option<Date>,
) -> (r: T)
    ensures
        views_of(final(tasks)@) == remove_id(views_of(old(tasks)@), task@.id).push(
            spec_modify(task@, text.deep_view(), priority, due),
        ),
        r@ == spec_modify(task@, text.deep_view(), priority, due),
{
    delete_by_id::<T>(tasks, task.get_id());
    let modified_task = task.modify_params(text, priority, due);
    let r = add_task::<T>(tasks, modified_task);
    proof {
        assert(views_of(tasks@) =~= remove_id(views_of(old(tasks)@), task@.id).push(
            spec_modify(task@, text.deep_view(), priority, due),
        ));
    }
    r
}

/// Joins description lines into one summary string.
fn concat_lines(v: &Vec<String>) -> (r: String)
    ensures
        r@ == concat_all(v.deep_view()),
{
    let mut r = String::new();
    let mut i: usize = 0;
    proof {
        assert(v.deep_view().take(0) =~= Seq::<Seq<char>>::empty());
    }
    while i < v.len()
        invariant
            i <= v.len(),
            r@ == concat_all(v.deep_view().take(i as int)),
        decreases v.len() - i,
    {
        proof {
            assert(v.deep_view().take(i + 1) =~= v.deep_view().take(i as int).push(v@[i as int]@));
            lemma_concat_all_push(v.deep_view().take(i as int), v@[i as int]@);
        }
        r.append(v[i].as_str());
        i += 1;
    }
    proof {
        assert(v.deep_view().take(v@.len() as int) =~= v.deep_view());
    }
    r
}

/// Reports whether the collection holds a record with the given id.
pub fn has_id<T: ActiveFilable>(tasks: &Vec<T>, id: u32) -> (r: bool)
    ensures
        r == contains_id(views_of(tasks@), id),
{
    let ghost s = views_of(tasks@);
    let mut i: usize = 0;
    while i < tasks.len()
        invariant
            i <= tasks.len(),
            s == views_of(tasks@),
            forall|j: int| 0 <= j < i ==> s[j].id != id,
        decreases tasks.len() - i,
    {
        if tasks[i].get_id() == id {
            proof {
                assert(s[i as int].id == id);
            }
            return true;
        }
        i += 1;
    }
    false
}

/// Removing an id that no record carries leaves the collection unchanged.
pub proof fn lemma_remove_id_absent(s: Seq<ParamsV>, id: u32)
    requires
        !contains_id(s, id),
    ensures
        remove_id(s, id) == s,
    decreases s.len(),
{
    reveal(Seq::filter);
    if s.len() > 0 {
        assert(forall|j: int| 0 <= j < s.drop_last().len() ==> s.drop_last()[j] == s[j]);
        lemma_remove_id_absent(s.drop_last(), id);
        assert(s[s.len() - 1].id != id);
        assert(remove_id(s, id) =~= s);
    } else {
        assert(remove_id(s, id) =~= s);
    }
}

/// Removing an id keeps every record, in order, whose id differs.
pub proof fn lemma_remove_id_push(s: Seq<ParamsV>, id: u32, p: ParamsV)
    ensures
        remove_id(s.push(p), id) == if p.id != id {
            remove_id(s, id).push(p)
        } else {
            remove_id(s, id)
        },
{
    reveal(Seq::filter);
    assert(s.push(p).drop_last() =~= s);
}

/// Appends a record to its collection and returns a copy of it.
pub fn add_task<T: Filable>(tasks: &mut Vec<T>, task: T) -> (r: T)
    ensures
        final(tasks)@ == old(tasks)@.push(task),
        r@ == task@,
{
    let r = task.clone_record();
    tasks.push(task);
    r
}

/// Returns a copy of the first record with the given id, or `TaskNotFound`
/// when the collection has none.
pub fn get_by_id<T: ActiveFilable>(tasks: &Vec<T>, id: u32) -> (r: Result<T, SigoError>)
    ensures
        match r {
            Ok(t) => find_id(views_of(tasks@), id) == Some(t@),
            Err(e) => e == SigoError::TaskNotFound(id) && find_id(views_of(tasks@), id) is None,
        },
{
    let ghost s = views_of(tasks@);
    let mut i: usize = 0;
    while i < tasks.len()
        invariant
            i <= tasks.len(),
            s == views_of(tasks@),
            forall|j: int| 0 <= j < i ==> s[j].id != id,
        decreases tasks.len() - i,
    {
        if tasks[i].get_id() == id {
            proof {
                lemma_find_id_at(s, id, i as int);
            }
            return Ok(tasks[i].clone_record());
        }
        i += 1;
    }
    proof {
        lemma_find_id_none(s, id);
    }
    Err(SigoError::TaskNotFound(id))
}

/// Removes every record with the given id from the collection.
pub fn delete_by_id<T: ActiveFilable>(tasks: &mut Vec<T>, id: u32)
    ensures
        views_of(final(tasks)@) == remove_id(views_of(old(tasks)@), id),
{
    let ghost s = views_of(old(tasks)@);
    let ghost pred = |p: ParamsV| p.id != id;
    let mut kept: Vec<T> = Vec::new();
    let mut i: usize = 0;
    proof {
        reveal(Seq::filter);
        assert(s.take(0) =~= Seq::<ParamsV>::empty());
        assert(views_of(kept@) =~= s.take(0).filter(pred));
    }
    while i < tasks.len()
        invariant
            i <= tasks.len(),
            s == views_of(tasks@),
            views_of(kept@) == s.take(i as int).filter(pred),
            pred == (|p: ParamsV| p.id != id),
        decreases tasks.len() - i,
    {
        proof {
            reveal(Seq::filter);
            assert(s.take(i + 1).drop_last() =~= s.take(i as int));
            assert(s.take(i + 1).last() == s[i as int]);
        }
        if tasks[i].get_id() != id {
            kept.push(tasks[i].clone_record());
            proof {
                assert(views_of(kept@) =~= s.take(i + 1).filter(pred));
            }
        } else {
            proof {
                assert(views_of(kept@) =~= s.take(i + 1).filter(pred));
            }
        }
        i += 1;
    }
    proof {
        assert(s.take(tasks@.len() as int) =~= s);
    }
    *tasks = kept;
}

impl Filable for ReadyTask {
    open spec fn spec_filename() -> Seq<char> {
        "ready_tasks"@
    }

    fn get_filename() -> (r: String)
        ensures
            r@ == Self::spec_filename(),
    {
        String::from_str("ready_tasks")
    }

    fn clone_record(&self) -> (r: Self)
        ensures
            r@ == self@,
    {
        self.clone()
    }
}

impl Filable for WaitingTask {
    open spec fn spec_filename() -> Seq<char> {
        "waiting_tasks"@
    }

    fn get_filename() -> (r: String)
        ensures
            r@ == Self::spec_filename(),
    {
        String::from_str("waiting_tasks")
    }

    fn clone_record(&self) -> (r: Self)
        ensures
            r@ == self@,
    {
        self.clone()
    }
}

impl Filable for CompletedTask {
    open spec fn spec_filename() -> Seq<char> {
        "completed_tasks"@
    }

    fn get_filename() -> (r: String)
        ensures
            r@ == Self::spec_filename(),
    {
        String::from_str("completed_tasks")
    }

    fn clone_record(&self) -> (r: Self)
        ensures
            r@ == self@,
    {
        self.clone()
    }
}

impl ActiveFilable for ReadyTask {
    fn params(&self) -> (r: &ActiveParams)
        ensures
            r@ == self@,
    {
        &self.active_params
    }

    fn from_params(params: ActiveParams) -> (r: Self)
        ensures
            r@ == params@,
    {
        ReadyTask { active_params: params }
    }

    fn get_id(&self) -> (r: u32)
        ensures
            r == self@.id,
    {
        self.active_params.id
    }

    fn get_description(&self) -> (r: Vec<String>)
        ensures
            r.deep_view() == self@.description,
    {
        self.active_params.get_description()
    }

    fn add_annotation(&self, text: &str) -> (r: Self)
        ensures
            r@ == spec_annotate(self@, text@),
    {
        let r = ReadyTask { active_params: self.active_params.annotate_description(text) };
        proof {
            assert(r@ =~= spec_annotate(self@, text@));
        }
        r
    }

    fn modify_params(&self, text: &Option<String>, priority: Option<Priority>, due: Option<
        Date,
    >) -> (r: Self)
        ensures
            r@ == spec_modify(self@, text.deep_view(), priority, due),
    {
        let r = ReadyTask {
            active_params: self
                .active_params
                .modify_description(text)
                .modify_priority(priority)
                .modify_due(due),
        };
        proof {
            assert(r@ =~= spec_modify(self@, text.deep_view(), priority, due));
        }
        r
    }
}

impl ActiveFilable for WaitingTask {
    fn params(&self) -> (r: &ActiveParams)
        ensures
            r@ == self@,
    {
        &self.active_params
    }

    fn from_params(params: ActiveParams) -> (r: Self)
        ensures
            r@ == params@,
    {
        WaitingTask { active_params: params }
    }

    fn get_id(&self) -> (r: u32)
        ensures
            r == self@.id,
    {
        self.active_params.id
    }

    fn get_description(&self) -> (r: Vec<String>)
        ensures
            r.deep_view() == self@.description,
    {
        self.active_params.get_description()
    }

    fn add_annotation(&self, text: &str) -> (r: Self)
        ensures
            r@ == spec_annotate(self@, text@),
    {
        let r = WaitingTask { active_params: self.active_params.annotate_description(text) };
        proof {
            assert(r@ =~= spec_annotate(self@, text@));
        }
        r
    }

    fn modify_params(&self, text: &Option<String>, priority: Option<Priority>, due: Option<
        Date,
    >) -> (r: Self)
        ensures
            r@ == spec_modify(self@, text.deep_view(), priority, due),
    {
        let r = WaitingTask {
            active_params: self
                .active_params
                .modify_description(text)
                .modify_priority(priority)
                .modify_due(due),
        };
        proof {
            assert(r@ =~= spec_modify(self@, text.deep_view(), priority, due));
        }
        r
    }
}

} // verus!
