//! Edits of a task tree along a path of ids. Each edit rebuilds only the spine
//! from the root to its target and shares every other subtree; a path that
//! does not resolve is reported with the first id that is missing.
use crate::clock::now_millis;
use crate::ordered_map::{
    has_key, inserted, key_index, keys_of, lemma_inserted_unique, lemma_key_index, lemma_key_index_found, removed,
    unique_keys,
};
use crate::task::{all_marked, marked_at, same_shape, Task, TaskMap};
use vstd::prelude::*;

verus! {

/// Why an edit of the tree failed.
#[derive(PartialEq, Eq, Structural, Clone, Copy, Debug)]
pub enum TreeError {
    /// The edit needs a path with at least one id.
    EmptyPath,
    /// No task with this id stands where the path expects it.
    NotFound(u128),
}

/// The task that key `k` binds in `m`.
pub open spec fn child(m: TaskMap, k: u128) -> Task {
    m@[key_index(m@, k)].1
}

/// Every id of `path` names a task under the one before it, the first one a
/// task of `m`.
pub open spec fn resolves(m: TaskMap, path: Seq<u128>) -> bool
    decreases path.len(),
{
    path.len() == 0 || (has_key(m@, path[0]) && resolves(child(m, path[0]).subtasks, path.drop_first()))
}

/// The first id of `path` that does not resolve.
pub open spec fn first_missing(m: TaskMap, path: Seq<u128>) -> u128
    decreases path.len(),
{
    if path.len() == 0 || !has_key(m@, path[0]) {
        path[0]
    } else {
        first_missing(child(m, path[0]).subtasks, path.drop_first())
    }
}

/// The task at the end of `path`, which must resolve and not be empty.
pub open spec fn task_at(m: TaskMap, path: Seq<u128>) -> Task
    decreases path.len(),
{
    if path.len() <= 1 {
        child(m, path[0])
    } else {
        task_at(child(m, path[0]).subtasks, path.drop_first())
    }
}

/// `new` is `old` with only the entry at position `i` changed, and not its key.
pub open spec fn replaced_at(old: Seq<(u128, Task)>, new: Seq<(u128, Task)>, i: int) -> bool {
    &&& 0 <= i < old.len()
    &&& new.len() == old.len()
    &&& new[i].0 == old[i].0
    &&& forall|j: int| 0 <= j < old.len() && j != i ==> new[j] == old[j]
}

/// `a` and `b` have the same id, description, tags and contexts.
pub open spec fn same_labels(a: Task, b: Task) -> bool {
    a.id == b.id && a.description == b.description && a.tags == b.tags && a.contexts == b.contexts
}

/// `new` is `old` where the task at `path[0]` was rebuilt with the same labels,
/// completion `done`, and subtasks `subs`.
pub open spec fn spine_step(old: TaskMap, new: TaskMap, path: Seq<u128>) -> bool {
    &&& has_key(old@, path[0])
    &&& replaced_at(old@, new@, key_index(old@, path[0]))
    &&& same_labels(child(new, path[0]), child(old, path[0]))
}

/// `new` is `old` with `task` inserted among the subtasks of the task at
/// `path` (at the top level for an empty path); nothing else changes.
pub open spec fn inserted_at(old: TaskMap, path: Seq<u128>, task: Task, new: TaskMap) -> bool
    decreases path.len(),
{
    if path.len() == 0 {
        new@ == inserted(old@, task.id, task)
    } else {
        &&& spine_step(old, new, path)
        &&& child(new, path[0]).completed == child(old, path[0]).completed
        &&& inserted_at(child(old, path[0]).subtasks, path.drop_first(), task, child(new, path[0]).subtasks)
    }
}

/// As `inserted_at`, and every task on `path` is now open.
pub open spec fn inserted_reopening(old: TaskMap, path: Seq<u128>, task: Task, new: TaskMap) -> bool
    decreases path.len(),
{
    if path.len() == 0 {
        new@ == inserted(old@, task.id, task)
    } else {
        &&& spine_step(old, new, path)
        &&& child(new, path[0]).completed is None
        &&& inserted_reopening(child(old, path[0]).subtasks, path.drop_first(), task, child(new, path[0]).subtasks)
    }
}

/// `new` is `old` without the task at the end of `path` (not empty); nothing
/// else changes.
pub open spec fn removed_at(old: TaskMap, path: Seq<u128>, new: TaskMap) -> bool
    decreases path.len(),
{
    if path.len() <= 1 {
        new@ == removed(old@, path[0])
    } else {
        &&& spine_step(old, new, path)
        &&& child(new, path[0]).completed == child(old, path[0]).completed
        &&& removed_at(child(old, path[0]).subtasks, path.drop_first(), child(new, path[0]).subtasks)
    }
}

/// `new` is `old` with the task at the end of `path` (not empty) replaced by
/// what `modify` makes of it; the tasks above it are rebuilt with the same
/// labels and completion; nothing else changes.
pub open spec fn modified_at<F: Fn(&Task) -> Task>(old: TaskMap, path: Seq<u128>, modify: F, new: TaskMap) -> bool
    decreases path.len(),
{
    &&& has_key(old@, path[0])
    &&& replaced_at(old@, new@, key_index(old@, path[0]))
    &&& if path.len() <= 1 {
        modify.ensures((&child(old, path[0]),), child(new, path[0]))
    } else {
        &&& same_labels(child(new, path[0]), child(old, path[0]))
        &&& child(new, path[0]).completed == child(old, path[0]).completed
        &&& modified_at(child(old, path[0]).subtasks, path.drop_first(), modify, child(new, path[0]).subtasks)
    }
}

/// Every subtask in `s` is completed.
pub open spec fn all_completed(s: Seq<(u128, Task)>) -> bool {
    forall|j: int| 0 <= j < s.len() ==> (#[trigger] s[j]).1.completed is Some
}

/// `new` is `old` with completion flipped at the end of `path` (not empty): the
/// target and everything below it take the flipped state (`Some(now)` or
/// `None`); each task above it on the path becomes completed at `now` if all its
/// subtasks are completed, and open otherwise; nothing else changes.
pub open spec fn flipped_at(old: TaskMap, path: Seq<u128>, now: i64, new: TaskMap) -> bool
    decreases path.len(),
{
    &&& spine_step(old, new, path)
    &&& if path.len() <= 1 {
        &&& same_shape(child(new, path[0]), child(old, path[0]))
        &&& all_marked(
            child(new, path[0]),
            if child(old, path[0]).completed is Some { None } else { Some(now) },
        )
    } else {
        &&& flipped_at(child(old, path[0]).subtasks, path.drop_first(), now, child(new, path[0]).subtasks)
        &&& child(new, path[0]).completed == if all_completed(child(new, path[0]).subtasks@) {
            Some(now)
        } else {
            None::<i64>
        }
    }
}

/// The result of an edit along `path`: `Ok` exactly when the path resolves,
/// and otherwise the first missing id.
pub open spec fn edit_outcome(m: TaskMap, path: Seq<u128>, r: Result<TaskMap, TreeError>) -> bool {
    match r {
        Ok(_) => resolves(m, path),
        Err(e) => !resolves(m, path) && e == TreeError::NotFound(first_missing(m, path)),
    }
}

/// Flipping a top-level task without subtasks toggles that task alone: the
/// other tasks keep their place and state, and the task keeps its id, labels
/// and (empty) subtasks.
pub proof fn lemma_flip_leaf(old: TaskMap, k: u128, now: i64, new: TaskMap)
    requires
        flipped_at(old, seq![k], now, new),
        child(old, k).subtasks@.len() == 0,
    ensures
        replaced_at(old@, new@, key_index(old@, k)),
        same_labels(child(new, k), child(old, k)),
        child(new, k).subtasks@.len() == 0,
        child(new, k).completed is Some <==> child(old, k).completed is None,
{
    assert(keys_of(child(new, k).subtasks@) == keys_of(child(old, k).subtasks@));
    assert(keys_of(child(new, k).subtasks@).len() == child(new, k).subtasks@.len());
}

/// Opening a completed subtask opens its parent: the parent's completion is
/// recomputed from its subtasks, which are then not all completed.
pub proof fn lemma_reopen_child_reopens_parent(old: TaskMap, p: u128, c: u128, now: i64, new: TaskMap)
    requires
        flipped_at(old, seq![p, c], now, new),
        child(child(old, p).subtasks, c).completed is Some,
    ensures
        child(new, p).completed is None,
{
    let path = seq![p, c];
    assert(path[0] == p);
    assert(path.drop_first() =~= seq![c]);
    let olds = child(old, p).subtasks;
    let news = child(new, p).subtasks;
    assert(flipped_at(olds, seq![c], now, news));
    assert(seq![c][0] == c);
    let i = key_index(olds@, c);
    lemma_key_index_found(olds@, c);
    assert(news@[i].0 == c);
    assert(has_key(news@, c));
    lemma_key_index_found(news@, c);
    let j = key_index(news@, c);
    assert(child(news, c).completed is None);
    assert(news@[j].1.completed is None);
    assert(!all_completed(news@));
}

proof fn lemma_prefix(path: Seq<u128>, i: int)
    requires
        2 <= i <= path.len(),
    ensures
        path.subrange(0, i).len() == i,
        path.subrange(0, i)[0] == path[0],
        path.subrange(0, i).drop_first() == path.drop_first().subrange(0, i - 1),
{
    assert(path.subrange(0, i).drop_first() =~= path.drop_first().subrange(0, i - 1));
}

/// Inserting below a path opens the whole path: every prefix of `path` leads
/// to an open task of `new`, and the inserted task stands among the subtasks
/// of the task at the end of the path.
pub proof fn lemma_reopened_path(old: TaskMap, path: Seq<u128>, task: Task, new: TaskMap)
    requires
        path.len() > 0,
        inserted_reopening(old, path, task, new),
    ensures
        resolves(old, path),
        forall|i: int| 1 <= i <= path.len() ==> #[trigger] resolves(new, path.subrange(0, i))
            && task_at(new, path.subrange(0, i)).completed is None,
        task_at(new, path).subtasks@ == inserted(task_at(old, path).subtasks@, task.id, task),
    decreases path.len(),
{
    let p0 = path[0];
    let rest = path.drop_first();
    lemma_key_index_found(old@, p0);
    let idx = key_index(old@, p0);
    assert(new@[idx].0 == p0);
    assert(has_key(new@, p0));
    if rest.len() == 0 {
        assert(path.subrange(0, 1) =~= path);
        assert(inserted_reopening(child(old, p0).subtasks, rest, task, child(new, p0).subtasks));
        assert(resolves(child(old, p0).subtasks, rest));
        assert(resolves(child(new, p0).subtasks, rest));
    } else {
        lemma_reopened_path(child(old, p0).subtasks, rest, task, child(new, p0).subtasks);
        assert forall|i: int| 1 <= i <= path.len() implies #[trigger] resolves(new, path.subrange(0, i))
            && task_at(new, path.subrange(0, i)).completed is None by {
            if i == 1 {
                let q = path.subrange(0, 1);
                assert(q[0] == p0);
                assert(q.drop_first().len() == 0);
                assert(resolves(child(new, p0).subtasks, q.drop_first()));
            } else {
                lemma_prefix(path, i);
                assert(resolves(child(new, p0).subtasks, rest.subrange(0, i - 1)));
            }
        }
    }
}

/// Flipping a task without subtasks, at any depth, toggles its completion and
/// keeps its id, labels and (empty) subtasks.
pub proof fn lemma_flip_leaf_at_depth(old: TaskMap, path: Seq<u128>, now: i64, new: TaskMap)
    requires
        path.len() > 0,
        flipped_at(old, path, now, new),
        resolves(old, path),
        task_at(old, path).subtasks@.len() == 0,
    ensures
        resolves(new, path),
        same_labels(task_at(new, path), task_at(old, path)),
        task_at(new, path).subtasks@.len() == 0,
        task_at(new, path).completed is Some <==> task_at(old, path).completed is None,
    decreases path.len(),
{
    let p0 = path[0];
    let rest = path.drop_first();
    lemma_key_index_found(old@, p0);
    let idx = key_index(old@, p0);
    assert(new@[idx].0 == p0);
    assert(has_key(new@, p0));
    if rest.len() == 0 {
        assert(resolves(child(new, p0).subtasks, rest));
        lemma_flip_leaf(old, p0, now, new);
        assert(path =~= seq![p0]);
    } else {
        lemma_flip_leaf_at_depth(child(old, p0).subtasks, rest, now, child(new, p0).subtasks);
    }
}

/// Completing a task and then opening one of its subtasks leaves that subtask
/// open and the task open again: the first flip completes every subtask, the
/// second opens the subtask and recomputes the task from its subtasks.
pub proof fn lemma_complete_then_reopen(
    tasks: TaskMap,
    p: u128,
    c: u128,
    now1: i64,
    done: TaskMap,
    now2: i64,
    reopened: TaskMap,
)
    requires
        flipped_at(tasks, seq![p], now1, done),
        child(tasks, p).completed is None,
        has_key(child(done, p).subtasks@, c),
        flipped_at(done, seq![p, c], now2, reopened),
    ensures
        child(child(done, p).subtasks, c).completed is Some,
        child(child(reopened, p).subtasks, c).completed is None,
        child(reopened, p).completed is None,
{
    reveal_with_fuel(all_marked, 3);
    let t = child(done, p);
    assert(all_marked(t, Some(now1)));
    let j = key_index(t.subtasks@, c);
    lemma_key_index_found(t.subtasks@, c);
    assert(t.subtasks@[j] == t.subtasks@[j]);
    assert(t.subtasks@[j].1.completed == Some(now1));
    lemma_reopen_child_reopens_parent(done, p, c, now2, reopened);
    let path = seq![p, c];
    assert(path.drop_first() =~= seq![c]);
    assert(flipped_at(t.subtasks, seq![c], now2, child(reopened, p).subtasks));
    assert(seq![c][0] == c);
}

proof fn lemma_suffix(path: Seq<u128>, from: int)
    requires
        0 <= from < path.len(),
    ensures
        path.subrange(from, path.len() as int)[0] == path[from],
        path.subrange(from, path.len() as int).drop_first() == path.subrange(from + 1, path.len() as int),
{
    assert(path.subrange(from, path.len() as int).drop_first() =~= path.subrange(from + 1, path.len() as int));
}

fn rebuilt(t: &Task, completed: Option<i64>, subtasks: TaskMap) -> (r: Task)
    ensures
        same_labels(r, *t),
        r.completed == completed,
        r.subtasks == subtasks,
{
    Task {
        id: t.id,
        description: t.description.clone(),
        tags: t.tags.clone(),
        contexts: t.contexts.clone(),
        completed,
        subtasks,
    }
}

proof fn lemma_spine(old: TaskMap, k: u128, t: Task, new: TaskMap)
    requires
        unique_keys(old@),
        has_key(old@, k),
        new@ == inserted(old@, k, t),
    ensures
        replaced_at(old@, new@, key_index(old@, k)),
        has_key(new@, k),
        key_index(new@, k) == key_index(old@, k),
        child(new, k) == t,
{
    lemma_key_index_found(old@, k);
    lemma_inserted_unique(old@, k, t);
    let i = key_index(old@, k);
    assert(new@[i].0 == k);
    lemma_key_index(new@, k, i);
}

fn insert_from(tasks: &TaskMap, path: &[u128], from: usize, task: Task, reopen: bool) -> (r: Result<TaskMap, TreeError>)
    requires
        from <= path@.len(),
    ensures
        edit_outcome(*tasks, path@.subrange(from as int, path@.len() as int), r),
        r is Ok && !reopen ==> inserted_at(*tasks, path@.subrange(from as int, path@.len() as int), task, r->Ok_0),
        r is Ok && reopen ==> inserted_reopening(*tasks, path@.subrange(from as int, path@.len() as int), task, r->Ok_0),
    decreases path@.len() - from,
{
    let ghost rest = path@.subrange(from as int, path@.len() as int);
    if from == path.len() {
        assert(rest.len() == 0);
        let key = task.id;
        return Ok(tasks.insert(key, task));
    }
    proof { lemma_suffix(path@, from as int); }
    let id = path[from];
    match tasks.get(&id) {
        None => Err(TreeError::NotFound(id)),
        Some(cur) => {
            match insert_from(&cur.subtasks, path, from + 1, task, reopen) {
                Err(e) => Err(e),
                Ok(subs) => {
                    let completed = if reopen { None } else { cur.completed };
                    let nt = rebuilt(cur, completed, subs);
                    tasks.note_unique();
                    let r = tasks.insert(id, nt);
                    proof { lemma_spine(*tasks, id, nt, r); }
                    Ok(r)
                },
            }
        },
    }
}

fn remove_from(tasks: &TaskMap, path: &[u128], from: usize) -> (r: Result<TaskMap, TreeError>)
    requires
        from < path@.len(),
    ensures
        edit_outcome(*tasks, path@.subrange(from as int, path@.len() as int), r),
        r is Ok ==> removed_at(*tasks, path@.subrange(from as int, path@.len() as int), r->Ok_0),
    decreases path@.len() - from,
{
    let ghost rest = path@.subrange(from as int, path@.len() as int);
    proof { lemma_suffix(path@, from as int); }
    let id = path[from];
    match tasks.get(&id) {
        None => Err(TreeError::NotFound(id)),
        Some(cur) => {
            if from + 1 == path.len() {
                assert(rest.drop_first().len() == 0);
                assert(resolves(cur.subtasks, rest.drop_first()));
                Ok(tasks.remove(&id))
            } else {
                match remove_from(&cur.subtasks, path, from + 1) {
                    Err(e) => Err(e),
                    Ok(subs) => {
                        let nt = rebuilt(cur, cur.completed, subs);
                        tasks.note_unique();
                        let r = tasks.insert(id, nt);
                        proof { lemma_spine(*tasks, id, nt, r); }
                        Ok(r)
                    },
                }
            }
        },
    }
}

/// Whether every subtask in `m` is completed.
fn all_done(m: &TaskMap) -> (r: bool)
    ensures
        r == all_completed(m@),
{
    let n = m.len();
    let mut i: usize = 0;
    while i < n
        invariant
            n == m@.len(),
            i <= n,
            forall|j: int| 0 <= j < i ==> (#[trigger] m@[j]).1.completed is Some,
        decreases n - i,
    {
        if m.value_at(i).completed.is_none() {
            return false;
        }
        i = i + 1;
    }
    true
}

fn flip_from(tasks: &TaskMap, path: &[u128], from: usize, now: i64) -> (r: Result<TaskMap, TreeError>)
    requires
        from < path@.len(),
    ensures
        edit_outcome(*tasks, path@.subrange(from as int, path@.len() as int), r),
        r is Ok ==> flipped_at(*tasks, path@.subrange(from as int, path@.len() as int), now, r->Ok_0),
    decreases path@.len() - from,
{
    let ghost rest = path@.subrange(from as int, path@.len() as int);
    proof { lemma_suffix(path@, from as int); }
    let id = path[from];
    match tasks.get(&id) {
        None => Err(TreeError::NotFound(id)),
        Some(cur) => {
            let nt = if from + 1 == path.len() {
                assert(rest.drop_first().len() == 0);
                assert(resolves(cur.subtasks, rest.drop_first()));
                let state = if cur.completed.is_some() { None } else { Some(now) };
                cur.with_subtree_completion(state)
            } else {
                match flip_from(&cur.subtasks, path, from + 1, now) {
                    Err(e) => return Err(e),
                    Ok(subs) => {
                        let state = if all_done(&subs) { Some(now) } else { None };
                        rebuilt(cur, state, subs)
                    },
                }
            };
            tasks.note_unique();
            let r = tasks.insert(id, nt);
            proof { lemma_spine(*tasks, id, nt, r); }
            Ok(r)
        },
    }
}

fn modify_from<F: Fn(&Task) -> Task>(tasks: &TaskMap, path: &[u128], from: usize, modify: &F) -> (r: Result<
    TaskMap,
    TreeError,
>)
    requires
        from < path@.len(),
        forall|t: &Task| modify.requires((t,)),
    ensures
        edit_outcome(*tasks, path@.subrange(from as int, path@.len() as int), r),
        r is Ok ==> modified_at(*tasks, path@.subrange(from as int, path@.len() as int), *modify, r->Ok_0),
    decreases path@.len() - from,
{
    let ghost rest = path@.subrange(from as int, path@.len() as int);
    proof { lemma_suffix(path@, from as int); }
    let id = path[from];
    match tasks.get(&id) {
        None => Err(TreeError::NotFound(id)),
        Some(cur) => {
            let nt = if from + 1 == path.len() {
                assert(rest.drop_first().len() == 0);
                assert(resolves(cur.subtasks, rest.drop_first()));
                modify(cur)
            } else {
                match modify_from(&cur.subtasks, path, from + 1, modify) {
                    Err(e) => return Err(e),
                    Ok(subs) => rebuilt(cur, cur.completed, subs),
                }
            };
            tasks.note_unique();
            let r = tasks.insert(id, nt);
            proof { lemma_spine(*tasks, id, nt, r); }
            Ok(r)
        },
    }
}

/// `tasks` with the task at the end of `path` replaced by `modify` of it (see
/// `modified_at`). Fails on an empty path, and with the first id of `path`
/// that is missing.
pub fn modify_task_at_path<F: Fn(&Task) -> Task>(tasks: &TaskMap, path: &[u128], modify: F) -> (r: Result<
    TaskMap,
    TreeError,
>)
    requires
        forall|t: &Task| modify.requires((t,)),
    ensures
        path@.len() == 0 ==> r == Err::<TaskMap, TreeError>(TreeError::EmptyPath),
        path@.len() > 0 ==> edit_outcome(*tasks, path@, r),
        r is Ok ==> modified_at(*tasks, path@, modify, r->Ok_0),
{
    if path.len() == 0 {
        return Err(TreeError::EmptyPath);
    }
    assert(path@.subrange(0, path@.len() as int) =~= path@);
    modify_from(tasks, path, 0, &modify)
}

/// `tasks` with `task` added under the task at `path`, or at the top level
/// when `path` is empty. Fails with the first id of `path` that is missing.
pub fn insert_task_at_path(tasks: &TaskMap, path: &[u128], task: Task) -> (r: Result<TaskMap, TreeError>)
    ensures
        edit_outcome(*tasks, path@, r),
        r is Ok ==> inserted_at(*tasks, path@, task, r->Ok_0),
{
    assert(path@.subrange(0, path@.len() as int) =~= path@);
    insert_from(tasks, path, 0, task, false)
}

/// `tasks` with `task` added under the task at `path` (at the top level when
/// `path` is empty), and every task on `path` open again: the tree above a
/// new task is no longer all done. Fails with the first id of `path` that is
/// missing.
pub fn insert_task_and_uncomplete_parents(tasks: &TaskMap, path: &[u128], task: Task) -> (r: Result<
    TaskMap,
    TreeError,
>)
    ensures
        edit_outcome(*tasks, path@, r),
        r is Ok ==> inserted_reopening(*tasks, path@, task, r->Ok_0),
{
    assert(path@.subrange(0, path@.len() as int) =~= path@);
    insert_from(tasks, path, 0, task, true)
}

/// `tasks` without the task at the end of `path`. Fails on an empty path, and
/// with the first id of `path` that is missing.
pub fn remove_task_at_path(tasks: &TaskMap, path: &[u128]) -> (r: Result<TaskMap, TreeError>)
    ensures
        path@.len() == 0 ==> r == Err::<TaskMap, TreeError>(TreeError::EmptyPath),
        path@.len() > 0 ==> edit_outcome(*tasks, path@, r),
        r is Ok ==> removed_at(*tasks, path@, r->Ok_0),
{
    if path.len() == 0 {
        return Err(TreeError::EmptyPath);
    }
    assert(path@.subrange(0, path@.len() as int) =~= path@);
    remove_from(tasks, path, 0)
}

/// `tasks` with completion flipped at the end of `path` at time `now`, and the
/// tasks above it recomputed (see `flipped_at`). Fails on an empty path, and
/// with the first id of `path` that is missing.
pub fn flip_task_at(tasks: &TaskMap, path: &[u128], now: i64) -> (r: Result<TaskMap, TreeError>)
    ensures
        path@.len() == 0 ==> r == Err::<TaskMap, TreeError>(TreeError::EmptyPath),
        path@.len() > 0 ==> edit_outcome(*tasks, path@, r),
        r is Ok ==> flipped_at(*tasks, path@, now, r->Ok_0),
{
    if path.len() == 0 {
        return Err(TreeError::EmptyPath);
    }
    assert(path@.subrange(0, path@.len() as int) =~= path@);
    flip_from(tasks, path, 0, now)
}

/// `flip_task_at` at the current time.
pub fn flip_task_and_update_parents(tasks: &TaskMap, path: &[u128]) -> (r: Result<TaskMap, TreeError>)
    ensures
        path@.len() == 0 ==> r == Err::<TaskMap, TreeError>(TreeError::EmptyPath),
        path@.len() > 0 ==> edit_outcome(*tasks, path@, r),
        r is Ok ==> exists|now: i64| flipped_at(*tasks, path@, now, r->Ok_0),
{
    let now = now_millis();
    flip_task_at(tasks, path, now)
}

} // verus!
