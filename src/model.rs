//! The application state and the operations that produce its next value.
use crate::filter::{same_filter_condition, Filter, FilterCondition};
use crate::form::{jump_target, last_space, trimmed_end, Field};
use crate::message::Direction;
use crate::ordered_map::{has_key, inserted, key_index, PersistentIndexMap};
use crate::task::{Task, TaskMap};
use crate::text::{decimal, decimal_text};
use crate::tree::{
    child, first_missing, flip_task_and_update_parents, flipped_at, insert_task_and_uncomplete_parents,
    inserted_reopening, remove_task_at_path, removed_at, resolves, task_at, TreeError,
};
use crate::visible::{filter_tasks, insert_all, new_selection, path_entries, selection_rel, visible_list};
use vstd::prelude::*;

verus! {

/// Which input overlay is open.
#[derive(PartialEq, Eq, Structural, Clone, Copy, Debug)]
pub enum Overlay {
    AddingSiblingTask,
    AddingChildTask,
    /// The text of a filter is being typed.
    EditingFilter,
    /// No overlay is open.
    Hidden,
}

/// Whether the application runs or is about to quit.
#[derive(PartialEq, Eq, Structural, Clone, Copy, Debug)]
pub enum Mode {
    List,
    Quit,
}

/// The status line: the outcome of the last operation.
#[derive(Clone, Debug, PartialEq, Eq)]
pub enum DisplayMessage {
    Success(String),
    Error(String),
    /// No message.
    Clear,
}

/// `a` and `b` are the same status message.
pub open spec fn same_display(a: DisplayMessage, b: DisplayMessage) -> bool {
    match (a, b) {
        (DisplayMessage::Success(x), DisplayMessage::Success(y)) => x@ == y@,
        (DisplayMessage::Error(x), DisplayMessage::Error(y)) => x@ == y@,
        (DisplayMessage::Clear, DisplayMessage::Clear) => true,
        _ => false,
    }
}

impl DisplayMessage {
    /// The text of the message, if there is one.
    pub fn as_str(&self) -> (r: Option<&str>)
        ensures
            match self {
                DisplayMessage::Success(m) => r is Some && r->Some_0@ == m@,
                DisplayMessage::Error(m) => r is Some && r->Some_0@ == m@,
                DisplayMessage::Clear => r is None,
            },
    {
        match self {
            DisplayMessage::Success(m) => Some(m.as_str()),
            DisplayMessage::Error(m) => Some(m.as_str()),
            DisplayMessage::Clear => None,
        }
    }

    /// A copy of the message.
    pub fn copy(&self) -> (r: DisplayMessage)
        ensures
            same_display(r, *self),
    {
        match self {
            DisplayMessage::Success(m) => DisplayMessage::Success(m.clone()),
            DisplayMessage::Error(m) => DisplayMessage::Error(m.clone()),
            DisplayMessage::Clear => DisplayMessage::Clear,
        }
    }
}

/// The whole state of the application.
#[derive(Debug)]
pub struct Model {
    /// The task tree.
    pub tasks: TaskMap,
    /// The registered filters.
    pub filters: PersistentIndexMap<Filter>,
    pub selected_filter_id: Option<u128>,
    /// The filter in force.
    pub current_filter: FilterCondition,
    /// The visible-set: each visible task's id and path, in pre-order.
    pub filtered_tasks: PersistentIndexMap<Vec<u128>>,
    pub selected_task: Option<u128>,
    pub message: DisplayMessage,
    pub mode: Mode,
    pub overlay: Overlay,
    pub input: Field,
}

/// The visible-set of `m` is the one its tree and filter give.
pub open spec fn visible_ok(m: Model) -> bool {
    path_entries(m.filtered_tasks@) == insert_all(Seq::empty(), visible_list(m.tasks, m.current_filter.condition@))
}

/// `a` and `b` have the same filters, selected filter and filter in force.
pub open spec fn same_filters(a: Model, b: Model) -> bool {
    &&& a.filters@ == b.filters@
    &&& a.selected_filter_id == b.selected_filter_id
    &&& same_filter_condition(a.current_filter, b.current_filter)
}

/// `a` and `b` have the same mode, overlay and input.
pub open spec fn same_view_state(a: Model, b: Model) -> bool {
    &&& a.mode == b.mode
    &&& a.overlay == b.overlay
    &&& a.input.cursor == b.input.cursor
    &&& a.input.text@ == b.input.text@
}

/// `new` is `old` with the task tree `tasks`: the visible-set recomputed, the
/// selection resolved again (preferring `desired`), everything else kept.
pub open spec fn refreshed(old: Model, tasks: TaskMap, desired: Option<u128>, new: Model) -> bool {
    &&& new.tasks == tasks
    &&& same_filters(new, old)
    &&& visible_ok(new)
    &&& selection_rel(old.tasks, new.filtered_tasks@, desired, old.selected_task, new.selected_task)
    &&& same_display(new.message, old.message)
    &&& same_view_state(new, old)
}

/// `new` is `old` with the filter `f` in force (and the selected filter id
/// `id`): the visible-set recomputed and the selection resolved again.
pub open spec fn refiltered(old: Model, f: FilterCondition, id: Option<u128>, new: Model) -> bool {
    &&& new.tasks == old.tasks
    &&& new.filters@ == old.filters@
    &&& new.selected_filter_id == id
    &&& same_filter_condition(new.current_filter, f)
    &&& visible_ok(new)
    &&& selection_rel(old.tasks, new.filtered_tasks@, None, old.selected_task, new.selected_task)
    &&& same_display(new.message, old.message)
    &&& same_view_state(new, old)
}

/// The message for a path that does not resolve at `id`.
pub open spec fn not_found_text(id: u128) -> Seq<char> {
    "Task with ID "@ + decimal(id as nat) + " not found"@
}

/// The message for a failed edit of the tree; `empty` is the one for an empty
/// path.
pub open spec fn tree_error_text(e: TreeError, empty: Seq<char>) -> Seq<char> {
    match e {
        TreeError::EmptyPath => empty,
        TreeError::NotFound(id) => not_found_text(id),
    }
}

/// The message for an unknown filter id.
pub open spec fn filter_not_found_text(id: u128) -> Seq<char> {
    "Filter with ID "@ + decimal(id as nat) + " not found."@
}

fn tree_error_message(e: TreeError, empty: &str) -> (r: String)
    ensures
        r@ == tree_error_text(e, empty@),
{
    match e {
        TreeError::EmptyPath => String::from_str(empty),
        TreeError::NotFound(id) => {
            let r = String::from_str("Task with ID ").concat(decimal_text(id).as_str()).concat(" not found");
            proof {
                reveal_strlit("Task with ID ");
                reveal_strlit(" not found");
            }
            r
        },
    }
}

/// The path of the selected task, if a task is selected and visible.
pub open spec fn selected_path(m: Model) -> Option<Seq<u128>> {
    match m.selected_task {
        Some(id) => if has_key(m.filtered_tasks@, id) {
            Some(m.filtered_tasks@[key_index(m.filtered_tasks@, id)].1@)
        } else {
            None
        },
        None => None,
    }
}

/// `a` and `b` agree on everything but the status message.
pub open spec fn same_but_message(a: Model, b: Model) -> bool {
    &&& a.tasks == b.tasks
    &&& same_filters(a, b)
    &&& a.filtered_tasks@ == b.filtered_tasks@
    &&& a.selected_task == b.selected_task
    &&& same_view_state(a, b)
}

fn prefix_of(v: &Vec<u128>, n: usize) -> (r: Vec<u128>)
    requires
        n <= v@.len(),
    ensures
        r@ == v@.subrange(0, n as int),
{
    let mut r: Vec<u128> = Vec::new();
    let mut i: usize = 0;
    while i < n
        invariant
            n <= v@.len(),
            i <= n,
            r@ == v@.subrange(0, i as int),
        decreases n - i,
    {
        r.push(v[i]);
        i = i + 1;
        assert(r@ =~= v@.subrange(0, i as int));
    }
    r
}

fn task_in<'a>(m: &'a TaskMap, path: &[u128], from: usize) -> (r: Option<&'a Task>)
    requires
        from < path@.len(),
    ensures
        r is Some <==> resolves(*m, path@.subrange(from as int, path@.len() as int)),
        r is Some ==> *r->Some_0 == task_at(*m, path@.subrange(from as int, path@.len() as int)),
    decreases path@.len() - from,
{
    let ghost rest = path@.subrange(from as int, path@.len() as int);
    assert(rest.drop_first() =~= path@.subrange(from + 1, path@.len() as int));
    match m.get(&path[from]) {
        None => None,
        Some(t) => {
            if from + 1 == path.len() {
                assert(resolves(t.subtasks, rest.drop_first()));
                Some(t)
            } else {
                task_in(&t.subtasks, path, from + 1)
            }
        },
    }
}

/// The outcome of `with_sibling_task`: `task` is added beside the selected
/// task and selected, under the selected task's parent (whose ancestors are
/// opened again), or at the top level when the selected task is a top-level
/// task or nothing is selected.
pub open spec fn sibling_rel(m: Model, task: Task, r: Result<Model, String>) -> bool {
    match selected_path(m) {
        Some(p) if p.len() >= 2 => {
            &&& (r is Ok <==> resolves(m.tasks, p.drop_last()))
            &&& r is Ok ==> r->Ok_0.wf() && refreshed(m, r->Ok_0.tasks, Some(task.id), r->Ok_0)
                && inserted_reopening(m.tasks, p.drop_last(), task, r->Ok_0.tasks)
            &&& r is Err ==> r->Err_0@ == not_found_text(first_missing(m.tasks, p.drop_last()))
        },
        _ => {
            &&& r is Ok
            &&& r->Ok_0.wf()
            &&& refreshed(m, r->Ok_0.tasks, Some(task.id), r->Ok_0)
            &&& r->Ok_0.tasks@ == inserted(m.tasks@, task.id, task)
        },
    }
}

/// The outcome of `with_child_task`: `task` is added under the selected task
/// and selected, and the selected task and its ancestors are opened again; an
/// error when nothing is selected.
pub open spec fn child_rel(m: Model, task: Task, r: Result<Model, String>) -> bool {
    match selected_path(m) {
        Some(p) if p.len() > 0 => {
            &&& (r is Ok <==> resolves(m.tasks, p))
            &&& r is Ok ==> r->Ok_0.wf() && refreshed(m, r->Ok_0.tasks, Some(task.id), r->Ok_0)
                && inserted_reopening(m.tasks, p, task, r->Ok_0.tasks)
            &&& r is Err ==> r->Err_0@ == not_found_text(first_missing(m.tasks, p))
        },
        _ => r is Err && r->Err_0@ == "Can't insert a child task with no parent task selected"@,
    }
}

/// The outcome of `with_removed_task`.
pub open spec fn removal_rel(m: Model, path: Seq<u128>, r: Result<Model, String>) -> bool {
    &&& (r is Ok <==> path.len() > 0 && resolves(m.tasks, path))
    &&& r is Ok ==> r->Ok_0.wf() && refreshed(m, r->Ok_0.tasks, None, r->Ok_0) && removed_at(m.tasks, path, r->Ok_0.tasks)
    &&& r is Err ==> r->Err_0@ == (if path.len() == 0 {
        "Path is empty; cannot remove task"@
    } else {
        not_found_text(first_missing(m.tasks, path))
    })
}

/// The outcome of `with_flipped_completion`.
pub open spec fn flip_rel(m: Model, path: Seq<u128>, r: Result<Model, String>) -> bool {
    &&& (r is Ok <==> path.len() > 0 && resolves(m.tasks, path))
    &&& r is Ok ==> r->Ok_0.wf() && refreshed(m, r->Ok_0.tasks, None, r->Ok_0)
        && exists|now: i64| flipped_at(m.tasks, path, now, r->Ok_0.tasks)
    &&& r is Err ==> r->Err_0@ == (if path.len() == 0 {
        "Path is empty; cannot flip task completion"@
    } else {
        not_found_text(first_missing(m.tasks, path))
    })
}

/// The outcome of `with_filter_select`.
pub open spec fn select_rel(m: Model, filter_id: u128, r: Result<Model, String>) -> bool {
    &&& (r is Ok <==> has_key(m.filters@, filter_id))
    &&& r is Ok ==> r->Ok_0.wf() && refiltered(
        m,
        m.filters@[key_index(m.filters@, filter_id)].1.filter_condition,
        Some(filter_id),
        r->Ok_0,
    )
    &&& r is Err ==> r->Err_0@ == filter_not_found_text(filter_id)
}

/// The outcome of `with_filter`: `filter` is registered, replacing a filter of
/// the same id; nothing else changes.
pub open spec fn filter_added(m: Model, filter: Filter, r: Model) -> bool {
    &&& r.filters@ == inserted(m.filters@, filter.id, filter)
    &&& r.tasks == m.tasks
    &&& r.selected_filter_id == m.selected_filter_id
    &&& same_filter_condition(r.current_filter, m.current_filter)
    &&& r.filtered_tasks@ == m.filtered_tasks@
    &&& r.selected_task == m.selected_task
    &&& same_display(r.message, m.message)
    &&& same_view_state(r, m)
}

/// The outcome of `with_selection_moved`.
pub open spec fn moved_rel(m: Model, d: Direction, r: Model) -> bool {
    &&& r.tasks == m.tasks
    &&& r.filtered_tasks@ == m.filtered_tasks@
    &&& same_filters(r, m)
    &&& same_display(r.message, m.message)
    &&& same_view_state(r, m)
    &&& m.filtered_tasks@.len() == 0 ==> r.selected_task == m.selected_task
    &&& m.filtered_tasks@.len() > 0 ==> r.selected_task == Some(m.filtered_tasks@[moved_index(
        m.filtered_tasks@.len() as int,
        match m.selected_task {
            Some(id) => Some(key_index(m.filtered_tasks@, id)),
            None => None,
        },
        d,
    )].0)
}

/// `a` and `b` agree on everything but the input field.
pub open spec fn same_but_input(a: Model, b: Model) -> bool {
    &&& a.tasks == b.tasks
    &&& same_filters(a, b)
    &&& a.filtered_tasks@ == b.filtered_tasks@
    &&& a.selected_task == b.selected_task
    &&& same_display(a.message, b.message)
    &&& a.mode == b.mode
    &&& a.overlay == b.overlay
}

/// `a` and `b` hold the same state.
pub open spec fn same_model(a: Model, b: Model) -> bool {
    same_but_message(a, b) && same_display(a.message, b.message)
}

/// The position of the selection after moving it one step in `d` through a
/// list of `n` entries, from position `i` (`None`: nothing selected). The
/// selection wraps around at both ends.
pub open spec fn moved_index(n: int, i: Option<int>, d: Direction) -> int {
    match i {
        None => if d == Direction::Up { n - 1 } else { 0 },
        Some(k) => match d {
            Direction::Up => if k == 0 { n - 1 } else { k - 1 },
            Direction::Down => if k == n - 1 { 0 } else { k + 1 },
        },
    }
}

impl Model {
    /// The state's invariant: the visible-set matches the tree and filter, and
    /// the selection, if any, is visible.
    pub open spec fn wf(&self) -> bool {
        &&& visible_ok(*self)
        &&& (self.selected_task is Some ==> has_key(self.filtered_tasks@, self.selected_task->Some_0))
        &&& self.input.wf()
    }

    /// An empty state with one filter, "default", that shows every task.
    pub fn new() -> (r: Model)
        ensures
            r.wf(),
            r.tasks@.len() == 0,
            r.filters@.len() == 1,
            r.selected_filter_id == Some(r.filters@[0].0),
            r.filters@[0].1.name@ == "default"@,
            r.filters@[0].1.filter_condition.expression@.len() == 0,
            r.filters@[0].1.filter_condition.condition@ == crate::filter::Cond::AlwaysTrue,
            r.current_filter.condition@ == crate::filter::Cond::AlwaysTrue,
            r.current_filter.expression@.len() == 0,
            r.selected_task is None,
            r.message == DisplayMessage::Clear,
            r.mode == Mode::List,
            r.overlay == Overlay::Hidden,
            r.input.text@.len() == 0 && r.input.cursor == 0,
            r.filtered_tasks@.len() == 0,
    {
        proof { reveal_strlit("default"); }
        let always = FilterCondition { expression: String::new(), condition: crate::filter::Condition::AlwaysTrue };
        let default_filter = Filter::new("default", always.share());
        let default_id = default_filter.id;
        let filters = PersistentIndexMap::new().insert(default_id, default_filter);
        let tasks = TaskMap::new();
        let filtered_tasks = filter_tasks(&tasks, &always.condition);
        proof {
            assert(visible_list(tasks, always.condition@) =~= Seq::empty());
            assert(insert_all(Seq::<(u128, Seq<u128>)>::empty(), Seq::empty()) == Seq::<(u128, Seq<u128>)>::empty());
        }
        Model {
            tasks,
            filters,
            selected_filter_id: Some(default_id),
            current_filter: always,
            filtered_tasks,
            selected_task: None,
            message: DisplayMessage::Clear,
            mode: Mode::List,
            overlay: Overlay::Hidden,
            input: Field::new(),
        }
    }

    /// The state with a new task tree, its visible-set, and the selection
    /// resolved again, preferring `desired_task_id`.
    pub fn with_tasks(&self, tasks: TaskMap, desired_task_id: Option<u128>) -> (r: Model)
        requires
            self.wf(),
        ensures
            r.wf(),
            refreshed(*self, tasks, desired_task_id, r),
    {
        let filtered_tasks = filter_tasks(&tasks, &self.current_filter.condition);
        let selected_task = new_selection(&self.tasks, &filtered_tasks, desired_task_id, self.selected_task);
        Model {
            tasks,
            filters: self.filters.share(),
            selected_filter_id: self.selected_filter_id,
            current_filter: self.current_filter.share(),
            filtered_tasks,
            selected_task,
            message: self.message.copy(),
            mode: self.mode,
            overlay: self.overlay,
            input: self.input.copy(),
        }
    }

    fn with_current_filter(&self, current_filter: FilterCondition, selected_filter_id: Option<u128>) -> (r: Model)
        requires
            self.wf(),
        ensures
            r.wf(),
            refiltered(*self, current_filter, selected_filter_id, r),
    {
        let filtered_tasks = filter_tasks(&self.tasks, &current_filter.condition);
        let selected_task = new_selection(&self.tasks, &filtered_tasks, None, self.selected_task);
        Model {
            tasks: self.tasks.share(),
            filters: self.filters.share(),
            selected_filter_id,
            current_filter,
            filtered_tasks,
            selected_task,
            message: self.message.copy(),
            mode: self.mode,
            overlay: self.overlay,
            input: self.input.copy(),
        }
    }

    /// The state with completion flipped at `path` (see `flipped_at`), or the
    /// reason it could not be.
    pub fn with_flipped_completion(&self, path: &[u128]) -> (r: Result<Model, String>)
        requires
            self.wf(),
        ensures
            flip_rel(*self, path@, r),
    {
        match flip_task_and_update_parents(&self.tasks, path) {
            Ok(tasks) => Ok(self.with_tasks(tasks, None)),
            Err(e) => {
                proof { reveal_strlit("Path is empty; cannot flip task completion"); }
                Err(tree_error_message(e, "Path is empty; cannot flip task completion"))
            },
        }
    }

    /// The state without the task at `path`, or the reason it could not be
    /// removed.
    pub fn with_removed_task(&self, path: &[u128]) -> (r: Result<Model, String>)
        requires
            self.wf(),
        ensures
            removal_rel(*self, path@, r),
    {
        match remove_task_at_path(&self.tasks, path) {
            Ok(tasks) => Ok(self.with_tasks(tasks, None)),
            Err(e) => {
                proof { reveal_strlit("Path is empty; cannot remove task"); }
                Err(tree_error_message(e, "Path is empty; cannot remove task"))
            },
        }
    }

    /// The path of the selected task, if a task is selected.
    pub fn get_path(&self) -> (r: Option<&Vec<u128>>)
        ensures
            self.selected_task is None ==> r is None,
            self.selected_task is Some ==> (r is Some <==> has_key(self.filtered_tasks@, self.selected_task->Some_0)),
            r is Some ==> *r->Some_0 == self.filtered_tasks@[key_index(self.filtered_tasks@, self.selected_task->Some_0)].1,
    {
        match self.selected_task {
            Some(id) => self.filtered_tasks.get(&id),
            None => None,
        }
    }

    /// The task at the end of `path`, if the path is not empty and resolves.
    pub fn get_task(&self, path: &[u128]) -> (r: Option<&Task>)
        ensures
            r is Some <==> path@.len() > 0 && resolves(self.tasks, path@),
            r is Some ==> *r->Some_0 == task_at(self.tasks, path@),
    {
        if path.len() == 0 {
            return None;
        }
        assert(path@.subrange(0, path@.len() as int) =~= path@);
        task_in(&self.tasks, path, 0)
    }

    /// The state with `task` added beside the selected task and selected: under
    /// the selected task's parent, whose ancestors are opened again, or at the
    /// top level when the selected task is a top-level task or nothing is
    /// selected.
    pub fn with_sibling_task(&self, task: Task) -> (r: Result<Model, String>)
        requires
            self.wf(),
        ensures
            sibling_rel(*self, task, r),
    {
        let id = task.id;
        match self.get_path() {
            Some(path) => {
                if path.len() >= 2 {
                    let parent = prefix_of(path, path.len() - 1);
                    assert(parent@ =~= path@.drop_last());
                    return match insert_task_and_uncomplete_parents(&self.tasks, parent.as_slice(), task) {
                        Ok(tasks) => Ok(self.with_tasks(tasks, Some(id))),
                        Err(e) => Err(tree_error_message(e, "")),
                    };
                }
            },
            None => {},
        }
        let tasks = self.tasks.insert(id, task);
        Ok(self.with_tasks(tasks, Some(id)))
    }

    /// The state with `task` added under the selected task and selected; the
    /// selected task and its ancestors are opened again. Fails when nothing is
    /// selected.
    pub fn with_child_task(&self, task: Task) -> (r: Result<Model, String>)
        requires
            self.wf(),
        ensures
            child_rel(*self, task, r),
    {
        let id = task.id;
        match self.get_path() {
            Some(path) => {
                if path.len() > 0 {
                    return match insert_task_and_uncomplete_parents(&self.tasks, path.as_slice(), task) {
                        Ok(tasks) => Ok(self.with_tasks(tasks, Some(id))),
                        Err(e) => Err(tree_error_message(e, "")),
                    };
                }
            },
            None => {},
        }
        proof { reveal_strlit("Can't insert a child task with no parent task selected"); }
        Err(String::from_str("Can't insert a child task with no parent task selected"))
    }

    /// The state with `filter` registered (replacing a filter of the same id).
    pub fn with_filter(&self, filter: Filter) -> (r: Model)
        requires
            self.wf(),
        ensures
            r.wf(),
            filter_added(*self, filter, r),
    {
        Model {
            tasks: self.tasks.share(),
            filters: self.filters.insert(filter.id, filter),
            selected_filter_id: self.selected_filter_id,
            current_filter: self.current_filter.share(),
            filtered_tasks: self.filtered_tasks.share(),
            selected_task: self.selected_task,
            message: self.message.copy(),
            mode: self.mode,
            overlay: self.overlay,
            input: self.input.copy(),
        }
    }

    /// A copy of the state.
    pub fn copy(&self) -> (r: Model)
        ensures
            same_model(r, *self),
            self.wf() ==> r.wf(),
    {
        Model {
            tasks: self.tasks.share(),
            filters: self.filters.share(),
            selected_filter_id: self.selected_filter_id,
            current_filter: self.current_filter.share(),
            filtered_tasks: self.filtered_tasks.share(),
            selected_task: self.selected_task,
            message: self.message.copy(),
            mode: self.mode,
            overlay: self.overlay,
            input: self.input.copy(),
        }
    }

    /// The state with `current_filter` in force.
    pub fn with_filter_condition(&self, current_filter: FilterCondition) -> (r: Model)
        requires
            self.wf(),
        ensures
            r.wf(),
            refiltered(*self, current_filter, self.selected_filter_id, r),
    {
        self.with_current_filter(current_filter, self.selected_filter_id)
    }

    /// The state with the registered filter `filter_id` in force, or an error
    /// when no filter has that id.
    pub fn with_filter_select(&self, filter_id: u128) -> (r: Result<Model, String>)
        requires
            self.wf(),
        ensures
            select_rel(*self, filter_id, r),
    {
        match self.filters.get(&filter_id) {
            Some(filter) => Ok(self.with_current_filter(filter.filter_condition.share(), Some(filter_id))),
            None => {
                let r = String::from_str("Filter with ID ").concat(decimal_text(filter_id).as_str()).concat(" not found.");
                proof {
                    reveal_strlit("Filter with ID ");
                    reveal_strlit(" not found.");
                }
                Err(r)
            },
        }
    }

    fn with_message(&self, message: DisplayMessage) -> (r: Model)
        requires
            self.wf(),
        ensures
            r.wf(),
            same_but_message(r, *self),
            r.message == message,
    {
        Model {
            tasks: self.tasks.share(),
            filters: self.filters.share(),
            selected_filter_id: self.selected_filter_id,
            current_filter: self.current_filter.share(),
            filtered_tasks: self.filtered_tasks.share(),
            selected_task: self.selected_task,
            message,
            mode: self.mode,
            overlay: self.overlay,
            input: self.input.copy(),
        }
    }

    /// The state with a success message.
    pub fn with_success(&self, message: &str) -> (r: Model)
        requires
            self.wf(),
        ensures
            r.wf(),
            same_but_message(r, *self),
            r.message matches DisplayMessage::Success(m) && m@ == message@,
    {
        self.with_message(DisplayMessage::Success(String::from_str(message)))
    }

    /// The state with an error message.
    pub fn with_error(&self, message: &str) -> (r: Model)
        requires
            self.wf(),
        ensures
            r.wf(),
            same_but_message(r, *self),
            r.message matches DisplayMessage::Error(m) && m@ == message@,
    {
        self.with_message(DisplayMessage::Error(String::from_str(message)))
    }

    /// The state without a message.
    pub fn with_no_message(&self) -> (r: Model)
        requires
            self.wf(),
        ensures
            r.wf(),
            same_but_message(r, *self),
            r.message == DisplayMessage::Clear,
    {
        self.with_message(DisplayMessage::Clear)
    }

    /// The state in mode `mode`.
    pub fn with_mode(&self, mode: Mode) -> (r: Model)
        requires
            self.wf(),
        ensures
            r.wf(),
            r.mode == mode,
            r.overlay == self.overlay,
            r.input.text@ == self.input.text@ && r.input.cursor == self.input.cursor,
            r.tasks == self.tasks,
            same_filters(r, *self),
            r.filtered_tasks@ == self.filtered_tasks@,
            r.selected_task == self.selected_task,
            same_display(r.message, self.message),
    {
        Model {
            tasks: self.tasks.share(),
            filters: self.filters.share(),
            selected_filter_id: self.selected_filter_id,
            current_filter: self.current_filter.share(),
            filtered_tasks: self.filtered_tasks.share(),
            selected_task: self.selected_task,
            message: self.message.copy(),
            mode,
            overlay: self.overlay,
            input: self.input.copy(),
        }
    }

    /// The state with overlay `overlay` open and an empty input.
    pub fn with_overlay(&self, overlay: Overlay) -> (r: Model)
        requires
            self.wf(),
        ensures
            r.wf(),
            r.overlay == overlay,
            r.mode == self.mode,
            r.input.text@.len() == 0 && r.input.cursor == 0,
            r.tasks == self.tasks,
            same_filters(r, *self),
            r.filtered_tasks@ == self.filtered_tasks@,
            r.selected_task == self.selected_task,
            same_display(r.message, self.message),
    {
        Model {
            tasks: self.tasks.share(),
            filters: self.filters.share(),
            selected_filter_id: self.selected_filter_id,
            current_filter: self.current_filter.share(),
            filtered_tasks: self.filtered_tasks.share(),
            selected_task: self.selected_task,
            message: self.message.copy(),
            mode: self.mode,
            overlay,
            input: Field::new(),
        }
    }

    /// The state with the input cursor moved by a word (see `Field`).
    pub fn with_cursor_jump_word(&self, direction: &Direction) -> (r: Model)
        requires
            self.wf(),
            self.input.text@.len() < 0x7fff_ffff_ffff_ffff,
        ensures
            r.wf(),
            same_but_input(r, *self),
            r.input.text@ == self.input.text@,
            r.input.cursor as int == jump_target(self.input.text@, self.input.cursor as int, *direction),
    {
        self.with_input(self.input.with_cursor_jump_word(direction))
    }

    /// The state with the character before the input cursor deleted.
    pub fn with_popped_char(&self) -> (r: Model)
        requires
            self.wf(),
        ensures
            r.wf(),
            same_but_input(r, *self),
            self.input.cursor == 0 ==> r.input.cursor == 0 && r.input.text@ == self.input.text@,
            self.input.cursor > 0 ==> r.input.cursor == self.input.cursor - 1
                && r.input.text@ == self.input.text@.remove(self.input.cursor - 1),
    {
        self.with_input(self.input.with_popped_char())
    }

    /// The state with the word before the input cursor deleted (see `Field`).
    pub fn with_popped_word(&self) -> (r: Model)
        requires
            self.wf(),
        ensures
            r.wf(),
            same_but_input(r, *self),
            self.input.cursor == 0 ==> r.input.cursor == 0 && r.input.text@ == self.input.text@,
            self.input.cursor > 0 ==> {
                let t = self.input.text@;
                let cut = last_space(t, trimmed_end(t, self.input.cursor as int));
                &&& r.input.cursor == cut
                &&& r.input.text@ == t.subrange(0, cut) + t.subrange(self.input.cursor as int, t.len() as int)
            },
    {
        self.with_input(self.input.with_popped_word())
    }

    /// The state with `ch` inserted at the input cursor.
    pub fn with_inserted_char(&self, ch: char) -> (r: Model)
        requires
            self.wf(),
            self.input.cursor < usize::MAX,
        ensures
            r.wf(),
            same_but_input(r, *self),
            r.input.cursor == self.input.cursor + 1,
            r.input.text@ == self.input.text@.insert(self.input.cursor as int, ch),
    {
        self.with_input(self.input.with_inserted_char(ch))
    }

    /// The state with the input cursor one character left (up) or right (down).
    pub fn with_move_cursor(&self, direction: &Direction) -> (r: Model)
        requires
            self.wf(),
        ensures
            r.wf(),
            same_but_input(r, *self),
            r.input.text@ == self.input.text@,
            *direction == Direction::Down ==> r.input.cursor == if self.input.cursor < self.input.text@.len() {
                self.input.cursor + 1
            } else {
                self.input.cursor as int
            },
            *direction == Direction::Up ==> r.input.cursor == if self.input.cursor > 0 {
                self.input.cursor - 1
            } else {
                0
            },
    {
        self.with_input(self.input.with_cursor_move(direction))
    }

    /// The state with the input cursor at `position`, or at the end of the
    /// input if that is nearer.
    pub fn with_cursor(&self, position: usize) -> (r: Model)
        requires
            self.wf(),
        ensures
            r.wf(),
            same_but_input(r, *self),
            r.input.text@ == self.input.text@,
            r.input.cursor == if position <= self.input.text@.len() {
                position as int
            } else {
                self.input.text@.len() as int
            },
    {
        self.with_input(self.input.with_cursor(position))
    }

    /// The state with input field `input`.
    pub fn with_input(&self, input: Field) -> (r: Model)
        requires
            self.wf(),
            input.wf(),
        ensures
            r.wf(),
            r.input == input,
            r.mode == self.mode,
            r.overlay == self.overlay,
            r.tasks == self.tasks,
            same_filters(r, *self),
            r.filtered_tasks@ == self.filtered_tasks@,
            r.selected_task == self.selected_task,
            same_display(r.message, self.message),
    {
        Model {
            tasks: self.tasks.share(),
            filters: self.filters.share(),
            selected_filter_id: self.selected_filter_id,
            current_filter: self.current_filter.share(),
            filtered_tasks: self.filtered_tasks.share(),
            selected_task: self.selected_task,
            message: self.message.copy(),
            mode: self.mode,
            overlay: self.overlay,
            input,
        }
    }

    /// The state with the selection moved one step up or down the visible
    /// list, wrapping around; with nothing selected, down selects the first
    /// task and up the last.
    pub fn with_selection_moved(&self, direction: &Direction) -> (r: Model)
        requires
            self.wf(),
        ensures
            r.wf(),
            moved_rel(*self, *direction, r),
    {
        let n = self.filtered_tasks.len();
        self.filtered_tasks.note_unique();
        let selected = if n == 0 {
            self.selected_task
        } else {
            let index: usize = match self.selected_task {
                None => match direction {
                    Direction::Up => n - 1,
                    Direction::Down => 0,
                },
                Some(id) => {
                    let i = self.filtered_tasks.get_index(&id).unwrap();
                    match direction {
                        Direction::Up => if i == 0 { n - 1 } else { i - 1 },
                        Direction::Down => if i == n - 1 { 0 } else { i + 1 },
                    }
                },
            };
            let k = *self.filtered_tasks.get_key_at_index(index).unwrap();
            proof { crate::ordered_map::lemma_key_index(self.filtered_tasks@, k, index as int); }
            Some(k)
        };
        Model {
            tasks: self.tasks.share(),
            filters: self.filters.share(),
            selected_filter_id: self.selected_filter_id,
            current_filter: self.current_filter.share(),
            filtered_tasks: self.filtered_tasks.share(),
            selected_task: selected,
            message: self.message.copy(),
            mode: self.mode,
            overlay: self.overlay,
            input: self.input.copy(),
        }
    }
}

} // verus!
