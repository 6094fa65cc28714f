//! One step of the application: an action applied to the state, with undo and
//! redo history.
use crate::filter::{same_filter, same_filter_condition, Filter, FilterCondition};
use crate::form::Field;
use crate::history::{after_push, History};
use crate::message::Direction;
use crate::model::{
    child_rel, filter_added, flip_rel, moved_rel, removal_rel, same_but_message, same_display, same_model,
    select_rel, sibling_rel, DisplayMessage, Mode, Model, Overlay,
};
use crate::task::Task;
use vstd::prelude::*;

verus! {

/// An action on the state.
#[derive(Debug, PartialEq)]
pub enum Message {
    AddSiblingTask { task: Task },
    AddChildTask { task: Task },
    RemoveTask { path: Vec<u128> },
    FlipCompleted { path: Vec<u128> },
    AddFilter { filter: Filter },
    SelectFilter { filter_id: u128 },
    ApplyFilter { filter: FilterCondition },
    Navigate { direction: Direction },
    SetMode { mode: Mode },
    SetOverlay { overlay: Overlay },
    SetInput { input: Field },
    Undo,
    Redo,
}

/// `a` and `b` are the same action.
pub open spec fn same_message(a: Message, b: Message) -> bool {
    match (a, b) {
        (Message::AddSiblingTask { task: x }, Message::AddSiblingTask { task: y }) => x == y,
        (Message::AddChildTask { task: x }, Message::AddChildTask { task: y }) => x == y,
        (Message::RemoveTask { path: x }, Message::RemoveTask { path: y }) => x@ == y@,
        (Message::FlipCompleted { path: x }, Message::FlipCompleted { path: y }) => x@ == y@,
        (Message::AddFilter { filter: x }, Message::AddFilter { filter: y }) => same_filter(x, y),
        (Message::SelectFilter { filter_id: x }, Message::SelectFilter { filter_id: y }) => x == y,
        (Message::ApplyFilter { filter: x }, Message::ApplyFilter { filter: y }) => same_filter_condition(x, y),
        (Message::Navigate { direction: x }, Message::Navigate { direction: y }) => x == y,
        (Message::SetMode { mode: x }, Message::SetMode { mode: y }) => x == y,
        (Message::SetOverlay { overlay: x }, Message::SetOverlay { overlay: y }) => x == y,
        (Message::SetInput { input: x }, Message::SetInput { input: y }) => x.cursor == y.cursor && x.text@ == y.text@,
        (Message::Undo, Message::Undo) => true,
        (Message::Redo, Message::Redo) => true,
        _ => false,
    }
}

/// The name of an action, as status messages show it.
pub open spec fn name_of(m: Message) -> Seq<char> {
    match m {
        Message::AddSiblingTask { .. } => "AddSiblingTask"@,
        Message::AddChildTask { .. } => "AddChildTask"@,
        Message::RemoveTask { .. } => "RemoveTask"@,
        Message::FlipCompleted { .. } => "FlipCompleted"@,
        Message::AddFilter { .. } => "AddFilter"@,
        Message::SelectFilter { .. } => "SelectFilter"@,
        Message::ApplyFilter { .. } => "ApplyFilter"@,
        Message::Navigate { .. } => "Navigate"@,
        Message::SetMode { .. } => "SetMode"@,
        Message::SetOverlay { .. } => "SetOverlay"@,
        Message::SetInput { .. } => "SetInput"@,
        Message::Undo => "Undo"@,
        Message::Redo => "Redo"@,
    }
}

impl Message {
    /// A copy of the action.
    pub fn copy(&self) -> (r: Message)
        ensures
            same_message(r, *self),
    {
        match self {
            Message::AddSiblingTask { task } => Message::AddSiblingTask { task: task.share() },
            Message::AddChildTask { task } => Message::AddChildTask { task: task.share() },
            Message::RemoveTask { path } => Message::RemoveTask { path: path.clone() },
            Message::FlipCompleted { path } => Message::FlipCompleted { path: path.clone() },
            Message::AddFilter { filter } => Message::AddFilter { filter: filter.share() },
            Message::SelectFilter { filter_id } => Message::SelectFilter { filter_id: *filter_id },
            Message::ApplyFilter { filter } => Message::ApplyFilter { filter: filter.share() },
            Message::Navigate { direction } => Message::Navigate { direction: *direction },
            Message::SetMode { mode } => Message::SetMode { mode: *mode },
            Message::SetOverlay { overlay } => Message::SetOverlay { overlay: *overlay },
            Message::SetInput { input } => Message::SetInput { input: input.copy() },
            Message::Undo => Message::Undo,
            Message::Redo => Message::Redo,
        }
    }

    /// The name of the action.
    pub fn name(&self) -> (r: &'static str)
        ensures
            r@ == name_of(*self),
    {
        proof {
            reveal_strlit("AddSiblingTask");
            reveal_strlit("AddChildTask");
            reveal_strlit("RemoveTask");
            reveal_strlit("FlipCompleted");
            reveal_strlit("AddFilter");
            reveal_strlit("SelectFilter");
            reveal_strlit("ApplyFilter");
            reveal_strlit("Navigate");
            reveal_strlit("SetMode");
            reveal_strlit("SetOverlay");
            reveal_strlit("SetInput");
            reveal_strlit("Undo");
            reveal_strlit("Redo");
        }
        match self {
            Message::AddSiblingTask { .. } => "AddSiblingTask",
            Message::AddChildTask { .. } => "AddChildTask",
            Message::RemoveTask { .. } => "RemoveTask",
            Message::FlipCompleted { .. } => "FlipCompleted",
            Message::AddFilter { .. } => "AddFilter",
            Message::SelectFilter { .. } => "SelectFilter",
            Message::ApplyFilter { .. } => "ApplyFilter",
            Message::Navigate { .. } => "Navigate",
            Message::SetMode { .. } => "SetMode",
            Message::SetOverlay { .. } => "SetOverlay",
            Message::SetInput { .. } => "SetInput",
            Message::Undo => "Undo",
            Message::Redo => "Redo",
        }
    }
}

/// Every snapshot held by the history is a well-formed state.
pub open spec fn history_wf(h: History<Model, Message>) -> bool {
    &&& forall|i: int| 0 <= i < h.undo_stack@.len() ==> (#[trigger] h.undo_stack@[i]).0.wf()
    &&& forall|i: int| 0 <= i < h.redo_stack@.len() ==> (#[trigger] h.redo_stack@[i]).0.wf()
}

/// `h1` is `h0` after recording the state `m` with the action `msg`.
pub open spec fn recorded(h0: History<Model, Message>, m: Model, msg: Message, h1: History<Model, Message>) -> bool {
    let n = h1.undo_stack@.len();
    &&& n > 0
    &&& exists|e: (Model, Message)| h1.undo_stack@ == after_push(h0.undo_stack@, h0.max_history, e)
    &&& same_model(h1.undo_stack@[n - 1].0, m)
    &&& same_message(h1.undo_stack@[n - 1].1, msg)
    &&& h1.redo_stack@.len() == 0
    &&& h1.max_history == h0.max_history
}

/// `a` and `b` have the same tasks, filters, visible-set, selection and
/// message.
pub open spec fn same_data(a: Model, b: Model) -> bool {
    &&& a.tasks == b.tasks
    &&& crate::model::same_filters(a, b)
    &&& a.filtered_tasks@ == b.filtered_tasks@
    &&& a.selected_task == b.selected_task
    &&& same_display(a.message, b.message)
}

/// `h1` holds the same entries as `h0`.
pub open spec fn unchanged(h0: History<Model, Message>, h1: History<Model, Message>) -> bool {
    &&& h1.undo_stack@ == h0.undo_stack@
    &&& h1.redo_stack@ == h0.redo_stack@
    &&& h1.max_history == h0.max_history
}

/// The step for an operation that produced `res` from `m`: on success, the
/// new state with the success message `text`, and `m` recorded with `msg` in
/// the history; on failure, `m` with the error as its message and the history
/// unchanged.
pub open spec fn settled(
    m: Model,
    msg: Message,
    res: Result<Model, String>,
    text: Seq<char>,
    h0: History<Model, Message>,
    h1: History<Model, Message>,
    r: Model,
) -> bool {
    match res {
        Ok(n) => {
            &&& same_but_message(r, n)
            &&& r.message matches DisplayMessage::Success(t) && t@ == text
            &&& recorded(h0, m, msg, h1)
        },
        Err(e) => {
            &&& same_but_message(r, m)
            &&& r.message matches DisplayMessage::Error(t) && t@ == e@
            &&& unchanged(h0, h1)
        },
    }
}

fn record(history: &mut History<Model, Message>, model: &Model, message: &Message)
    requires
        history_wf(*old(history)),
        model.wf(),
    ensures
        history_wf(*final(history)),
        recorded(*old(history), *model, *message, *final(history)),
{
    let ghost h0 = *history;
    let snap = model.copy();
    let act = message.copy();
    let ghost e = (snap, act);
    history.push(snap, act);
    proof {
        let u = final(history).undo_stack@;
        assert(u == after_push(h0.undo_stack@, h0.max_history, e));
        assert forall|i: int| 0 <= i < u.len() implies (#[trigger] u[i]).0.wf() by {
            if i < u.len() - 1 {
                if h0.undo_stack@.len() == h0.max_history && h0.undo_stack@.len() > 0 {
                    assert(u[i] == h0.undo_stack@[i + 1]);
                } else {
                    assert(u[i] == h0.undo_stack@[i]);
                }
            }
        }
    }
}

fn finish(
    model: &Model,
    message: &Message,
    res: Result<Model, String>,
    text: &str,
    history: &mut History<Model, Message>,
) -> (r: Model)
    requires
        model.wf(),
        history_wf(*old(history)),
        res is Ok ==> res->Ok_0.wf(),
    ensures
        r.wf(),
        history_wf(*final(history)),
        settled(*model, *message, res, text@, *old(history), *final(history), r),
{
    match res {
        Ok(next) => {
            record(history, model, message);
            next.with_success(text)
        },
        Err(e) => model.with_error(e.as_str()),
    }
}

/// Applies `message` to `model`, records state-changing steps in `history`,
/// and returns the next state with a status message. Navigation and view
/// changes are not recorded and leave the history as it is. A failed step
/// leaves the data as it was and reports the error in the message.
pub fn update(message: &Message, model: &Model, history: &mut History<Model, Message>) -> (r: Model)
    requires
        model.wf(),
        history_wf(*old(history)),
    ensures
        r.wf(),
        history_wf(*final(history)),
        match *message {
            Message::AddSiblingTask { task } => exists|res: Result<Model, String>|
                sibling_rel(*model, task, res) && #[trigger] settled(*model, *message, res, "Added sibling task."@, *old(history), *final(history), r),
            Message::AddChildTask { task } => exists|res: Result<Model, String>|
                child_rel(*model, task, res) && #[trigger] settled(*model, *message, res, "Added child task."@, *old(history), *final(history), r),
            Message::RemoveTask { path } => exists|res: Result<Model, String>|
                removal_rel(*model, path@, res) && #[trigger] settled(*model, *message, res, "Removed task."@, *old(history), *final(history), r),
            Message::FlipCompleted { path } => exists|res: Result<Model, String>|
                flip_rel(*model, path@, res) && #[trigger] settled(*model, *message, res, "Flipped completion."@, *old(history), *final(history), r),
            Message::AddFilter { filter } => exists|f: Filter, n: Model|
                same_filter(f, filter) && #[trigger] filter_added(*model, f, n)
                && #[trigger] settled(*model, *message, Ok(n), "Added new filter."@, *old(history), *final(history), r),
            Message::SelectFilter { filter_id } => exists|res: Result<Model, String>|
                select_rel(*model, filter_id, res) && #[trigger] settled(*model, *message, res, "Selected filter."@, *old(history), *final(history), r),
            Message::ApplyFilter { filter } => exists|n: Model|
                crate::model::refiltered(*model, filter, model.selected_filter_id, n)
                && #[trigger] settled(*model, *message, Ok(n), "Applied filter."@, *old(history), *final(history), r),
            Message::Navigate { direction } => moved_rel(*model, direction, r) && unchanged(*old(history), *final(history)),
            Message::SetMode { mode } => {
                &&& same_data(r, *model)
                &&& r.mode == mode
                &&& r.overlay == model.overlay
                &&& r.input.text@ == model.input.text@ && r.input.cursor == model.input.cursor
                &&& unchanged(*old(history), *final(history))
            },
            Message::SetOverlay { overlay } => {
                &&& same_data(r, *model)
                &&& r.overlay == overlay
                &&& r.mode == model.mode
                &&& r.input.text@.len() == 0 && r.input.cursor == 0
                &&& unchanged(*old(history), *final(history))
            },
            Message::SetInput { input } => {
                &&& same_data(r, *model)
                &&& r.mode == model.mode
                &&& r.overlay == model.overlay
                &&& r.input.text@ == input.text@
                &&& r.input.cursor == if input.cursor <= input.text@.len() { input.cursor as int } else { input.text@.len() as int }
                &&& unchanged(*old(history), *final(history))
            },
            Message::Undo => if old(history).undo_stack@.len() == 0 {
                same_but_message(r, *model) && (r.message matches DisplayMessage::Error(t) && t@ == "Nothing to undo!"@)
                    && unchanged(*old(history), *final(history))
            } else {
                let n = old(history).undo_stack@.len() as int;
                let e = old(history).undo_stack@[n - 1];
                &&& same_but_message(r, e.0)
                &&& r.message matches DisplayMessage::Success(t) && t@ == "Undid action: "@ + name_of(e.1)
                &&& final(history).undo_stack@ == old(history).undo_stack@.subrange(0, n - 1)
                &&& final(history).redo_stack@.len() == old(history).redo_stack@.len() + 1
                &&& same_model(final(history).redo_stack@.last().0, *model)
                &&& final(history).redo_stack@.last().1 == e.1
            },
            Message::Redo => if old(history).redo_stack@.len() == 0 {
                same_but_message(r, *model) && (r.message matches DisplayMessage::Error(t) && t@ == "Nothing to redo!"@)
                    && unchanged(*old(history), *final(history))
            } else {
                let n = old(history).redo_stack@.len() as int;
                let e = old(history).redo_stack@[n - 1];
                &&& same_but_message(r, e.0)
                &&& r.message matches DisplayMessage::Success(t) && t@ == "Redid action: "@ + name_of(e.1)
                &&& final(history).redo_stack@ == old(history).redo_stack@.subrange(0, n - 1)
                &&& final(history).undo_stack@.len() == old(history).undo_stack@.len() + 1
                &&& same_model(final(history).undo_stack@.last().0, *model)
                &&& final(history).undo_stack@.last().1 == e.1
            },
        },
{
    match message {
        Message::AddSiblingTask { task } => {
            let res = model.with_sibling_task(task.share());
            let ghost g = res;
            proof { reveal_strlit("Added sibling task."); }
            let r = finish(model, message, res, "Added sibling task.", history);
            assert(sibling_rel(*model, *task, g) && settled(*model, *message, g, "Added sibling task."@, *old(history), *final(history), r));
            r
        },
        Message::AddChildTask { task } => {
            let res = model.with_child_task(task.share());
            let ghost g = res;
            proof { reveal_strlit("Added child task."); }
            let r = finish(model, message, res, "Added child task.", history);
            assert(child_rel(*model, *task, g) && settled(*model, *message, g, "Added child task."@, *old(history), *final(history), r));
            r
        },
        Message::RemoveTask { path } => {
            let res = model.with_removed_task(path.as_slice());
            let ghost g = res;
            proof { reveal_strlit("Removed task."); }
            let r = finish(model, message, res, "Removed task.", history);
            assert(removal_rel(*model, path@, g) && settled(*model, *message, g, "Removed task."@, *old(history), *final(history), r));
            r
        },
        Message::FlipCompleted { path } => {
            let res = model.with_flipped_completion(path.as_slice());
            let ghost g = res;
            proof { reveal_strlit("Flipped completion."); }
            let r = finish(model, message, res, "Flipped completion.", history);
            assert(flip_rel(*model, path@, g) && settled(*model, *message, g, "Flipped completion."@, *old(history), *final(history), r));
            r
        },
        Message::AddFilter { filter } => {
            let copy = filter.share();
            let ghost f = copy;
            let n = model.with_filter(copy);
            let ghost g = n;
            proof { reveal_strlit("Added new filter."); }
            let r = finish(model, message, Ok(n), "Added new filter.", history);
            assert(same_filter(f, *filter) && filter_added(*model, f, g) && settled(*model, *message, Ok(g), "Added new filter."@, *old(history), *final(history), r));
            r
        },
        Message::SelectFilter { filter_id } => {
            let res = model.with_filter_select(*filter_id);
            let ghost g = res;
            proof { reveal_strlit("Selected filter."); }
            let r = finish(model, message, res, "Selected filter.", history);
            assert(select_rel(*model, *filter_id, g) && settled(*model, *message, g, "Selected filter."@, *old(history), *final(history), r));
            r
        },
        Message::ApplyFilter { filter } => {
            let n = model.with_filter_condition(filter.share());
            let ghost g = n;
            proof { reveal_strlit("Applied filter."); }
            let r = finish(model, message, Ok(n), "Applied filter.", history);
            assert(crate::model::refiltered(*model, *filter, model.selected_filter_id, g) && settled(*model, *message, Ok(g), "Applied filter."@, *old(history), *final(history), r));
            r
        },
        Message::Navigate { direction } => model.with_selection_moved(direction),
        Message::SetMode { mode } => model.with_mode(*mode),
        Message::SetOverlay { overlay } => model.with_overlay(*overlay),
        Message::SetInput { input } => {
            let field = input.with_cursor(input.cursor);
            model.with_input(field)
        },
        Message::Undo => {
            let live = model.copy();
            match history.undo(live) {
                Some(previous) => {
                    let n = history.redo_stack.len();
                    let name = history.redo_stack[n - 1].1.name();
                    proof { reveal_strlit("Undid action: "); }
                    let text = String::from_str("Undid action: ").concat(name);
                    previous.with_success(text.as_str())
                },
                None => {
                    proof { reveal_strlit("Nothing to undo!"); }
                    model.with_error("Nothing to undo!")
                },
            }
        },
        Message::Redo => {
            let live = model.copy();
            match history.redo(live) {
                Some(next) => {
                    let n = history.undo_stack.len();
                    let name = history.undo_stack[n - 1].1.name();
                    proof { reveal_strlit("Redid action: "); }
                    let text = String::from_str("Redid action: ").concat(name);
                    next.with_success(text.as_str())
                },
                None => {
                    proof { reveal_strlit("Nothing to redo!"); }
                    model.with_error("Nothing to redo!")
                },
            }
        },
    }
}

} // verus!
