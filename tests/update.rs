use taskforest::filter::{Filter, FilterCondition};
use taskforest::history::History;
use taskforest::message::Direction;
use taskforest::model::Model;
use taskforest::task::Task;
use taskforest::update::{update, Message};

fn setup_model_with_tasks() -> Result<Model, String> {
    Model::new()
        .with_sibling_task(Task::new("Task1"))?
        .with_sibling_task(Task::new("Task2"))?
        .with_sibling_task(Task::new("Task3"))?
        .with_sibling_task(Task::new("Task4"))
}

#[test]
fn test_select_filter() {
    let mut history = History::new(100);
    let mut model = setup_model_with_tasks().unwrap();
    let filter = Filter::new("Filter1", FilterCondition::new("\"Task1\"").unwrap());
    let filter_id = filter.id;
    model = model.with_filter(filter);
    let model = update(&Message::SelectFilter { filter_id }, &model, &mut history);
    assert_eq!(model.selected_filter_id.unwrap(), filter_id);
    assert_eq!(model.filtered_tasks.len(), 1);
    assert!(model.filtered_tasks.contains_key(model.tasks.get_key_at_index(0).unwrap()));
}

#[test]
fn test_apply_filter() {
    let mut history = History::new(100);
    let model = setup_model_with_tasks().unwrap();
    let filter_condition = FilterCondition::new("\"Task2\"").unwrap();
    let model = update(&Message::ApplyFilter { filter: filter_condition }, &model, &mut history);
    assert_eq!(model.filtered_tasks.len(), 1);
    assert!(model.filtered_tasks.contains_key(model.tasks.get_key_at_index(1).unwrap()));
}

#[test]
fn update_test_navigation_wraps_around() {
    let mut history = History::new(100);
    let mut model = setup_model_with_tasks().unwrap();
    model.selected_task = None;
    assert!(model.selected_task.is_none());
    let model = update(&Message::Navigate { direction: Direction::Down }, &model, &mut history);
    assert_eq!(model.selected_task.unwrap(), *model.filtered_tasks.get_key_at_index(0).unwrap());
    let model = update(&Message::Navigate { direction: Direction::Up }, &model, &mut history);
    assert_eq!(
        model.selected_task.unwrap(),
        *model.filtered_tasks.get_key_at_index(model.filtered_tasks.len() - 1).unwrap()
    );
    let model = update(&Message::Navigate { direction: Direction::Down }, &model, &mut history);
    assert_eq!(model.selected_task.unwrap(), *model.filtered_tasks.get_key_at_index(0).unwrap());
    assert_eq!(history.undo_stack.len(), 0);
}

#[test]
fn update_test_add_sibling_task() {
    let mut history = History::new(100);
    let mut model = setup_model_with_tasks().unwrap();
    model.selected_task = Some(*model.tasks.get_key_at_index(1).unwrap());
    let new_task = Task::new("New Sibling Task");
    let id = new_task.id;
    let model = update(&Message::AddSiblingTask { task: new_task }, &model, &mut history);
    assert!(model.tasks.contains_key(&id));
    assert_eq!(model.tasks.len(), 5);
    assert_eq!(model.selected_task.unwrap(), id);
}

#[test]
fn update_test_add_child_task() {
    let mut history = History::new(100);
    let mut model = setup_model_with_tasks().unwrap();
    let task2_id = *model.tasks.get_key_at_index(1).unwrap();
    model.selected_task = Some(task2_id);
    let child_task = Task::new("Child Task");
    let child_id = child_task.id;
    let model = update(&Message::AddChildTask { task: child_task }, &model, &mut history);
    let task2 = model.tasks.get(&task2_id).unwrap();
    assert!(task2.subtasks.contains_key(&child_id));
    assert_eq!(task2.subtasks.len(), 1);
    assert_eq!(model.selected_task.unwrap(), child_id);
}

#[test]
fn update_test_add_child_task_no_selection() {
    let mut history = History::new(100);
    let mut model = setup_model_with_tasks().unwrap();
    model.selected_task = None;
    assert!(model.selected_task.is_none());
    let child_task = Task::new("Child Task");
    let model = update(&Message::AddChildTask { task: child_task }, &model, &mut history);
    assert!(model.message.as_str().is_some());
    assert_eq!(model.message.as_str().unwrap(), "Can't insert a child task with no parent task selected");
    assert_eq!(history.undo_stack.len(), 0);
}

#[test]
fn update_test_update_selection_on_task_removal() {
    let mut history = History::new(100);
    let mut model = setup_model_with_tasks().unwrap();
    model.selected_task = Some(*model.tasks.get_key_at_index(1).unwrap());
    let model = update(&Message::RemoveTask { path: vec![model.selected_task.unwrap()] }, &model, &mut history);
    assert!(model.selected_task.is_some());
    let expected_task_id = *model.filtered_tasks.get_key_at_index(1).unwrap();
    assert_eq!(model.selected_task.unwrap(), expected_task_id);
}

#[test]
fn update_test_filter_tasks_with_complex_condition() {
    let mut history = History::new(100);
    let mut model = Model::new();
    let task1 = Task::new("Task1 #work @home");
    let task2 = Task::new("Task2 #personal @gym");
    let task3 = Task::new("Task3 #work @office");
    let task4 = Task::new("Task4 #urgent @home");
    let (id1, id2, id3, id4) = (task1.id, task2.id, task3.id, task4.id);
    model.tasks = model.tasks.insert(id1, task1).insert(id2, task2).insert(id3, task3).insert(id4, task4);
    let filter = FilterCondition::new("(#work and @home) or (#urgent and not @gym)").unwrap();
    let model = update(&Message::ApplyFilter { filter }, &model, &mut history);
    assert!(model.filtered_tasks.contains_key(&id1));
    assert!(model.filtered_tasks.contains_key(&id4));
    assert!(!model.filtered_tasks.contains_key(&id2));
    assert!(!model.filtered_tasks.contains_key(&id3));
}

#[test]
fn test_redo_functionality() {
    let model = Model::new();
    let mut history = History::new(100);
    let task = Task::new("New Task");
    let id = task.id;
    let model = update(&Message::AddSiblingTask { task }, &model, &mut history);
    let model = update(&Message::Undo, &model, &mut history);
    assert!(!model.tasks.contains_key(&id));
    let model = update(&Message::Redo, &model, &mut history);
    assert!(model.tasks.contains_key(&id));
    assert_eq!(model.message.as_str().unwrap(), "Redid action: AddSiblingTask");
}

#[test]
fn test_undo_nothing_to_undo() {
    let model = Model::new();
    let mut history = History::new(100);
    let model = update(&Message::Undo, &model, &mut history);
    assert_eq!(model.message.as_str().unwrap(), "Nothing to undo!");
}

#[test]
fn test_redo_nothing_to_redo() {
    let model = Model::new();
    let mut history = History::new(100);
    let model = update(&Message::Redo, &model, &mut history);
    assert_eq!(model.message.as_str().unwrap(), "Nothing to redo!");
}

#[test]
fn test_add_sibling_task_with_success_message() {
    let model = Model::new();
    let mut history = History::new(100);
    let task = Task::new("New Task");
    let updated_model = update(&Message::AddSiblingTask { task: task.share() }, &model, &mut history);
    assert_eq!(updated_model.message.as_str().unwrap(), "Added sibling task.");
    assert_eq!(history.undo_stack.len(), 1);
    assert_eq!(history.undo_stack.back().unwrap().1, Message::AddSiblingTask { task });
}

#[test]
fn test_undo_with_action_display() {
    let model = Model::new();
    let mut history = History::new(100);
    let task = Task::new("New Task");
    let model = update(&Message::AddSiblingTask { task }, &model, &mut history);
    let model = update(&Message::Undo, &model, &mut history);
    assert_eq!(model.message.as_str().unwrap(), "Undid action: AddSiblingTask");
    assert_eq!(history.undo_stack.len(), 0);
}

#[test]
fn failed_steps_are_not_recorded() {
    let model = Model::new();
    let mut history = History::new(100);
    let model = update(&Message::RemoveTask { path: vec![42] }, &model, &mut history);
    assert_eq!(model.message.as_str().unwrap(), "Task with ID 42 not found");
    assert_eq!(history.undo_stack.len(), 0);
}

#[test]
fn flip_through_update_completes_a_task() {
    let mut history = History::new(100);
    let model = setup_model_with_tasks().unwrap();
    let id = *model.tasks.get_key_at_index(0).unwrap();
    let model = update(&Message::FlipCompleted { path: vec![id] }, &model, &mut history);
    assert!(model.tasks.get(&id).unwrap().completed.is_some());
    assert_eq!(model.message.as_str().unwrap(), "Flipped completion.");
    assert_eq!(history.undo_stack.len(), 1);
}
