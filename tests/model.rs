use taskforest::filter::{Filter, FilterCondition};
use taskforest::message::Direction;
use taskforest::model::{DisplayMessage, Model};
use taskforest::task::{Task, TaskMap};
use taskforest::visible::{filter_tasks, new_selection};

fn setup_model_with_tasks() -> Model {
    let (t1, t2, t3, t4) = (Task::new("Task1"), Task::new("Task2"), Task::new("Task3"), Task::new("Task4"));
    let mut tasks = TaskMap::new();
    for t in [t1, t2, t3, t4] {
        tasks = tasks.insert(t.id, t);
    }
    let mut model = Model::new().with_tasks(tasks, None);
    model.selected_task = None;
    model
}

#[test]
fn model_test_navigation_wraps_around() {
    let model = setup_model_with_tasks();
    let filtered_tasks = filter_tasks(&model.tasks, &model.current_filter.condition);
    let model = Model { filtered_tasks, ..model };
    assert!(model.selected_task.is_none());
    let model = model.with_selection_moved(&Direction::Down);
    assert_eq!(model.selected_task.unwrap(), *model.filtered_tasks.get_key_at_index(0).unwrap());
    let model = model.with_selection_moved(&Direction::Up);
    assert_eq!(
        model.selected_task.unwrap(),
        *model.filtered_tasks.get_key_at_index(model.filtered_tasks.len() - 1).unwrap()
    );
    let model = model.with_selection_moved(&Direction::Down);
    assert_eq!(model.selected_task.unwrap(), *model.filtered_tasks.get_key_at_index(0).unwrap());
}

#[test]
fn model_test_add_sibling_task() {
    let mut model = setup_model_with_tasks();
    model.selected_task = Some(*model.tasks.get_key_at_index(1).unwrap());
    let new_task = Task::new("New Sibling Task");
    let id = new_task.id;
    let model = model
        .with_sibling_task(new_task)
        .expect("Task is selected, adding a sibling should return no errors!");
    assert!(model.tasks.contains_key(&id));
    assert_eq!(model.tasks.len(), 5);
    assert_eq!(model.selected_task.unwrap(), id);
}

#[test]
fn model_test_add_child_task() {
    let mut model = setup_model_with_tasks();
    let task2_id = *model.tasks.get_key_at_index(1).expect("The model in this test should have tasks!");
    model.selected_task = Some(task2_id);
    let child_task = Task::new("Child Task");
    let child_id = child_task.id;
    let model = model.with_child_task(child_task).expect("Child adding should succeed with added task!");
    let task2 = model.tasks.get(&task2_id).unwrap();
    assert!(task2.subtasks.contains_key(&child_id));
    assert_eq!(task2.subtasks.len(), 1);
    assert_eq!(model.selected_task.unwrap(), child_id);
}

#[test]
fn model_test_add_child_task_no_selection() {
    let model = setup_model_with_tasks();
    assert!(model.selected_task.is_none());
    let child_task = Task::new("Child Task");
    let model = model.with_child_task(child_task);
    assert!(model.is_err());
    assert_eq!(model.expect_err("Should be an error!"), "Can't insert a child task with no parent task selected");
}

#[test]
fn model_test_update_selection_on_task_removal() {
    let model = setup_model_with_tasks();
    let task2_id = *model.tasks.get_key_at_index(1).unwrap();
    let model = Model { selected_task: Some(task2_id), ..model };
    let model = model.with_removed_task(&[task2_id]).expect("Task removal should succeed");
    assert!(model.selected_task.is_some());
    let expected_task_id = *model.filtered_tasks.get_key_at_index(1).unwrap();
    assert_eq!(model.selected_task.unwrap(), expected_task_id);
}

#[test]
fn model_test_filter_tasks_with_complex_condition() {
    let mut model = Model::new();
    let task1 = Task::new("Task1 #work @home");
    let task2 = Task::new("Task2 #personal @gym");
    let task3 = Task::new("Task3 #work @office");
    let task4 = Task::new("Task4 #urgent @home");
    let (id1, id2, id3, id4) = (task1.id, task2.id, task3.id, task4.id);
    model.tasks = model.tasks.insert(id1, task1).insert(id2, task2).insert(id3, task3).insert(id4, task4);
    let filter_condition = FilterCondition::new("(#work and @home) or (#urgent and not @gym)").unwrap();
    model.current_filter = filter_condition;
    model.filtered_tasks = filter_tasks(&model.tasks, &model.current_filter.condition);
    assert!(model.filtered_tasks.contains_key(&id1));
    assert!(model.filtered_tasks.contains_key(&id4));
    assert!(!model.filtered_tasks.contains_key(&id2));
    assert!(!model.filtered_tasks.contains_key(&id3));
}

#[test]
fn test_set_error() {
    let model = Model::new();
    let error_message = "An error occurred";
    let model_with_error = model.with_error(error_message);
    assert_eq!(model_with_error.message.as_str().unwrap(), error_message);
}

#[test]
fn test_with_removed_task() {
    let model = setup_model_with_tasks();
    let path = vec![*model.tasks.get_key_at_index(0).unwrap()];
    let model = model.with_removed_task(&path).expect("Removal should succeed");
    assert_eq!(model.tasks.len(), 3);
    assert!(!model.tasks.contains_key(&path[0]));
}

#[test]
fn removal_with_a_bad_path_names_the_id() {
    let model = setup_model_with_tasks();
    assert_eq!(model.with_removed_task(&[5]).unwrap_err(), "Task with ID 5 not found");
    assert_eq!(model.with_removed_task(&[]).unwrap_err(), "Path is empty; cannot remove task");
}

#[test]
fn test_with_filter() {
    let model = Model::new();
    let filter = Filter::new("New Filter", FilterCondition::new("#urgent").unwrap());
    let id = filter.id;
    let model = model.with_filter(filter);
    assert!(model.filters.contains_key(&id));
    assert_eq!(model.filters.len(), 2);
}

#[test]
fn test_with_filter_condition() {
    let model = setup_model_with_tasks();
    let filter_condition = FilterCondition::new("\"Task1\"").unwrap();
    let model = model.with_filter_condition(filter_condition);
    assert_eq!(model.filtered_tasks.len(), 1);
    assert!(model.filtered_tasks.contains_key(model.tasks.get_key_at_index(0).unwrap()));
}

#[test]
fn test_with_filter_select_valid() {
    let model = setup_model_with_tasks();
    let filter = Filter::new("Custom Filter", FilterCondition::new("\"Task1\"").unwrap());
    let filter_id = filter.id;
    let model = model.with_filter(filter).with_filter_select(filter_id).unwrap();
    assert_eq!(model.selected_filter_id.unwrap(), filter_id);
    assert!(model.filtered_tasks.contains_key(model.tasks.get_key_at_index(0).expect("First task should exist")));
}

#[test]
fn test_with_filter_select_invalid() {
    let model = setup_model_with_tasks();
    let invalid_filter_id: u128 = 123_456_789;
    let result = model.with_filter_select(invalid_filter_id);
    assert!(result.is_err());
    assert_eq!(
        result.expect_err("Should produce an error"),
        format!("Filter with ID {} not found.", invalid_filter_id)
    );
}

#[test]
fn test_get_new_selection_no_selected_task() {
    let model = setup_model_with_tasks();
    let new_selection = new_selection(&model.tasks, &model.filtered_tasks, None, model.selected_task);
    assert_eq!(new_selection.unwrap(), *model.filtered_tasks.get_key_at_index(0).unwrap());
}

#[test]
fn test_get_new_selection_with_desired_task() {
    let model = setup_model_with_tasks();
    let desired_task_id = *model.filtered_tasks.get_key_at_index(1).unwrap();
    let new_selection = new_selection(&model.tasks, &model.filtered_tasks, Some(desired_task_id), model.selected_task);
    assert_eq!(new_selection.unwrap(), desired_task_id);
}

#[test]
fn test_get_new_selection_closest_task() {
    let model = setup_model_with_tasks();
    let filtered_tasks = model.filtered_tasks.remove(&model.selected_task.unwrap_or_default());
    let new_selection = new_selection(&model.tasks, &filtered_tasks, None, model.selected_task);
    assert_eq!(new_selection.unwrap(), *filtered_tasks.get_key_at_index(0).unwrap());
}

#[test]
fn test_with_tasks_updates_filtered_tasks_and_selection() {
    let model = setup_model_with_tasks();
    let new_task = Task::new("New Task");
    let id = new_task.id;
    let tasks = model.tasks.insert(id, new_task);
    let model = model.with_tasks(tasks, Some(id));
    assert_eq!(model.tasks.len(), 5);
    assert!(model.filtered_tasks.contains_key(&id));
    assert_eq!(model.selected_task.unwrap(), id);
}

#[test]
fn test_with_success_message() {
    let model = Model::new();
    let message = "Operation successful";
    let updated_model = model.with_success(message);
    assert_eq!(updated_model.message, DisplayMessage::Success(message.to_string()));
}

#[test]
fn test_with_error_message() {
    let model = Model::new();
    let message = "An error occurred";
    let updated_model = model.with_error(message);
    assert_eq!(updated_model.message, DisplayMessage::Error(message.to_string()));
}

#[test]
fn test_get_path_existing_selection() {
    let mut model = setup_model_with_tasks();
    let selected_task_id = *model.tasks.get_key_at_index(0).unwrap();
    model.selected_task = Some(selected_task_id);
    let path = model.get_path();
    assert!(path.is_some());
    assert_eq!(path.unwrap(), &vec![selected_task_id]);
}

#[test]
fn test_get_path_no_selection() {
    let model = setup_model_with_tasks();
    assert!(model.get_path().is_none());
}

#[test]
fn test_with_tasks_preserves_filter() {
    let model = setup_model_with_tasks();
    let new_task = Task::new("New Task #new");
    let id = new_task.id;
    let tasks = model.tasks.insert(id, new_task);
    let model = model.with_filter_condition(FilterCondition::new("#new").unwrap());
    let model = model.with_tasks(tasks, Some(id));
    assert_eq!(model.filtered_tasks.len(), 1);
    assert!(model.filtered_tasks.contains_key(&id));
    assert_eq!(model.selected_task.unwrap(), id);
}

#[test]
fn get_task_walks_the_path() {
    let model = setup_model_with_tasks();
    let id = *model.tasks.get_key_at_index(2).unwrap();
    assert_eq!(model.get_task(&[id]).unwrap().description.as_str(), "Task3");
    assert!(model.get_task(&[]).is_none());
    assert!(model.get_task(&[id, 1]).is_none());
}
