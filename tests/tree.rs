use taskforest::ordered_map::PersistentIndexMap;
use taskforest::task::{Task, TaskMap};
use taskforest::tree::{
    flip_task_at, modify_task_at_path, insert_task_and_uncomplete_parents, insert_task_at_path, remove_task_at_path, TreeError,
};
use taskforest::visible::{filter_tasks, find_closest_task, flatten_tasks};
use taskforest::filter::Condition;

fn node(id: u128, description: &str, children: Vec<Task>) -> Task {
    let mut task = Task::new_with_id(description, id);
    for c in children {
        task.subtasks = task.subtasks.insert(c.id, c);
    }
    task
}

fn tree(roots: Vec<Task>) -> TaskMap {
    let mut map = TaskMap::new();
    for t in roots {
        map = map.insert(t.id, t);
    }
    map
}

fn sample(id1: u128, id1_1: u128, id1_1_1: u128, id2: u128) -> TaskMap {
    tree(vec![
        node(id1, "Task1", vec![node(id1_1, "Task1.1", vec![node(id1_1_1, "Task1.1.1", vec![])])]),
        node(id2, "Task2", vec![]),
    ])
}

#[test]
fn test_task_tree_with_manual_ids() {
    let (id1, id1_1, id1_1_1, id2) = (11, 12, 13, 14);
    let task_tree = sample(id1, id1_1, id1_1_1, id2);
    assert_eq!(task_tree.len(), 2);
    assert!(task_tree.contains_key(&id1));
    assert!(task_tree.contains_key(&id2));
    let task1 = task_tree.get(&id1).expect("Task1 should exist");
    assert_eq!(task1.description.as_str(), "Task1");
    assert!(task1.subtasks.contains_key(&id1_1));
    let task1_1 = task1.subtasks.get(&id1_1).expect("Task1.1 should exist");
    assert_eq!(task1_1.description.as_str(), "Task1.1");
    assert!(task1_1.subtasks.contains_key(&id1_1_1));
    let task1_1_1 = task1_1.subtasks.get(&id1_1_1).expect("Task1.1.1 should exist");
    assert_eq!(task1_1_1.description.as_str(), "Task1.1.1");
    let task2 = task_tree.get(&id2).expect("Task2 should exist");
    assert_eq!(task2.description.as_str(), "Task2");
    assert!(task2.subtasks.is_empty());
}

#[test]
fn test_task_tree_mixed_ids() {
    let id1 = 7;
    let task_tree = tree(vec![
        node(id1, "Task1", vec![
            Task::new("Task1.1").share(),
            Task::new("Task1.2"),
        ]),
        Task::new("Task2"),
    ]);
    assert_eq!(task_tree.len(), 2);
    assert!(task_tree.contains_key(&id1));
    let task1 = task_tree.get(&id1).expect("Task1 should exist");
    assert_eq!(task1.description.as_str(), "Task1");
    assert_eq!(task1.subtasks.len(), 2);
    let mut subtask_descriptions: Vec<String> =
        (0..task1.subtasks.len()).map(|i| task1.subtasks.value_at(i).description.to_string()).collect();
    subtask_descriptions.sort();
    assert_eq!(subtask_descriptions, ["Task1.1", "Task1.2"]);
}

#[test]
fn test_flatten_tasks() {
    let (id1, id1_1, id1_1_1, id2) = (21, 22, 23, 24);
    let task_tree = sample(id1, id1_1, id1_1_1, id2);
    let flat_list = flatten_tasks(&task_tree);
    assert_eq!(flat_list.len(), 4);
    assert_eq!(flat_list[0], id1);
    assert_eq!(flat_list[1], id1_1);
    assert_eq!(flat_list[2], id1_1_1);
    assert_eq!(flat_list[3], id2);
}

#[test]
fn test_bfs_find_closest_task() {
    let tasks = tree(vec![Task::new("Task1"), Task::new("Task2"), Task::new("Task3"), Task::new("Task4")]);
    let filtered_tasks = PersistentIndexMap::new()
        .insert(*tasks.get_key_at_index(0).unwrap(), Vec::new())
        .insert(*tasks.get_key_at_index(2).unwrap(), Vec::new());
    let selected_task_id = *tasks.get_key_at_index(1).unwrap();
    let closest_task = find_closest_task(&tasks, &filtered_tasks, selected_task_id);
    assert_eq!(closest_task.unwrap(), *tasks.get_key_at_index(2).unwrap());
}

#[test]
fn closest_search_goes_backward_when_nothing_is_ahead() {
    let tasks = tree(vec![Task::new_with_id("A", 1), Task::new_with_id("B", 2), Task::new_with_id("C", 3)]);
    let filtered = PersistentIndexMap::new().insert(1, Vec::new());
    assert_eq!(find_closest_task(&tasks, &filtered, 3), Some(1));
    assert_eq!(find_closest_task(&tasks, &filtered, 99), None);
    let nothing: PersistentIndexMap<Vec<u128>> = PersistentIndexMap::new();
    assert_eq!(find_closest_task(&tasks, &nothing, 2), None);
}

#[test]
fn test_insert_task_at_path() {
    let mut tasks = TaskMap::new();
    let task1 = Task::new("Task1");
    let task2 = Task::new("Task2");
    let task3 = Task::new("Task3");
    let (id1, id2, id3) = (task1.id, task2.id, task3.id);
    tasks = tasks.insert(id1, task1);
    tasks = insert_task_at_path(&tasks, &[id1], task2).unwrap();
    tasks = insert_task_at_path(&tasks, &[id1, id2], task3).unwrap();
    let task1 = tasks.get(&id1).unwrap();
    let task2 = task1.subtasks.get(&id2).unwrap();
    let task3 = task2.subtasks.get(&id3).unwrap();
    assert_eq!(task3.id, id3);
}

#[test]
fn test_insert_task_at_invalid_path() {
    let mut tasks = TaskMap::new();
    let task1 = Task::new_with_id("Task1", 1);
    let task2 = Task::new_with_id("Task2", 2);
    tasks = tasks.insert(task1.id, task1);
    let result = insert_task_at_path(&tasks, &[3], task2);
    assert!(result.is_err());
    assert_eq!(result.unwrap_err(), TreeError::NotFound(3));
}

#[test]
fn test_remove_task_at_path() {
    let (id1, id1_1, id1_1_1, id2) = (31, 32, 33, 34);
    let task_tree = sample(id1, id1_1, id1_1_1, id2);
    let new_task_tree =
        remove_task_at_path(&task_tree, &[id1, id1_1, id1_1_1]).expect("Task should be removed successfully");
    assert!(new_task_tree.contains_key(&id1));
    let task1 = new_task_tree.get(&id1).unwrap();
    let task1_1 = task1.subtasks.get(&id1_1).unwrap();
    assert!(!task1_1.subtasks.contains_key(&id1_1_1));
    assert!(task_tree.get(&id1).unwrap().subtasks.get(&id1_1).unwrap().subtasks.contains_key(&id1_1_1));
}

#[test]
fn test_remove_task_with_invalid_path() {
    let (id1, id2) = (41, 42);
    assert!(id1 != id2, "Id's must not be equal");
    let task_tree = tree(vec![node(id1, "Task1", vec![])]);
    let result = remove_task_at_path(&task_tree, &[id2]);
    assert!(result.is_err());
    assert_eq!(result.unwrap_err(), TreeError::NotFound(id2));
    assert_eq!(remove_task_at_path(&task_tree, &[]).unwrap_err(), TreeError::EmptyPath);
}

#[test]
fn missing_id_deep_in_a_path_is_named() {
    let task_tree = sample(1, 2, 3, 4);
    assert_eq!(remove_task_at_path(&task_tree, &[1, 9, 3]).unwrap_err(), TreeError::NotFound(9));
    assert_eq!(flip_task_at(&task_tree, &[1, 2, 8], 5).unwrap_err(), TreeError::NotFound(8));
}

#[test]
fn flipping_a_parent_completes_its_subtree_and_recomputes_ancestors() {
    let task_tree = sample(1, 2, 3, 4);
    let done = flip_task_at(&task_tree, &[1, 2], 100).unwrap();
    let t1 = done.get(&1).unwrap();
    let t1_1 = t1.subtasks.get(&2).unwrap();
    assert_eq!(t1_1.completed, Some(100));
    assert_eq!(t1_1.subtasks.get(&3).unwrap().completed, Some(100));
    assert_eq!(t1.completed, Some(100));
    assert_eq!(done.get(&4).unwrap().completed, None);
    let reopened = flip_task_at(&done, &[1, 2, 3], 200).unwrap();
    let t1 = reopened.get(&1).unwrap();
    assert_eq!(t1.subtasks.get(&2).unwrap().subtasks.get(&3).unwrap().completed, None);
    assert_eq!(t1.subtasks.get(&2).unwrap().completed, None);
    assert_eq!(t1.completed, None);
}

#[test]
fn flipping_a_leaf_toggles_only_that_leaf() {
    let task_tree = tree(vec![Task::new_with_id("A", 1), Task::new_with_id("B", 2)]);
    let flipped = flip_task_at(&task_tree, &[2], 7).unwrap();
    assert_eq!(flipped.get(&2).unwrap().completed, Some(7));
    assert_eq!(flipped.get(&1).unwrap().completed, None);
    let back = flip_task_at(&flipped, &[2], 8).unwrap();
    assert_eq!(back.get(&2).unwrap().completed, None);
}

#[test]
fn inserting_under_completed_ancestors_reopens_them() {
    let task_tree = sample(1, 2, 3, 4);
    let done = flip_task_at(&task_tree, &[1], 50).unwrap();
    assert_eq!(done.get(&1).unwrap().completed, Some(50));
    let grown = insert_task_and_uncomplete_parents(&done, &[1, 2, 3], Task::new_with_id("new", 9)).unwrap();
    let t1 = grown.get(&1).unwrap();
    let t1_1 = t1.subtasks.get(&2).unwrap();
    let t1_1_1 = t1_1.subtasks.get(&3).unwrap();
    assert_eq!(t1.completed, None);
    assert_eq!(t1_1.completed, None);
    assert_eq!(t1_1_1.completed, None);
    assert!(t1_1_1.subtasks.contains_key(&9));
}

#[test]
fn visible_set_is_in_pre_order_with_paths() {
    let task_tree = tree(vec![
        node(1, "A", vec![node(2, "B #x", vec![node(3, "C", vec![])]), node(4, "D", vec![])]),
        node(5, "E", vec![]),
    ]);
    let c = taskforest::filter::parse_filter_expression("#x").unwrap();
    let vis = filter_tasks(&task_tree, &c);
    assert_eq!(vis.keys_to_vec(), vec![1, 2, 3]);
    assert_eq!(vis.get(&1).unwrap(), &vec![1]);
    assert_eq!(vis.get(&2).unwrap(), &vec![1, 2]);
    assert_eq!(vis.get(&3).unwrap(), &vec![1, 2, 3]);
    let all = filter_tasks(&task_tree, &Condition::AlwaysTrue);
    assert_eq!(all.keys_to_vec(), vec![1, 2, 3, 4, 5]);
}

#[test]
fn test_task_tree_without_ids() {
    let task_tree = tree(vec![
        node(Task::new("x").id, "Task1", vec![node(Task::new("y").id, "Task1.1", vec![Task::new("Task1.1.1")])]),
        Task::new("Task2"),
    ]);
    assert_eq!(task_tree.len(), 2);
    let root_ids: Vec<u128> = task_tree.keys_to_vec();
    let task1 = task_tree.get(&root_ids[0]).expect("Root Task1 should exist");
    assert_eq!(task1.description.as_str(), "Task1");
    assert_eq!(task1.subtasks.len(), 1);
    let task1_1_id = *task1.subtasks.keys_to_vec().last().expect("Task1.1 ID");
    let task1_1 = task1.subtasks.get(&task1_1_id).expect("Task1.1 should exist");
    assert_eq!(task1_1.description.as_str(), "Task1.1");
    let task1_1_1_id = *task1_1.subtasks.keys_to_vec().last().expect("Task1.1.1 ID");
    let task1_1_1 = task1_1.subtasks.get(&task1_1_1_id).expect("Task1.1.1 should exist");
    assert_eq!(task1_1_1.description.as_str(), "Task1.1.1");
    let task2 = task_tree.get(&root_ids[1]).expect("Root Task2 should exist");
    assert_eq!(task2.description.as_str(), "Task2");
    assert!(task2.subtasks.is_empty());
}

#[test]
fn modify_replaces_only_the_target() {
    let task_tree = sample(1, 2, 3, 4);
    let changed = modify_task_at_path(&task_tree, &[1, 2], |t: &Task| t.with_description("renamed #new")).unwrap();
    let t1_1 = changed.get(&1).unwrap().subtasks.get(&2).unwrap();
    assert_eq!(t1_1.description.as_str(), "renamed #new");
    assert_eq!(*t1_1.tags, vec!["new".to_string()]);
    assert!(t1_1.subtasks.contains_key(&3));
    assert_eq!(changed.get(&1).unwrap().description.as_str(), "Task1");
    assert_eq!(
        modify_task_at_path(&task_tree, &[4, 9], |t: &Task| t.share()).unwrap_err(),
        TreeError::NotFound(9)
    );
}
