use task_tracker::errors::IndexError;
use task_tracker::task::Task;
use task_tracker::task_manager::TaskManager;

fn task(description: &str, due_date: &str, important: &str) -> Task {
    Task {
        description: description.to_string(),
        due_date: due_date.to_string(),
        important: important.to_string(),
    }
}

#[test]
fn test_task_manager() {
    let mut test_tasks: Vec<Task> = vec![
        task("Example task one", "1/25/2023", "y"),
        task("Example task two", "3/10/2023", "n"),
        task("Example task three", "5/31/2023", "n"),
    ];

    let mut task_manager = TaskManager::new();

    // All tasks set through set_tasks() come back from fetch_tasks().
    task_manager.set_tasks(test_tasks.clone());
    assert_eq!(task_manager.fetch_tasks(), &test_tasks);

    // Now add a task to the task manager.
    let new_task = task("New task", "6/20/2023", "n");

    // All tasks set and the one extra task added come back from fetch_tasks().
    test_tasks.push(new_task.clone());
    task_manager.add_task(new_task);

    assert_eq!(task_manager.fetch_tasks(), &test_tasks);
}

#[test]
fn add_task_appends_and_keeps_order() {
    let mut manager = TaskManager::new();
    manager.set_tasks(vec![task("first", "", "n"), task("second", "", "y")]);
    manager.add_task(task("third", "tomorrow", "n"));

    let tasks = manager.fetch_tasks();
    assert_eq!(tasks.len(), 3);
    assert_eq!(tasks[0], task("first", "", "n"));
    assert_eq!(tasks[1], task("second", "", "y"));
    assert_eq!(tasks[2], task("third", "tomorrow", "n"));
}

#[test]
fn remove_task_shifts_later_tasks_down() {
    let mut manager = TaskManager::new();
    manager.set_tasks(vec![
        task("a", "1", "y"),
        task("b", "2", "n"),
        task("c", "3", "y"),
        task("d", "4", "n"),
    ]);

    assert_eq!(manager.remove_task(1), Ok(()));

    let tasks = manager.fetch_tasks();
    assert_eq!(tasks.len(), 3);
    assert_eq!(tasks[0], task("a", "1", "y"));
    assert_eq!(tasks[1], task("c", "3", "y"));
    assert_eq!(tasks[2], task("d", "4", "n"));
}

#[test]
fn remove_task_out_of_range_fails_and_changes_nothing() {
    let mut manager = TaskManager::new();
    let tasks = vec![task("a", "1", "y"), task("b", "2", "n")];
    manager.set_tasks(tasks.clone());

    assert_eq!(manager.remove_task(2), Err(IndexError));
    assert_eq!(manager.fetch_tasks(), &tasks);

    assert_eq!(manager.remove_task(17), Err(IndexError));
    assert_eq!(manager.fetch_tasks(), &tasks);
}

#[test]
fn remove_task_on_empty_list_fails() {
    let mut manager = TaskManager::new();
    assert_eq!(manager.remove_task(0), Err(IndexError));
    assert_eq!(manager.fetch_tasks().len(), 0);
}
