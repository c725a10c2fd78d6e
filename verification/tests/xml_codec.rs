use task_tracker::errors::DecodeError;
use task_tracker::task::Task;
use task_tracker::task_manager::TaskManager;
use task_tracker::xml_parser::read;

fn task(description: &str, due_date: &str, important: &str) -> Task {
    Task {
        description: description.to_string(),
        due_date: due_date.to_string(),
        important: important.to_string(),
    }
}

const VALID_TASKS_DOC: &str = r#"<?xml version="1.0" encoding="UTF-8"?>
<Task>
  <Description>Example task one</Description>
  <Due_Date>1/25/2023</Due_Date>
  <Important>y</Important>
</Task>
<Task>
  <Description>Example task two</Description>
  <Due_Date>3/10/2023</Due_Date>
  <Important>n</Important>
</Task>
<Task>
  <Description>Example task three</Description>
  <Due_Date>5/31/2023</Due_Date>
  <Important>n</Important>
</Task>"#;

#[test]
fn read_valid_task_data() {
    let expected_tasks: Vec<Task> = vec![
        task("Example task one", "1/25/2023", "y"),
        task("Example task two", "3/10/2023", "n"),
        task("Example task three", "5/31/2023", "n"),
    ];

    let result_tasks = read(VALID_TASKS_DOC.as_bytes()).unwrap();

    assert_eq!(result_tasks, expected_tasks);
}

#[test]
fn read_invalid_task_data() {
    // Fields padded with surrounding spaces keep the padding verbatim: text is
    // never trimmed at the codec layer.
    let document = "<Task>\
        <Description> Example task one </Description>\
        <Due_Date> 1/25/2023 </Due_Date>\
        <Important> y </Important>\
        </Task>";
    let expected_tasks: Vec<Task> = vec![task(" Example task one ", " 1/25/2023 ", " y ")];

    let result_tasks = read(document.as_bytes()).unwrap();

    assert_eq!(expected_tasks, result_tasks);
}

#[test]
fn read_empty_xml_file() {
    assert!(read(b"").is_err());
}

#[test]
fn read_mismatched_tags_fails() {
    assert_eq!(
        read(b"<Task><Description>x</Task></Description>"),
        Err(DecodeError)
    );
}

#[test]
fn read_whitespace_only_document_fails() {
    assert_eq!(read(b"   \n  "), Err(DecodeError));
}

#[test]
fn test_write_xml() {
    // Define some sample tasks.
    let tasks = vec![
        task("Task 1", "2023-06-10", "n"),
        task("Task 2", "2023-06-15", "y"),
    ];

    let contents = String::from_utf8(task_tracker::xml_parser::write(&tasks)).unwrap();

    // The document has the expected structure and data.
    let expected_xml = r#"<?xml version="1.0" encoding="UTF-8"?>
<Task>
  <Description>Task 1</Description>
  <Due_Date>2023-06-10</Due_Date>
  <Important>n</Important>
</Task>
<Task>
  <Description>Task 2</Description>
  <Due_Date>2023-06-15</Due_Date>
  <Important>y</Important>
</Task>"#;

    assert_eq!(contents, expected_xml);
}

#[test]
fn write_empty_list_is_just_the_declaration() {
    let contents = String::from_utf8(task_tracker::xml_parser::write(&Vec::new())).unwrap();
    assert_eq!(contents, r#"<?xml version="1.0" encoding="UTF-8"?>"#);
}

#[test]
fn round_trip_plain_and_reserved_text() {
    let tasks = vec![
        task("buy <milk> & eggs", "1/1/2024", "y"),
        task("a \"quoted\" task with 'apostrophes'", "someday", "n"),
        task("tabs\tand spaces stay", "  padded  ", "maybe?"),
    ];

    let reloaded = read(&task_tracker::xml_parser::write(&tasks)).unwrap();

    assert_eq!(reloaded, tasks);
}

#[test]
fn round_trip_trailing_empty_fields() {
    // Empty fields survive a round trip when only a suffix of the fields is
    // empty: the decoder fills fields first-empty-first.
    let tasks = vec![task("only a description", "", "")];

    let reloaded = read(&task_tracker::xml_parser::write(&tasks)).unwrap();

    assert_eq!(reloaded, tasks);
}

#[test]
fn decoded_count_matches_block_count() {
    let mut document = String::from(r#"<?xml version="1.0" encoding="UTF-8"?>"#);
    for i in 0..7 {
        document.push_str(&format!(
            "<Task><Description>t{}</Description><Due_Date>d</Due_Date><Important>n</Important></Task>",
            i
        ));
    }

    let tasks = read(document.as_bytes()).unwrap();

    assert_eq!(tasks.len(), 7);
    assert_eq!(tasks[0].description, "t0");
    assert_eq!(tasks[6].description, "t6");
}

#[test]
fn end_to_end_load_add_save_reload() {
    // Load three tasks from a fixture, add a fourth, save, and reload: the
    // result is the original three plus the new one appended.
    let mut manager = TaskManager::new();
    manager.set_tasks(read(VALID_TASKS_DOC.as_bytes()).unwrap());

    let new_task = task("New task", "6/20/2023", "n");
    manager.add_task(new_task.clone());

    let saved = manager.save_tasks();
    let reloaded = read(&saved).unwrap();

    assert_eq!(reloaded.len(), 4);
    assert_eq!(reloaded[0], task("Example task one", "1/25/2023", "y"));
    assert_eq!(reloaded[1], task("Example task two", "3/10/2023", "n"));
    assert_eq!(reloaded[2], task("Example task three", "5/31/2023", "n"));
    assert_eq!(reloaded[3], new_task);
}
