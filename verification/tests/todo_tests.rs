use pickledb::{PickleDb, PickleDbDumpPolicy, SerializationMethod};
use todo::store::db_exists;
use todo::tasks::{add_task, list_all_tasks, list_done_tasks, remove_task, task_done};
use todo::TaskError;

/// Helper function to set up a clean state for testing by writing fresh,
/// empty database files.
fn setup_test_db(todo_path: &str, done_path: &str) {
    let mut todo_db = PickleDb::new(
        todo_path,
        PickleDbDumpPolicy::AutoDump,
        SerializationMethod::Json,
    );
    todo_db.dump().expect("Failed to reset TODO database file");
    let mut done_db = PickleDb::new(
        done_path,
        PickleDbDumpPolicy::AutoDump,
        SerializationMethod::Json,
    );
    done_db.dump().expect("Failed to reset DONE database file");
}

#[test]
fn test_add_task() {
    let (todo, done) = ("/tmp/todo_t_add.db", "/tmp/done_t_add.db");
    setup_test_db(todo, done); // Ensure clean state
    add_task(todo, "1:Test Task").expect("Failed to add task");

    let output = list_all_tasks(todo).expect("Failed to list tasks");
    assert!(
        output.contains("1. Test Task"),
        "Expected '1. Test Task' in output: {}",
        output
    );
}

#[test]
fn test_mark_task_done() {
    let (todo, done) = ("/tmp/todo_t_done.db", "/tmp/done_t_done.db");
    setup_test_db(todo, done); // Ensure clean state
    add_task(todo, "1:Test Task").expect("Failed to add task");
    task_done(todo, 1, done).expect("Failed to mark task as done");

    let done_tasks = list_done_tasks(done).expect("Failed to list done tasks");
    assert!(
        done_tasks.contains("1. Test Task"),
        "Expected '1. Test Task' in done tasks: {}",
        done_tasks
    );

    let todo_tasks = list_all_tasks(todo).expect("Failed to list tasks");
    assert!(
        !todo_tasks.contains("1. Test Task"),
        "Task '1. Test Task' should not be present in the TODO list: {}",
        todo_tasks
    );
}

#[test]
fn test_remove_task() {
    let (todo, done) = ("/tmp/todo_t_rem.db", "/tmp/done_t_rem.db");
    setup_test_db(todo, done); // Ensure clean state
    add_task(todo, "1:Test Task").expect("Failed to add task");
    remove_task(todo, 1).expect("Failed to remove task");

    let output = list_all_tasks(todo).expect("Failed to list tasks");
    assert!(
        !output.contains("1. Test Task"),
        "Task '1. Test Task' should be removed from the list: {}",
        output
    );
}

#[test]
fn test_invalid_task_format() {
    let (todo, done) = ("/tmp/todo_t_fmt.db", "/tmp/done_t_fmt.db");
    setup_test_db(todo, done); // Ensure clean state
    let result = add_task(todo, "1, New task"); // Invalid format

    assert!(
        result.is_err(),
        "Adding an invalid task format should return an error. Result: {:?}",
        result
    );
}

#[test]
fn test_list_tasks_and_done_tasks() {
    let (todo, done) = ("/tmp/todo_t_both.db", "/tmp/done_t_both.db");
    setup_test_db(todo, done); // Ensure clean state

    // Add tasks
    add_task(todo, "1:Test Task").expect("Failed to add task");
    add_task(todo, "2:Another Task").expect("Failed to add another task");

    // Mark a task as done
    task_done(todo, 1, done).expect("Failed to mark task as done");

    // Verify TODO list
    let todo_tasks = list_all_tasks(todo).expect("Failed to list tasks");
    assert!(
        todo_tasks.contains("2. Another Task"),
        "Task '2. Another Task' should be present in the TODO list. Output: {}",
        todo_tasks
    );
    assert!(
        !todo_tasks.contains("1. Test Task"),
        "Task '1. Test Task' should not be present in the TODO list. Output: {}",
        todo_tasks
    );

    // Verify DONE list
    let done_tasks = list_done_tasks(done).expect("Failed to list done tasks");
    assert!(
        done_tasks.contains("1. Test Task"),
        "Task '1. Test Task' should be present in the DONE list. Output: {}",
        done_tasks
    );
    assert!(
        !done_tasks.contains("2. Another Task"),
        "Task '2. Another Task' should not be present in the DONE list. Output: {}",
        done_tasks
    );
}

#[test]
fn test_remove_non_existent_task() {
    let (todo, done) = ("/tmp/todo_t_rne.db", "/tmp/done_t_rne.db");
    setup_test_db(todo, done); // Ensure clean state

    // Adding tasks
    add_task(todo, "1:Test Task").expect("Failed to add task");
    add_task(todo, "2:Another Task").expect("Failed to add another task");

    // Attempt to remove a non-existent task
    let result = remove_task(todo, 99); // Task ID 99 does not exist

    // Verify that the result is an error and it matches the expected error message
    assert!(
        result.is_err(),
        "Expected an error when removing a non-existent task, but got: {:?}",
        result
    );

    if let Err(e) = result {
        assert_eq!(
            e.message(),
            "Task not found",
            "Error message should be 'Task not found'"
        );
    }

    // Verify that the TODO list still contains the tasks that were added
    let todo_tasks = list_all_tasks(todo).expect("Failed to list tasks");
    assert!(
        todo_tasks.contains("1. Test Task"),
        "The TODO list should contain 'Test Task'"
    );
    assert!(
        todo_tasks.contains("2. Another Task"),
        "The TODO list should contain 'Another Task'"
    );
}

#[test]
fn test_duplicate_add_leaves_store_unchanged() {
    let (todo, done) = ("/tmp/todo_t_dup.db", "/tmp/done_t_dup.db");
    setup_test_db(todo, done);
    add_task(todo, "1:Test Task").expect("Failed to add task");

    let result = add_task(todo, "1:Other Task");
    assert_eq!(result, Err(TaskError::AlreadyExists));
    assert_eq!(result.unwrap_err().message(), "Task already exists");

    let output = list_all_tasks(todo).expect("Failed to list tasks");
    assert!(output.contains("1. Test Task"));
    assert!(!output.contains("1. Other Task"));
}

#[test]
fn test_complete_non_existent_task() {
    let (todo, done) = ("/tmp/todo_t_cne.db", "/tmp/done_t_cne.db");
    setup_test_db(todo, done);
    add_task(todo, "1:Test Task").expect("Failed to add task");

    let result = task_done(todo, 7, done);
    assert_eq!(result, Err(TaskError::NotFound));

    let todo_tasks = list_all_tasks(todo).expect("Failed to list tasks");
    assert!(todo_tasks.contains("1. Test Task"));
    let done_tasks = list_done_tasks(done).expect("Failed to list done tasks");
    assert!(!done_tasks.contains("1. Test Task"));
}

#[test]
fn test_round_trip_add_then_complete() {
    let (todo, done) = ("/tmp/todo_t_rt.db", "/tmp/done_t_rt.db");
    setup_test_db(todo, done);
    add_task(todo, "1:Test Task").expect("Failed to add task");
    let output = list_all_tasks(todo).expect("Failed to list tasks");
    assert!(output.contains("1. Test Task"));

    task_done(todo, 1, done).expect("Failed to mark task as done");
    let todo_tasks = list_all_tasks(todo).expect("Failed to list tasks");
    assert!(!todo_tasks.contains("1. Test Task"));
    let done_tasks = list_done_tasks(done).expect("Failed to list done tasks");
    assert!(done_tasks.contains("1. Test Task"));
}

#[test]
fn test_exact_listings_after_scenario() {
    let (todo, done) = ("/tmp/todo_t_exact.db", "/tmp/done_t_exact.db");
    setup_test_db(todo, done);
    add_task(todo, "1:Test Task").expect("Failed to add task");
    add_task(todo, "2:Another Task").expect("Failed to add another task");
    task_done(todo, 1, done).expect("Failed to mark task as done");

    let todo_tasks = list_all_tasks(todo).expect("Failed to list tasks");
    assert_eq!(todo_tasks, "You have the following tasks:\n2. Another Task\n");
    let done_tasks = list_done_tasks(done).expect("Failed to list done tasks");
    assert_eq!(
        done_tasks,
        "You have completed the following tasks:\n1. Test Task\n"
    );
}

#[test]
fn test_listing_sorts_numerically() {
    let (todo, done) = ("/tmp/todo_t_sort.db", "/tmp/done_t_sort.db");
    setup_test_db(todo, done);
    add_task(todo, "10:Third").expect("Failed to add task");
    add_task(todo, "2:Second").expect("Failed to add task");
    add_task(todo, "1:First").expect("Failed to add task");

    let output = list_all_tasks(todo).expect("Failed to list tasks");
    assert_eq!(
        output,
        "You have the following tasks:\n1. First\n2. Second\n10. Third\n"
    );
}

#[test]
fn test_empty_description() {
    let (todo, done) = ("/tmp/todo_t_empty.db", "/tmp/done_t_empty.db");
    setup_test_db(todo, done);
    add_task(todo, "1:").expect("Failed to add task");
    let output = list_all_tasks(todo).expect("Failed to list tasks");
    assert_eq!(output, "You have the following tasks:\n1. \n");
}

#[test]
fn test_invalid_formats_rejected() {
    let (todo, done) = ("/tmp/todo_t_bad.db", "/tmp/done_t_bad.db");
    setup_test_db(todo, done);
    for bad in ["", "no colon", "a:b:c", "abc:desc", "-1:desc", "+1:desc"] {
        let result = add_task(todo, bad);
        assert_eq!(result, Err(TaskError::InvalidFormat), "input: {:?}", bad);
        assert_eq!(result.unwrap_err().message(), "Invalid task format");
    }
    // An ID too large for the machine word is rejected as malformed too.
    let result = add_task(todo, "18446744073709551616:huge");
    assert_eq!(result, Err(TaskError::InvalidFormat));
    let output = list_all_tasks(todo).expect("Failed to list tasks");
    assert_eq!(output, "You have the following tasks:\n");
}

#[test]
fn test_largest_id_accepted() {
    let (todo, done) = ("/tmp/todo_t_max.db", "/tmp/done_t_max.db");
    setup_test_db(todo, done);
    add_task(todo, "18446744073709551615:big").expect("Failed to add task");
    let output = list_all_tasks(todo).expect("Failed to list tasks");
    assert_eq!(
        output,
        "You have the following tasks:\n18446744073709551615. big\n"
    );
}

#[test]
fn test_completions_accumulate_per_id() {
    let (todo, done) = ("/tmp/todo_t_acc.db", "/tmp/done_t_acc.db");
    setup_test_db(todo, done);
    add_task(todo, "1:First Pass").expect("Failed to add task");
    task_done(todo, 1, done).expect("Failed to mark task as done");
    add_task(todo, "1:Second Pass").expect("Failed to re-add task");
    task_done(todo, 1, done).expect("Failed to mark task as done again");

    let done_tasks = list_done_tasks(done).expect("Failed to list done tasks");
    assert_eq!(
        done_tasks,
        "You have completed the following tasks:\n1. First Pass\n1. Second Pass\n"
    );
}

#[test]
fn test_storage_error_on_non_string_value() {
    let (todo, done) = ("/tmp/todo_t_corrupt1.db", "/tmp/done_t_corrupt1.db");
    setup_test_db(todo, done);
    let mut db = PickleDb::load(todo, PickleDbDumpPolicy::AutoDump, SerializationMethod::Json)
        .expect("Failed to open store");
    db.set("1", &5i32).expect("Failed to write value");
    drop(db);

    let result = list_all_tasks(todo);
    assert_eq!(result, Err(TaskError::Storage));
    assert_eq!(result.unwrap_err().message(), "Storage error");
}

#[test]
fn test_storage_error_on_non_numeric_key() {
    let (todo, done) = ("/tmp/todo_t_corrupt2.db", "/tmp/done_t_corrupt2.db");
    setup_test_db(todo, done);
    let mut db = PickleDb::load(todo, PickleDbDumpPolicy::AutoDump, SerializationMethod::Json)
        .expect("Failed to open store");
    db.set("abc", &String::from("stray"))
        .expect("Failed to write value");
    drop(db);

    let result = list_all_tasks(todo);
    assert_eq!(result, Err(TaskError::Storage));
}

#[test]
fn test_missing_database_listings() {
    let todo = "/tmp/todo_t_missing_nowhere.db";
    let done = "/tmp/done_t_missing_nowhere.db";
    assert!(!db_exists(todo));
    assert_eq!(
        list_all_tasks(todo).expect("Listing should not fail"),
        "Database doesn't exist"
    );
    assert_eq!(
        list_done_tasks(done).expect("Listing should not fail"),
        "'done.db' Database doesn't exist or no tasks completed yet"
    );
}

#[test]
fn test_db_exists_after_setup() {
    let (todo, done) = ("/tmp/todo_t_exists.db", "/tmp/done_t_exists.db");
    setup_test_db(todo, done);
    assert!(db_exists(todo));
    assert!(db_exists(done));
}
