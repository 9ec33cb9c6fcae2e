use task_mgr::{parse_task_date, Task, TaskError};

#[test]
fn new_task_wrong_args_less() {
    let test = Task::new("qwe rty");
    assert!(test.is_err());
}

#[test]
fn new_task_wrong_args_more() {
    let task = Task::new("qwe rty asd fgh zxc asd fgh zxc");
    assert!(task.is_err());
}

#[test]
fn task_created_from_comma_record() {
    let task = Task::new("qwe, rty, 2015-09-05 00:00, fgh").unwrap();
    assert_eq!(task.name, "qwe");
    assert_eq!(task.description, "rty");
    assert_eq!(task.category, "fgh");
    assert!(!task.done);
    assert_eq!(task.date.year(), 2015);
    assert_eq!(task.date.month(), 9);
    assert_eq!(task.date.day(), 5);
    assert_eq!(task.date.hour(), 0);
    assert_eq!(task.date.minute(), 0);
}

#[test]
fn task_with_semicolons_is_one_field() {
    let task = Task::new("qwe; rty; 2015-09-05 00:00; fgh");
    assert_eq!(task.unwrap_err(), TaskError::TaskCreationArgsError);
}

#[test]
fn task_with_bad_date_fails() {
    let task = Task::new("qwe, rty, 2015-13-05 00:00, fgh");
    assert_eq!(task.unwrap_err(), TaskError::TaskDateParseError);
    let task = Task::new("qwe, rty, 2015-09-05, fgh");
    assert_eq!(task.unwrap_err(), TaskError::TaskDateParseError);
}

#[test]
fn task_updated_with_new_values() {
    let mut task = Task::new("qwe, rty, 2015-09-05 00:00, fgh").unwrap();
    let task_updated = task.update("name", "description", "2023-09-05 13:45", "cat");
    assert!(task_updated.is_ok());
    assert_eq!(task.name, "name");
    assert_eq!(task.description, "description");
    assert_eq!(task.category, "cat");
    assert_eq!(task.date.year(), 2023);
    assert_eq!(task.date.hour(), 13);
    assert_eq!(task.date.minute(), 45);
}

#[test]
fn task_update_with_bad_date_keeps_task() {
    let mut task = Task::new("qwe, rty, 2015-09-05 00:00, fgh").unwrap();
    let result = task.update("name", "description", "2023-09-05", "cat");
    assert_eq!(result.unwrap_err(), TaskError::TaskDateParseError);
    assert_eq!(task.name, "qwe");
    assert_eq!(task.date.year(), 2015);
}

#[test]
fn task_marked_done_then_undone() {
    let mut task = Task::new("qwe, rty, 2015-09-05 00:00, fgh").unwrap();
    task.check_done();
    assert!(task.done);
    task.check_done();
    assert!(!task.done);
}

#[test]
fn task_date_reads_and_shows() {
    let d = parse_task_date("2015-09-05 07:08").unwrap();
    assert_eq!(d.to_text(), "2015-09-05 07:08:00");
    assert_eq!(d.month(), 9);
    assert_eq!(d.minute(), 8);
    assert!(parse_task_date("2015-02-29 00:00").is_err());
    assert!(parse_task_date("2016-02-29 00:00").is_ok());
    assert!(parse_task_date("sdfrwe weq123").is_err());
}

#[test]
fn task_created() {
    let task = Task::new("qwe, rty, 2015-09-05 00:00, fgh");
    assert!(task.is_ok());
}

#[test]
fn task_updated() {
    let mut task = Task::new("qwe, rty, 2015-09-05 00:00, fgh").unwrap();
    let task_updated = task.update("name", "description", "2023-09-05 00:00", "cat");
    assert!(task_updated.is_ok());
}

#[test]
fn task_marked_done() {
    let mut task = Task::new("qwe, rty, 2015-09-05 00:00, fgh").unwrap();
    task.check_done();
    assert!(task.done);
}
