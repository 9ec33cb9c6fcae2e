use task_mgr::{Task, TaskError, TaskManager, TaskMgrError};

fn store_of(records: &[&str]) -> TaskManager {
    let mut mgr = TaskManager::new();
    for r in records {
        mgr.add(Task::new(r).unwrap()).unwrap();
    }
    mgr
}

#[test]
fn select_from_empty() {
    let mgr = TaskManager::new();
    let query = "select * where name=zxc".to_string();
    let result = mgr.select(&query);

    assert!(result.is_ok() && result.unwrap().len() == 0);
}

#[test]
fn command_add_many_args() {
    let mut mgr = TaskManager::new();
    let command = "add qwe; rty; 2015-09-05 00:00; fgh; asd";
    let result = mgr.exec_command(command);
    println!("\n\n{:?}\n\n", mgr.get_tasks());
    assert!(result.is_err());
}

#[test]
fn command_add_little_args() {
    let mut mgr = TaskManager::new();
    let command = "add qwe, rty";
    let result = mgr.exec_command(command);
    println!("\n\n{:?}\n\n", mgr.get_tasks());
    assert!(result.is_err());
}

#[test]
fn command_add_wrong_args() {
    let mut mgr = TaskManager::new();
    let command = "add ,,,qwe,, rty,";
    let result = mgr.exec_command(command);
    println!("\n\n{:?}\n\n", mgr.get_tasks());
    assert!(result.is_err());
}

#[test]
fn command_delete_wrong_args() {
    let mut mgr = TaskManager::new();
    let _ = mgr.exec_command("add qwe; rty; 2015-09-05 00:00; fgh");
    let result = mgr.exec_command("delete qweasdasdasdasd");
    assert!(result.is_err());
}

#[test]
fn command_wrong_command() {
    let mut mgr = TaskManager::new();
    let command = mgr.exec_command("zxcvzxcvzxcv");
    assert!(command.is_err());
}

#[test]
fn command_done_task_not_found() {
    let mut mgr = TaskManager::new();
    let add = "add qwe; rty; 2015-09-05 00:00; fgh";
    let _ = mgr.exec_command(add);
    let result = mgr.exec_command("done zxc");
    assert!(result.is_err());
}

#[test]
fn command_update_task_not_found() {
    let mut mgr = TaskManager::new();
    let add = "add qwe; rty; 2015-09-05 00:00; fgh";
    let _ = mgr.exec_command(add);
    let result = mgr.exec_command("update asd; zxc; lmao; 2022-09-05 00:00; chores");
    assert!(result.is_err());
}

#[test]
fn command_update_wrong_args() {
    let mut mgr = TaskManager::new();
    let add = "add qwe; rty; 2015-09-05 00:00; fgh";
    let _ = mgr.exec_command(add);
    let result = mgr.exec_command("update qwe; zxc");
    assert!(result.is_err());
}

#[test]
fn command_update_wrong_date() {
    let mut mgr = TaskManager::new();
    let add = "add qwe; rty; 2015-09-05 00:00; fgh";
    let _ = mgr.exec_command(add);
    let result = mgr.exec_command("update qwe; zxc; lmao; 2022-09-02; chores");
    assert!(result.is_err());
}

#[test]
fn command_select_by_wrong_name() {
    let mut mgr = TaskManager::new();
    let add = "add qwe; rty; 2015-09-05 00:00; fgh";
    let _ = mgr.exec_command(add);
    let result = mgr.exec_command("select * where name=zxc");
    assert!(result.is_err());
}

#[test]
fn command_select_by_wrong_date() {
    let mut mgr = TaskManager::new();
    let add = "add qwe; rty; 2015-09-05 00:00; fgh";
    let _ = mgr.exec_command(add);
    let result = mgr.exec_command("select * where date=sdfrwe weq123");
    assert!(result.is_err());
}

#[test]
fn command_select_by_date_not_found() {
    let mut mgr = TaskManager::new();
    let add = "add qwe; rty; 2015-09-05 00:00; fgh";
    let _ = mgr.exec_command(add);
    let result = mgr.exec_command("select * where date=2022-09-05 00:00");
    assert!(result.is_err());
}

#[test]
fn store_adds_and_finds() {
    let mgr = store_of(&["qwe, rty, 2015-09-05 00:00, fgh"]);
    assert_eq!(mgr.get_tasks().len(), 1);
    assert_eq!(mgr.find("qwe").unwrap().description, "rty");
    assert_eq!(mgr.find("rty").unwrap_err(), TaskMgrError::TaskNotFound);
}

#[test]
fn store_check_done_toggles() {
    let mut mgr = store_of(&["qwe, rty, 2015-09-05 00:00, fgh"]);
    assert!(mgr.check_done("qwe").unwrap().done);
    assert!(mgr.find("qwe").unwrap().done);
    assert!(!mgr.check_done("qwe").unwrap().done);
    assert!(!mgr.find("qwe").unwrap().done);
    assert_eq!(mgr.check_done("rty").unwrap_err(), TaskMgrError::TaskNotFound);
}

#[test]
fn store_delete_then_find_fails() {
    let mut mgr = store_of(&["qwe, rty, 2015-09-05 00:00, fgh"]);
    assert!(mgr.delete("qwe").is_ok());
    assert_eq!(mgr.find("qwe").unwrap_err(), TaskMgrError::TaskNotFound);
    assert_eq!(mgr.delete("qwe").unwrap_err(), TaskMgrError::TaskNotFound);
    assert_eq!(mgr.get_tasks().len(), 0);
}

#[test]
fn store_delete_nonexistent_fails() {
    let mut mgr = store_of(&["qwe, rty, 2015-09-05 00:00, fgh"]);
    assert_eq!(mgr.delete("rty").unwrap_err(), TaskMgrError::TaskNotFound);
    assert_eq!(mgr.get_tasks().len(), 1);
}

#[test]
fn store_update_changes_the_task() {
    let mut mgr = store_of(&["qwe, rty, 2015-09-05 00:00, fgh"]);
    assert!(mgr.update("qwe", "zxc", "vbn", "2015-12-05 00:00", "iop").is_ok());
    let t = mgr.find("zxc").unwrap();
    assert_eq!(t.description, "vbn");
    assert_eq!(t.category, "iop");
    assert_eq!(t.date.month(), 12);
    assert!(mgr.find("qwe").is_err());
}

#[test]
fn store_update_missing_name_leaves_store() {
    let mut mgr = store_of(&["qwe, rty, 2015-09-05 00:00, fgh"]);
    let r = mgr.update("test", "zxc", "vbn", "2015-12-05 00:00", "iop");
    assert_eq!(r.unwrap_err(), TaskMgrError::TaskUpdateError);
    let t = mgr.find("qwe").unwrap();
    assert_eq!(t.description, "rty");
    assert_eq!(t.date.month(), 9);
}

#[test]
fn store_update_bad_date_leaves_task() {
    let mut mgr = store_of(&["qwe, rty, 2015-09-05 00:00, fgh"]);
    let r = mgr.update("qwe", "zxc", "vbn", "2015-12-05", "iop");
    assert_eq!(
        r.unwrap_err(),
        TaskMgrError::TaskUpdateErrorPropTask(TaskError::TaskDateParseError)
    );
    let t = mgr.find("qwe").unwrap();
    assert_eq!(t.description, "rty");
    assert_eq!(t.category, "fgh");
    assert_eq!(t.date.month(), 9);
    assert!(mgr.find("zxc").is_err());
}

#[test]
fn select_by_name_variants() {
    let mgr = store_of(&["qwe, rty, 2015-09-05 00:00, fgh"]);
    for q in ["select * where name=qwe", "select * where name=\"qwe\"", "  select * where name = qwe  "] {
        let result = mgr.select(&q.to_string()).unwrap();
        assert_eq!(result.len(), 1);
        assert_eq!(result[0].name, mgr.get_tasks()[0].name);
    }
}

#[test]
fn select_quoted_value_with_space() {
    let mgr = store_of(&["qwe asd, rty, 2015-09-05 00:00, fgh", "qwe, rty, 2015-09-05 00:00, fgh"]);
    let result = mgr.select(&"select * where name=\"qwe asd\"".to_string()).unwrap();
    assert_eq!(result.len(), 1);
    assert_eq!(result[0].name, "qwe asd");
}

#[test]
fn select_like_matches_substrings() {
    let mgr = store_of(&[
        "task1, desc1, 2015-09-05 00:00, cat1",
        "task2, desc2, 2015-09-06 00:00, cat2",
        "other, desc3, 2015-09-07 00:00, cat3",
    ]);
    let result = mgr.select(&"select * where name like \"task\"".to_string()).unwrap();
    assert_eq!(result.len(), 2);
    assert_eq!(result[0].name, "task1");
    assert_eq!(result[1].name, "task2");
    let result = mgr.select(&"select * where name like \"qwe\"".to_string()).unwrap();
    assert_eq!(result.len(), 0);
}

#[test]
fn select_all_and_errors() {
    let mgr = store_of(&["qwe, rty, 2015-09-05 00:00, fgh", "zxc, asd, 2020-09-05 00:00, tyu"]);
    assert_eq!(mgr.select(&"select *".to_string()).unwrap().len(), 2);
    assert_eq!(mgr.select(&"  select *  ".to_string()).unwrap().len(), 2);
    assert_eq!(mgr.select(&"   ".to_string()).unwrap_err(), TaskMgrError::WrongQuery);
    assert!(matches!(
        mgr.select(&"select * where".to_string()),
        Err(TaskMgrError::WrongQueryPropExpr(_))
    ));
    assert!(mgr.select(&"seasdasxzc aqwewnzxcv asdq".to_string()).is_err());
    let result = mgr.select(&"select * where name=zxc".to_string()).unwrap();
    assert_eq!(result.len(), 1);
    assert_eq!(result[0].name, "zxc");
    assert_eq!(mgr.select(&"select * where name=gru".to_string()).unwrap().len(), 0);
}

#[test]
fn select_by_date_and_date_errors() {
    let mgr = store_of(&["qwe, rty, 2015-09-05 00:00, fgh", "zxc, asd, 2020-09-05 00:00, tyu"]);
    let result = mgr.select(&"select * where date=2015-09-05 00:00".to_string()).unwrap();
    assert_eq!(result.len(), 1);
    assert_eq!(result[0].name, "qwe");
    let result = mgr.select(&"select * where date>2016-01-01 00:00".to_string()).unwrap();
    assert_eq!(result.len(), 1);
    assert_eq!(result[0].name, "zxc");
    let result = mgr.select(&"select * where date like 2020-09-05 00:00".to_string()).unwrap();
    assert_eq!(result.len(), 1);
    assert_eq!(
        mgr.select(&"select * where date=sdfrwe weq123".to_string()).unwrap_err(),
        TaskMgrError::GeneralTaskError(TaskError::TaskDateParseError)
    );
    let empty = TaskManager::new();
    assert_eq!(
        empty.select(&"select * where date=2015-09-05".to_string()).unwrap_err(),
        TaskMgrError::GeneralTaskError(TaskError::TaskDateParseError)
    );
}

#[test]
fn select_by_status_as_text() {
    let mut mgr = store_of(&["qwe, rty, 2015-09-05 00:00, fgh", "zxc, asd, 2020-09-05 00:00, tyu"]);
    mgr.check_done("zxc").unwrap();
    let result = mgr.select(&"select * where status=true".to_string()).unwrap();
    assert_eq!(result.len(), 1);
    assert_eq!(result[0].name, "zxc");
    let result = mgr.select(&"select * where status like \"tru\"".to_string()).unwrap();
    assert_eq!(result.len(), 1);
    let result = mgr.select(&"select * where status<true".to_string()).unwrap();
    assert_eq!(result.len(), 1);
    assert_eq!(result[0].name, "qwe");
}

#[test]
fn select_narrows_clause_by_clause() {
    let mgr = store_of(&[
        "a1, x, 2015-09-05 00:00, work",
        "a2, y, 2015-09-05 00:00, home",
        "b1, x, 2015-09-05 00:00, work",
    ]);
    let q = "select * where category=work and name like a".to_string();
    let result = mgr.select(&q).unwrap();
    assert_eq!(result.len(), 1);
    assert_eq!(result[0].name, "a1");
    let q = "select * where name>=a2 and description<=x".to_string();
    let result = mgr.select(&q).unwrap();
    assert_eq!(result.len(), 1);
    assert_eq!(result[0].name, "b1");
}

#[test]
fn commands_drive_the_store() {
    let mut mgr = TaskManager::new();
    assert_eq!(mgr.exec_command("add qwe, rty, 2015-09-05 00:00, fgh").unwrap(), "Task added");
    assert_eq!(
        mgr.exec_command("select * where name=qwe").unwrap(),
        "Selected:\n- qwe"
    );
    assert_eq!(
        mgr.exec_command("done qwe").unwrap(),
        "Task marked as done: qwe, done: true"
    );
    assert!(mgr.find("qwe").unwrap().done);
    assert_eq!(
        mgr.exec_command("update qwe; zxc; lmao; 2022-09-05 00:00; chores").unwrap(),
        "Task updated"
    );
    assert!(mgr.exec_command("select * where date=2022-09-05 00:00").is_ok());
    assert_eq!(mgr.exec_command("delete zxc").unwrap(), "Task deleted");
    assert!(mgr.find("zxc").is_err());
    assert_eq!(mgr.exec_command("select *").unwrap_err(), TaskMgrError::TaskNotFound);
}

#[test]
fn command_errors_by_kind() {
    let mut mgr = TaskManager::new();
    assert_eq!(
        mgr.exec_command("add qwe, rty").unwrap_err(),
        TaskMgrError::TaskCreationErrorProp(TaskError::TaskCreationArgsError)
    );
    assert_eq!(
        mgr.exec_command("add qwe, rty, 2015-09-05, fgh").unwrap_err(),
        TaskMgrError::TaskCreationErrorProp(TaskError::TaskDateParseError)
    );
    assert_eq!(mgr.exec_command("delete qwe").unwrap_err(), TaskMgrError::TaskNotFound);
    assert_eq!(mgr.exec_command("done qwe").unwrap_err(), TaskMgrError::TaskNotFound);
    assert_eq!(mgr.exec_command("update a; b").unwrap_err(), TaskMgrError::WrongQuery);
    assert_eq!(
        mgr.exec_command("update a; b; c; 2015-09-05 00:00; d").unwrap_err(),
        TaskMgrError::TaskUpdateError
    );
    assert_eq!(mgr.exec_command("").unwrap_err(), TaskMgrError::WrongCommand);
    assert_eq!(mgr.exec_command("frobnicate").unwrap_err(), TaskMgrError::WrongCommand);
}

#[test]
fn new_task_added() {
    let mut mgr = TaskManager::new();
    let task = Task::new("qwe, rty, 2015-09-05 00:00, fgh").unwrap();
    let test = mgr.add(task);
    assert!(test.is_ok());
}

#[test]
fn new_task_is_stored() {
    let mut mgr = TaskManager::new();
    let task = Task::new("qwe, rty, 2015-09-05 00:00, fgh").unwrap();
    mgr.add(task).unwrap();
    let test = mgr.find("qwe");
    assert!(test.is_ok());
}

#[test]
fn check_done() {
    let mut mgr = TaskManager::new();
    let task = Task::new("qwe, rty, 2015-09-05 00:00, fgh").unwrap();
    mgr.add(task).unwrap();
    mgr.check_done("qwe").unwrap();
    let task = mgr.find("qwe").unwrap();
    assert!(task.done);
}

#[test]
fn check_done_wrong_task_name() {
    let mut mgr = TaskManager::new();
    let task = Task::new("qwe, rty, 2015-09-05 00:00, fgh").unwrap();
    mgr.add(task).unwrap();
    let phantom_task_done = mgr.check_done("rty");
    assert!(phantom_task_done.is_err());
}

#[test]
fn delete() {
    let mut mgr = TaskManager::new();
    let task = Task::new("qwe, rty, 2015-09-05 00:00, fgh").unwrap();
    mgr.add(task).unwrap();
    let deleted_result = mgr.delete("qwe");
    let find_result = mgr.find("qwe");
    assert!(deleted_result.is_ok() && find_result.is_err());
}

#[test]
fn delete_non_existent() {
    let mut mgr = TaskManager::new();
    let task = Task::new("qwe, rty, 2015-09-05 00:00, fgh").unwrap();
    mgr.add(task).unwrap();
    let deleted_result = mgr.delete("rty");
    assert!(deleted_result.is_err());
}

#[test]
fn update() {
    let mut mgr = TaskManager::new();
    let task = Task::new("qwe, rty, 2015-09-05 00:00, fgh").unwrap();
    mgr.add(task).unwrap();
    let (name, description, date, category) = ("zxc", "vbn", "2015-12-05 00:00", "iop");
    let updated = mgr.update("qwe", name, description, date, category);
    assert!(updated.is_ok());
}

#[test]
fn update_wrong_task_name() {
    let mut mgr = TaskManager::new();
    let task = Task::new("qwe, rty, 2015-09-05 00:00, fgh").unwrap();
    mgr.add(task).unwrap();
    let (name, description, date, category) = ("zxc", "vbn", "2015-12-05 00:00", "iop");
    let updated = mgr.update("test", name, description, date, category);
    assert!(updated.is_err());
}

#[test]
fn update_values_updated() {
    let mut mgr = TaskManager::new();
    let task = Task::new("qwe, rty, 2015-09-05 00:00, fgh").unwrap();
    mgr.add(task).unwrap();
    let (name, description, date, category) = ("zxc", "vbn", "2015-12-05 00:00", "iop");
    mgr.update("qwe", name, description, date, category).unwrap();
    let updated = mgr.find("zxc");
    assert!(updated.is_ok());
}

#[test]
fn select() {
    let mut mgr = TaskManager::new();
    let task = Task::new("qwe, rty, 2015-09-05 00:00, fgh").unwrap();
    mgr.add(task).unwrap();
    let query = "select * where name=qwe".to_string();
    let result = mgr.select(&query);

    assert!(result.is_ok());
}

#[test]
fn select_quotes() {
    let mut mgr = TaskManager::new();
    let task = Task::new("qwe, rty, 2015-09-05 00:00, fgh").unwrap();
    mgr.add(task).unwrap();
    let query = "select * where name=\"qwe\"".to_string();
    let result = mgr.select(&query);

    assert!(result.is_ok());
}

#[test]
fn select_quotes_space() {
    let mut mgr = TaskManager::new();
    let task = Task::new("qwe asd, rty, 2015-09-05 00:00, fgh").unwrap();
    mgr.add(task).unwrap();
    let query = "select * where name=\"qwe asd\"".to_string();
    let result = mgr.select(&query);

    assert!(result.is_ok());
}

#[test]
fn select_quotes_like() {
    let mut mgr = TaskManager::new();
    let task = Task::new("qwe asd, rty, 2015-09-05 00:00, fgh").unwrap();
    mgr.add(task).unwrap();
    let query = "select * where name like \"qwe\"".to_string();
    let result = mgr.select(&query);

    assert!(result.is_ok());
}

#[test]
fn select_unwrap() {
    let mut mgr = TaskManager::new();
    let task = Task::new("qwe, rty, 2015-09-05 00:00, fgh").unwrap();
    mgr.add(task).unwrap();
    let query = "select * where name=qwe".to_string();
    let result = mgr.select(&query).unwrap();

    assert_eq!(result[0].name, mgr.get_tasks()[0].name);
}

#[test]
fn select_error_gibberish() {
    let mut mgr = TaskManager::new();
    let task = Task::new("qwe, rty, 2015-09-05 00:00, fgh").unwrap();
    mgr.add(task).unwrap();
    let query = "seasdasxzc aqwewnzxcv asdq".to_string();
    let result = mgr.select(&query);

    assert!(result.is_err());
}

#[test]
fn select_by_date() {
    let mut mgr = TaskManager::new();
    let task = Task::new("qwe, rty, 2015-09-05 00:00, fgh").unwrap();
    mgr.add(task).unwrap();
    let query = "select * where date=2015-09-05 00:00".to_string();
    let result = mgr.select(&query);

    assert!(result.is_ok());
}

#[test]
fn select_multiple() {
    let mut mgr = TaskManager::new();
    let task = Task::new("qwe, rty, 2015-09-05 00:00, fgh").unwrap();
    let task2 = Task::new("zxc, asd, 2020-09-05 00:00, tyu").unwrap();
    mgr.add(task).unwrap();
    mgr.add(task2).unwrap();
    let query = "select *".to_string();
    let result = mgr.select(&query);

    assert!(result.is_ok());
}

#[test]
fn select_multiple_error() {
    let mut mgr = TaskManager::new();
    let task = Task::new("qwe, rty, 2015-09-05 00:00, fgh").unwrap();
    let task2 = Task::new("zxc, asd, 2020-09-05 00:00, tyu").unwrap();
    mgr.add(task).unwrap();
    mgr.add(task2).unwrap();
    let query = "select * where".to_string();
    let result = mgr.select(&query);

    assert!(result.is_err());
}

#[test]
fn select_from_multiple() {
    let mut mgr = TaskManager::new();
    let task = Task::new("qwe, rty, 2015-09-05 00:00, fgh").unwrap();
    let task2 = Task::new("zxc, asd, 2020-09-05 00:00, tyu").unwrap();
    mgr.add(task).unwrap();
    mgr.add(task2).unwrap();
    let query = "select * where name=zxc".to_string();
    let result = mgr.select(&query);

    assert!(result.is_ok());
}

#[test]
fn select_from_multiple_len() {
    let mut mgr = TaskManager::new();
    let task = Task::new("qwe, rty, 2015-09-05 00:00, fgh").unwrap();
    let task2 = Task::new("zxc, asd, 2020-09-05 00:00, tyu").unwrap();
    mgr.add(task).unwrap();
    mgr.add(task2).unwrap();
    let query = "select * where name=zxc".to_string();
    let result = mgr.select(&query).unwrap();

    assert_eq!(result.len(), 1);
}

#[test]
fn select_from_multiple_not_found() {
    let mut mgr = TaskManager::new();
    let task = Task::new("qwe, rty, 2015-09-05 00:00, fgh").unwrap();
    let task2 = Task::new("zxc, asd, 2020-09-05 00:00, tyu").unwrap();
    mgr.add(task).unwrap();
    mgr.add(task2).unwrap();
    let query = "select * where name=gru".to_string();
    let result = mgr.select(&query).unwrap();

    assert_eq!(result.len(), 0);
}

#[test]
fn command_add() {
    let mut mgr = TaskManager::new();
    let command = "add qwe, rty, 2015-09-05 00:00, fgh";
    let result = mgr.exec_command(command);
    assert!(result.is_ok());
}

#[test]
fn command_delete() {
    let mut mgr = TaskManager::new();
    mgr.exec_command("add qwe, rty, 2015-09-05 00:00, fgh").unwrap();
    let result = mgr.exec_command("delete qwe");
    assert!(result.is_ok() && mgr.find("qwe").is_err());
}

#[test]
fn command_done() {
    let mut mgr = TaskManager::new();
    let add = "add qwe, rty, 2015-09-05 00:00, fgh";
    mgr.exec_command(add).unwrap();

    let before = mgr.find("qwe").unwrap().done;
    mgr.exec_command("done qwe");
    let after = mgr.find("qwe").unwrap().done;

    assert_ne!(before, after);
}

#[test]
fn command_update() {
    let mut mgr = TaskManager::new();
    let add = "add qwe, rty, 2015-09-05 00:00, fgh";
    mgr.exec_command(add).unwrap();
    let result = mgr.exec_command("update qwe; zxc; lmao; 2022-09-05 00:00; chores");
    assert!(result.is_ok());
}

#[test]
fn command_select_by_name() {
    let mut mgr = TaskManager::new();
    let add = "add qwe, rty, 2015-09-05 00:00, fgh";
    mgr.exec_command(add).unwrap();
    let result = mgr.exec_command("select * where name=qwe");
    assert!(result.is_ok());
}

#[test]
fn command_select_by_date() {
    let mut mgr = TaskManager::new();
    let add = "add qwe, rty, 2015-09-05 00:00, fgh";
    mgr.exec_command(add).unwrap();
    let result = mgr.exec_command("select * where date=2015-09-05 00:00");
    assert!(result.is_ok());
}

#[test]
fn select_partial_match() {
    let mut mgr = TaskManager::new();
    let task1 = Task::new("task1, desc1, 2015-09-05 00:00, cat1").unwrap();
    let task2 = Task::new("task2, desc2, 2015-09-06 00:00, cat2").unwrap();
    mgr.add(task1).unwrap();
    mgr.add(task2).unwrap();
    let select = "select * where name like \"task\"".to_string();
    let result = mgr.select(&select).unwrap();
    assert_eq!(result.len(), 2);
}

#[test]
fn select_strips_only_the_leading_prefix() {
    let mgr = store_of(&["select * where, d, 2015-09-05 00:00, c", "qwe, rty, 2015-09-05 00:00, fgh"]);
    let result = mgr.select(&"select * where name=select * where".to_string()).unwrap();
    assert_eq!(result.len(), 1);
    assert_eq!(result[0].name, "select * where");
    let result = mgr.select(&"name=qwe".to_string()).unwrap();
    assert_eq!(result.len(), 1);
    assert_eq!(result[0].name, "qwe");
}
