use timetrack::errors::TaskError;
use timetrack::store::{no_tasks_message, parse_confirmation, TaskStore};
use timetrack::task::Task;

fn plain_task(id: u32, name: &str) -> Task {
    Task {
        id,
        name: String::from(name),
        total_duration_seconds: 0,
        running: false,
        last_run: None,
    }
}

#[test]
fn list_all_tasks() {
    let mut tasks = TaskStore::new();
    tasks.insert_task(plain_task(1, "my task"));
    tasks.list_tasks(true, false, false);
}

#[test]
fn unique_id() {
    let mut tasks = TaskStore::new();
    tasks.insert_task(plain_task(1, "my task"));
    let id = tasks.find_new_unique_id();
    assert_eq!(id, 2);
}

#[test]
fn unique_id_empty_tasks() {
    let tasks = TaskStore::new();
    let id = tasks.find_new_unique_id();
    assert_eq!(id, 1);
}

#[test]
fn unique_id_skips_gaps_below_the_maximum() {
    let mut tasks = TaskStore::new();
    tasks.insert_task(plain_task(1, "a"));
    tasks.insert_task(plain_task(3, "b"));
    assert_eq!(4, tasks.find_new_unique_id());
}

#[test]
fn create_task_allocates_and_fills_fields() {
    let mut tasks = TaskStore::new();
    let id = tasks.create_task_at("fresh", true, 1000);
    assert_eq!(1, id);
    let t = tasks.get_task(1).unwrap();
    assert_eq!("fresh", t.name);
    assert_eq!(0, t.total_duration_seconds);
    assert!(t.running);
    assert_eq!(Some(1000), t.last_run);
}

#[test]
fn get_task_missing_id_is_not_found() {
    let tasks = TaskStore::new();
    assert!(matches!(tasks.get_task(7), Err(TaskError::NotFound)));
}

#[test]
fn delete_task_by_id_removes_it() {
    let mut tasks = TaskStore::new();
    tasks.insert_task(plain_task(1, "a"));
    tasks.insert_task(plain_task(2, "b"));
    assert_eq!(Ok(()), tasks.delete_task_by_id(1));
    assert_eq!(1, tasks.len());
    assert!(matches!(tasks.get_task(1), Err(TaskError::NotFound)));
    assert_eq!(Err(TaskError::NotFound), tasks.delete_task_by_id(1));
}

#[test]
fn delete_by_shared_name_is_ambiguous_and_removes_neither() {
    let mut tasks = TaskStore::new();
    tasks.insert_task(plain_task(1, "same"));
    tasks.insert_task(plain_task(2, "same"));
    assert_eq!(Err(TaskError::Ambiguous), tasks.delete_task_by_name("same"));
    assert_eq!(2, tasks.len());
}

#[test]
fn delete_by_name_sole_match_and_missing_name() {
    let mut tasks = TaskStore::new();
    tasks.insert_task(plain_task(1, "only"));
    assert_eq!(Err(TaskError::NotFound), tasks.delete_task_by_name("other"));
    assert_eq!(Ok(()), tasks.delete_task_by_name("only"));
    assert_eq!(0, tasks.len());
}

#[test]
fn start_and_stop_by_id_commit_elapsed_time() {
    let mut tasks = TaskStore::new();
    tasks.insert_task(plain_task(4, "timed"));
    assert_eq!(Ok(()), tasks.start_task_at(4, 1000));
    assert!(tasks.get_task(4).unwrap().running);
    assert_eq!(Err(TaskError::AlreadyRunning), tasks.start_task_at(4, 1001));
    assert_eq!(Ok(()), tasks.stop_task_at(4, 1090));
    let t = tasks.get_task(4).unwrap();
    assert_eq!(90, t.total_duration_seconds);
    assert!(!t.running);
    assert_eq!(Err(TaskError::NotRunning), tasks.stop_task_at(4, 1100));
}

#[test]
fn cancel_by_id_discards_running_time() {
    let mut tasks = TaskStore::new();
    tasks.insert_task(plain_task(4, "timed"));
    assert_eq!(Err(TaskError::NotRunning), tasks.cancel_task(4));
    assert_eq!(Ok(()), tasks.start_task_at(4, 1000));
    assert_eq!(Ok(()), tasks.cancel_task(4));
    let t = tasks.get_task(4).unwrap();
    assert_eq!(0, t.total_duration_seconds);
    assert!(!t.running);
}

#[test]
fn rename_by_id_changes_the_label() {
    let mut tasks = TaskStore::new();
    tasks.insert_task(plain_task(2, "before"));
    assert_eq!(Ok(()), tasks.rename_task(2, "after"));
    assert_eq!("after", tasks.get_task(2).unwrap().name);
    assert_eq!(Err(TaskError::NotFound), tasks.rename_task(9, "after"));
}

#[test]
fn time_adjustments_by_id() {
    let mut tasks = TaskStore::new();
    tasks.insert_task(plain_task(2, "t"));
    assert_eq!(Ok(()), tasks.set_time(2, "1h"));
    assert_eq!(3600, tasks.get_task(2).unwrap().total_duration_seconds);
    assert_eq!(Ok(()), tasks.add_time(2, "30m"));
    assert_eq!(5400, tasks.get_task(2).unwrap().total_duration_seconds);
    assert_eq!(Ok(()), tasks.subtract_time(2, "1h"));
    assert_eq!(1800, tasks.get_task(2).unwrap().total_duration_seconds);
    assert_eq!(Err(TaskError::InsufficientDuration), tasks.subtract_time(2, "1h"));
    assert_eq!(Err(TaskError::InvalidFormat), tasks.add_time(2, "later"));
    assert_eq!(1800, tasks.get_task(2).unwrap().total_duration_seconds);
}

#[test]
fn archive_moves_stopped_task_under_fresh_id() {
    let mut current = TaskStore::new();
    let mut archive = TaskStore::new();
    archive.insert_task(plain_task(7, "old"));
    let mut stopped = plain_task(5, "done");
    stopped.total_duration_seconds = 90;
    current.insert_task(stopped);
    let res = current.archive_task(5, &mut archive);
    assert_eq!(Ok(8), res);
    assert_eq!(0, current.len());
    assert_eq!(2, archive.len());
    let archived = archive.get_task(8).unwrap();
    assert_eq!("done", archived.name);
    assert_eq!(90, archived.total_duration_seconds);
    assert!(!archived.running);
    assert!(matches!(archive.get_task(5), Err(TaskError::NotFound)));
}

#[test]
fn archive_running_task_is_refused_and_changes_nothing() {
    let mut current = TaskStore::new();
    let mut archive = TaskStore::new();
    current.insert_task(plain_task(5, "busy"));
    assert_eq!(Ok(()), current.start_task_at(5, 1000));
    assert_eq!(Err(TaskError::TaskBusy), current.archive_task(5, &mut archive));
    assert_eq!(1, current.len());
    assert_eq!(0, archive.len());
    assert!(current.get_task(5).unwrap().running);
}

#[test]
fn archive_missing_task_is_not_found() {
    let mut current = TaskStore::new();
    let mut archive = TaskStore::new();
    assert_eq!(Err(TaskError::NotFound), current.archive_task(1, &mut archive));
}

#[test]
fn listing_without_show_all_keeps_only_running_tasks() {
    let mut tasks = TaskStore::new();
    let mut stopped = plain_task(1, "stopped");
    stopped.total_duration_seconds = 10;
    tasks.insert_task(stopped);
    let running = Task {
        id: 2,
        name: String::from("running"),
        total_duration_seconds: 60,
        running: true,
        last_run: Some(1000),
    };
    tasks.insert_task(running);
    let report = tasks.list_tasks_at(1005, false, false, false);
    assert_eq!(1, report.lines.len());
    assert_eq!("#[2] 'running': 00:01:05", report.lines[0]);
    assert_eq!(65, report.total_seconds);
}

#[test]
fn listing_with_show_all_keeps_every_task_in_id_order() {
    let mut tasks = TaskStore::new();
    tasks.insert_task(plain_task(2, "b"));
    tasks.insert_task(plain_task(1, "a"));
    let report = tasks.list_tasks_at(50, true, false, false);
    assert_eq!(2, report.lines.len());
    assert_eq!("[1] 'a': 00:00:00", report.lines[0]);
    assert_eq!("[2] 'b': 00:00:00", report.lines[1]);
    assert_eq!(0, report.total_seconds);
}

#[test]
fn listing_with_base_timer_shows_committed_total() {
    let mut tasks = TaskStore::new();
    let running = Task {
        id: 1,
        name: String::from("r"),
        total_duration_seconds: 60,
        running: true,
        last_run: Some(100),
    };
    tasks.insert_task(running);
    let report = tasks.list_tasks_at(105, false, false, true);
    assert_eq!("#[1] 'r': 00:01:05 - Base timer: 00:01:00", report.lines[0]);
}

#[test]
fn clear_empties_the_store() {
    let mut tasks = TaskStore::new();
    tasks.insert_task(plain_task(1, "a"));
    tasks.insert_task(plain_task(2, "b"));
    tasks.clear();
    assert_eq!(0, tasks.len());
    assert_eq!(1, tasks.find_new_unique_id());
}

#[test]
fn confirmation_answers() {
    assert_eq!(Some(true), parse_confirmation("y"));
    assert_eq!(Some(true), parse_confirmation("Y"));
    assert_eq!(Some(false), parse_confirmation("n"));
    assert_eq!(Some(false), parse_confirmation("N"));
    assert_eq!(None, parse_confirmation(""));
    assert_eq!(None, parse_confirmation("yes"));
    assert_eq!(None, parse_confirmation("x"));
}

#[test]
fn empty_listing_messages_differ() {
    assert_eq!("There are no tasks.", no_tasks_message(true));
    assert_eq!("There are no running tasks.", no_tasks_message(false));
}
