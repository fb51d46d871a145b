use timetrack::errors::TaskError;
use timetrack::task::{timestamp_fragment, Task};

fn epoch_now() -> u64 {
    std::time::SystemTime::now()
        .duration_since(std::time::UNIX_EPOCH)
        .unwrap()
        .as_secs()
}

#[test]
fn to_print_string_default() {
    let t = Task {
        id: 1,
        name: String::from("my task"),
        total_duration_seconds: 60,
        running: false,
        last_run: None,
    };
    let print_string = t.to_print_string(false, false);
    assert_eq!("[1] 'my task': 00:01:00", print_string);
}

#[test]
fn to_print_string_running() {
    let t = Task {
        id: 1,
        name: String::from("my task"),
        total_duration_seconds: 60,
        running: true,
        last_run: Some(epoch_now()),
    };
    let print_string = t.to_print_string(false, false);
    assert_eq!("#[1] 'my task': 00:01:00", print_string);
}

#[test]
fn to_print_string_running_sub() {
    let task = Task {
        id: 1,
        name: String::from("my task"),
        total_duration_seconds: 60,
        running: true,
        last_run: Some(epoch_now() - 5),
    };
    let print_string = task.to_print_string(false, false);
    assert_eq!("#[1] 'my task': 00:01:05", print_string);
}

#[test]
fn to_print_string_running_sub_show_base() {
    let task = Task {
        id: 1,
        name: String::from("my task"),
        total_duration_seconds: 60,
        running: true,
        last_run: Some(epoch_now() - 5),
    };
    let print_string = task.to_print_string(false, true);
    assert_eq!("#[1] 'my task': 00:01:05 - Base timer: 00:01:00", print_string);
}

#[test]
fn cancel_running_task() {
    let mut task = Task {
        id: 1,
        name: String::from("my task"),
        total_duration_seconds: 60,
        running: true,
        last_run: Some(epoch_now() - 5),
    };
    let res = task.cancel();
    assert_eq!(false, res.is_err());
    assert_eq!(false, task.running);
}

#[test]
fn cancel_running_task_error_not_running() {
    let mut task = Task {
        id: 1,
        name: String::from("my task"),
        total_duration_seconds: 60,
        running: false,
        last_run: Some(epoch_now() - 5),
    };
    let res = task.cancel();
    assert_eq!(true, res.is_err());
}

fn stopped_task(total: u64) -> Task {
    Task {
        id: 1,
        name: String::from("my task"),
        total_duration_seconds: total,
        running: false,
        last_run: None,
    }
}

#[test]
fn start_then_stop_commits_elapsed_time() {
    let mut task = stopped_task(0);
    assert_eq!(Ok(()), task.start_at(1000));
    assert!(task.running);
    assert_eq!(Ok(()), task.stop_at(1060));
    assert_eq!(60, task.total_duration_seconds);
    assert_eq!(false, task.running);
}

#[test]
fn cancel_after_start_keeps_previous_total() {
    let mut task = stopped_task(60);
    assert_eq!(Ok(()), task.start_at(1000));
    assert_eq!(Ok(()), task.cancel());
    assert_eq!(60, task.total_duration_seconds);
    assert_eq!(false, task.running);
}

#[test]
fn start_running_task_is_refused() {
    let mut task = stopped_task(0);
    assert_eq!(Ok(()), task.start_at(5));
    assert_eq!(Err(TaskError::AlreadyRunning), task.start_at(6));
    assert!(task.running);
}

#[test]
fn stop_stopped_task_is_refused() {
    let mut task = stopped_task(10);
    assert_eq!(Err(TaskError::NotRunning), task.stop_at(100));
    assert_eq!(10, task.total_duration_seconds);
}

#[test]
fn stop_with_clock_gone_backward_commits_nothing() {
    let mut task = stopped_task(30);
    assert_eq!(Ok(()), task.start_at(1000));
    assert_eq!(Ok(()), task.stop_at(900));
    assert_eq!(30, task.total_duration_seconds);
    assert_eq!(false, task.running);
}

#[test]
fn subtract_more_than_total_is_refused() {
    let mut task = stopped_task(60);
    assert_eq!(Err(TaskError::InsufficientDuration), task.subtract_time("2h"));
    assert_eq!(60, task.total_duration_seconds);
}

#[test]
fn subtract_within_total_takes_it_off() {
    let mut task = stopped_task(3660);
    assert_eq!(Ok(()), task.subtract_time("1h"));
    assert_eq!(60, task.total_duration_seconds);
}

#[test]
fn set_time_on_running_task_is_refused() {
    let mut task = stopped_task(60);
    assert_eq!(Ok(()), task.start_at(1000));
    assert_eq!(Err(TaskError::TaskBusy), task.set_time("1h"));
    assert_eq!(60, task.total_duration_seconds);
}

#[test]
fn set_time_replaces_total() {
    let mut task = stopped_task(7);
    assert_eq!(Ok(()), task.set_time("1h30m"));
    assert_eq!(5400, task.total_duration_seconds);
}

#[test]
fn add_time_extends_total() {
    let mut task = stopped_task(60);
    assert_eq!(Ok(()), task.add_time("45m"));
    assert_eq!(2760, task.total_duration_seconds);
}

#[test]
fn add_time_bad_token_is_refused() {
    let mut task = stopped_task(60);
    assert_eq!(Err(TaskError::InvalidFormat), task.add_time("soon"));
    assert_eq!(60, task.total_duration_seconds);
}

#[test]
fn rename_changes_only_the_name() {
    let mut task = stopped_task(60);
    task.rename("new name");
    assert_eq!("new name", task.name);
    assert_eq!(60, task.total_duration_seconds);
    assert_eq!(1, task.id);
}

#[test]
fn current_duration_of_stopped_task_is_total() {
    let task = stopped_task(123);
    assert_eq!(123, task.current_duration());
    assert_eq!(123, task.current_duration_at(999_999));
}

#[test]
fn current_duration_of_running_task_adds_elapsed() {
    let task = Task {
        id: 1,
        name: String::from("my task"),
        total_duration_seconds: 100,
        running: true,
        last_run: Some(1000),
    };
    assert_eq!(125, task.current_duration_at(1025));
}

#[test]
fn formatted_duration_renders_total() {
    let task = stopped_task(3661);
    assert_eq!("01:01:01", task.formatted_duration());
}

#[test]
fn timestamp_fragment_wraps_the_rendering() {
    assert_eq!(
        " - Last time: 02/03/2026 08:09:10",
        timestamp_fragment("02/03/2026 08:09:10")
    );
}

#[test]
fn to_print_string_at_with_known_rendering_is_exact() {
    let task = Task {
        id: 1,
        name: String::from("my task"),
        total_duration_seconds: 60,
        running: true,
        last_run: Some(1000),
    };
    let line = task.to_print_string_at(1005, Some("01/01/2026 10:00:00"), false);
    assert_eq!(
        "#[1] 'my task': 00:01:05 - Last time: 01/01/2026 10:00:00",
        line
    );
    let bare = task.to_print_string_at(1005, None, true);
    assert_eq!("#[1] 'my task': 00:01:05 - Base timer: 00:01:00", bare);
}

#[test]
fn to_print_string_with_timestamp_appends_last_time() {
    let task = Task {
        id: 1,
        name: String::from("my task"),
        total_duration_seconds: 60,
        running: false,
        last_run: Some(epoch_now()),
    };
    let line = task.to_print_string(true, false);
    assert!(line.starts_with("[1] 'my task': 00:01:00 - Last time: "));
    assert!(line.len() > "[1] 'my task': 00:01:00 - Last time: ".len());
}
