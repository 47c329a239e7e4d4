use pore::pool::{
    check_failed, collect_results, progress_bar_style, ExecutionResult, ExecutionResults,
    TaskMonitor,
};

#[test]
fn smoke() {
    let (send_1, recv_1) = std::sync::mpsc::channel();
    let (send_2, recv_2) = std::sync::mpsc::channel();
    let (send_3, recv_3) = std::sync::mpsc::channel();

    let mut tasks: Vec<(&str, Box<dyn FnOnce() -> Result<i32, String>>)> = Vec::new();
    tasks.push((
        "first",
        Box::new(move || {
            let data: i32 = recv_1.recv().unwrap();
            send_2.send(data + 1).unwrap();
            Ok(data)
        }),
    ));
    tasks.push((
        "second",
        Box::new(move || {
            let data: i32 = recv_2.recv().unwrap();
            send_3.send(data + 1).unwrap();
            Ok(data)
        }),
    ));
    tasks.push((
        "third",
        Box::new(move || {
            let data: i32 = recv_3.recv().unwrap();
            Err(format!("{}", data + 1))
        }),
    ));

    send_1.send(0).unwrap();

    let mut monitor = TaskMonitor::new();
    let mut handles = Vec::new();
    for (name, task) in tasks {
        let id = monitor.started(0, name);
        assert_eq!(monitor.update_progress_bar(), name);
        let result = task();
        monitor.finished(&id);
        handles.push((name.to_string(), result));
    }
    assert_eq!(monitor.finished_count(), 3);
    let results = collect_results(handles);

    assert_eq!(results.successful.len(), 2);
    assert_eq!(results.successful[0].name, "first");
    assert_eq!(results.successful[0].result, 0);

    assert_eq!(results.successful[1].name, "second");
    assert_eq!(results.successful[1].result, 1);

    assert_eq!(results.failed.len(), 1);
    assert_eq!(results.failed[0].name, "third");
    assert_eq!(format!("{}", results.failed[0].result), format!("{}", 3));
}

#[test]
fn no_tasks_no_results() {
    let results: ExecutionResults<u8, u8> = collect_results(Vec::new());
    assert!(results.successful.is_empty());
    assert!(results.failed.is_empty());
    let one = ExecutionResult { name: "n".to_string(), result: 1 };
    assert_eq!(one.result, 1);
}

#[test]
fn the_oldest_task_is_shown() {
    let mut monitor = TaskMonitor::new();
    assert_eq!(monitor.update_progress_bar(), "");
    let late = monitor.started(7, "late");
    assert_eq!(monitor.update_progress_bar(), "late");
    let early = monitor.started(3, "early");
    assert_eq!(monitor.update_progress_bar(), "early");
    let also_early = monitor.started(3, "dawn");
    assert_eq!(monitor.update_progress_bar(), "dawn");
    monitor.finished(&also_early);
    monitor.finished(&early);
    assert_eq!(monitor.update_progress_bar(), "late");
    monitor.finished(&late);
    assert_eq!(monitor.update_progress_bar(), "");
    assert_eq!(monitor.finished_count(), 3);
}

#[test]
fn tasks_of_one_name_at_one_time_are_told_apart() {
    let mut monitor = TaskMonitor::new();
    let first = monitor.started(1, "same");
    let second = monitor.started(1, "same");
    assert!(first.number < second.number);
    monitor.finished(&first);
    assert_eq!(monitor.update_progress_bar(), "same");
    monitor.finished(&second);
    assert_eq!(monitor.update_progress_bar(), "");
}

#[test]
fn counts_line_up_in_the_progress_bar() {
    assert_eq!(
        progress_bar_style(12),
        "[{elapsed_precise}] {prefix} {pos:>4}/{len} {bar:40.cyan/blue}: {msg}"
    );
    assert_eq!(
        progress_bar_style(999999),
        "[{elapsed_precise}] {prefix} {pos:>0}/{len} {bar:40.cyan/blue}: {msg}"
    );
}

#[test]
fn failures_are_counted() {
    assert!(check_failed(0).is_ok());
    assert!(matches!(check_failed(2), Err(e) if e.count == 2));
}
