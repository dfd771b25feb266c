use simon::catalog::{
    no_labels, one_label, FAMILY_COUNT, MEMORY_TOTAL, NETWORK_RECEIVED_TOTAL, PROCESS_MEMORY,
};
use simon::sample::{
    InterfaceSample, MemorySample, NetworkSample, ProcessSample, RawSample, SwapSample,
    SystemSample,
};
use simon::state::{
    AppState, LoopStep, SchedulerError, SchedulerState, StopSignal, DEFAULT_INTERVAL_SECS,
};

fn system(total: u64, names: &[&str]) -> SystemSample {
    SystemSample {
        cpus: vec![],
        memory: MemorySample { total, free: 0, available: 0, used: 0 },
        swap: SwapSample { total: 0, free: 0, used: 0 },
        processes: names
            .iter()
            .map(|n| ProcessSample {
                name: Some(n.to_string()),
                start_time: 1,
                run_time: 2,
                cpu_usage: 3,
                memory: 4,
                virtual_memory: 5,
                disk_read_bytes: 6,
                disk_written_bytes: 7,
            })
            .collect(),
    }
}

fn interfaces(received: u64) -> Vec<InterfaceSample> {
    vec![InterfaceSample {
        name: "eth0".to_string(),
        data: NetworkSample {
            received,
            transmitted: 0,
            packets_received: 0,
            packets_transmitted: 0,
            errors_on_received: 0,
            errors_on_transmitted: 0,
        },
    }]
}

fn reading(system: Option<SystemSample>, interfaces: Option<Vec<InterfaceSample>>) -> RawSample {
    RawSample { system, interfaces }
}

fn lines(app: &AppState) -> Vec<(String, Vec<(String, String)>, u64)> {
    app.snapshot().into_iter().map(|e| (e.name, e.labels, e.value)).collect()
}

#[test]
fn new_state_is_idle_with_the_default_interval() {
    let app = AppState::new().unwrap();
    assert_eq!(app.state(), SchedulerState::Idle);
    assert_eq!(app.interval_secs(), 5);
    assert_eq!(DEFAULT_INTERVAL_SECS, 5);
    assert!(app.snapshot().is_empty());
    assert_eq!(app.metrics().families().len(), FAMILY_COUNT);
}

#[test]
fn with_interval_keeps_the_interval() {
    let mut app = AppState::with_interval(30).unwrap();
    assert_eq!(app.interval_secs(), 30);
    assert_eq!(app.state(), SchedulerState::Idle);
    assert_eq!(app.start_background_metrics_collection(), Ok(()));
    assert_eq!(app.next_step(StopSignal::Empty), Ok(LoopStep::Collect { sleep_secs: 30 }));
    assert_eq!(app.interval_secs(), 30);
}

#[test]
fn starting_twice_is_refused_and_the_loop_goes_on() {
    let mut app = AppState::new().unwrap();
    assert_eq!(app.start_background_metrics_collection(), Ok(()));
    assert_eq!(app.state(), SchedulerState::Running);
    assert_eq!(app.next_step(StopSignal::Empty), Ok(LoopStep::Collect { sleep_secs: 5 }));
    assert_eq!(app.collect(&reading(Some(system(64, &["a"])), None)), Ok(()));
    assert_eq!(
        app.start_background_metrics_collection(),
        Err(SchedulerError::AlreadyRunning)
    );
    assert_eq!(app.state(), SchedulerState::Running);
    assert_eq!(app.metrics().value(MEMORY_TOTAL, &no_labels()), Some(64));
    assert_eq!(app.next_step(StopSignal::Empty), Ok(LoopStep::Collect { sleep_secs: 5 }));
    assert_eq!(app.collect(&reading(Some(system(65, &["a"])), None)), Ok(()));
    assert_eq!(app.metrics().value(MEMORY_TOTAL, &no_labels()), Some(65));
}

#[test]
fn starting_while_stopping_is_refused() {
    let mut app = AppState::new().unwrap();
    assert_eq!(app.start_background_metrics_collection(), Ok(()));
    app.stop_background_metrics_collection();
    assert_eq!(app.state(), SchedulerState::Stopping);
    assert_eq!(
        app.start_background_metrics_collection(),
        Err(SchedulerError::AlreadyRunning)
    );
    assert_eq!(app.state(), SchedulerState::Stopping);
}

#[test]
fn a_stop_during_the_sleep_ends_the_loop_before_the_next_reading() {
    let mut app = AppState::new().unwrap();
    assert_eq!(app.start_background_metrics_collection(), Ok(()));
    assert_eq!(app.next_step(StopSignal::Empty), Ok(LoopStep::Collect { sleep_secs: 5 }));
    assert_eq!(
        app.collect(&reading(Some(system(64, &["a", "b"])), Some(interfaces(9)))),
        Ok(())
    );
    let before = lines(&app);
    app.stop_background_metrics_collection();
    assert_eq!(app.state(), SchedulerState::Stopping);
    assert_eq!(lines(&app), before);
    assert_eq!(app.next_step(StopSignal::Received), Ok(LoopStep::Exit));
    assert_eq!(app.state(), SchedulerState::Stopped);
    assert_eq!(lines(&app), before);
    assert_eq!(
        app.collect(&reading(Some(system(1, &[])), Some(interfaces(1)))),
        Err(SchedulerError::NotRunning)
    );
    assert_eq!(lines(&app), before);
}

#[test]
fn a_stop_is_seen_even_where_the_channel_is_empty() {
    let mut app = AppState::new().unwrap();
    assert_eq!(app.start_background_metrics_collection(), Ok(()));
    app.stop_background_metrics_collection();
    assert_eq!(app.next_step(StopSignal::Empty), Ok(LoopStep::Exit));
    assert_eq!(app.state(), SchedulerState::Stopped);
}

#[test]
fn the_signal_alone_ends_the_loop() {
    let mut app = AppState::new().unwrap();
    assert_eq!(app.start_background_metrics_collection(), Ok(()));
    assert_eq!(app.next_step(StopSignal::Received), Ok(LoopStep::Exit));
    assert_eq!(app.state(), SchedulerState::Stopped);
}

#[test]
fn a_closed_channel_ends_the_loop() {
    let mut app = AppState::new().unwrap();
    assert_eq!(app.start_background_metrics_collection(), Ok(()));
    assert_eq!(app.next_step(StopSignal::Closed), Ok(LoopStep::Exit));
    assert_eq!(app.state(), SchedulerState::Stopped);
}

#[test]
fn missed_messages_do_not_end_the_loop() {
    let mut app = AppState::new().unwrap();
    assert_eq!(app.start_background_metrics_collection(), Ok(()));
    assert_eq!(app.next_step(StopSignal::Lagged), Ok(LoopStep::Collect { sleep_secs: 5 }));
    assert_eq!(app.state(), SchedulerState::Running);
}

#[test]
fn stopping_without_a_loop_changes_nothing() {
    let mut app = AppState::new().unwrap();
    app.stop_background_metrics_collection();
    assert_eq!(app.state(), SchedulerState::Idle);
    assert_eq!(app.start_background_metrics_collection(), Ok(()));
    app.stop_background_metrics_collection();
    assert_eq!(app.next_step(StopSignal::Empty), Ok(LoopStep::Exit));
    assert_eq!(app.state(), SchedulerState::Stopped);
    app.stop_background_metrics_collection();
    assert_eq!(app.state(), SchedulerState::Stopped);
    app.stop_background_metrics_collection();
    assert_eq!(app.state(), SchedulerState::Stopped);
}

#[test]
fn a_stopped_loop_can_be_started_again() {
    let mut app = AppState::new().unwrap();
    assert_eq!(app.start_background_metrics_collection(), Ok(()));
    assert_eq!(app.next_step(StopSignal::Empty), Ok(LoopStep::Collect { sleep_secs: 5 }));
    assert_eq!(app.collect(&reading(None, Some(interfaces(4)))), Ok(()));
    app.stop_background_metrics_collection();
    assert_eq!(app.next_step(StopSignal::Received), Ok(LoopStep::Exit));
    assert_eq!(app.start_background_metrics_collection(), Ok(()));
    assert_eq!(app.state(), SchedulerState::Running);
    assert_eq!(app.next_step(StopSignal::Empty), Ok(LoopStep::Collect { sleep_secs: 5 }));
    assert_eq!(app.collect(&reading(None, Some(interfaces(6)))), Ok(()));
    assert_eq!(app.metrics().value(NETWORK_RECEIVED_TOTAL, &one_label("eth0")), Some(10));
}

#[test]
fn steps_without_a_loop_are_refused() {
    let mut app = AppState::new().unwrap();
    assert_eq!(app.next_step(StopSignal::Empty), Err(SchedulerError::NotRunning));
    assert_eq!(app.next_step(StopSignal::Received), Err(SchedulerError::NotRunning));
    assert_eq!(
        app.collect(&reading(Some(system(64, &["a"])), Some(interfaces(1)))),
        Err(SchedulerError::NotRunning)
    );
    assert_eq!(app.state(), SchedulerState::Idle);
    assert!(app.snapshot().is_empty());
}

#[test]
fn a_source_that_could_not_be_read_is_left_out() {
    let mut app = AppState::new().unwrap();
    assert_eq!(app.start_background_metrics_collection(), Ok(()));
    assert_eq!(
        app.collect(&reading(Some(system(64, &["a"])), Some(interfaces(5)))),
        Ok(())
    );
    assert_eq!(app.collect(&reading(None, Some(interfaces(5)))), Ok(()));
    assert_eq!(app.metrics().value(MEMORY_TOTAL, &no_labels()), Some(64));
    assert_eq!(app.metrics().value(PROCESS_MEMORY, &one_label("a")), Some(4));
    assert_eq!(app.metrics().value(NETWORK_RECEIVED_TOTAL, &one_label("eth0")), Some(10));
    assert_eq!(app.collect(&reading(Some(system(70, &[])), None)), Ok(()));
    assert_eq!(app.metrics().value(MEMORY_TOTAL, &no_labels()), Some(70));
    assert_eq!(app.metrics().value(PROCESS_MEMORY, &one_label("a")), None);
    assert_eq!(app.metrics().value(NETWORK_RECEIVED_TOTAL, &one_label("eth0")), Some(10));
    let before = lines(&app);
    assert_eq!(app.collect(&reading(None, None)), Ok(()));
    assert_eq!(lines(&app), before);
}

#[test]
fn the_cycle_that_runs_when_a_stop_is_asked_for_completes() {
    let mut app = AppState::new().unwrap();
    assert_eq!(app.start_background_metrics_collection(), Ok(()));
    assert_eq!(app.next_step(StopSignal::Empty), Ok(LoopStep::Collect { sleep_secs: 5 }));
    app.stop_background_metrics_collection();
    assert_eq!(
        app.collect(&reading(Some(system(64, &["a"])), Some(interfaces(5)))),
        Ok(())
    );
    assert_eq!(app.state(), SchedulerState::Stopping);
    assert_eq!(app.metrics().value(MEMORY_TOTAL, &no_labels()), Some(64));
    assert_eq!(app.next_step(StopSignal::Empty), Ok(LoopStep::Exit));
}
