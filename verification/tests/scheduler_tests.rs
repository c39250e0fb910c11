use savesync::jobs::{DemoJob, FetchAction, LudusaviJob};
use savesync::scheduler::JobScheduler;

/// Scenario: a job at a five-second interval runs on the first tick after
/// registration and not again before the interval has elapsed.
#[test]
fn first_run_immediate_second_after_interval() {
    let mut scheduler = JobScheduler::new();
    scheduler.add_job("sync".to_string(), 5);

    let ready = scheduler.collect_ready_jobs(100);
    assert_eq!(ready, vec![0]);

    let ready = scheduler.collect_ready_jobs(104);
    assert!(ready.is_empty());

    let ready = scheduler.collect_ready_jobs(105);
    assert_eq!(ready, vec![0]);
}

#[test]
fn collect_marks_entries_running_and_stamps_time() {
    let mut scheduler = JobScheduler::new();
    scheduler.add_job("a".to_string(), 30);
    assert_eq!(scheduler.jobs[0].last_executed, i64::MIN);
    assert!(!scheduler.jobs[0].is_running);

    let ready = scheduler.collect_ready_jobs(50);
    assert_eq!(ready, vec![0]);
    assert_eq!(scheduler.jobs[0].last_executed, 50);
    assert!(scheduler.jobs[0].is_running);

    scheduler.job_finished(0);
    assert!(!scheduler.jobs[0].is_running);
    assert_eq!(scheduler.jobs[0].last_executed, 50);
}

#[test]
fn due_jobs_are_collected_in_registry_order() {
    let mut scheduler = JobScheduler::new();
    scheduler.add_job("a".to_string(), 10);
    scheduler.add_job("b".to_string(), 10);
    scheduler.add_job("c".to_string(), 10);
    let ready = scheduler.collect_ready_jobs(0);
    assert_eq!(ready, vec![0, 1, 2]);
}

#[test]
fn remove_job_drops_entries_by_name_and_is_idempotent() {
    let mut scheduler = JobScheduler::new();
    scheduler.add_job("keep".to_string(), 10);
    scheduler.add_job("drop".to_string(), 10);
    scheduler.remove_job(&"drop".to_string());
    assert_eq!(scheduler.jobs.len(), 1);
    assert_eq!(scheduler.jobs[0].name, "keep");
    scheduler.remove_job(&"drop".to_string());
    assert_eq!(scheduler.jobs.len(), 1);
}

#[test]
fn start_and_stop_toggle_and_tolerate_repeats() {
    let mut scheduler = JobScheduler::new();
    assert!(!scheduler.running);
    scheduler.start_scheduler();
    assert!(scheduler.running);
    scheduler.start_scheduler();
    assert!(scheduler.running);
    scheduler.stop_scheduler();
    assert!(!scheduler.running);
    scheduler.stop_scheduler();
    assert!(!scheduler.running);
}

/// Scenario: with a stored ETag and a 304 response, nothing is imported
/// and the stored ETag stays.
#[test]
fn not_modified_leaves_everything_alone() {
    let mut job = LudusaviJob { etag: "abc".to_string() };
    let action = job.handle_response(304, None);
    assert!(matches!(action, FetchAction::NotModified));
    assert_eq!(job.etag, "abc");
}

#[test]
fn new_content_replaces_etag_and_imports() {
    let mut job = LudusaviJob::default();
    assert_eq!(job.etag, "");
    assert_eq!(job.request_etag().as_str(), "");
    let action = job.handle_response(200, Some("xyz".to_string()));
    assert!(matches!(action, FetchAction::Import));
    assert_eq!(job.etag, "xyz");
}

#[test]
fn missing_etag_and_other_statuses_are_errors() {
    let mut job = LudusaviJob { etag: "abc".to_string() };
    let action = job.handle_response(200, None);
    assert!(matches!(action, FetchAction::Failed));
    assert_eq!(job.etag, "abc");

    let action = job.handle_response(500, Some("zzz".to_string()));
    assert!(matches!(action, FetchAction::Failed));
    assert_eq!(job.etag, "abc");
}

#[test]
fn job_names_are_stable() {
    let demo = DemoJob;
    assert_eq!(demo.name(), "DemoJob");
    let fetch = LudusaviJob::default();
    assert_eq!(fetch.name(), "Ludusavi Job");
}
