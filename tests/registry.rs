use batch_downloader::fingerprint::get_key;
use batch_downloader::registry::{
    create_task, local_archive_path, needs_cleanup, set_progress_description, set_task_error, submit,
    RemovalCause, Submission,
};
use batch_downloader::structures::{CreateTask, ObjectType, Task, TaskStatus};

fn request() -> CreateTask {
    CreateTask {
        object_id: 5,
        object_type: ObjectType::Sequence,
        file_format: "fb2".to_string(),
        allowed_langs: vec!["ru".to_string()],
    }
}

fn with_status(status: TaskStatus) -> Task {
    let mut t = create_task(&request());
    t.status = status;
    t
}

#[test]
fn fresh_task_is_in_progress_under_request_key() {
    let t = create_task(&request());
    assert_eq!(t.id, get_key(request()));
    assert_eq!(t.status, TaskStatus::InProgress);
    assert_eq!(t.status_description, "Подготовка");
    assert!(t.error_message.is_none() && t.result_filename.is_none() && t.content_size.is_none());
}

#[test]
fn submission_without_record_starts_build() {
    assert!(matches!(submit(None, &request()), Submission::Started(_)));
}

#[test]
fn submission_with_live_record_returns_it() {
    for status in [TaskStatus::InProgress, TaskStatus::Complete, TaskStatus::Archiving] {
        match submit(Some(with_status(status)), &request()) {
            Submission::Existing(t) => assert_eq!(t.status, status),
            Submission::Started(_) => panic!("a live record must not be rebuilt"),
        }
    }
}

#[test]
fn resubmission_after_failure_starts_fresh_build() {
    let failed = set_task_error(&get_key(request()), "No books!".to_string());
    match submit(Some(failed), &request()) {
        Submission::Started(t) => {
            assert_eq!(t.status, TaskStatus::InProgress);
            assert_eq!(t.id, get_key(request()));
            assert!(t.error_message.is_none());
        }
        Submission::Existing(_) => panic!("a failed record must be replaced"),
    }
}

#[test]
fn repeated_submissions_start_one_build() {
    let mut stored: Option<Task> = None;
    let mut started = 0;
    for _ in 0..10 {
        match submit(stored.clone(), &request()) {
            Submission::Started(t) => {
                started += 1;
                stored = Some(t);
            }
            Submission::Existing(_) => {}
        }
    }
    assert_eq!(started, 1);
    assert_eq!(stored.unwrap().status, TaskStatus::InProgress);
}

#[test]
fn task_records_carry_their_fields() {
    let p = set_progress_description(&"k".to_string(), "step".to_string());
    assert_eq!((p.id.as_str(), p.status, p.status_description.as_str()), ("k", TaskStatus::InProgress, "step"));
    let f = set_task_error(&"k".to_string(), "boom".to_string());
    assert_eq!(f.status, TaskStatus::Failed);
    assert_eq!(f.status_description, "Ошибка!");
    assert_eq!(f.error_message.as_deref(), Some("boom"));
    let s = submit(None, &request()).into_task();
    assert_eq!(s.id, get_key(request()));
}

#[test]
fn replacement_needs_no_cleanup() {
    assert!(!needs_cleanup(RemovalCause::Replaced));
    assert!(needs_cleanup(RemovalCause::Expired));
    assert!(needs_cleanup(RemovalCause::Size));
    assert!(needs_cleanup(RemovalCause::Explicit));
    assert_eq!(local_archive_path(&"abc".to_string()), "/tmp/abc");
}
