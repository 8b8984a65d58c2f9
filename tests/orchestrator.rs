use batch_downloader::archive::ArchivePlan;
use batch_downloader::orchestrator::{create_archive_task, start_build, BuildEvent, BuildStep};
use batch_downloader::structures::{Book, TaskStatus};

fn key() -> String {
    "task".to_string()
}

fn books(n: u64) -> Vec<Book> {
    (0..n).map(|id| Book { id, available_types: vec!["fb2".to_string()] }).collect()
}

fn failure_message(step: BuildStep, event: BuildEvent) -> String {
    let (next, written) = create_archive_task(&key(), step, event);
    assert!(matches!(next, BuildStep::Done));
    let t = written.unwrap();
    assert_eq!(t.status, TaskStatus::Failed);
    assert_eq!(t.id, "task");
    t.error_message.unwrap()
}

#[test]
fn no_books_fails_the_task() {
    assert_eq!(failure_message(BuildStep::Collect, BuildEvent::Books(Some(vec![]))), "No books!");
}

#[test]
fn each_stage_failure_fails_the_task() {
    assert_eq!(failure_message(BuildStep::Collect, BuildEvent::Books(None)), "Failed getting books!");
    assert_eq!(
        failure_message(BuildStep::Name { books: books(1) }, BuildEvent::Named(None)),
        "Can't get archive name!"
    );
    assert_eq!(
        failure_message(
            BuildStep::Assemble { books: books(1), filename: "a.fb2.zip".to_string() },
            BuildEvent::Assembled(None)
        ),
        "Failed downloading books!"
    );
    assert_eq!(
        failure_message(BuildStep::Upload { filename: "a.fb2.zip".to_string() }, BuildEvent::Uploaded(None)),
        "Failed uploading archive!"
    );
}

#[test]
fn successful_build_ends_complete() {
    let (step, first) = start_build(&key());
    assert_eq!(first.status, TaskStatus::InProgress);
    assert_eq!(first.status_description, "Получение списка книг...");
    let (step, written) = create_archive_task(&key(), step, BuildEvent::Books(Some(books(5))));
    assert!(written.is_none());
    assert!(matches!(&step, BuildStep::Name { books } if books.len() == 5));
    let (step, written) = create_archive_task(&key(), step, BuildEvent::Named(Some("x_s.fb2.zip".to_string())));
    assert_eq!(written.unwrap().status_description, "Сборка архива...");
    let (step, written) = create_archive_task(&key(), step, BuildEvent::Assembled(Some(1000)));
    assert_eq!(written.unwrap().status_description, "Загрузка архива...");
    let (step, written) = create_archive_task(
        &key(),
        step,
        BuildEvent::Uploaded(Some(("http://files/x_s.fb2.zip".to_string(), 900))),
    );
    assert!(matches!(step, BuildStep::Done));
    let t = written.unwrap();
    assert_eq!(t.status, TaskStatus::Complete);
    assert_eq!(t.result_filename.as_deref(), Some("x_s.fb2.zip"));
    assert_eq!(t.result_link.as_deref(), Some("http://files/x_s.fb2.zip"));
    assert_eq!(t.content_size, Some(900));
    assert_eq!(t.status_description, "Архив готов! Ожидайте файл");
}

#[test]
fn partial_download_still_completes() {
    let all = books(5);
    let mut plan = ArchivePlan::new(all.len());
    for b in &all {
        let outcome = if b.id == 2 { None } else { Some(format!("{}.fb2", b.id)) };
        if plan.on_download(outcome).is_some() {
            plan.on_entry_written(10);
        }
    }
    assert_eq!(plan.entry_count(), 4);
    let step = BuildStep::Assemble { books: all, filename: "s.fb2.zip".to_string() };
    let (step, _) = create_archive_task(&key(), step, BuildEvent::Assembled(Some(plan.bytes_count())));
    let (_, written) =
        create_archive_task(&key(), step, BuildEvent::Uploaded(Some(("link".to_string(), 40))));
    assert_eq!(written.unwrap().status, TaskStatus::Complete);
}
