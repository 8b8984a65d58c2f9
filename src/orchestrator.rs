use vstd::prelude::*;

use crate::registry::{is_failure_record, is_progress_record, set_progress_description, set_task_error};
use crate::structures::{Book, Task, TaskStatus};

verus! {

/// Where a build stands: the outside work to do next, with what earlier
/// stages produced.
pub enum BuildStep {
    /// Collect the entity's books from the catalog.
    Collect,
    /// Look up the entity and derive the archive's file name.
    Name { books: Vec<Book> },
    /// Download the books into an archive.
    Assemble { books: Vec<Book>, filename: String },
    /// Upload the archive to storage.
    Upload { filename: String },
    /// Nothing more: a final record has been written.
    Done,
}

/// What the outside work of a step came back with; `None` is a failure.
pub enum BuildEvent {
    /// The books offered in the requested format.
    Books(Option<Vec<Book>>),
    /// The archive's file name.
    Named(Option<String>),
    /// The archive was built; the uncompressed size of its entries.
    Assembled(Option<u64>),
    /// The archive was stored: its download link and stored size.
    Uploaded(Option<(String, u64)>),
}

/// The event answers the step.
pub open spec fn event_fits(step: BuildStep, event: BuildEvent) -> bool {
    match step {
        BuildStep::Collect => event is Books,
        BuildStep::Name { .. } => event is Named,
        BuildStep::Assemble { .. } => event is Assembled,
        BuildStep::Upload { .. } => event is Uploaded,
        BuildStep::Done => false,
    }
}

pub open spec fn collecting_text() -> Seq<char> {
    "Получение списка книг..."@
}

pub open spec fn assembling_text() -> Seq<char> {
    "Сборка архива..."@
}

pub open spec fn uploading_text() -> Seq<char> {
    "Загрузка архива..."@
}

pub open spec fn complete_text() -> Seq<char> {
    "Архив готов! Ожидайте файл"@
}

/// `t` is the complete record of task `id`, with its result.
pub open spec fn is_complete_record(
    t: Task,
    id: Seq<char>,
    filename: Seq<char>,
    link: Seq<char>,
    size: u64,
) -> bool {
    &&& t.id@ == id
    &&& t.status == TaskStatus::Complete
    &&& t.status_description@ == complete_text()
    &&& t.error_message is None
    &&& t.result_filename matches Some(f) && f@ == filename
    &&& t.result_link matches Some(l) && l@ == link
    &&& t.content_size == Some(size)
}

/// The build ends with a failed record carrying `message`.
pub open spec fn ends_failed(r: (BuildStep, Option<Task>), key: Seq<char>, message: Seq<char>) -> bool {
    &&& r.0 is Done
    &&& r.1 matches Some(t) && is_failure_record(t, key, message)
}

/// The build ends with the complete record of its result.
pub open spec fn ends_complete(
    r: (BuildStep, Option<Task>),
    key: Seq<char>,
    filename: Seq<char>,
    link: Seq<char>,
    size: u64,
) -> bool {
    &&& r.0 is Done
    &&& r.1 matches Some(t) && is_complete_record(t, key, filename, link, size)
}

/// An in-progress record showing `text` is published.
pub open spec fn publishes_progress(w: Option<Task>, key: Seq<char>, text: Seq<char>) -> bool {
    w matches Some(t) && is_progress_record(t, key, text)
}

/// The next step derives the name, for these books.
pub open spec fn names_next(next: BuildStep, books: Seq<Book>) -> bool {
    next matches BuildStep::Name { books: b } && b@ == books
}

/// The next step builds the archive of these books under this name.
pub open spec fn assembles_next(next: BuildStep, books: Seq<Book>, filename: Seq<char>) -> bool {
    next matches BuildStep::Assemble { books: b, filename: f } && b@ == books && f@ == filename
}

/// The next step uploads the archive named `filename`.
pub open spec fn uploads_next(next: BuildStep, filename: Seq<char>) -> bool {
    next matches BuildStep::Upload { filename: f } && f@ == filename
}

/// The first step of a build of task `key`, and the record to publish.
pub fn start_build(key: &String) -> (r: (BuildStep, Task))
    ensures
        r.0 is Collect,
        is_progress_record(r.1, key@, collecting_text()),
{
    (BuildStep::Collect, set_progress_description(key, String::from_str("Получение списка книг...")))
}

/// One transition of the build of task `key`: from the step just performed
/// and what it came back with, the next step and the record to publish, if
/// any. Every failure ends the build with a failed record; the upload's
/// success ends it with the complete record.
pub fn create_archive_task(key: &String, step: BuildStep, event: BuildEvent) -> (r: (
    BuildStep,
    Option<Task>,
))
    requires
        event_fits(step, event),
    ensures
        match (step, event) {
            (BuildStep::Collect, BuildEvent::Books(None)) => ends_failed(r, key@,
                "Failed getting books!"@),
            (BuildStep::Collect, BuildEvent::Books(Some(books))) => if books@.len() == 0 {
                ends_failed(r, key@, "No books!"@)
            } else {
                names_next(r.0, books@) && r.1 is None
            },
            (BuildStep::Name { .. }, BuildEvent::Named(None)) => ends_failed(r, key@,
                "Can't get archive name!"@),
            (BuildStep::Name { books }, BuildEvent::Named(Some(name))) => assembles_next(r.0,
                books@, name@) && publishes_progress(r.1, key@, assembling_text()),
            (BuildStep::Assemble { .. }, BuildEvent::Assembled(None)) => ends_failed(r, key@,
                "Failed downloading books!"@),
            (BuildStep::Assemble { filename, .. }, BuildEvent::Assembled(Some(_))) => uploads_next(
                r.0,
                filename@,
            ) && publishes_progress(r.1, key@, uploading_text()),
            (BuildStep::Upload { .. }, BuildEvent::Uploaded(None)) => ends_failed(r, key@,
                "Failed uploading archive!"@),
            (BuildStep::Upload { filename }, BuildEvent::Uploaded(Some(stored))) => ends_complete(
                r,
                key@,
                filename@,
                stored.0@,
                stored.1,
            ),
            _ => false,
        },
{
    match step {
        BuildStep::Collect => match event {
            BuildEvent::Books(None) => (
                BuildStep::Done,
                Some(set_task_error(key, String::from_str("Failed getting books!"))),
            ),
            BuildEvent::Books(Some(books)) => {
                if books.len() == 0 {
                    (BuildStep::Done, Some(set_task_error(key, String::from_str("No books!"))))
                } else {
                    (BuildStep::Name { books }, None)
                }
            },
            _ => (BuildStep::Done, None),
        },
        BuildStep::Name { books } => match event {
            BuildEvent::Named(None) => (
                BuildStep::Done,
                Some(set_task_error(key, String::from_str("Can't get archive name!"))),
            ),
            BuildEvent::Named(Some(filename)) => (
                BuildStep::Assemble { books, filename },
                Some(set_progress_description(key, String::from_str("Сборка архива..."))),
            ),
            _ => (BuildStep::Done, None),
        },
        BuildStep::Assemble { filename, .. } => match event {
            BuildEvent::Assembled(None) => (
                BuildStep::Done,
                Some(set_task_error(key, String::from_str("Failed downloading books!"))),
            ),
            BuildEvent::Assembled(Some(_)) => (
                BuildStep::Upload { filename },
                Some(set_progress_description(key, String::from_str("Загрузка архива..."))),
            ),
            _ => (BuildStep::Done, None),
        },
        BuildStep::Upload { filename } => match event {
            BuildEvent::Uploaded(None) => (
                BuildStep::Done,
                Some(set_task_error(key, String::from_str("Failed uploading archive!"))),
            ),
            BuildEvent::Uploaded(Some(stored)) => {
                let (link, size) = stored;
                let task = Task {
                    id: key.clone(),
                    status: TaskStatus::Complete,
                    status_description: String::from_str("Архив готов! Ожидайте файл"),
                    error_message: None,
                    result_filename: Some(filename),
                    result_link: Some(link),
                    content_size: Some(size),
                };
                (BuildStep::Done, Some(task))
            },
            _ => (BuildStep::Done, None),
        },
        BuildStep::Done => (BuildStep::Done, None),
    }
}

} // verus!
