use vstd::prelude::*;

use crate::fingerprint::{get_key, task_id};
use crate::structures::{CreateTask, Task, TaskStatus};

verus! {

/// Status text of a task whose build has just been started.
pub open spec fn preparing_text() -> Seq<char> {
    "Подготовка"@
}

/// Status text of a task whose build has failed.
pub open spec fn error_text() -> Seq<char> {
    "Ошибка!"@
}

/// `t` is an in-progress record for `id` showing `description`, with no
/// error and no result.
pub open spec fn is_progress_record(t: Task, id: Seq<char>, description: Seq<char>) -> bool {
    &&& t.id@ == id
    &&& t.status == TaskStatus::InProgress
    &&& t.status_description@ == description
    &&& t.error_message is None
    &&& t.result_filename is None
    &&& t.result_link is None
    &&& t.content_size is None
}

/// `t` is a failed record for `id` carrying `message`.
pub open spec fn is_failure_record(t: Task, id: Seq<char>, message: Seq<char>) -> bool {
    &&& t.id@ == id
    &&& t.status == TaskStatus::Failed
    &&& t.status_description@ == error_text()
    &&& t.error_message matches Some(m) && m@ == message
    &&& t.result_filename is None
    &&& t.result_link is None
    &&& t.content_size is None
}

/// The record a fresh build of task `id` starts from.
pub open spec fn is_fresh_record(t: Task, id: Seq<char>) -> bool {
    is_progress_record(t, id, preparing_text())
}

/// An in-progress record of task `key` showing `description`.
pub fn set_progress_description(key: &String, description: String) -> (r: Task)
    ensures
        is_progress_record(r, key@, description@),
{
    Task {
        id: key.clone(),
        status: TaskStatus::InProgress,
        status_description: description,
        error_message: None,
        result_filename: None,
        result_link: None,
        content_size: None,
    }
}

/// A failed record of task `key` carrying `error_message`.
pub fn set_task_error(key: &String, error_message: String) -> (r: Task)
    ensures
        is_failure_record(r, key@, error_message@),
{
    Task {
        id: key.clone(),
        status: TaskStatus::Failed,
        status_description: String::from_str("Ошибка!"),
        error_message: Some(error_message),
        result_filename: None,
        result_link: None,
        content_size: None,
    }
}

/// The record that a new build of the request starts from, under the
/// request's task id.
pub fn create_task(data: &CreateTask) -> (r: Task)
    ensures
        is_fresh_record(r, task_id(*data)),
{
    let key = get_key(data.clone_request());
    set_progress_description(&key, String::from_str("Подготовка"))
}

impl CreateTask {
    /// A copy of the request with the same field values.
    pub fn clone_request(&self) -> (r: CreateTask)
        ensures
            r.object_id == self.object_id,
            r.object_type == self.object_type,
            r.file_format@ == self.file_format@,
            r.allowed_langs.deep_view() == self.allowed_langs.deep_view(),
            task_id(r) == task_id(*self),
    {
        let mut langs: Vec<String> = Vec::new();
        for i in 0..self.allowed_langs.len()
            invariant
                langs@.len() == i,
                langs.deep_view() == self.allowed_langs.deep_view().subrange(0, i as int),
        {
            let lang = self.allowed_langs[i].clone();
            langs.push(lang);
            assert(langs.deep_view()[i as int] == self.allowed_langs.deep_view()[i as int]);
            assert(langs.deep_view() =~= self.allowed_langs.deep_view().subrange(0, i + 1));
        }
        assert(langs.deep_view() =~= self.allowed_langs.deep_view());
        CreateTask {
            object_id: self.object_id,
            object_type: self.object_type,
            file_format: self.file_format.clone(),
            allowed_langs: langs,
        }
    }
}

/// A submission starts a build when the registry holds no record for its
/// task id, or holds a failed one.
pub open spec fn starts_build(existing: Option<Task>) -> bool {
    match existing {
        None => true,
        Some(t) => t.status == TaskStatus::Failed,
    }
}

/// What the registry holds for a task id after a submission, given what it
/// held before and the fresh record a new build would start from.
pub open spec fn after_submission(existing: Option<Task>, fresh: Task) -> Option<Task> {
    if starts_build(existing) {
        Some(fresh)
    } else {
        existing
    }
}

/// Result of submitting a request against the registry's current record.
pub enum Submission {
    /// A live record exists: it is returned and nothing is started.
    Existing(Task),
    /// A new build starts: the record is stored under the task id and the
    /// build is run in the background.
    Started(Task),
}

impl Submission {
    /// The record carried by either outcome.
    pub open spec fn task(self) -> Task {
        match self {
            Submission::Existing(t) => t,
            Submission::Started(t) => t,
        }
    }

    /// The record the caller is answered with and that the registry holds.
    pub fn into_task(self) -> (r: Task)
        ensures
            r == self.task(),
    {
        match self {
            Submission::Existing(t) => t,
            Submission::Started(t) => t,
        }
    }
}

/// Decides a submission of `data` given the registry's record for its task
/// id: an in-progress or complete record is answered as it is; a missing or
/// failed one is replaced by a fresh in-progress record and a build starts.
pub fn submit(existing: Option<Task>, data: &CreateTask) -> (r: Submission)
    ensures
        r is Started <==> starts_build(existing),
        r is Started ==> is_fresh_record(r.task(), task_id(*data)),
        r is Existing ==> existing == Some(r.task()),
{
    match existing {
        Some(t) => {
            if t.status == TaskStatus::Failed {
                Submission::Started(create_task(data))
            } else {
                Submission::Existing(t)
            }
        },
        None => Submission::Started(create_task(data)),
    }
}

/// Number of builds started by `n` submissions of one request made one after
/// another against the registry, starting from the record `existing`, while
/// no build writes in between.
pub open spec fn builds_started(existing: Option<Task>, fresh: Task, n: nat) -> nat
    decreases n,
{
    if n == 0 {
        0
    } else {
        (if starts_build(existing) {
            1nat
        } else {
            0nat
        }) + builds_started(after_submission(existing, fresh), fresh, (n - 1) as nat)
    }
}

/// Any number of submissions of one request against a registry that holds
/// no record for it start exactly one build: the first stores an in-progress
/// record, and every later one finds it.
pub proof fn lemma_submissions_start_one_build(fresh: Task, n: nat)
    requires
        n >= 1,
        fresh.status == TaskStatus::InProgress,
    ensures
        builds_started(None, fresh, n) == 1,
{
    lemma_live_record_starts_nothing(fresh, fresh, (n - 1) as nat);
}

/// Submissions that find an in-progress or complete record start no build.
pub proof fn lemma_live_record_starts_nothing(current: Task, fresh: Task, n: nat)
    requires
        current.status != TaskStatus::Failed,
    ensures
        builds_started(Some(current), fresh, n) == 0,
    decreases n,
{
    if n > 0 {
        lemma_live_record_starts_nothing(current, fresh, (n - 1) as nat);
    }
}

/// The record the registry holds for `key`, if any.
pub open spec fn record_of(registry: Map<Seq<char>, Task>, key: Seq<char>) -> Option<Task> {
    if registry.contains_key(key) {
        Some(registry[key])
    } else {
        None
    }
}

/// The registry, keyed by task id, after a submission whose task id is
/// `key` and whose fresh record is `fresh`: only the entry under `key` can
/// change.
pub open spec fn registry_after_submission(
    registry: Map<Seq<char>, Task>,
    key: Seq<char>,
    fresh: Task,
) -> Map<Seq<char>, Task> {
    match after_submission(record_of(registry, key), fresh) {
        Some(t) => registry.insert(key, t),
        None => registry,
    }
}

/// A resubmission that finds a failed record always starts one new build:
/// the failed record is replaced by a fresh in-progress one under the same
/// id, and every other entry of the registry stays as it was.
pub proof fn lemma_failed_record_is_replaced(
    registry: Map<Seq<char>, Task>,
    key: Seq<char>,
    fresh: Task,
)
    requires
        registry.contains_key(key),
        registry[key].status == TaskStatus::Failed,
        is_fresh_record(fresh, key),
    ensures
        starts_build(record_of(registry, key)),
        builds_started(record_of(registry, key), fresh, 1) == 1,
        registry_after_submission(registry, key, fresh).contains_key(key),
        registry_after_submission(registry, key, fresh)[key] == fresh,
        registry_after_submission(registry, key, fresh)[key].status == TaskStatus::InProgress,
        registry_after_submission(registry, key, fresh)[key].id@ == key,
        forall|k: Seq<char>|
            k != key ==> #[trigger] record_of(registry_after_submission(registry, key, fresh), k)
                == record_of(registry, k),
{
    assert(builds_started(Some(fresh), fresh, 0) == 0);
}

/// Why a record left the registry.
#[derive(Clone, Copy, Debug, PartialEq, Eq, Structural)]
pub enum RemovalCause {
    /// Removed on request.
    Explicit,
    /// Overwritten by a newer record under the same id.
    Replaced,
    /// Idle for longer than the registry keeps records.
    Expired,
    /// Pushed out because the registry was full.
    Size,
}

/// Whether the removal of a record calls for cleaning up what belongs to it:
/// every cause but replacement, whose record is still current.
pub fn needs_cleanup(cause: RemovalCause) -> (r: bool)
    ensures
        r == (cause != RemovalCause::Replaced),
{
    match cause {
        RemovalCause::Replaced => false,
        _ => true,
    }
}

/// Where a locally hosted archive of task `id` is kept.
pub fn local_archive_path(id: &String) -> (r: String)
    ensures
        r@ == "/tmp/"@ + id@,
{
    let mut r = String::from_str("/tmp/");
    r.append(id.as_str());
    r
}

} // verus!
