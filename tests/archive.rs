use batch_downloader::archive::ArchivePlan;

fn name(s: &str) -> Option<String> {
    Some(s.to_string())
}

#[test]
fn failed_download_is_skipped_and_the_rest_kept() {
    let mut plan = ArchivePlan::new(5);
    let outcomes = [name("1.fb2"), name("2.fb2"), None, name("4.fb2"), name("5.fb2")];
    let mut added = Vec::new();
    for o in outcomes {
        if let Some(n) = plan.on_download(o) {
            added.push(n);
        }
    }
    assert_eq!(plan.entry_count(), 4);
    assert_eq!(added, vec!["1.fb2", "2.fb2", "4.fb2", "5.fb2"]);
    assert_eq!(plan.processed(), 5);
}

#[test]
fn duplicate_name_keeps_first_occurrence_only() {
    let mut plan = ArchivePlan::new(3);
    assert_eq!(plan.on_download(name("same.fb2")), name("same.fb2"));
    assert_eq!(plan.on_download(name("same.fb2")), None);
    assert_eq!(plan.on_download(name("other.fb2")), name("other.fb2"));
    assert_eq!(plan.entry_count(), 2);
}

#[test]
fn progress_counts_every_handled_book() {
    let mut plan = ArchivePlan::new(5);
    assert_eq!(plan.progress_description(), "Загрузка книг: 0/5");
    plan.on_download(name("a"));
    plan.on_download(None);
    assert_eq!(plan.progress_description(), "Загрузка книг: 2/5");
}

#[test]
fn byte_count_adds_and_saturates() {
    let mut plan = ArchivePlan::new(1);
    plan.on_entry_written(100);
    plan.on_entry_written(23);
    assert_eq!(plan.bytes_count(), 123);
    plan.on_entry_written(u64::MAX);
    assert_eq!(plan.bytes_count(), u64::MAX);
}
