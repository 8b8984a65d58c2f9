use batch_downloader::naming::{archive_filename, author_title, get_filename, sanitize_name};
use batch_downloader::structures::{Author, ObjectType};

fn author(first: &str, last: &str, middle: Option<&str>) -> Author {
    Author {
        id: 1,
        first_name: first.to_string(),
        last_name: last.to_string(),
        middle_name: middle.map(|m| m.to_string()),
    }
}

#[test]
fn author_title_joins_non_empty_parts() {
    assert_eq!(author_title(&author("Лев", "Толстой", Some("Николаевич"))), "Лев_Толстой_Николаевич");
    assert_eq!(author_title(&author("Лев", "Толстой", None)), "Лев_Толстой");
    assert_eq!(author_title(&author("", "Гомер", Some(""))), "Гомер");
    assert_eq!(author_title(&author("", "", None)), "");
}

#[test]
fn sanitize_drops_punctuation_and_non_ascii() {
    assert_eq!(sanitize_name("War (and) Peace!"), "War_and_Peace");
    assert_eq!(sanitize_name("a—b/c№1 á"), "a-b_cN1_a");
    assert_eq!(sanitize_name("Tom [1]: \"x\""), "Tom_1_x");
    assert_eq!(sanitize_name("ÿ€z"), "z");
}

#[test]
fn filename_is_cut_to_fit_with_extension() {
    assert_eq!(archive_filename("Mir_s", "fb2"), "Mir_s.fb2.zip");
    let long = "a".repeat(100);
    let r = archive_filename(&long, "fb2");
    assert_eq!(r.len(), 64);
    assert!(r.ends_with(".fb2.zip"));
    assert_eq!(r, format!("{}.fb2.zip", "a".repeat(56)));
}

#[test]
fn filename_from_russian_title_is_transliterated() {
    assert_eq!(get_filename(ObjectType::Sequence, "Мир", "fb2"), "Mir_s.fb2.zip");
    assert_eq!(get_filename(ObjectType::Author, "Мы", "epub"), "My_a.epub.zip");
    assert_eq!(get_filename(ObjectType::Translator, "Мир", "fb2"), "Mir_t.fb2.zip");
}

#[test]
fn filename_limit_counts_bytes() {
    let long = "a".repeat(100);
    let r = archive_filename(&long, "фб2");
    assert_eq!(r.len(), 64);
    assert_eq!(r, format!("{}.фб2.zip", "a".repeat(54)));
    let wide = "ф".repeat(60);
    assert_eq!(archive_filename("name", &wide), format!(".{}.zip", wide));
}
