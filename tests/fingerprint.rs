use batch_downloader::fingerprint::{canonical_json, get_key, normalize_langs, str_less, to_hex};
use batch_downloader::structures::{CreateTask, ObjectType};

fn request(id: u32, kind: ObjectType, format: &str, langs: &[&str]) -> CreateTask {
    CreateTask {
        object_id: id,
        object_type: kind,
        file_format: format.to_string(),
        allowed_langs: langs.iter().map(|l| l.to_string()).collect(),
    }
}

#[test]
fn canonical_form_is_compact_json_with_sorted_langs() {
    let r = request(1, ObjectType::Author, "fb2", &["ru", "en"]);
    assert_eq!(
        canonical_json(&r),
        "{\"object_id\":1,\"object_type\":\"author\",\"file_format\":\"fb2\",\"allowed_langs\":[\"en\",\"ru\"]}"
    );
}

#[test]
fn key_is_md5_of_canonical_form() {
    let r = request(1, ObjectType::Author, "fb2", &["ru", "en"]);
    assert_eq!(get_key(r), "40a3c9beb815e163fc9929a97d85a15c");
    let r = request(42, ObjectType::Sequence, "epub", &[]);
    assert_eq!(get_key(r), "1f9c0c478464d29c37cf0153784ab5a6");
}

#[test]
fn key_ignores_language_order_and_repeats() {
    let a = request(7, ObjectType::Translator, "epub", &["ru", "en", "uk"]);
    let b = request(7, ObjectType::Translator, "epub", &["uk", "ru", "en", "ru"]);
    assert_eq!(get_key(a), get_key(b));
}

#[test]
fn key_differs_when_fields_differ() {
    let a = request(7, ObjectType::Author, "epub", &["ru"]);
    let b = request(7, ObjectType::Author, "fb2", &["ru"]);
    let c = request(8, ObjectType::Author, "epub", &["ru"]);
    let d = request(7, ObjectType::Sequence, "epub", &["ru"]);
    let ka = get_key(a);
    assert_ne!(ka, get_key(b));
    assert_ne!(ka, get_key(c));
    assert_ne!(ka, get_key(d));
    assert_eq!(ka.len(), 32);
}

#[test]
fn normalize_sorts_and_dedups() {
    let langs: Vec<String> = vec!["ru".into(), "en".into(), "ru".into(), "be".into()];
    assert_eq!(normalize_langs(&langs), vec!["be".to_string(), "en".to_string(), "ru".to_string()]);
    assert!(normalize_langs(&Vec::new()).is_empty());
}

#[test]
fn string_order_by_code_point() {
    assert!(str_less("en", "ru"));
    assert!(!str_less("ru", "en"));
    assert!(str_less("e", "en"));
    assert!(!str_less("en", "en"));
    assert!(str_less("", "a"));
}

#[test]
fn hex_is_lowercase_two_digits_per_byte() {
    assert_eq!(to_hex(&vec![0x00, 0xab, 0xff, 0x10]), "00abff10");
    assert_eq!(to_hex(&Vec::new()), "");
}

#[test]
fn key_is_32_lowercase_hex_digits() {
    let k = get_key(request(3, ObjectType::Author, "fb2", &["ru"]));
    assert_eq!(k.len(), 32);
    assert!(k.chars().all(|c| c.is_ascii_digit() || ('a'..='f').contains(&c)));
}

#[test]
fn canonical_form_escapes_strings_as_json() {
    let r = request(2, ObjectType::Sequence, "a\"b\\c\nd\u{1}\té", &["x\u{8}\u{c}\r"]);
    assert_eq!(
        canonical_json(&r),
        "{\"object_id\":2,\"object_type\":\"sequence\",\"file_format\":\"a\\\"b\\\\c\\nd\\u0001\\té\",\"allowed_langs\":[\"x\\b\\f\\r\"]}"
    );
}
