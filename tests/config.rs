use batch_downloader::config::{Config, ConfigError};

const NAMES: [&str; 12] = [
    "API_KEY",
    "LIBRARY_API_KEY",
    "LIBRARY_URL",
    "CACHE_API_KEY",
    "CACHE_URL",
    "MINIO_HOST",
    "MINIO_EXTERNAL_HOST",
    "MINIO_BUCKET",
    "MINIO_SHARE_BOOKS_BUCKET",
    "MINIO_ACCESS_KEY",
    "MINIO_SECRET_KEY",
    "SENTRY_DSN",
];

fn vars(skip: Option<&str>) -> Vec<(String, String)> {
    NAMES
        .iter()
        .filter(|n| Some(**n) != skip)
        .map(|n| (n.to_string(), format!("value of {}", n)))
        .collect()
}

#[test]
fn load_reads_every_variable() {
    let c = match Config::load(&vars(None)) {
        Ok(c) => c,
        Err(_) => panic!("all variables are given"),
    };
    assert_eq!(c.api_key, "value of API_KEY");
    assert_eq!(c.library_url, "value of LIBRARY_URL");
    assert_eq!(c.minio_share_books_bucket, "value of MINIO_SHARE_BOOKS_BUCKET");
    assert_eq!(c.sentry_dsn, "value of SENTRY_DSN");
}

#[test]
fn load_names_the_missing_variable() {
    match Config::load(&vars(Some("CACHE_URL"))) {
        Err(ConfigError::Missing(n)) => assert_eq!(n, "CACHE_URL"),
        Ok(_) => panic!("CACHE_URL is missing"),
    }
}

#[test]
fn load_takes_the_first_of_repeated_variables() {
    let mut v = vec![("API_KEY".to_string(), "first".to_string())];
    v.extend(vars(None));
    match Config::load(&v) {
        Ok(c) => assert_eq!(c.api_key, "first"),
        Err(_) => panic!("all variables are given"),
    }
}

#[test]
fn load_names_the_first_missing_variable_in_order() {
    let v: Vec<(String, String)> = vars(Some("SENTRY_DSN"))
        .into_iter()
        .filter(|(n, _)| n != "LIBRARY_URL")
        .collect();
    match Config::load(&v) {
        Err(ConfigError::Missing(n)) => assert_eq!(n, "LIBRARY_URL"),
        Ok(_) => panic!("two variables are missing"),
    }
}
