use vstd::prelude::*;

verus! {

/// The value of the first variable named `name`, if any.
pub open spec fn lookup(vars: Seq<(String, String)>, name: Seq<char>) -> Option<Seq<char>>
    decreases vars.len(),
{
    if vars.len() == 0 {
        None
    } else {
        match lookup(vars.drop_last(), name) {
            Some(v) => Some(v),
            None => if vars.last().0@ == name {
                Some(vars.last().1@)
            } else {
                None
            },
        }
    }
}

/// A configuration value that could not be found.
pub enum ConfigError {
    /// No variable of this name was given.
    Missing(String),
}

/// The value of the first variable named `name`, or the error naming it.
fn require(vars: &Vec<(String, String)>, name: &str) -> (r: Result<String, ConfigError>)
    ensures
        match lookup(vars@, name@) {
            Some(v) => r matches Ok(s) && s@ == v,
            None => r matches Err(ConfigError::Missing(n)) && n@ == name@,
        },
{
    let ghost all = vars@;
    let key = String::from_str(name);
    for i in 0..vars.len()
        invariant
            all == vars@,
            key@ == name@,
            lookup(all.take(i as int), name@) is None,
    {
        assert(all.take(i + 1).drop_last() =~= all.take(i as int));
        if vars[i].0 == key {
            assert(all.take(i + 1).last().0@ == name@);
            proof {
                lemma_lookup_found_persists(all, i + 1, name@);
            }
            return Ok(vars[i].1.clone());
        }
    }
    assert(all.take(vars.len() as int) =~= all);
    Err(ConfigError::Missing(key))
}

/// A value found in a prefix of the variables is the one found in all of them.
proof fn lemma_lookup_found_persists(vars: Seq<(String, String)>, k: int, name: Seq<char>)
    requires
        0 <= k <= vars.len(),
        lookup(vars.take(k), name) is Some,
    ensures
        lookup(vars, name) == lookup(vars.take(k), name),
    decreases vars.len() - k,
{
    if k < vars.len() {
        assert(vars.take(k + 1).drop_last() =~= vars.take(k));
        lemma_lookup_found_persists(vars, k + 1, name);
    } else {
        assert(vars.take(k) =~= vars);
    }
}

/// Settings of the service, read once at startup.
pub struct Config {
    /// Key that clients present to use the service.
    pub api_key: String,
    /// Key for the catalog service.
    pub library_api_key: String,
    /// Base URL of the catalog service.
    pub library_url: String,
    /// Key for the download service.
    pub cache_api_key: String,
    /// Base URL of the download service.
    pub cache_url: String,
    /// Storage endpoint used for writing.
    pub minio_host: String,
    /// Public storage endpoint used for download links.
    pub minio_external_host: String,
    /// Bucket that archives are uploaded to.
    pub minio_bucket: String,
    /// Bucket of shared books, swept like the archives.
    pub minio_share_books_bucket: String,
    /// Storage access key.
    pub minio_access_key: String,
    /// Storage secret key.
    pub minio_secret_key: String,
    /// Error reporting endpoint.
    pub sentry_dsn: String,
}

/// Every variable the configuration needs is given.
pub open spec fn all_present(vars: Seq<(String, String)>) -> bool {
    &&& lookup(vars, "API_KEY"@) is Some
    &&& lookup(vars, "LIBRARY_API_KEY"@) is Some
    &&& lookup(vars, "LIBRARY_URL"@) is Some
    &&& lookup(vars, "CACHE_API_KEY"@) is Some
    &&& lookup(vars, "CACHE_URL"@) is Some
    &&& lookup(vars, "MINIO_HOST"@) is Some
    &&& lookup(vars, "MINIO_EXTERNAL_HOST"@) is Some
    &&& lookup(vars, "MINIO_BUCKET"@) is Some
    &&& lookup(vars, "MINIO_SHARE_BOOKS_BUCKET"@) is Some
    &&& lookup(vars, "MINIO_ACCESS_KEY"@) is Some
    &&& lookup(vars, "MINIO_SECRET_KEY"@) is Some
    &&& lookup(vars, "SENTRY_DSN"@) is Some
}

/// The variables the configuration needs, in the order they are read.
pub open spec fn required_names() -> Seq<Seq<char>> {
    seq![
        "API_KEY"@,
        "LIBRARY_API_KEY"@,
        "LIBRARY_URL"@,
        "CACHE_API_KEY"@,
        "CACHE_URL"@,
        "MINIO_HOST"@,
        "MINIO_EXTERNAL_HOST"@,
        "MINIO_BUCKET"@,
        "MINIO_SHARE_BOOKS_BUCKET"@,
        "MINIO_ACCESS_KEY"@,
        "MINIO_SECRET_KEY"@,
        "SENTRY_DSN"@,
    ]
}

/// `name` is the first of the needed variables, in their order, that is not
/// given.
pub open spec fn is_first_missing(vars: Seq<(String, String)>, name: Seq<char>) -> bool {
    exists|i: int|
        0 <= i < required_names().len() && #[trigger] required_names()[i] == name && lookup(
            vars,
            name,
        ) is None && forall|j: int| 0 <= j < i ==> lookup(vars, #[trigger] required_names()[j]) is Some
}

/// Each field holds the value of its variable.
pub open spec fn loaded_from(c: Config, vars: Seq<(String, String)>) -> bool {
    &&& lookup(vars, "API_KEY"@) == Some(c.api_key@)
    &&& lookup(vars, "LIBRARY_API_KEY"@) == Some(c.library_api_key@)
    &&& lookup(vars, "LIBRARY_URL"@) == Some(c.library_url@)
    &&& lookup(vars, "CACHE_API_KEY"@) == Some(c.cache_api_key@)
    &&& lookup(vars, "CACHE_URL"@) == Some(c.cache_url@)
    &&& lookup(vars, "MINIO_HOST"@) == Some(c.minio_host@)
    &&& lookup(vars, "MINIO_EXTERNAL_HOST"@) == Some(c.minio_external_host@)
    &&& lookup(vars, "MINIO_BUCKET"@) == Some(c.minio_bucket@)
    &&& lookup(vars, "MINIO_SHARE_BOOKS_BUCKET"@) == Some(c.minio_share_books_bucket@)
    &&& lookup(vars, "MINIO_ACCESS_KEY"@) == Some(c.minio_access_key@)
    &&& lookup(vars, "MINIO_SECRET_KEY"@) == Some(c.minio_secret_key@)
    &&& lookup(vars, "SENTRY_DSN"@) == Some(c.sentry_dsn@)
}

impl Config {
    /// The configuration from the given variables, name and value each, as
    /// the process environment lists them; the first variable missing is an
    /// error.
    pub fn load(vars: &Vec<(String, String)>) -> (r: Result<Config, ConfigError>)
        ensures
            r is Ok <==> all_present(vars@),
            r matches Ok(c) ==> loaded_from(c, vars@),
            r matches Err(ConfigError::Missing(n)) ==> is_first_missing(vars@, n@),
    {
        let api_key = match require(vars, "API_KEY") {
            Ok(v) => v,
            Err(e) => {
                proof {
                    assert(required_names()[0] == "API_KEY"@);
                    assert forall|j: int| 0 <= j < 0 implies lookup(
                        vars@,
                        #[trigger] required_names()[j],
                    ) is Some by {}
                }
                return Err(e);
            },
        };
        let library_api_key = match require(vars, "LIBRARY_API_KEY") {
            Ok(v) => v,
            Err(e) => {
                proof {
                    assert(required_names()[1] == "LIBRARY_API_KEY"@);
                    assert forall|j: int| 0 <= j < 1 implies lookup(
                        vars@,
                        #[trigger] required_names()[j],
                    ) is Some by {}
                }
                return Err(e);
            },
        };
        let library_url = match require(vars, "LIBRARY_URL") {
            Ok(v) => v,
            Err(e) => {
                proof {
                    assert(required_names()[2] == "LIBRARY_URL"@);
                    assert forall|j: int| 0 <= j < 2 implies lookup(
                        vars@,
                        #[trigger] required_names()[j],
                    ) is Some by {}
                }
                return Err(e);
            },
        };
        let cache_api_key = match require(vars, "CACHE_API_KEY") {
            Ok(v) => v,
            Err(e) => {
                proof {
                    assert(required_names()[3] == "CACHE_API_KEY"@);
                    assert forall|j: int| 0 <= j < 3 implies lookup(
                        vars@,
                        #[trigger] required_names()[j],
                    ) is Some by {}
                }
                return Err(e);
            },
        };
        let cache_url = match require(vars, "CACHE_URL") {
            Ok(v) => v,
            Err(e) => {
                proof {
                    assert(required_names()[4] == "CACHE_URL"@);
                    assert forall|j: int| 0 <= j < 4 implies lookup(
                        vars@,
                        #[trigger] required_names()[j],
                    ) is Some by {}
                }
                return Err(e);
            },
        };
        let minio_host = match require(vars, "MINIO_HOST") {
            Ok(v) => v,
            Err(e) => {
                proof {
                    assert(required_names()[5] == "MINIO_HOST"@);
                    assert forall|j: int| 0 <= j < 5 implies lookup(
                        vars@,
                        #[trigger] required_names()[j],
                    ) is Some by {}
                }
                return Err(e);
            },
        };
        let minio_external_host = match require(vars, "MINIO_EXTERNAL_HOST") {
            Ok(v) => v,
            Err(e) => {
                proof {
                    assert(required_names()[6] == "MINIO_EXTERNAL_HOST"@);
                    assert forall|j: int| 0 <= j < 6 implies lookup(
                        vars@,
                        #[trigger] required_names()[j],
                    ) is Some by {}
                }
                return Err(e);
            },
        };
        let minio_bucket = match require(vars, "MINIO_BUCKET") {
            Ok(v) => v,
            Err(e) => {
                proof {
                    assert(required_names()[7] == "MINIO_BUCKET"@);
                    assert forall|j: int| 0 <= j < 7 implies lookup(
                        vars@,
                        #[trigger] required_names()[j],
                    ) is Some by {}
                }
                return Err(e);
            },
        };
        let minio_share_books_bucket = match require(vars, "MINIO_SHARE_BOOKS_BUCKET") {
            Ok(v) => v,
            Err(e) => {
                proof {
                    assert(required_names()[8] == "MINIO_SHARE_BOOKS_BUCKET"@);
                    assert forall|j: int| 0 <= j < 8 implies lookup(
                        vars@,
                        #[trigger] required_names()[j],
                    ) is Some by {}
                }
                return Err(e);
            },
        };
        let minio_access_key = match require(vars, "MINIO_ACCESS_KEY") {
            Ok(v) => v,
            Err(e) => {
                proof {
                    assert(required_names()[9] == "MINIO_ACCESS_KEY"@);
                    assert forall|j: int| 0 <= j < 9 implies lookup(
                        vars@,
                        #[trigger] required_names()[j],
                    ) is Some by {}
                }
                return Err(e);
            },
        };
        let minio_secret_key = match require(vars, "MINIO_SECRET_KEY") {
            Ok(v) => v,
            Err(e) => {
                proof {
                    assert(required_names()[10] == "MINIO_SECRET_KEY"@);
                    assert forall|j: int| 0 <= j < 10 implies lookup(
                        vars@,
                        #[trigger] required_names()[j],
                    ) is Some by {}
                }
                return Err(e);
            },
        };
        let sentry_dsn = match require(vars, "SENTRY_DSN") {
            Ok(v) => v,
            Err(e) => {
                proof {
                    assert(required_names()[11] == "SENTRY_DSN"@);
                    assert forall|j: int| 0 <= j < 11 implies lookup(
                        vars@,
                        #[trigger] required_names()[j],
                    ) is Some by {}
                }
                return Err(e);
            },
        };
        Ok(Config {
            api_key,
            library_api_key,
            library_url,
            cache_api_key,
            cache_url,
            minio_host,
            minio_external_host,
            minio_bucket,
            minio_share_books_bucket,
            minio_access_key,
            minio_secret_key,
            sentry_dsn,
        })
    }
}

} // verus!
