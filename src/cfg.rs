//! Settings of the storage connection.
use vstd::prelude::*;

verus! {

/// Settings of the whole service.
#[derive(Clone, Debug)]
pub struct Config {
    pub db: Db,
}

/// Where the judgment store lives.
#[derive(Clone, Debug)]
pub struct Db {
    pub host: String,
}

impl Config {
    /// Settings for a store on `host`; `None` means the local machine.
    pub fn with_host(host: Option<String>) -> (r: Config)
        ensures
            host matches Some(h) ==> r.db.host@ == h@,
            host is None ==> r.db.host@ == "localhost"@,
    {
        match host {
            Some(h) => Config { db: Db { host: h } },
            None => Config { db: Db { host: String::from_str("localhost") } },
        }
    }
}

} // verus!
