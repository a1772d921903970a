use vstd::prelude::*;

verus! {

/// Runtime configuration.
#[derive(Debug, Clone)]
pub struct Config {
    pub log_level: String,
    pub data_dir: String,
}

/// The log level used when none is configured.
pub fn default_log_level() -> (r: String)
    ensures
        r@ == "info"@,
{
    "info".to_owned()
}

/// The data directory used when none is configured.
pub fn default_data_dir() -> (r: String)
    ensures
        r@ == "data"@,
{
    "data".to_owned()
}

impl Config {
    /// The configuration used when no file is found.
    pub fn defaults() -> (r: Config)
        ensures
            r.log_level@ == "info"@,
            r.data_dir@ == "data"@,
    {
        Config { log_level: default_log_level(), data_dir: default_data_dir() }
    }
}

} // verus!
