//! The command line options and the configuration path they select.

use vstd::prelude::*;
use vstd::string::*;

verus! {

/// The command line options.
#[derive(Debug)]
pub struct Args {
    /// Path to the configuration file, when given.
    pub config_file: Option<String>,
    /// Whether to print what is done at each step.
    pub debug: bool,
}

/// Where the configuration is kept unless another path is given.
pub open spec fn default_config_path() -> Seq<char> {
    "/etc/uni-sync-curve.json"@
}

impl Args {
    /// The configuration file to use: the one given, else the default.
    pub fn config_path(&self) -> (path: String)
        ensures
            path@ == match self.config_file {
                Some(p) => p@,
                None => default_config_path(),
            },
    {
        match &self.config_file {
            Some(p) => p.clone(),
            None => String::from_str("/etc/uni-sync-curve.json"),
        }
    }
}

} // verus!
