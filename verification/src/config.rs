//! The run configuration: the query, the file to search, and whether the
//! match test is case-sensitive, assembled from plain argument values.

use vstd::prelude::*;

verus! {

/// The configuration of one run.  Built once, never mutated.
pub struct Config {
    pub query: String,
    pub filename: String,
    pub case_sensitive: bool,
}

impl Config {
    /// Builds a configuration from the process's argument list (program name
    /// first, then the query, then the filename) and the value of the
    /// case-insensitivity toggle, where `None` means the toggle is absent.
    /// The toggle's presence alone selects case-insensitive search, whatever
    /// its value, an empty string included.
    pub fn new(args: Vec<String>, case_toggle: Option<String>) -> (result: Result<
        Config,
        &'static str,
    >)
        ensures
            match result {
                Ok(config) => {
                    &&& args@.len() >= 3
                    &&& config.query@ == args@[1]@
                    &&& config.filename@ == args@[2]@
                    &&& config.case_sensitive == (case_toggle is None)
                },
                Err(msg) => {
                    &&& args@.len() < 3
                    &&& (args@.len() < 2 ==> msg@ == "didn't get a query"@)
                    &&& (args@.len() == 2 ==> msg@ == "didn't get a filename"@)
                },
            },
    {
        if args.len() < 2 {
            return Err("didn't get a query");
        }
        if args.len() < 3 {
            return Err("didn't get a filename");
        }
        let query = args[1].clone();
        let filename = args[2].clone();
        let case_sensitive = case_toggle.is_none();
        Ok(Config { query, filename, case_sensitive })
    }
}

} // verus!
