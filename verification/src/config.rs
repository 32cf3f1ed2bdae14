//! Program configuration.
//!
//! The command line carries the search query and the name of the file to
//! search, in that order after the program name.  Building a configuration
//! only copies the two strings out of the argument list; opening the file
//! and choosing case sensitivity are the caller's business.

use vstd::prelude::*;

verus! {

/// The two values a search run needs: what to look for and where.
#[derive(Debug)]
pub struct Config {
    pub query: String,
    pub filename: String,
}

impl Config {
    /// Reads the query and the filename out of an argument list, where
    /// they stand in positions 1 and 2.  A list with fewer than three
    /// entries is rejected.
    pub fn new(args: &[String]) -> (r: Result<Config, &'static str>)
        ensures
            args@.len() >= 3 ==> (r matches Ok(c) && c.query@ == args@[1]@ && c.filename@
                == args@[2]@),
            args@.len() < 3 ==> (r matches Err(m) && m@ == "not enough arguments"@),
    {
        if args.len() < 3 {
            return Err("not enough arguments");
        }
        let query = args[1].clone();
        let filename = args[2].clone();
        Ok(Config { query, filename })
    }
}

} // verus!
