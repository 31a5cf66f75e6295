//! Command-line configuration: which XML file to transcode.

use vstd::prelude::*;
use vstd::string::StringExecFns;

verus! {

/// The run configuration: the path of the XML file to be converted. The
/// path is carried as plain text; resolving and reading it is the caller's
/// business.
#[derive(Debug)]
pub struct Config {
    pub xmlfilepath: String,
}

impl Config {
    /// Takes the first real command-line argument as the input path.
    /// With fewer than two arguments (the first being the program name)
    /// there is nothing to work on, and an explanatory message is returned
    /// instead.
    pub fn new(args: &[String]) -> (r: Result<Config, String>)
        ensures
            args@.len() < 2 ==> (r matches Err(e) && e@
                == "Not enough arguments!\nProvide path to JA2 1.13 xml file to be converted"@),
            args@.len() >= 2 ==> (r matches Ok(c) && c.xmlfilepath@ == args@[1]@),
    {
        if args.len() < 2 {
            let msg = String::from_str(
                "Not enough arguments!\nProvide path to JA2 1.13 xml file to be converted",
            );
            return Err(msg);
        }
        let xmlfilepath = args[1].clone();
        Ok(Config { xmlfilepath })
    }
}

} // verus!
