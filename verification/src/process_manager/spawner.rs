//! The launch recipe handed to the spawner.

use vstd::prelude::*;

use crate::process_manager::registry::ProcessInfo;

verus! {

/// Everything a spawn needs: the program, where to run it, its arguments,
/// and where its output goes.
#[derive(Debug)]
pub struct LaunchCommand {
    pub program: String,
    pub directory: String,
    pub args: Vec<String>,
    pub log_path: String,
}

impl LaunchCommand {
    /// The launch recipe of a record: its script and arguments, run in its
    /// working directory (the user's home when none is set), logging to its
    /// standard-output file.
    pub fn from_record(p: &ProcessInfo) -> (r: Self)
        ensures
            r.program == p.script,
            (match p.cwd {
                Some(d) => r.directory == d,
                None => r.directory@ == "~/"@,
            }),
            r.args@ == p.args@,
            r.log_path == p.stdout_log,
    {
        LaunchCommand {
            program: p.script.clone(),
            directory: (match &p.cwd {
                Some(d) => d.clone(),
                None => "~/".to_owned(),
            }),
            args: crate::strutil::clone_string_vec(&p.args),
            log_path: p.stdout_log.clone(),
        }
    }
}

} // verus!
