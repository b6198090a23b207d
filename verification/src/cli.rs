//! What a run is asked for, and what it answers the shell.

use vstd::prelude::*;

verus! {

/// How results and logs are written.
#[derive(Debug, Copy, Clone, PartialEq, Eq, Structural)]
pub enum Format {
    Text,
    Json,
}

/// Where a backup comes from and where it goes.
#[derive(Debug)]
pub struct ConnArgs {
    pub workspace: String,
    pub project: String,
    pub secret: Option<String>,
    pub dataset: String,
    pub location: String,
}

impl Clone for ConnArgs {
    fn clone(&self) -> (r: Self)
        ensures
            r == *self,
    {
        ConnArgs {
            workspace: self.workspace.clone(),
            project: self.project.clone(),
            secret: match &self.secret {
                Some(s) => Some(s.clone()),
                None => None,
            },
            dataset: self.dataset.clone(),
            location: self.location.clone(),
        }
    }
}

/// What one backup is asked to do.
#[derive(Debug)]
pub struct BackupArgs {
    pub conn: ConnArgs,
    pub objects: Vec<String>,
    pub skip: Vec<String>,
    pub dry_run: bool,
    pub no_lock: bool,
    pub no_shrink_check: bool,
    pub partition_expiration_days: u32,
    pub views_dataset: Option<String>,
    pub no_views: bool,
    pub output: Format,
}

/// How a run ended.
#[derive(Debug, Clone, Copy, PartialEq, Eq, Structural)]
pub enum ExitCode {
    Complete,
    Failed,
    Partial,
    ConfigAuth,
    ShrinkCheck,
    LockHeld,
}

/// The number that the shell is given.
pub open spec fn exit_number(e: ExitCode) -> i32 {
    match e {
        ExitCode::Complete => 0,
        ExitCode::Failed => 1,
        ExitCode::Partial => 2,
        ExitCode::ConfigAuth => 3,
        ExitCode::ShrinkCheck => 4,
        ExitCode::LockHeld => 5,
    }
}

impl ExitCode {
    /// The number that the shell is given: 0 complete, 1 failed, 2 partial, 3 configuration or
    /// authentication, 4 suspicious shrinkage, 5 another run holds the lock.
    pub fn code(self) -> (r: i32)
        ensures
            r == exit_number(self),
    {
        match self {
            ExitCode::Complete => 0,
            ExitCode::Failed => 1,
            ExitCode::Partial => 2,
            ExitCode::ConfigAuth => 3,
            ExitCode::ShrinkCheck => 4,
            ExitCode::LockHeld => 5,
        }
    }
}

/// The number alone tells how a run ended.
pub proof fn law_exit_codes_differ(a: ExitCode, b: ExitCode)
    requires
        exit_number(a) == exit_number(b),
    ensures
        a == b,
{
}

/// What is logged without a filter of its own: quiet wins over verbose.
pub open spec fn level_name(verbose: u8, quiet: u8) -> Seq<char> {
    if quiet > 0 {
        "warn"@
    } else if verbose == 0 {
        "info"@
    } else if verbose == 1 {
        "debug"@
    } else {
        "trace"@
    }
}

/// What is logged without a filter of its own.
pub fn log_level(verbose: u8, quiet: u8) -> (r: &'static str)
    ensures
        r@ == level_name(verbose, quiet),
{
    if quiet > 0 {
        "warn"
    } else if verbose == 0 {
        "info"
    } else if verbose == 1 {
        "debug"
    } else {
        "trace"
    }
}

/// The shell is given 0 for a complete run, 1 for a failed one, 2 for a partial one, 3 where the
/// configuration or the key is wrong, 4 where something shrank, and 5 where another run is under
/// way.
pub proof fn law_exit_numbers(e: ExitCode)
    ensures
        exit_number(e) == 0 <==> e == ExitCode::Complete,
        exit_number(e) == 1 <==> e == ExitCode::Failed,
        exit_number(e) == 2 <==> e == ExitCode::Partial,
        exit_number(e) == 3 <==> e == ExitCode::ConfigAuth,
        exit_number(e) == 4 <==> e == ExitCode::ShrinkCheck,
        exit_number(e) == 5 <==> e == ExitCode::LockHeld,
{
}

/// Quiet wins over verbose, and each further verbose shows more, up to the second.
pub proof fn law_log_levels(verbose: u8, quiet: u8)
    ensures
        quiet > 0 ==> level_name(verbose, quiet) == "warn"@,
        quiet == 0 && verbose == 0 ==> level_name(verbose, quiet) == "info"@,
        quiet == 0 && verbose == 1 ==> level_name(verbose, quiet) == "debug"@,
        quiet == 0 && verbose > 1 ==> level_name(verbose, quiet) == "trace"@,
{
}

} // verus!
