//! What the command line asks the program for: one of the two hook
//! commands, or a wrapped run.

use vstd::prelude::*;

use crate::text::{owned, str_eq};

verus! {

/// What the program is asked to do.
#[derive(Debug)]
pub enum Command {
    /// Record the hook payload on stdin in the file at this path.
    HookWrite(String),
    /// Answer the hook event of this name.
    HookControl(String),
    /// Run the upstream CLI with these arguments.
    Run(Vec<String>),
}

/// A hook command with the wrong number of arguments.
#[derive(Debug, Clone, Copy, PartialEq, Eq, Structural)]
pub enum CommandError {
    HookWriteUsage,
    HookControlUsage,
}

impl CommandError {
    /// The usage message printed for this error.
    pub fn message(&self) -> (r: String)
        ensures
            r@ == match *self {
                CommandError::HookWriteUsage => "usage: praude __hook-write <path>"@,
                CommandError::HookControlUsage => "usage: praude __hook-control <event>"@,
            },
    {
        match self {
            CommandError::HookWriteUsage => owned("usage: praude __hook-write <path>"),
            CommandError::HookControlUsage => owned("usage: praude __hook-control <event>"),
        }
    }
}

/// The command that the arguments (without the program name) ask for: a
/// first argument `__hook-write` or `__hook-control` names a hook command,
/// which takes exactly one more argument; anything else is a wrapped run.
pub open spec fn dispatch_spec(args: Seq<Seq<char>>) -> Result<(nat, Seq<Seq<char>>), CommandError> {
    if args.len() > 0 && args[0] == "__hook-write"@ {
        if args.len() != 2 {
            Err(CommandError::HookWriteUsage)
        } else {
            Ok((0, seq![args[1]]))
        }
    } else if args.len() > 0 && args[0] == "__hook-control"@ {
        if args.len() != 2 {
            Err(CommandError::HookControlUsage)
        } else {
            Ok((1, seq![args[1]]))
        }
    } else {
        Ok((2, args))
    }
}

pub open spec fn command_matches(c: Command, kind: nat, payload: Seq<Seq<char>>) -> bool {
    match c {
        Command::HookWrite(p) => kind == 0 && payload == seq![p@],
        Command::HookControl(e) => kind == 1 && payload == seq![e@],
        Command::Run(a) => kind == 2 && payload == a.deep_view(),
    }
}

/// The command that the arguments ask for.
pub fn dispatch(args: Vec<String>) -> (r: Result<Command, CommandError>)
    ensures
        match dispatch_spec(args.deep_view()) {
            Ok((kind, payload)) => r matches Ok(c) && command_matches(c, kind, payload),
            Err(e) => r == Err::<Command, CommandError>(e),
        },
{
    if args.len() > 0 && str_eq(args[0].as_str(), "__hook-write") {
        if args.len() != 2 {
            return Err(CommandError::HookWriteUsage);
        }
        let p = args[1].clone();
        assert(seq![p@] =~= seq![args.deep_view()[1]]);
        return Ok(Command::HookWrite(p));
    }
    if args.len() > 0 && str_eq(args[0].as_str(), "__hook-control") {
        if args.len() != 2 {
            return Err(CommandError::HookControlUsage);
        }
        let e = args[1].clone();
        assert(seq![e@] =~= seq![args.deep_view()[1]]);
        return Ok(Command::HookControl(e));
    }
    Ok(Command::Run(args))
}

/// Where the home directory comes from.
#[derive(Debug, Clone, Copy, PartialEq, Eq, Structural)]
pub enum HomeSource {
    /// `HOME`.
    Home,
    /// `USERPROFILE` (Windows).
    UserProfile,
    /// `HOMEDRIVE` joined with `HOMEPATH` (Windows).
    DriveAndPath,
    /// None can be found.
    Unknown,
}

/// `home_dir`: `HOME` where it is set; on Windows `USERPROFILE`, then
/// `HOMEDRIVE` with `HOMEPATH` where both are set; else none.
pub fn home_source(home_set: bool, windows: bool, user_profile_set: bool, drive_and_path_set: bool) -> (r:
    HomeSource)
    ensures
        r == (if home_set {
            HomeSource::Home
        } else if !windows {
            HomeSource::Unknown
        } else if user_profile_set {
            HomeSource::UserProfile
        } else if drive_and_path_set {
            HomeSource::DriveAndPath
        } else {
            HomeSource::Unknown
        }),
{
    if home_set {
        HomeSource::Home
    } else if !windows {
        HomeSource::Unknown
    } else if user_profile_set {
        HomeSource::UserProfile
    } else if drive_and_path_set {
        HomeSource::DriveAndPath
    } else {
        HomeSource::Unknown
    }
}

} // verus!
