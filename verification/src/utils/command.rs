//! How commands are run: window, elevation and echo options, and the
//! joining of several commands into one command line.

use crate::text::{push_str, strs_view};
use vstd::prelude::*;

verus! {

broadcast use vstd::string::group_string_axioms;

/// Options of one command run.
#[derive(Clone, Copy, Debug)]
pub struct RunCommandOptions {
    pub hide_window: bool,
    pub use_admin: bool,
    /// Print the full command line before running it.
    pub print_command: bool,
}

impl RunCommandOptions {
    pub fn new(hide_window: bool, use_admin: bool, print_command: bool) -> (r: Self)
        ensures
            r.hide_window == hide_window,
            r.use_admin == use_admin,
            r.print_command == print_command,
    {
        RunCommandOptions { hide_window, use_admin, print_command }
    }

    /// Process probes (`tasklist`): hidden window, not elevated, not echoed.
    pub fn tasklist() -> (r: Self)
        ensures
            r.hide_window,
            !r.use_admin,
            !r.print_command,
    {
        Self::new(true, false, false)
    }
}

/// A command line together with the options it is to be run with.
#[derive(Clone, Debug)]
pub struct CommandRun {
    pub command: String,
    pub options: RunCommandOptions,
}

/// The pieces joined with `sep` between neighbours.
pub open spec fn join_with(parts: Seq<Seq<char>>, sep: Seq<char>) -> Seq<char>
    decreases parts.len(),
{
    if parts.len() == 0 {
        seq![]
    } else if parts.len() == 1 {
        parts[0]
    } else {
        join_with(parts.drop_last(), sep) + sep + parts.last()
    }
}

/// The command line that runs `cmds` one after another while each succeeds:
/// the commands joined with ` && `.
pub fn join_commands(cmds: &[String]) -> (r: String)
    ensures
        r@ == join_with(cmds@.map_values(|c: String| c@), " && "@),
{
    let ghost parts = cmds@.map_values(|c: String| c@);
    let mut out = String::new();
    let mut i: usize = 0;
    while i < cmds.len()
        invariant
            i <= cmds@.len(),
            parts == cmds@.map_values(|c: String| c@),
            out@ == join_with(parts.take(i as int), " && "@),
        decreases cmds@.len() - i,
    {
        assert(parts.take(i + 1).drop_last() =~= parts.take(i as int));
        if i > 0 {
            push_str(&mut out, " && ");
        }
        push_str(&mut out, cmds[i].as_str());
        i = i + 1;
        proof {
            if i == 1 {
                assert(out@ =~= parts.take(1)[0]);
            }
        }
    }
    assert(parts.take(cmds@.len() as int) =~= parts);
    out
}

/// The program and arguments that run a command line: elevated ones go
/// through PowerShell's `Start-Process cmd '/C ...' -Verb RunAs`, the others
/// straight to `cmd.exe /C` (so that `netsh` output keeps its code page).
pub open spec fn invocation(text: Seq<char>, use_admin: bool) -> (Seq<char>, Seq<Seq<char>>) {
    if use_admin {
        ("powershell"@, seq!["powershell -Command \"Start-Process cmd '/C "@ + text + "'\" -Verb RunAs"@])
    } else {
        ("cmd.exe"@, seq!["/C"@, text])
    }
}

/// How [`CommandRun`]-style command lines are started.
pub fn command_invocation(text: &str, opts: RunCommandOptions) -> (r: (String, Vec<String>))
    ensures
        (r.0@, r.1@.map_values(|a: String| a@)) == invocation(text@, opts.use_admin),
{
    if opts.use_admin {
        let mut arg = String::new();
        push_str(&mut arg, "powershell -Command \"Start-Process cmd '/C ");
        push_str(&mut arg, text);
        push_str(&mut arg, "'\" -Verb RunAs");
        let mut args: Vec<String> = Vec::new();
        args.push(arg);
        let r = ("powershell".to_string(), args);
        assert(r.1@.map_values(|a: String| a@) =~= invocation(text@, true).1);
        r
    } else {
        let mut args: Vec<String> = Vec::new();
        args.push("/C".to_string());
        args.push(text.to_string());
        let r = ("cmd.exe".to_string(), args);
        assert(r.1@.map_values(|a: String| a@) =~= invocation(text@, false).1);
        r
    }
}

/// The PowerShell argument that starts the executable `exe` again with
/// administrator rights.
pub fn elevate_restart_argument(exe: &str) -> (r: String)
    ensures
        r@ == "powershell -Command \"Start-Process '"@ + exe@ + "'\" -Verb RunAs"@,
{
    let mut arg = String::new();
    push_str(&mut arg, "powershell -Command \"Start-Process '");
    push_str(&mut arg, exe);
    push_str(&mut arg, "'\" -Verb RunAs");
    arg
}

} // verus!
