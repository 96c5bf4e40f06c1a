//! External commands: what to run for each helper, and how a finished command's outcome
//! becomes a result. Running them is left to the caller.

use vstd::prelude::*;

use crate::text::{contains, contains_str, trim, trim_str, views};

verus! {

/// A command to run: the program, its arguments, and whether its standard output is
/// captured (otherwise the standard streams are inherited).
#[derive(Debug, Clone)]
pub struct Invocation {
    pub program: String,
    pub args: Vec<String>,
    pub capture: bool,
}

/// The views of a sequence of strings.
pub open spec fn string_views(v: Seq<String>) -> Seq<Seq<char>> {
    v.map_values(|s: String| s@)
}

/// The arguments as owned strings.
fn owned_args(args: &[&str]) -> (r: Vec<String>)
    ensures
        string_views(r@) == views(args@),
{
    let mut v: Vec<String> = Vec::new();
    let mut i: usize = 0;
    while i < args.len()
        invariant
            i <= args@.len(),
            string_views(v@) == views(args@.take(i as int)),
        decreases args@.len() - i,
    {
        let s = String::from_str(args[i]);
        proof {
            assert(string_views(v@.push(s)) =~= string_views(v@).push(s@));
            assert(views(args@.take(i + 1)) =~= views(args@.take(i as int)).push(args@[i as int]@));
        }
        v.push(s);
        i = i + 1;
    }
    proof {
        assert(args@.take(args@.len() as int) =~= args@);
    }
    v
}

/// `cmd args…` with the standard streams inherited.
pub fn run(cmd: &str, args: &[&str]) -> (r: Invocation)
    ensures
        r.program@ == cmd@,
        string_views(r.args@) == views(args@),
        !r.capture,
{
    Invocation { program: String::from_str(cmd), args: owned_args(args), capture: false }
}

/// `cmd args…` with the standard output captured.
pub fn run_capture(cmd: &str, args: &[&str]) -> (r: Invocation)
    ensures
        r.program@ == cmd@,
        string_views(r.args@) == views(args@),
        r.capture,
{
    Invocation { program: String::from_str(cmd), args: owned_args(args), capture: true }
}

/// The same as [`run_capture`].
pub fn run_str(cmd: &str, args: &[&str]) -> (r: Invocation)
    ensures
        r.program@ == cmd@,
        string_views(r.args@) == views(args@),
        r.capture,
{
    run_capture(cmd, args)
}

/// The probe for a command: `which <cmd>`, whose success means the command exists.
pub fn command_exists(cmd: &str) -> (r: Invocation)
    ensures
        r.program@ == "which"@,
        string_views(r.args@) == seq![cmd@],
        r.capture,
{
    let mut args: Vec<String> = Vec::new();
    args.push(String::from_str(cmd));
    proof {
        assert(string_views(args@) =~= seq![cmd@]);
    }
    Invocation { program: String::from_str("which"), args, capture: true }
}

/// The same as [`command_exists`].
pub fn has_cmd(cmd: &str) -> (r: Invocation)
    ensures
        r.program@ == "which"@,
        string_views(r.args@) == seq![cmd@],
        r.capture,
{
    command_exists(cmd)
}

/// `bash -lc <script>`, output captured.
pub fn run_bash(script: &str) -> (r: Invocation)
    ensures
        r.program@ == "bash"@,
        string_views(r.args@) == seq!["-lc"@, script@],
        r.capture,
{
    let mut args: Vec<String> = Vec::new();
    args.push(String::from_str("-lc"));
    args.push(String::from_str(script));
    proof {
        assert(string_views(args@) =~= seq!["-lc"@, script@]);
    }
    Invocation { program: String::from_str("bash"), args, capture: true }
}

/// The arguments `exec <vmid> -- <cmd_args…>` of `pct`.
fn pct_exec_args(vmid: &str, cmd_args: &[&str]) -> (r: Vec<String>)
    ensures
        string_views(r@) == seq!["exec"@, vmid@, "--"@] + views(cmd_args@),
{
    let mut v: Vec<String> = Vec::new();
    v.push(String::from_str("exec"));
    v.push(String::from_str(vmid));
    v.push(String::from_str("--"));
    let mut rest = owned_args(cmd_args);
    let ghost head = v@;
    let ghost tail = rest@;
    v.append(&mut rest);
    proof {
        assert(string_views(v@) =~= string_views(head) + string_views(tail)) by {
            assert(v@ =~= head + tail);
        }
        assert(string_views(head) =~= seq!["exec"@, vmid@, "--"@]);
    }
    v
}

/// `pct exec <vmid> -- <cmd_args…>`: a command run inside an LXC guest, output captured.
pub fn pct_exec(vmid: &str, cmd_args: &[&str]) -> (r: Invocation)
    ensures
        r.program@ == "pct"@,
        string_views(r.args@) == seq!["exec"@, vmid@, "--"@] + views(cmd_args@),
        r.capture,
{
    Invocation { program: String::from_str("pct"), args: pct_exec_args(vmid, cmd_args), capture: true }
}

/// `pct exec <vmid> -- <cmd_args…>` with the standard streams inherited.
pub fn pct_exec_passthrough(vmid: &str, cmd_args: &[&str]) -> (r: Invocation)
    ensures
        r.program@ == "pct"@,
        string_views(r.args@) == seq!["exec"@, vmid@, "--"@] + views(cmd_args@),
        !r.capture,
{
    Invocation {
        program: String::from_str("pct"),
        args: pct_exec_args(vmid, cmd_args),
        capture: false,
    }
}

/// The first step of making sure an LXC guest runs: `pct status <vmid>`, output captured.
pub fn ensure_lxc_running(vmid: &str) -> (r: Invocation)
    ensures
        r.program@ == "pct"@,
        string_views(r.args@) == seq!["status"@, vmid@],
        r.capture,
{
    let mut args: Vec<String> = Vec::new();
    args.push(String::from_str("status"));
    args.push(String::from_str(vmid));
    proof {
        assert(string_views(args@) =~= seq!["status"@, vmid@]);
    }
    Invocation { program: String::from_str("pct"), args, capture: true }
}

/// The second step: given the status output, `pct start <vmid>` unless it reports
/// `running`.
pub fn lxc_start_if_stopped(vmid: &str, status: &str) -> (r: Option<Invocation>)
    ensures
        contains(status@, "running"@) <==> r is None,
        r matches Some(i) ==> (i.program@ == "pct"@ && string_views(i.args@) == seq![
            "start"@,
            vmid@,
        ] && !i.capture),
{
    if contains_str(status, "running") {
        None
    } else {
        let mut args: Vec<String> = Vec::new();
        args.push(String::from_str("start"));
        args.push(String::from_str(vmid));
        proof {
            assert(string_views(args@) =~= seq!["start"@, vmid@]);
        }
        Some(Invocation { program: String::from_str("pct"), args, capture: false })
    }
}

/// Why a command failed.
#[derive(Debug, Clone)]
pub enum CommandError {
    /// The command exited unsuccessfully; `detail` is its error output (captured commands)
    /// or its exit status (inherited ones).
    Failed { program: String, detail: String },
}

/// The result of a captured command: its trimmed standard output on success, else its
/// error output.
pub fn capture_result(program: &str, success: bool, stdout: &str, stderr: &str) -> (r: Result<
    String,
    CommandError,
>)
    ensures
        success ==> (r matches Ok(s) && s@ == trim(stdout@)),
        !success ==> (r matches Err(CommandError::Failed { program: p, detail: d }) && p@
            == program@ && d@ == stderr@),
{
    if success {
        Ok(String::from_str(trim_str(stdout)))
    } else {
        Err(CommandError::Failed { program: String::from_str(program), detail: String::from_str(stderr) })
    }
}

/// The result of a command run with inherited streams.
pub fn status_result(program: &str, success: bool, status: &str) -> (r: Result<(), CommandError>)
    ensures
        success ==> r is Ok,
        !success ==> (r matches Err(CommandError::Failed { program: p, detail: d }) && p@
            == program@ && d@ == status@),
{
    if success {
        Ok(())
    } else {
        Err(CommandError::Failed { program: String::from_str(program), detail: String::from_str(status) })
    }
}

} // verus!
