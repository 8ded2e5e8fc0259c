//! The bash tool's arguments and report, and the runner's settings.
use vstd::prelude::*;
use crate::json::{get_str, get_u64, spec_as_str, spec_as_u64, spec_get, Json};
use crate::text::{chars_of, decimal, extend_chars, extend_str, push_decimal, push_decimal_u64, string_of, trim};
use crate::tools::error::{ToolError, ToolErrorView};
use crate::tools::hashline::parse::trimmed_slice;

verus! {

/// The result of running a command.
#[derive(Debug)]
pub struct BashResult {
    pub exit_code: i32,
    pub stdout: String,
    pub stderr: String,
    pub cancelled: bool,
    pub timed_out: bool,
}

/// Runs shell commands in a working directory.
#[derive(Debug)]
pub struct BashRunner {
    cwd: String,
}

impl BashRunner {
    pub closed spec fn dir(&self) -> Seq<char> {
        self.cwd@
    }

    /// A runner in the given directory.
    pub fn new(cwd: String) -> (r: BashRunner)
        ensures
            r.dir() == cwd@,
    {
        BashRunner { cwd }
    }

    /// Moves the runner to another directory.
    pub fn set_cwd(&mut self, cwd: String)
        ensures
            final(self).dir() == cwd@,
    {
        self.cwd = cwd;
    }

    /// The runner's directory.
    pub fn cwd(&self) -> (r: &str)
        ensures
            r@ == self.dir(),
    {
        self.cwd.as_str()
    }
}

/// The result of a command that could not be started.
pub fn spawn_failure(message: &str) -> (r: BashResult)
    ensures
        r.exit_code == -1,
        r.stdout@ == Seq::<char>::empty(),
        r.stderr@ == "Failed to execute: "@ + message@,
        !r.cancelled,
        !r.timed_out,
{
    let mut e: Vec<char> = Vec::new();
    extend_str(&mut e, "Failed to execute: ");
    extend_str(&mut e, message);
    BashResult { exit_code: -1, stdout: string_of(&Vec::new()), stderr: string_of(&e), cancelled: false, timed_out: false }
}

/// The bash tool.
#[derive(Debug)]
pub struct BashTool;

/// The arguments of the bash tool: the command, and an optional timeout in
/// seconds.
pub open spec fn bash_args_spec(a: Json) -> Result<(Seq<char>, Option<u64>), ToolErrorView> {
    match spec_as_str(spec_get(a, "command"@)) {
        None => Err(ToolErrorView::InvalidArguments("Missing required 'command' argument"@)),
        Some(c) => Ok((c, spec_as_u64(spec_get(a, "timeout"@)))),
    }
}

/// The arguments of the bash tool.
pub fn bash_args(arguments: &Json) -> (r: Result<(String, Option<u64>), ToolError>)
    ensures
        match bash_args_spec(*arguments) {
            Err(x) => r matches Err(e) && e@ == x,
            Ok((c, t)) => r matches Ok(v) && v.0@ == c && v.1 == t,
        },
{
    match get_str(arguments, "command") {
        None => Err(ToolError::InvalidArguments("Missing required 'command' argument".to_string())),
        Some(c) => Ok((string_of(&chars_of(c)), get_u64(arguments, "timeout"))),
    }
}

pub open spec fn signed_decimal(n: i32) -> Seq<char> {
    if n < 0 { seq!['-'] + decimal((-n) as nat) } else { decimal(n as nat) }
}

/// The report of a command: a timeout notice, the trimmed output and
/// errors, a note when there was neither, and the exit code.
pub open spec fn bash_report_spec(r: BashResult, timeout: Option<u64>) -> Seq<char> {
    let out = trim(r.stdout@);
    let err = trim(r.stderr@);
    (if r.timed_out {
        "Command timed out after "@ + decimal(match timeout { Some(t) => t as nat, None => 0 }) + "s.\n"@
    } else {
        Seq::empty()
    }) + (if out.len() > 0 { "STDOUT:\n"@ + out + "\n"@ } else { Seq::empty() }) + (if err.len() > 0 {
        "STDERR:\n"@ + err + "\n"@
    } else {
        Seq::empty()
    }) + (if out.len() == 0 && err.len() == 0 && !r.timed_out { "(no output)\n"@ } else { Seq::empty() }) + "Exit code: "@
        + signed_decimal(r.exit_code)
}

fn push_signed(out: &mut Vec<char>, n: i32)
    ensures
        final(out)@ == old(out)@ + signed_decimal(n),
{
    if n < 0 {
        out.push('-');
        let m: u64 = if n == i32::MIN { 2147483648 } else { (-n) as u64 };
        push_decimal_u64(out, m);
    } else {
        push_decimal_u64(out, n as u64);
    }
}

/// What the bash tool reports of a finished command: the text, whether it
/// is an error (a non-zero exit or a timeout), and the trimmed output and
/// errors; `None` when the command was cancelled.
pub fn bash_report(r: &BashResult, timeout: Option<u64>) -> (out: Option<(String, bool, String, String)>)
    ensures
        r.cancelled ==> out is None,
        !r.cancelled ==> (out matches Some(v) && v.0@ == bash_report_spec(*r, timeout)
            && v.1 == (r.exit_code != 0 || r.timed_out) && v.2@ == trim(r.stdout@) && v.3@ == trim(r.stderr@)),
{
    if r.cancelled {
        return None;
    }
    let so = chars_of(r.stdout.as_str());
    let se = chars_of(r.stderr.as_str());
    let out_t = trimmed_slice(&so, 0, so.len());
    let err_t = trimmed_slice(&se, 0, se.len());
    assert(so@.subrange(0, so.len() as int) =~= so@);
    assert(se@.subrange(0, se.len() as int) =~= se@);
    let mut t: Vec<char> = Vec::new();
    if r.timed_out {
        extend_str(&mut t, "Command timed out after ");
        let secs: u64 = match timeout {
            Some(s) => s,
            None => 0,
        };
        push_decimal_u64(&mut t, secs);
        extend_str(&mut t, "s.\n");
    }
    let ghost a = t@;
    if out_t.len() > 0 {
        extend_str(&mut t, "STDOUT:\n");
        extend_chars(&mut t, &out_t);
        extend_str(&mut t, "\n");
    } else {
        assert(t@ =~= a + Seq::<char>::empty());
    }
    let ghost b = t@;
    if err_t.len() > 0 {
        extend_str(&mut t, "STDERR:\n");
        extend_chars(&mut t, &err_t);
        extend_str(&mut t, "\n");
    } else {
        assert(t@ =~= b + Seq::<char>::empty());
    }
    let ghost c = t@;
    if out_t.len() == 0 && err_t.len() == 0 && !r.timed_out {
        extend_str(&mut t, "(no output)\n");
    } else {
        assert(t@ =~= c + Seq::<char>::empty());
    }
    extend_str(&mut t, "Exit code: ");
    push_signed(&mut t, r.exit_code);
    proof {
        if !r.timed_out {
            assert(a =~= Seq::<char>::empty());
        }
    }
    assert(t@ =~= bash_report_spec(*r, timeout));
    Some((string_of(&t), r.exit_code != 0 || r.timed_out, string_of(&out_t), string_of(&err_t)))
}

} // verus!
