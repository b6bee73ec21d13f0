use vstd::prelude::*;

use crate::config::Config;

verus! {

/// The text of the hook file generated for `name`. It carries no command:
/// at each invocation it hands its own name, its arguments and its stdin to
/// the dispatcher, which reads the configuration afresh.
pub open spec fn script_of(name: Seq<char>) -> Seq<char> {
    "#!/bin/sh\n# managed by rusky: runs the command bound to this hook\nexec rusky run "@ + name
        + " \"$@\"\n"@
}

/// The marker printed before the bound command runs.
pub open spec fn start_text(name: Seq<char>) -> Seq<char> {
    "\u{1f43a} rusky > hook "@ + name
}

/// The marker printed after the bound command succeeded.
pub open spec fn completed_text() -> Seq<char> {
    "\u{2705} rusky > hook completed"@
}

/// The marker printed after the bound command failed.
pub open spec fn failed_text(name: Seq<char>) -> Seq<char> {
    "\u{274c} rusky > hook "@ + name + " failed"@
}

/// How a hook file ends once its command has finished.
pub struct DispatchExit {
    /// The status the hook process exits with.
    pub exit_code: i32,
    /// Whether the command is reported as successful.
    pub succeeded: bool,
}

/// The ending owed to a command that exited with `status`; `None` stands
/// for a command that was ended by a signal and gave no status.
pub open spec fn exit_of(status: Option<i32>) -> DispatchExit {
    match status {
        Some(c) => DispatchExit { exit_code: c, succeeded: c == 0 },
        None => DispatchExit { exit_code: 1, succeeded: false },
    }
}

/// The marker that closes a dispatch.
pub open spec fn finish_text(name: Seq<char>, e: DispatchExit) -> Seq<char> {
    if e.succeeded {
        completed_text()
    } else {
        failed_text(name)
    }
}

/// The command that a hook file runs when invoked for `hook_name`: the one
/// bound to that name in the configuration read at invocation time. An
/// unbound name, or an empty command, gives `None`: the hook then ends
/// successfully without output, so that it never blocks the operation.
pub fn dispatch_command(config: &Config, hook_name: &str) -> (r: Option<String>)
    requires
        config.wf(),
    ensures
        match r {
            Some(c) => config.hook_map().contains_key(hook_name@) && config.hook_map()[hook_name@]
                == c@ && c@.len() > 0,
            None => !config.hook_map().contains_key(hook_name@) || config.hook_map()[hook_name@].len()
                == 0,
        },
{
    match config.get_hook(hook_name) {
        Some(c) => {
            if c.unicode_len() == 0 {
                None
            } else {
                Some(c.clone())
            }
        },
        None => None,
    }
}

/// The hook file to write for the hook `name`.
pub fn hook_script(name: &str) -> (r: String)
    ensures
        r@ == script_of(name@),
{
    let mut r = String::from_str(
        "#!/bin/sh\n# managed by rusky: runs the command bound to this hook\nexec rusky run ",
    );
    r.append(name);
    r.append(" \"$@\"\n");
    r
}

/// The marker printed before the command of hook `name` runs.
pub fn start_marker(name: &str) -> (r: String)
    ensures
        r@ == start_text(name@),
{
    let mut r = String::from_str("\u{1f43a} rusky > hook ");
    r.append(name);
    r
}

/// The marker printed after the command of hook `name` finished as `e` says.
pub fn finish_marker(name: &str, e: &DispatchExit) -> (r: String)
    ensures
        r@ == finish_text(name@, *e),
{
    if e.succeeded {
        String::from_str("\u{2705} rusky > hook completed")
    } else {
        let mut r = String::from_str("\u{274c} rusky > hook ");
        r.append(name);
        r.append(" failed");
        r
    }
}

/// How the hook process ends after its command exited with `status`: with
/// exactly that status, so that a failing command aborts the operation.
pub fn dispatch_exit(status: Option<i32>) -> (r: DispatchExit)
    ensures
        r == exit_of(status),
{
    match status {
        Some(c) => DispatchExit { exit_code: c, succeeded: c == 0 },
        None => DispatchExit { exit_code: 1, succeeded: false },
    }
}

/// A hook file ends with the status of its command, and reports success
/// only when that status is zero: a failing command never closes with the
/// completed marker.
pub proof fn lemma_dispatch_keeps_status(name: Seq<char>, code: i32)
    ensures
        exit_of(Some(code)).exit_code == code,
        exit_of(Some(code)).succeeded <==> code == 0,
        code != 0 ==> finish_text(name, exit_of(Some(code))) != completed_text(),
{
    if code != 0 {
        reveal_strlit("\u{274c} rusky > hook ");
        reveal_strlit("\u{2705} rusky > hook completed");
        let f = failed_text(name);
        assert(f[0] != completed_text()[0]);
    }
}

} // verus!
