//! Shell sentinel formatter.
//!
//! A command sent to an interactive shell gives no exit status of its own, so
//! the executor appends an epilogue that makes the shell print
//! `IRONGRAPH_CMD_DONE:<status>` on the same stream once the command ends.
//! The epilogue differs per shell; the sentinel literal itself must not.

use vstd::prelude::*;

use crate::text::{chars_to_string, extend_chars, str_to_chars};

verus! {

/// The shell a command line is destined for.
#[derive(Debug, Clone, Copy, PartialEq, Eq, Structural)]
pub enum ShellType {
    Bash,
    Cmd,
    PowerShell,
}

/// The sentinel literal that announces command completion.
pub open spec fn sentinel_marker() -> Seq<char> {
    "IRONGRAPH_CMD_DONE:"@
}

/// The epilogue appended to a command for the given shell.
pub open spec fn sentinel_suffix(sh: ShellType) -> Seq<char> {
    match sh {
        ShellType::Bash => "; echo \"IRONGRAPH_CMD_DONE:$?\"\n"@,
        ShellType::Cmd => " & echo IRONGRAPH_CMD_DONE:%ERRORLEVEL%\r\n"@,
        ShellType::PowerShell => "; Write-Host \"IRONGRAPH_CMD_DONE:$LASTEXITCODE\"\r\n"@,
    }
}

impl ShellType {
    /// The command followed by the shell's sentinel epilogue, ready to pipe
    /// into an interactive shell.
    pub fn format_with_sentinel(&self, command: &str) -> (r: String)
        ensures
            r@ == command@ + sentinel_suffix(*self),
    {
        let mut buf = str_to_chars(command);
        let suffix = match self {
            ShellType::Bash => str_to_chars("; echo \"IRONGRAPH_CMD_DONE:$?\"\n"),
            ShellType::Cmd => str_to_chars(" & echo IRONGRAPH_CMD_DONE:%ERRORLEVEL%\r\n"),
            ShellType::PowerShell => str_to_chars(
                "; Write-Host \"IRONGRAPH_CMD_DONE:$LASTEXITCODE\"\r\n",
            ),
        };
        proof {
            assert(suffix@ == sentinel_suffix(*self));
        }
        extend_chars(&mut buf, &suffix);
        chars_to_string(&buf)
    }
}

} // verus!
