//! The plain data types exchanged between the agent core, its effectors and
//! its callers.  One set serves every layer; the boundary that needs
//! foreign serialisation derives keeps its own mirrored copies outside the
//! library and converts at the edge.

use vstd::prelude::*;

verus! {

/// One chat message of the conversation history.
#[derive(Debug, Clone, PartialEq)]
pub struct Message {
    /// `system`, `user`, `assistant` or `tool`.
    pub role: String,
    pub content: String,
}

impl View for Message {
    type V = (Seq<char>, Seq<char>);

    open spec fn view(&self) -> (Seq<char>, Seq<char>) {
        (self.role@, self.content@)
    }
}

/// A fully parsed tool call: the tool's name and its arguments as an
/// ordered mapping from argument name to raw text value.
#[derive(Debug, Clone, PartialEq)]
pub struct ToolCall {
    pub name: String,
    pub arguments: Vec<(String, String)>,
}

/// A complete (non-streamed) chat answer: the assistant text and the tool
/// calls parsed out of it.
#[derive(Debug, Clone, PartialEq)]
pub struct LLMResponse {
    pub role: String,
    pub content: String,
    pub tool_calls: Option<Vec<ToolCall>>,
    pub usage: Option<Vec<(String, u32)>>,
}

/// The captured output of a one-shot command.
#[derive(Debug, Clone, PartialEq)]
pub struct CommandOutput {
    pub stdout: String,
    pub stderr: String,
    pub exit_code: i32,
}

/// Failures of the terminal layer.
#[derive(Debug, Clone, PartialEq)]
pub enum ShellError {
    Io(String),
    NotFound(String),
    Pty(String),
}

/// Failures of the workspace layer.
#[derive(Debug, Clone, PartialEq)]
pub enum FsError {
    Io(String),
    SecurityViolation,
    InvalidPath,
    Syntax(String),
}

/// One entry of a workspace file tree.
#[derive(Debug, PartialEq)]
pub struct FileEntry {
    /// Path relative to the workspace root.
    pub path: String,
    pub name: String,
    pub is_dir: bool,
    pub children: Option<Vec<FileEntry>>,
}

/// A file and its content.
#[derive(Debug, Clone, PartialEq)]
pub struct FileContent {
    pub path: String,
    pub content: String,
}

/// A stored user profile.
#[derive(Debug, Clone, PartialEq)]
pub struct UserProfile {
    pub id: i32,
    pub name: String,
    pub bio: String,
}

/// A request to change the user profile.
#[derive(Debug, Clone, PartialEq)]
pub struct UpdateProfileReq {
    pub name: String,
    pub bio: String,
}

impl ShellError {
    /// The error rendered as the terminal layer reports it.
    pub fn describe(&self) -> (r: String)
        ensures
            r@ == match *self {
                ShellError::Io(ref m) => "IO Error: "@ + m@,
                ShellError::NotFound(ref m) => "Command not found: "@ + m@,
                ShellError::Pty(ref m) => "PTY Error: "@ + m@,
            },
    {
        let (prefix, msg) = match self {
            ShellError::Io(m) => ("IO Error: ", m),
            ShellError::NotFound(m) => ("Command not found: ", m),
            ShellError::Pty(m) => ("PTY Error: ", m),
        };
        let mut out = crate::text::str_to_chars(prefix);
        let tail = crate::text::str_to_chars(msg.as_str());
        crate::text::extend_chars(&mut out, &tail);
        crate::text::chars_to_string(&out)
    }
}

impl FsError {
    /// The error rendered as the workspace layer reports it.
    pub fn describe(&self) -> (r: String)
        ensures
            r@ == match *self {
                FsError::Io(ref m) => "IO Error: "@ + m@,
                FsError::SecurityViolation => "Security Violation: Path traversal detected"@,
                FsError::InvalidPath => "Invalid Path"@,
                FsError::Syntax(ref m) => "Syntax Error: "@ + m@,
            },
    {
        match self {
            FsError::Io(m) => {
                let mut out = crate::text::str_to_chars("IO Error: ");
                let tail = crate::text::str_to_chars(m.as_str());
                crate::text::extend_chars(&mut out, &tail);
                crate::text::chars_to_string(&out)
            },
            FsError::SecurityViolation => {
                let out = crate::text::str_to_chars("Security Violation: Path traversal detected");
                crate::text::chars_to_string(&out)
            },
            FsError::InvalidPath => {
                let out = crate::text::str_to_chars("Invalid Path");
                crate::text::chars_to_string(&out)
            },
            FsError::Syntax(m) => {
                let mut out = crate::text::str_to_chars("Syntax Error: ");
                let tail = crate::text::str_to_chars(m.as_str());
                crate::text::extend_chars(&mut out, &tail);
                crate::text::chars_to_string(&out)
            },
        }
    }
}

} // verus!
