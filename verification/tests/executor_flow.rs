use irongraph_core::executor::{
    build_command_line, no_terminal_message, pty_write_error_message, CommandExec, ExecEvent,
    ExecOutcome, ExecStep,
};
use irongraph_core::shell::ShellType;

#[test]
fn sentinel_formats_per_shell() {
    assert_eq!(
        ShellType::Bash.format_with_sentinel("ls -la"),
        "ls -la; echo \"IRONGRAPH_CMD_DONE:$?\"\n"
    );
    assert_eq!(
        ShellType::Cmd.format_with_sentinel("dir"),
        "dir & echo IRONGRAPH_CMD_DONE:%ERRORLEVEL%\r\n"
    );
    assert_eq!(
        ShellType::PowerShell.format_with_sentinel("dir"),
        "dir; Write-Host \"IRONGRAPH_CMD_DONE:$LASTEXITCODE\"\r\n"
    );
}

#[test]
fn executor_completes_on_sentinel() {
    let mut exec = CommandExec::begin();
    let first = exec.step(ExecEvent::Chunk("hello\r\n".to_string()));
    assert!(matches!(first, ExecStep::Continue));
    let second = exec.step(ExecEvent::Chunk("IRONGRAPH_CMD_DONE:0\r\n".to_string()));
    match second {
        ExecStep::Done(ExecOutcome::Completed { text, raw, exit_code }) => {
            assert_eq!(text, "hello\n(Exit Code: 0)");
            assert_eq!(raw, "hello\r\n");
            assert_eq!(exit_code, 0);
        },
        _ => panic!("expected completion"),
    }
}

#[test]
fn sentinel_split_across_chunks() {
    let mut exec = CommandExec::begin();
    assert!(matches!(
        exec.step(ExecEvent::Chunk("hi\r\nIRONGRAPH_CMD_".to_string())),
        ExecStep::Continue
    ));
    match exec.step(ExecEvent::Chunk("DONE:42\r\n".to_string())) {
        ExecStep::Done(ExecOutcome::Completed { text, exit_code, .. }) => {
            assert_eq!(exit_code, 42);
            assert!(text.ends_with("(Exit Code: 42)"));
            assert!(text.starts_with("hi"));
        },
        _ => panic!("expected completion"),
    }
}

#[test]
fn unparsable_exit_code_defaults_to_one() {
    let mut exec = CommandExec::begin();
    match exec.step(ExecEvent::Chunk("xIRONGRAPH_CMD_DONE:abc\n".to_string())) {
        ExecStep::Done(ExecOutcome::Completed { text, exit_code, .. }) => {
            assert_eq!(exit_code, 1);
            assert_eq!(text, "x\n(Exit Code: 1)");
        },
        _ => panic!("expected completion"),
    }
}

#[test]
fn negative_exit_code_is_kept() {
    let mut exec = CommandExec::begin();
    match exec.step(ExecEvent::Chunk("IRONGRAPH_CMD_DONE:-1\n".to_string())) {
        ExecStep::Done(ExecOutcome::Completed { text, exit_code, .. }) => {
            assert_eq!(exit_code, -1);
            assert_eq!(text, "\n(Exit Code: -1)");
        },
        _ => panic!("expected completion"),
    }
}

#[test]
fn soft_timeout_waits_and_hard_timeout_reports() {
    let mut exec = CommandExec::begin();
    assert!(matches!(
        exec.step(ExecEvent::Chunk("partial".to_string())),
        ExecStep::Continue
    ));
    assert!(matches!(
        exec.step(ExecEvent::ReadTimeout { budget_exhausted: false }),
        ExecStep::Continue
    ));
    match exec.step(ExecEvent::ReadTimeout { budget_exhausted: true }) {
        ExecStep::Done(ExecOutcome::TimedOut { text }) => {
            assert_eq!(text, "partial\n[IronGraph: Timeout waiting for sentinel]");
        },
        _ => panic!("expected timeout"),
    }
}

#[test]
fn closed_channel_returns_accumulated_output() {
    let mut exec = CommandExec::begin();
    assert!(matches!(
        exec.step(ExecEvent::Chunk("partial".to_string())),
        ExecStep::Continue
    ));
    match exec.step(ExecEvent::Closed) {
        ExecStep::Done(ExecOutcome::Closed { text }) => {
            assert_eq!(text, "partial");
        },
        _ => panic!("expected closed"),
    }
}

#[test]
fn command_line_joins_lexed_arguments() {
    assert_eq!(build_command_line("cat", "README.md"), "cat README.md");
    assert_eq!(build_command_line("echo", "\"a b\" c"), "echo a b c");
    assert_eq!(build_command_line("echo", ""), "echo");
    // An unclosed quote does not lex: the program stands alone.
    assert_eq!(build_command_line("echo", "\"unclosed"), "echo");
}

#[test]
fn repeated_sentinel_markers_are_stripped() {
    let mut exec = CommandExec::begin();
    match exec.step(ExecEvent::Chunk(
        "IRONGRAPH_CMD_DONE:IRONGRAPH_CMD_DONE:5\n".to_string(),
    )) {
        ExecStep::Done(ExecOutcome::Completed { exit_code, .. }) => {
            assert_eq!(exit_code, 5);
        },
        _ => panic!("expected completion"),
    }
}

#[test]
fn terminal_error_messages() {
    assert_eq!(no_terminal_message(), "Error: No terminal session active.");
    assert_eq!(pty_write_error_message("boom"), "Error writing to PTY: boom");
}
