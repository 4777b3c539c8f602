use irongraph_core::gateway::{chat_completions_url, is_mock_endpoint, parse_sse_line, SseLine};
use irongraph_core::paths::validate_path;
use irongraph_core::profile::{update_profile_logic, DbPool};
use irongraph_core::protocol::{FsError, ShellError};
use irongraph_core::session::{fresh_session_record, SessionRecord, SessionRegistry};

#[test]
fn registry_round_trips_records() {
    let mut reg = SessionRegistry::new();
    let rec = SessionRecord {
        id: "s1".to_string(),
        root: "/work".to_string(),
        terminal_session_id: "t1".to_string(),
    };
    reg.register_session(rec);
    let got = reg.get_session("s1").unwrap();
    assert_eq!(got.root, "/work");
    assert_eq!(got.terminal_session_id, "t1");
    assert!(reg.get_session("s2").is_none());
}

#[test]
fn registering_again_replaces() {
    let mut reg = SessionRegistry::new();
    reg.register_session(SessionRecord {
        id: "s1".to_string(),
        root: "/old".to_string(),
        terminal_session_id: "t1".to_string(),
    });
    reg.register_session(SessionRecord {
        id: "s1".to_string(),
        root: "/new".to_string(),
        terminal_session_id: "t2".to_string(),
    });
    let got = reg.get_session("s1").unwrap();
    assert_eq!(got.root, "/new");
    assert_eq!(got.terminal_session_id, "t2");
}

#[test]
fn unregistering_removes_only_the_target() {
    let mut reg = SessionRegistry::new();
    reg.register_session(SessionRecord {
        id: "s1".to_string(),
        root: "/a".to_string(),
        terminal_session_id: "t1".to_string(),
    });
    reg.register_session(SessionRecord {
        id: "s2".to_string(),
        root: "/b".to_string(),
        terminal_session_id: "t2".to_string(),
    });
    reg.unregister_session("s1");
    assert!(reg.get_session("s1").is_none());
    assert_eq!(reg.get_session("s2").unwrap().root, "/b");
}

#[test]
fn session_ids_are_uuid_shaped() {
    let rec = fresh_session_record("/work".to_string(), "t1".to_string());
    assert_eq!(rec.id.len(), 36);
    assert_eq!(rec.root, "/work");
    let other = fresh_session_record("/work".to_string(), "t1".to_string());
    assert_eq!(other.id.len(), 36);
}

#[test]
fn profile_updates_require_a_name() {
    let pool = DbPool::new();
    let err = update_profile_logic(&pool, String::new(), "bio".to_string()).unwrap_err();
    assert_eq!(err, "Name required");
    let ok = update_profile_logic(&pool, "Ada".to_string(), "bio".to_string()).unwrap();
    assert_eq!(ok.id, 1);
    assert_eq!(ok.name, "Ada");
    assert_eq!(ok.bio, "bio");
}

#[test]
fn traversal_paths_are_rejected() {
    assert!(matches!(validate_path("../secret.txt"), Err(FsError::SecurityViolation)));
    assert!(matches!(validate_path("a/../b"), Err(FsError::SecurityViolation)));
    assert!(matches!(validate_path(".."), Err(FsError::SecurityViolation)));
    assert!(validate_path("safe.txt").is_ok());
    assert!(validate_path("a/b/c.rs").is_ok());
    assert!(validate_path("a..b/c").is_ok());
}

#[test]
fn errors_describe_themselves() {
    assert_eq!(
        FsError::SecurityViolation.describe(),
        "Security Violation: Path traversal detected"
    );
    assert_eq!(FsError::Io("nope".to_string()).describe(), "IO Error: nope");
    assert_eq!(FsError::InvalidPath.describe(), "Invalid Path");
    assert_eq!(
        FsError::Syntax("bad".to_string()).describe(),
        "Syntax Error: bad"
    );
    assert_eq!(ShellError::Io("x".to_string()).describe(), "IO Error: x");
    assert_eq!(
        ShellError::NotFound("ls".to_string()).describe(),
        "Command not found: ls"
    );
    assert_eq!(ShellError::Pty("p".to_string()).describe(), "PTY Error: p");
}

#[test]
fn mock_endpoints_are_detected_by_substring() {
    assert!(is_mock_endpoint("http://mock.local/v1"));
    assert!(is_mock_endpoint("mock"));
    assert!(!is_mock_endpoint("https://api.example.com/v1"));
}

#[test]
fn chat_url_joins_without_trailing_slashes() {
    assert_eq!(
        chat_completions_url("https://api.example.com/v1/"),
        "https://api.example.com/v1/chat/completions"
    );
    assert_eq!(
        chat_completions_url("https://api.example.com/v1//"),
        "https://api.example.com/v1/chat/completions"
    );
    assert_eq!(
        chat_completions_url("https://api.example.com/v1"),
        "https://api.example.com/v1/chat/completions"
    );
}

#[test]
fn sse_lines_are_classified() {
    assert_eq!(parse_sse_line("data: [DONE]"), SseLine::Done);
    assert_eq!(
        parse_sse_line("data: {\"choices\":[]}"),
        SseLine::Data("{\"choices\":[]}".to_string())
    );
    assert_eq!(parse_sse_line("data: "), SseLine::Data(String::new()));
    assert_eq!(parse_sse_line("event: ping"), SseLine::Other);
    assert_eq!(parse_sse_line(""), SseLine::Other);
}
