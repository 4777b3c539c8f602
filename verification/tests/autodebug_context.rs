use irongraph_core::autodebug::{debug_context, error_location, with_debug_context};

fn twenty_lines() -> String {
    let mut s = String::new();
    for i in 1..=20 {
        s.push_str(&format!("line number {}\n", i));
    }
    s
}

#[test]
fn rust_diagnostics_are_located() {
    let out = "error[E0308]: mismatched types\n  --> src/main.rs:10:5\n";
    assert_eq!(
        error_location(out),
        Some(("src/main.rs".to_string(), 10))
    );
}

#[test]
fn typescript_diagnostics_are_located() {
    let out = "src/app.ts(12,3): error TS2322: type mismatch";
    assert_eq!(error_location(out), Some(("src/app.ts".to_string(), 12)));
}

#[test]
fn generic_locations_need_a_dotted_path() {
    let out = "at src/x.py:7:1 in module";
    assert_eq!(error_location(out), Some(("src/x.py".to_string(), 7)));
    let bare = "at noext:7:1 in module";
    assert_eq!(error_location(bare), None);
}

#[test]
fn no_location_in_plain_output() {
    assert_eq!(error_location("all fine here"), None);
}

#[test]
fn context_window_marks_the_error_line() {
    let content = twenty_lines();
    let ctx = debug_context("src/main.rs", 10, &content).unwrap();
    assert!(ctx.starts_with("File: src/main.rs:10:\n"));
    assert!(ctx.contains(">> 10| line number 10"));
    assert!(ctx.contains("   6| line number 6"));
    assert!(ctx.contains("   15| line number 15"));
    assert!(!ctx.contains("line number 16"));
    assert!(!ctx.contains("line number 5\n"));
}

#[test]
fn window_is_clipped_at_the_edges() {
    let content = twenty_lines();
    let top = debug_context("f.rs", 2, &content).unwrap();
    assert!(top.contains("   1| line number 1"));
    assert!(top.contains(">> 2| line number 2"));
    let bottom = debug_context("f.rs", 20, &content).unwrap();
    assert!(bottom.contains(">> 20| line number 20"));
}

#[test]
fn out_of_range_lines_give_no_context() {
    let content = twenty_lines();
    assert_eq!(debug_context("f.rs", 0, &content), None);
    assert_eq!(debug_context("f.rs", 21, &content), None);
}

#[test]
fn failed_command_gains_context_note() {
    let output = "error\n --> src/main.rs:10:5\n";
    let (file, line) = error_location(output).unwrap();
    assert_eq!(file, "src/main.rs");
    let content = twenty_lines();
    let ctx = debug_context(&file, line, &content).unwrap();
    let enriched = with_debug_context("build failed\n(Exit Code: 1)", &ctx);
    assert!(enriched.starts_with("build failed\n(Exit Code: 1)\n\n[Auto-Debug] Context:\n"));
    assert!(enriched.contains(">> 10| line number 10"));
}
