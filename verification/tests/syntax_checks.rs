use irongraph_core::syntax::validate_syntax;

#[test]
fn test_syntax_validation_rust() {
    let valid = "fn main() { println!(\"Hello\"); }";
    assert!(validate_syntax("main.rs", valid).is_ok());

    let invalid = "fn main() { println!(\"Hello\") ";
    assert!(validate_syntax("main.rs", invalid).is_err());
}

#[test]
fn test_syntax_validation_ts() {
    let valid = "const x: number = 10;";
    assert!(validate_syntax("test.ts", valid).is_ok());

    let invalid = "const x: number = ;";
    assert!(validate_syntax("test.ts", invalid).is_err());
}

#[test]
fn rust_error_message_is_prefixed() {
    let err = validate_syntax("broken.rs", "fn ]").unwrap_err();
    assert!(err.starts_with("Rust Syntax Error: "));
}

#[test]
fn js_error_message_is_prefixed() {
    let err = validate_syntax("broken.js", "function ]").unwrap_err();
    assert!(err.starts_with("JS/TS Syntax Error: "));
}

#[test]
fn other_extensions_are_not_checked() {
    assert!(validate_syntax("notes.txt", "fn ] not code at all").is_ok());
}
