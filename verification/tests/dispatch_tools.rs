use irongraph_core::dispatch::{
    arg_value, consumer_hint, plan, render_file_list, render_search_results, sort_entries,
    unknown_tool_text, usage_query, usage_search_term, ToolAction,
};
use irongraph_core::protocol::{FileEntry, ToolCall};

fn call(name: &str, args: &[(&str, &str)]) -> ToolCall {
    ToolCall {
        name: name.to_string(),
        arguments: args
            .iter()
            .map(|(k, v)| (k.to_string(), v.to_string()))
            .collect(),
    }
}

#[test]
fn run_command_plan_takes_program_and_args() {
    let action = plan(&call("run_command", &[("program", "ls"), ("args", "-la")]));
    assert_eq!(
        action,
        ToolAction::RunCommand { program: "ls".to_string(), args: "-la".to_string() }
    );
}

#[test]
fn run_command_args_default_to_empty() {
    let action = plan(&call("run_command", &[("program", "ls")]));
    assert_eq!(
        action,
        ToolAction::RunCommand { program: "ls".to_string(), args: String::new() }
    );
}

#[test]
fn missing_required_argument_is_invalid() {
    let action = plan(&call("run_command", &[("args", "-la")]));
    assert_eq!(
        action,
        ToolAction::Invalid { name: "run_command".to_string(), missing: "program".to_string() }
    );
}

#[test]
fn catalogue_covers_all_tools() {
    assert_eq!(
        plan(&call("read_file", &[("file_path", "a.rs")])),
        ToolAction::ReadFile { file_path: "a.rs".to_string() }
    );
    assert_eq!(
        plan(&call("write_file", &[("file_path", "a.rs"), ("content", "x")])),
        ToolAction::WriteFile { file_path: "a.rs".to_string(), content: "x".to_string() }
    );
    assert_eq!(
        plan(&call("list_files", &[])),
        ToolAction::ListFiles { dir_path: None }
    );
    assert_eq!(
        plan(&call("list_files", &[("dir_path", "src")])),
        ToolAction::ListFiles { dir_path: Some("src".to_string()) }
    );
    assert_eq!(
        plan(&call("read_skeleton", &[("file_path", "a.rs")])),
        ToolAction::ReadSkeleton { file_path: "a.rs".to_string() }
    );
    assert_eq!(
        plan(&call("search_code", &[("query", "fn main")])),
        ToolAction::SearchCode { query: "fn main".to_string() }
    );
    assert_eq!(
        plan(&call("teleport", &[])),
        ToolAction::Unknown { name: "teleport".to_string() }
    );
}

#[test]
fn unknown_tool_message() {
    assert_eq!(unknown_tool_text("teleport"), "Unknown Tool: teleport");
}

#[test]
fn first_binding_wins_in_argument_lookup() {
    let c = call("read_file", &[("file_path", "first"), ("file_path", "second")]);
    assert_eq!(arg_value(&c, "file_path"), Some("first".to_string()));
    assert_eq!(arg_value(&c, "missing"), None);
}

#[test]
fn file_list_marks_directories() {
    let entries = vec![
        FileEntry {
            path: "src".to_string(),
            name: "src".to_string(),
            is_dir: true,
            children: None,
        },
        FileEntry {
            path: "a.rs".to_string(),
            name: "a.rs".to_string(),
            is_dir: false,
            children: None,
        },
    ];
    assert_eq!(render_file_list(&entries), "[DIR] src\na.rs");
}

#[test]
fn listings_sort_directories_first_then_names() {
    let entry = |name: &str, is_dir: bool| FileEntry {
        path: name.to_string(),
        name: name.to_string(),
        is_dir,
        children: None,
    };
    let sorted = sort_entries(vec![
        entry("zeta.rs", false),
        entry("alpha", true),
        entry("beta.rs", false),
        entry("misc", true),
    ]);
    let names: Vec<&str> = sorted.iter().map(|e| e.name.as_str()).collect();
    assert_eq!(names, vec!["alpha", "misc", "beta.rs", "zeta.rs"]);
}

#[test]
fn search_results_are_capped_at_twenty() {
    let few: Vec<String> = vec!["a:1: x".to_string(), "b:2: y".to_string()];
    assert_eq!(render_search_results(&few), "a:1: x\nb:2: y");

    let many: Vec<String> = (0..22).map(|i| format!("f{}:1: hit", i)).collect();
    let report = render_search_results(&many);
    assert!(report.starts_with("Found 22 matches. First 20:\n"));
    assert!(report.contains("f19:1: hit"));
    assert!(!report.contains("f20:1: hit"));
}

#[test]
fn usage_terms_follow_language_rules() {
    assert_eq!(usage_search_term("src/foo.rs"), Some("foo".to_string()));
    assert_eq!(usage_search_term("src/foo/mod.rs"), Some("foo".to_string()));
    assert_eq!(usage_search_term("mod.rs"), None);
    assert_eq!(usage_search_term("web/app.tsx"), Some("app".to_string()));
    assert_eq!(usage_search_term("notes.txt"), None);
}

#[test]
fn usage_query_escapes_the_term() {
    assert_eq!(usage_query("a.b"), "\\ba\\.b\\b");
    assert_eq!(usage_query("plain"), "\\bplain\\b");
}

#[test]
fn consumer_hint_dedupes_and_excludes_the_written_file() {
    let matches: Vec<String> = vec![
        "src/a.rs:3: use foo;".to_string(),
        "src/a.rs:9: foo()".to_string(),
        "src/b.rs:1: foo".to_string(),
        "target.rs:2: fn foo".to_string(),
    ];
    let hint = consumer_hint(&matches, "target.rs");
    assert!(hint.starts_with("Successfully wrote file."));
    assert!(hint.contains("[Context Note] This file is imported by:\n- src/a.rs\n- src/b.rs\n"));
    assert!(hint.ends_with("Ensure you have not broken these consumers."));
    assert_eq!(hint.matches("src/a.rs").count(), 1);
}

#[test]
fn consumer_hint_without_consumers_is_plain() {
    let empty: Vec<String> = Vec::new();
    assert_eq!(consumer_hint(&empty, "a.rs"), "Successfully wrote file.");
}

#[test]
fn consumer_hint_caps_at_ten_with_overflow_line() {
    let matches: Vec<String> = (0..12).map(|i| format!("f{}.rs:1: foo", i)).collect();
    let hint = consumer_hint(&matches, "target.rs");
    assert!(hint.contains("- f9.rs\n"));
    assert!(!hint.contains("- f10.rs\n"));
    assert!(hint.contains("... and 2 more.\n"));
}

#[test]
fn consumer_hint_is_reproducible() {
    let matches: Vec<String> = vec!["src/a.rs:3: foo".to_string()];
    assert_eq!(consumer_hint(&matches, "t.rs"), consumer_hint(&matches, "t.rs"));
}
