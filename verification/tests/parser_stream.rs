use irongraph_core::parser::{Parser, StreamEvent};

fn feed(parser: &mut Parser, fragments: &[&str]) -> Vec<StreamEvent> {
    let mut events = Vec::new();
    for f in fragments {
        events.extend(parser.process_chunk(f));
    }
    events
}

#[test]
fn fragmented_tool_call_emits_structured_events() {
    let mut parser = Parser::new();
    let events = feed(
        &mut parser,
        &["<tool_cod", "e><tool name=\"foo\"><a>1", "</a></tool></tool_code>"],
    );
    assert_eq!(
        events,
        vec![
            StreamEvent::ToolStart("foo".to_string()),
            StreamEvent::ToolArg("a".to_string(), "1".to_string()),
            StreamEvent::ToolEnd,
        ]
    );
}

#[test]
fn whole_input_equals_fragments() {
    let mut parser = Parser::new();
    let events = feed(
        &mut parser,
        &["<tool_code><tool name=\"foo\"><a>1</a></tool></tool_code>"],
    );
    assert_eq!(
        events,
        vec![
            StreamEvent::ToolStart("foo".to_string()),
            StreamEvent::ToolArg("a".to_string(), "1".to_string()),
            StreamEvent::ToolEnd,
        ]
    );
}

#[test]
fn plain_text_passes_through() {
    let mut parser = Parser::new();
    let events = feed(&mut parser, &["no tags here"]);
    assert_eq!(events, vec![StreamEvent::Token("no tags here".to_string())]);
}

#[test]
fn possible_tag_prefix_is_held_back() {
    let mut parser = Parser::new();
    let events = feed(&mut parser, &["hello <t"]);
    assert_eq!(events, vec![StreamEvent::Token("hello ".to_string())]);
    let more = feed(&mut parser, &["ool_code></tool_code> done"]);
    assert_eq!(more, vec![StreamEvent::Token(" done".to_string())]);
}

#[test]
fn held_non_tag_text_stays_buffered() {
    let mut parser = Parser::new();
    let events = feed(&mut parser, &["abc<xy"]);
    assert_eq!(events, vec![StreamEvent::Token("abc".to_string())]);
    let more = feed(&mut parser, &["z"]);
    assert_eq!(more, Vec::new());
}

#[test]
fn text_between_calls_in_one_block() {
    let mut parser = Parser::new();
    let events = feed(
        &mut parser,
        &["before<tool_code><tool name=\"x\"><k>v</k></tool></tool_code>after"],
    );
    assert_eq!(
        events,
        vec![
            StreamEvent::Token("before".to_string()),
            StreamEvent::ToolStart("x".to_string()),
            StreamEvent::ToolArg("k".to_string(), "v".to_string()),
            StreamEvent::ToolEnd,
            StreamEvent::Token("after".to_string()),
        ]
    );
}

#[test]
fn argument_value_split_across_many_fragments() {
    let whole = "<tool_code><tool name=\"w\"><content>long value here</content></tool></tool_code>";
    let mut parser = Parser::new();
    let mut events = Vec::new();
    for chunk in whole.as_bytes().chunks(3) {
        events.extend(parser.process_chunk(std::str::from_utf8(chunk).unwrap()));
    }
    assert_eq!(
        events,
        vec![
            StreamEvent::ToolStart("w".to_string()),
            StreamEvent::ToolArg("content".to_string(), "long value here".to_string()),
            StreamEvent::ToolEnd,
        ]
    );
}

fn normalized(events: Vec<StreamEvent>) -> Vec<StreamEvent> {
    let mut out: Vec<StreamEvent> = Vec::new();
    for e in events {
        match e {
            StreamEvent::Token(t) => {
                if t.is_empty() {
                    continue;
                }
                if let Some(StreamEvent::Token(last)) = out.last_mut() {
                    last.push_str(&t);
                } else {
                    out.push(StreamEvent::Token(t));
                }
            },
            other => out.push(other),
        }
    }
    out
}

#[test]
fn every_two_way_split_yields_the_same_stream() {
    let s = "pre <tool_code><tool name=\"x\"><a>1</a><b>2</b></tool></tool_code> post";
    let mut whole_parser = Parser::new();
    let whole = normalized(feed(&mut whole_parser, &[s]));
    for i in 0..=s.len() {
        if !s.is_char_boundary(i) {
            continue;
        }
        let mut parser = Parser::new();
        let split = normalized(feed(&mut parser, &[&s[..i], &s[i..]]));
        assert_eq!(split, whole, "split at byte {}", i);
    }
}

#[test]
fn mock_stream_has_expected_events() {
    let events = irongraph_core::gateway::mock_events();
    assert_eq!(
        events,
        vec![
            StreamEvent::Token("Checking filesystem... \n".to_string()),
            StreamEvent::ToolStart("run_command".to_string()),
            StreamEvent::ToolArg("program".to_string(), "ls".to_string()),
            StreamEvent::ToolArg("args".to_string(), "-la".to_string()),
            StreamEvent::ToolEnd,
            StreamEvent::Done,
        ]
    );
}
