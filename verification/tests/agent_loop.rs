use irongraph_core::agent::{
    event_key, get_prompt_for_role, role_switch_message, transition_for, turn_transition,
    AgentRole, IterationStart, LoopState, MessageLog, SwitchOutcome, TurnCollector, TurnDecision,
};
use irongraph_core::gateway::assemble_response;
use irongraph_core::parser::StreamEvent;
use irongraph_core::protocol::{Message, ToolCall};

#[test]
fn personas_have_their_prompts_and_names() {
    assert!(get_prompt_for_role(&AgentRole::Coder).contains("Architect (Coder)"));
    assert!(get_prompt_for_role(&AgentRole::Verifier).contains("Adversary (Verifier)"));
    assert_eq!(AgentRole::Coder.as_str(), "coder");
    assert_eq!(AgentRole::Verifier.as_str(), "verifier");
}

#[test]
fn write_file_switches_coder_to_verifier() {
    let mut state = LoopState::start(true);
    assert!(matches!(state.begin_iteration(), IterationStart::Proceed));
    let executed = vec![("write_file".to_string(), "Successfully wrote file.".to_string())];
    let transition = turn_transition(&AgentRole::Coder, &executed);
    assert_eq!(transition, Some(AgentRole::Verifier));
    match state.apply_transition(transition) {
        SwitchOutcome::Switched(msg) => {
            assert!(msg.starts_with("\n[SYSTEM]: SWITCHING ROLE.\n"));
            assert!(msg.contains("Adversary (Verifier)"));
        },
        _ => panic!("expected a switch"),
    }
    assert_eq!(state.role, AgentRole::Verifier);
    assert_eq!(state.verification_attempts, 1);
    assert!(state.running);
}

#[test]
fn verifier_failure_hands_back_to_coder() {
    let failed = transition_for(&AgentRole::Verifier, "run_command", "boom\n(Exit Code: 1)");
    assert_eq!(failed, Some(AgentRole::Coder));
    let passed = transition_for(&AgentRole::Verifier, "run_command", "ok\n(Exit Code: 0)");
    assert_eq!(passed, None);
    let unrelated = transition_for(&AgentRole::Verifier, "read_file", "content");
    assert_eq!(unrelated, None);
}

#[test]
fn last_triggering_tool_wins() {
    // A later success does not cancel an earlier triggered hand-back; only
    // another trigger could override it.
    let executed = vec![
        ("run_command".to_string(), "bad\n(Exit Code: 1)".to_string()),
        ("run_command".to_string(), "good\n(Exit Code: 0)".to_string()),
    ];
    assert_eq!(turn_transition(&AgentRole::Verifier, &executed), Some(AgentRole::Coder));
    let quiet = vec![("read_file".to_string(), "content".to_string())];
    assert_eq!(turn_transition(&AgentRole::Verifier, &quiet), None);
}

#[test]
fn verified_tag_ends_the_session() {
    let mut state = LoopState::start(true);
    state.role = AgentRole::Verifier;
    let decision = state.turn_decision("Everything holds. <verified />", 0);
    assert!(matches!(decision, TurnDecision::Verified));
    assert!(!state.running);
}

#[test]
fn coder_text_with_tag_does_not_end_the_session() {
    let mut state = LoopState::start(true);
    let decision = state.turn_decision("mentioning <verified /> in prose", 1);
    assert!(matches!(decision, TurnDecision::Dispatch));
    assert!(state.running);
}

#[test]
fn no_tool_calls_waits_for_the_user() {
    let mut state = LoopState::start(true);
    let decision = state.turn_decision("just chatting", 0);
    assert!(matches!(decision, TurnDecision::Wait));
    assert!(!state.running);
}

#[test]
fn cleared_running_flag_exits_without_dispatch() {
    let mut state = LoopState::start(true);
    state.running = false;
    assert!(matches!(state.begin_iteration(), IterationStart::Exit));
    assert!(!state.running);
}

#[test]
fn iteration_budget_stops_the_loop() {
    let mut state = LoopState::start(false);
    assert_eq!(state.max_iterations, 20);
    state.iterations = 20;
    assert!(matches!(state.begin_iteration(), IterationStart::BudgetExhausted));
    assert!(!state.running);
}

#[test]
fn verification_attempts_are_bounded() {
    let mut state = LoopState::start(true);
    state.verification_attempts = 5;
    match state.apply_transition(Some(AgentRole::Verifier)) {
        SwitchOutcome::Aborted => {},
        _ => panic!("expected abort"),
    }
    assert!(!state.running);
    assert_eq!(state.role, AgentRole::Coder);
}

#[test]
fn collector_folds_tokens_and_calls() {
    let mut c = TurnCollector::new();
    c.push_event(&StreamEvent::Token("Hello ".to_string()));
    c.push_event(&StreamEvent::Token("world".to_string()));
    c.push_event(&StreamEvent::ToolStart("t".to_string()));
    c.push_event(&StreamEvent::ToolArg("a".to_string(), "1".to_string()));
    c.push_event(&StreamEvent::ToolArg("a".to_string(), "2".to_string()));
    c.push_event(&StreamEvent::ToolArg("b".to_string(), "3".to_string()));
    c.push_event(&StreamEvent::ToolEnd);
    c.push_event(&StreamEvent::Done);
    assert_eq!(c.text(), "Hello world");
    assert_eq!(c.call_count(), 1);
    let calls = c.into_calls();
    assert_eq!(
        calls,
        vec![ToolCall {
            name: "t".to_string(),
            arguments: vec![
                ("a".to_string(), "2".to_string()),
                ("b".to_string(), "3".to_string()),
            ],
        }]
    );
}

#[test]
fn stray_argument_events_are_ignored() {
    let mut c = TurnCollector::new();
    c.push_event(&StreamEvent::ToolArg("a".to_string(), "1".to_string()));
    c.push_event(&StreamEvent::ToolEnd);
    assert_eq!(c.call_count(), 0);
}

#[test]
fn mock_answer_assembles_one_run_command() {
    let response = assemble_response(irongraph_core::gateway::MOCK_ANSWER.to_string());
    assert_eq!(response.role, "assistant");
    assert_eq!(response.content, irongraph_core::gateway::MOCK_ANSWER);
    assert_eq!(
        response.tool_calls,
        Some(vec![ToolCall {
            name: "run_command".to_string(),
            arguments: vec![
                ("program".to_string(), "ls".to_string()),
                ("args".to_string(), "-la".to_string()),
            ],
        }])
    );
    assert_eq!(response.usage, None);
}

#[test]
fn event_keys_are_addressed_by_session() {
    assert_eq!(event_key("status", "abc"), "agent:status:abc");
    assert_eq!(event_key("terminal:output", "t1"), "agent:terminal:output:t1");
}

#[test]
fn role_switch_message_carries_the_prompt() {
    let msg = role_switch_message(&AgentRole::Coder);
    assert_eq!(
        msg,
        format!("\n[SYSTEM]: SWITCHING ROLE.\n{}", get_prompt_for_role(&AgentRole::Coder))
    );
}

#[test]
fn history_replays_in_insertion_order() {
    let mut log = MessageLog::new();
    log.append(Message { role: "user".to_string(), content: "hi".to_string() });
    log.append(Message { role: "assistant".to_string(), content: "hello".to_string() });
    assert_eq!(log.len(), 2);
    let replay = log.replay();
    assert_eq!(replay[0].role, "user");
    assert_eq!(replay[0].content, "hi");
    assert_eq!(replay[1].role, "assistant");
    log.append(Message { role: "tool".to_string(), content: "out".to_string() });
    let replay2 = log.replay();
    assert_eq!(replay2.len(), 3);
    assert_eq!(replay2[0].content, "hi");
    assert_eq!(replay2[1].content, "hello");
    assert_eq!(replay2[2].content, "out");
}
