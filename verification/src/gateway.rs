//! Chat gateway logic.
//!
//! The gateway adapts a chat-completion endpoint into a stream of parser
//! events.  The transport itself is I/O and lives outside the library; here
//! stand the decisions it follows: endpoint-URL assembly, mock-mode
//! detection, the classification of server-sent-event lines, the fixed mock
//! answer, and the folding of a complete answer text into an `LLMResponse`.

use vstd::prelude::*;

use crate::agent::{collect_step, calls_view, CollectModel, TurnCollector};
use crate::parser::{drain, events_view, EventModel, Parser, ParserState, StreamEvent};
use crate::protocol::{LLMResponse};
use crate::text::{
    chars_to_string, extend_chars, find_idx, find_sub, matches_at, str_to_chars, subvec,
};

verus! {

/// The fixed assistant answer of mock mode: prose followed by one
/// `run_command` tool call.
pub const MOCK_ANSWER: &'static str = "Checking filesystem... \n<tool_code><tool name=\"run_command\"><program>ls</program><args>-la</args></tool></tool_code>";

/// Is this endpoint the offline mock?
pub fn is_mock_endpoint(base_url: &str) -> (r: bool)
    ensures
        r == (find_idx(base_url@, "mock"@) is Some),
{
    let bv = str_to_chars(base_url);
    let pat = str_to_chars("mock");
    match find_sub(&bv, &pat) {
        Some(_) => true,
        None => false,
    }
}

/// `s` with every trailing `/` removed.
pub open spec fn trim_trailing_slashes(s: Seq<char>) -> Seq<char>
    decreases s.len(),
{
    if s.len() > 0 && s.last() == '/' {
        trim_trailing_slashes(s.drop_last())
    } else {
        s
    }
}

/// The chat-completions URL under a base endpoint.
pub fn chat_completions_url(base_url: &str) -> (r: String)
    ensures
        r@ == trim_trailing_slashes(base_url@) + "/chat/completions"@,
{
    let mut out = str_to_chars(base_url);
    loop
        invariant
            trim_trailing_slashes(base_url@) == trim_trailing_slashes(out@),
        decreases out@.len(),
    {
        let olen: usize = out.len();
        if olen > 0 && out[olen - 1] == '/' {
            let shorter = subvec(&out, 0, olen - 1);
            proof {
                assert(shorter@ =~= out@.drop_last());
            }
            out = shorter;
        } else {
            let tail = str_to_chars("/chat/completions");
            extend_chars(&mut out, &tail);
            return chars_to_string(&out);
        }
    }
}

/// One line of a server-sent-event stream, classified.
#[derive(Debug, Clone, PartialEq)]
pub enum SseLine {
    /// `data: [DONE]` — the stream is over.
    Done,
    /// `data: <payload>` — one JSON payload to decode.
    Data(String),
    /// Anything else: ignored.
    Other,
}

/// Classify one line of a server-sent-event stream.
pub fn parse_sse_line(line: &str) -> (r: SseLine)
    ensures
        matches_at(line@, 0, "data: "@) && line@.skip(6) == "[DONE]"@ ==> r is Done,
        matches_at(line@, 0, "data: "@) && line@.skip(6) != "[DONE]"@ ==> (r
            matches SseLine::Data(p) && p@ == line@.skip(6)),
        !matches_at(line@, 0, "data: "@) ==> r is Other,
{
    let lv = str_to_chars(line);
    let prefix = str_to_chars("data: ");
    proof {
        reveal_strlit("data: ");
    }
    if crate::text::eq_at(&lv, 0, &prefix) {
        let llen: usize = lv.len();
        let payload = subvec(&lv, 6, llen);
        proof {
            assert(payload@ =~= line@.skip(6));
        }
        let done_tag = str_to_chars("[DONE]");
        if crate::text::chars_eq(&payload, &done_tag) {
            SseLine::Done
        } else {
            SseLine::Data(chars_to_string(&payload))
        }
    } else {
        SseLine::Other
    }
}

/// The collector state a sequence of events folds to, from empty.
pub open spec fn collect_fold(st: CollectModel, evs: Seq<EventModel>) -> CollectModel
    decreases evs.len(),
{
    if evs.len() == 0 {
        st
    } else {
        collect_fold(collect_step(st, evs[0]), evs.drop_first())
    }
}

/// Folding one more event steps the fold.
pub proof fn lemma_collect_fold_snoc(st: CollectModel, evs: Seq<EventModel>, e: EventModel)
    ensures
        collect_fold(st, evs.push(e)) == collect_step(collect_fold(st, evs), e),
    decreases evs.len(),
{
    if evs.len() == 0 {
        assert(evs.push(e)[0] == e);
        let rest = evs.push(e).drop_first();
        assert(rest =~= Seq::<EventModel>::empty());
        assert(collect_fold(st, evs.push(e)) == collect_fold(collect_step(st, e), rest));
        assert(rest.len() == 0);
        assert(collect_fold(collect_step(st, e), rest) == collect_step(st, e));
        assert(collect_fold(st, evs) == st);
    } else {
        assert(evs.push(e)[0] == evs[0]);
        let rest = evs.push(e).drop_first();
        assert(rest =~= evs.drop_first().push(e));
        assert(collect_fold(st, evs.push(e)) == collect_fold(collect_step(st, evs[0]), rest));
        lemma_collect_fold_snoc(collect_step(st, evs[0]), evs.drop_first(), e);
        assert(collect_fold(st, evs) == collect_fold(collect_step(st, evs[0]), evs.drop_first()));
    }
}

/// The empty collector state.
pub open spec fn collect_empty() -> CollectModel {
    CollectModel {
        text: Seq::<char>::empty(),
        pending: None,
        calls: Seq::<(Seq<char>, Seq<(Seq<char>, Seq<char>)>)>::empty(),
    }
}

/// The tool calls embedded in a complete answer text: what parsing the
/// whole text and folding the events yields.
pub open spec fn calls_in_text(content: Seq<char>) -> Seq<
    (Seq<char>, Seq<(Seq<char>, Seq<char>)>),
> {
    collect_fold(collect_empty(), drain(ParserState::Text, content).2).calls
}

/// Assemble a complete (non-streamed) answer: the content as given, with
/// the tool calls parsed out of it.
pub fn assemble_response(content: String) -> (r: LLMResponse)
    ensures
        r.role@ == "assistant"@,
        r.content@ == content@,
        r.tool_calls matches Some(calls) && calls_view(calls@) == calls_in_text(content@),
        r.usage is None,
{
    let mut parser = Parser::new();
    let events = parser.process_chunk(content.as_str());
    proof {
        assert(Seq::<char>::empty() + content@ =~= content@);
    }
    let mut collector = TurnCollector::new();
    let ghost evs = events_view(events@);
    let mut i: usize = 0;
    while i < events.len()
        invariant
            0 <= i <= events@.len(),
            evs == events_view(events@),
            evs.len() == events@.len(),
            collector.model() == collect_fold(collect_empty(), evs.take(i as int)),
        decreases events@.len() - i,
    {
        proof {
            assert(evs[i as int] == events@[i as int]@);
        }
        collector.push_event(&events[i]);
        proof {
            assert(evs.take(i + 1).drop_last() =~= evs.take(i as int));
            assert(evs.take(i + 1).last() == evs[i as int]);
            lemma_collect_fold_snoc(collect_empty(), evs.take(i as int), evs[i as int]);
            assert(evs.take(i as int).push(evs[i as int]) =~= evs.take(i + 1));
        }
        i += 1;
    }
    proof {
        assert(evs.take(events@.len() as int) =~= evs);
    }
    let tool_calls = collector.into_calls();
    let role = chars_to_string(&str_to_chars("assistant"));
    LLMResponse { role, content, tool_calls: Some(tool_calls), usage: None }
}

/// The event stream of mock mode: the fixed answer parsed whole, closed by
/// `Done`.
pub fn mock_events() -> (r: Vec<StreamEvent>)
    ensures
        events_view(r@) == drain(ParserState::Text, MOCK_ANSWER@).2 + seq![EventModel::Done],
{
    let mut parser = Parser::new();
    let mut events = parser.process_chunk(MOCK_ANSWER);
    proof {
        assert(Seq::<char>::empty() + MOCK_ANSWER@ =~= MOCK_ANSWER@);
    }
    let ghost before = events@;
    events.push(StreamEvent::Done);
    proof {
        assert forall|j: int| 0 <= j < events@.len() implies events_view(events@)[j] == (
        events_view(before) + seq![EventModel::Done])[j] by {
            assert(events_view(events@)[j] == events@[j]@);
            if j < before.len() {
                assert(events@[j] == before[j]);
                assert(events_view(before)[j] == before[j]@);
            }
        }
        assert(events_view(events@) =~= events_view(before) + seq![EventModel::Done]);
    }
    events
}

} // verus!
