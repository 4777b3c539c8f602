//! Streaming tool-call parser.
//!
//! The parser is a resumable state machine over text fragments.  Tool calls
//! are embedded in free prose as an XML-like block:
//!
//! ```text
//! <tool_code><tool name="run_command"><program>ls</program></tool></tool_code>
//! ```
//!
//! The machine has three states: plain text, inside a `<tool_code>` block
//! awaiting a `<tool …>` opening, and inside a `<tool …>` element awaiting
//! `<key>value</key>` argument pairs.  Its behaviour is specified by the
//! `step`/`drain` functions below, and `process_chunk` is proved to follow
//! them exactly.  On that model the crate proves chunk-insensitivity: feeding
//! a text in fragments yields the same events as feeding it whole, up to the
//! coalescing of adjacent `Token` payloads.

use vstd::prelude::*;

use crate::text::{
    extend_chars, find_ch, find_ch_from, find_char, find_char_from, find_idx,
    find_idx_from, find_sub, find_sub_from, chars_to_string, lemma_find_idx_props, matches_at,
    rfind_ch, rfind_char, str_to_chars, subvec,
};

verus! {

/// One event of the parsed stream, as handed to the agent loop.
#[derive(Debug, Clone, PartialEq)]
pub enum StreamEvent {
    Token(String),
    ToolStart(String),
    ToolArg(String, String),
    ToolEnd,
    Error(String),
    Done,
}

/// The mathematical model of a `StreamEvent`: the same shape over `Seq<char>`.
pub enum EventModel {
    Token(Seq<char>),
    ToolStart(Seq<char>),
    ToolArg(Seq<char>, Seq<char>),
    ToolEnd,
    Error(Seq<char>),
    Done,
}

impl View for StreamEvent {
    type V = EventModel;

    open spec fn view(&self) -> EventModel {
        match self {
            StreamEvent::Token(s) => EventModel::Token(s@),
            StreamEvent::ToolStart(s) => EventModel::ToolStart(s@),
            StreamEvent::ToolArg(k, v) => EventModel::ToolArg(k@, v@),
            StreamEvent::ToolEnd => EventModel::ToolEnd,
            StreamEvent::Error(s) => EventModel::Error(s@),
            StreamEvent::Done => EventModel::Done,
        }
    }
}

/// The models of a sequence of events.
pub open spec fn events_view(v: Seq<StreamEvent>) -> Seq<EventModel> {
    v.map_values(|e: StreamEvent| e@)
}

/// Parser position: plain text, inside `<tool_code>`, or inside `<tool …>`.
#[derive(Debug, Clone, Copy, PartialEq, Eq, Structural)]
pub enum ParserState {
    Text,
    InTag,
    InToolArg,
}

/// Opening marker of a tool-call block.
pub open spec fn open_tag() -> Seq<char> {
    "<tool_code>"@
}

/// Closing marker of a tool-call block.
pub open spec fn close_tag() -> Seq<char> {
    "</tool_code>"@
}

/// Prefix of the tool element's opening tag.
pub open spec fn tool_prefix() -> Seq<char> {
    "<tool"@
}

/// Closing tag of the tool element.
pub open spec fn tool_close() -> Seq<char> {
    "</tool>"@
}

/// Marker of the tool name attribute inside the opening tag.
pub open spec fn name_attr() -> Seq<char> {
    "name=\""@
}

/// How the window of `b` at `i` relates to the pattern `p`: a full match,
/// a proper prefix cut short by the end of `b`, or neither.
pub enum MatchKind {
    Full,
    Partial,
    Mismatch,
}

/// Classification of the window of `b` at `i` against `p`.
pub open spec fn classify(b: Seq<char>, i: int, p: Seq<char>) -> MatchKind {
    if matches_at(b, i, p) {
        MatchKind::Full
    } else if 0 <= i <= b.len() && b.len() < i + p.len() && b.skip(i) == p.take(b.len() - i) {
        MatchKind::Partial
    } else {
        MatchKind::Mismatch
    }
}

/// Tool name taken from the `name="…"` attribute of a complete opening tag.
pub open spec fn extract_name(tag: Seq<char>) -> Option<Seq<char>> {
    match find_idx(tag, name_attr()) {
        None => None,
        Some(n) => match find_char_from(tag, n + name_attr().len() as int, '"') {
            None => None,
            Some(q) => Some(tag.subrange(n + name_attr().len() as int, q)),
        },
    }
}

/// One reduction of the machine in state `Text`: consume through the first
/// `<tool_code>` marker, emitting the text before it as a token.
pub open spec fn step_text(b: Seq<char>) -> Option<(ParserState, int, Seq<EventModel>)> {
    match find_idx(b, open_tag()) {
        Some(i) => Some(
            (
                ParserState::InTag,
                i + open_tag().len() as int,
                if i > 0 {
                    seq![EventModel::Token(b.take(i))]
                } else {
                    Seq::<EventModel>::empty()
                },
            ),
        ),
        None => None,
    }
}

/// One reduction in state `InTag`: at the first `<`, either the block closes,
/// a `<tool …>` element opens (emitting `ToolStart`), or stray text is
/// skipped.  `None` waits for more input.
pub open spec fn step_in_tag(b: Seq<char>) -> Option<(ParserState, int, Seq<EventModel>)> {
    match find_char(b, '<') {
        None => None,
        Some(i) => {
            if i + 1 >= b.len() {
                None
            } else if b[i + 1] == '/' {
                match classify(b, i, close_tag()) {
                    MatchKind::Full => Some(
                        (ParserState::Text, i + close_tag().len() as int, Seq::<
                            EventModel,
                        >::empty()),
                    ),
                    MatchKind::Partial => None,
                    MatchKind::Mismatch => Some(
                        (ParserState::InTag, i + 1, Seq::<EventModel>::empty()),
                    ),
                }
            } else {
                match classify(b, i, tool_prefix()) {
                    MatchKind::Full => match find_char_from(b, i, '>') {
                        None => None,
                        Some(g) => {
                            let tag = b.subrange(i, g + 1);
                            match extract_name(tag) {
                                Some(name) => Some(
                                    (
                                        ParserState::InToolArg,
                                        g + 1,
                                        seq![EventModel::ToolStart(name)],
                                    ),
                                ),
                                None => Some(
                                    (ParserState::InTag, g + 1, Seq::<EventModel>::empty()),
                                ),
                            }
                        },
                    },
                    MatchKind::Partial => None,
                    MatchKind::Mismatch => Some(
                        (ParserState::InTag, i + 1, Seq::<EventModel>::empty()),
                    ),
                }
            }
        },
    }
}

/// One reduction in state `InToolArg`: at the first `<`, either the tool
/// element closes (emitting `ToolEnd`), or a complete `<key>value</key>` pair
/// emits `ToolArg`, or stray text is skipped.  `None` waits for more input.
pub open spec fn step_in_arg(b: Seq<char>) -> Option<(ParserState, int, Seq<EventModel>)> {
    match find_char(b, '<') {
        None => None,
        Some(i) => {
            if i + 1 >= b.len() {
                None
            } else if b[i + 1] == '/' {
                match classify(b, i, tool_close()) {
                    MatchKind::Full => Some(
                        (ParserState::InTag, i + tool_close().len() as int, seq![
                            EventModel::ToolEnd,
                        ]),
                    ),
                    MatchKind::Partial => None,
                    MatchKind::Mismatch => Some(
                        (ParserState::InToolArg, i + 1, Seq::<EventModel>::empty()),
                    ),
                }
            } else {
                match find_char_from(b, i, '>') {
                    None => None,
                    Some(g) => {
                        let name = b.subrange(i + 1, g);
                        let closing = seq!['<', '/'] + name + seq!['>'];
                        match find_idx_from(b, g + 1, closing) {
                            None => None,
                            Some(c) => Some(
                                (
                                    ParserState::InToolArg,
                                    c + closing.len() as int,
                                    seq![EventModel::ToolArg(name, b.subrange(g + 1, c))],
                                ),
                            ),
                        }
                    },
                }
            }
        },
    }
}

/// One reduction of the machine, if any applies.
pub open spec fn step(st: ParserState, b: Seq<char>) -> Option<(ParserState, int, Seq<EventModel>)> {
    match st {
        ParserState::Text => step_text(b),
        ParserState::InTag => step_in_tag(b),
        ParserState::InToolArg => step_in_arg(b),
    }
}

/// Where a quiescent text buffer is cut: everything before the last `<` is
/// safe to emit; the rest could still grow into a `<tool_code>` marker.
pub open spec fn flush_hold(b: Seq<char>) -> int {
    match rfind_char(b, '<') {
        Some(l) => l,
        None => b.len() as int,
    }
}

/// Emitting the safe prefix of a quiescent text buffer.
pub open spec fn text_flush(b: Seq<char>) -> (ParserState, Seq<char>, Seq<EventModel>) {
    let h = flush_hold(b);
    (
        ParserState::Text,
        b.skip(h),
        if h > 0 {
            seq![EventModel::Token(b.take(h))]
        } else {
            Seq::<EventModel>::empty()
        },
    )
}

/// Run the machine to quiescence: the final state, the retained buffer, and
/// every event emitted along the way.
pub open spec fn drain(st: ParserState, b: Seq<char>) -> (ParserState, Seq<char>, Seq<EventModel>)
    decreases b.len(),
{
    match step(st, b) {
        Some(r) => {
            if 1 <= r.1 <= b.len() {
                let rest = drain(r.0, b.skip(r.1));
                (rest.0, rest.1, r.2 + rest.2)
            } else {
                (r.0, Seq::<char>::empty(), r.2)
            }
        },
        None => match st {
            ParserState::Text => text_flush(b),
            ParserState::InTag => (st, b, Seq::<EventModel>::empty()),
            ParserState::InToolArg => (st, b, Seq::<EventModel>::empty()),
        },
    }
}

/// Any applicable reduction consumes at least one and at most all characters.
pub proof fn lemma_step_consumes(st: ParserState, b: Seq<char>)
    requires
        step(st, b) is Some,
    ensures
        1 <= (step(st, b)->0).1 <= b.len(),
{
    match st {
        ParserState::Text => {
            lemma_find_idx_props(b, open_tag());
            let i = find_idx(b, open_tag())->0;
            assert(matches_at(b, i, open_tag()));
            reveal_strlit("<tool_code>");
        },
        ParserState::InTag => {
            lemma_find_idx_props(b, seq!['<']);
            let i = find_char(b, '<')->0;
            assert(matches_at(b, i, seq!['<']));
            if i + 1 < b.len() {
                if b[i + 1] == '/' {
                    if classify(b, i, close_tag()) is Full {
                        reveal_strlit("</tool_code>");
                    }
                } else {
                    if classify(b, i, tool_prefix()) is Full {
                        match find_char_from(b, i, '>') {
                            Some(g) => {
                                lemma_find_idx_props(b.skip(i), seq!['>']);
                                let gg = find_idx(b.skip(i), seq!['>'])->0;
                                assert(matches_at(b.skip(i), gg, seq!['>']));
                            },
                            None => {},
                        }
                    }
                }
            }
        },
        ParserState::InToolArg => {
            lemma_find_idx_props(b, seq!['<']);
            let i = find_char(b, '<')->0;
            assert(matches_at(b, i, seq!['<']));
            if i + 1 < b.len() {
                if b[i + 1] == '/' {
                    if classify(b, i, tool_close()) is Full {
                        reveal_strlit("</tool>");
                    }
                } else {
                    match find_char_from(b, i, '>') {
                        Some(g) => {
                            lemma_find_idx_props(b.skip(i), seq!['>']);
                            let gg = find_idx(b.skip(i), seq!['>'])->0;
                            assert(matches_at(b.skip(i), gg, seq!['>']));
                            let name = b.subrange(i + 1, g);
                            let closing = seq!['<', '/'] + name + seq!['>'];
                            match find_idx_from(b, g + 1, closing) {
                                Some(c) => {
                                    lemma_find_idx_props(b.skip(g + 1), closing);
                                    let cc = find_idx(b.skip(g + 1), closing)->0;
                                    assert(matches_at(b.skip(g + 1), cc, closing));
                                },
                                None => {},
                            }
                        },
                        None => {},
                    }
                }
            }
        },
    }
}

/// Classification of the window of `s` at `i` against the pattern `p`.
fn classify_at(s: &Vec<char>, i: usize, p: &Vec<char>) -> (k: MatchKind)
    requires
        i <= s@.len(),
    ensures
        k == classify(s@, i as int, p@),
{
    let avail: usize = s.len() - i;
    let lim = if avail < p.len() {
        avail
    } else {
        p.len()
    };
    let mut j: usize = 0;
    while j < lim
        invariant
            j <= lim,
            i <= s@.len(),
            s@.len() <= usize::MAX,
            lim <= p@.len(),
            i + lim <= s@.len(),
            lim == if s@.len() - i < p@.len() {
                s@.len() - i
            } else {
                p@.len() as int
            },
            forall|x: int| 0 <= x < j ==> s@[i + x] == p@[x],
        decreases lim - j,
    {
        if s[i + j] != p[j] {
            proof {
                if i + p@.len() <= s@.len() {
                    assert(s@.subrange(i as int, i + p@.len() as int)[j as int] == s@[i + j]);
                }
                if s@.len() < i + p@.len() {
                    assert(s@.skip(i as int)[j as int] == s@[i + j]);
                    assert(p@.take(s@.len() - i)[j as int] == p@[j as int]);
                }
            }
            return MatchKind::Mismatch;
        }
        j += 1;
    }
    if lim == p.len() {
        proof {
            assert(s@.subrange(i as int, i + p@.len() as int) =~= p@);
        }
        MatchKind::Full
    } else {
        proof {
            assert(s@.skip(i as int) =~= p@.take(s@.len() - i));
            assert(!matches_at(s@, i as int, p@));
        }
        MatchKind::Partial
    }
}

/// Executable counterpart of `extract_name`.
fn extract_name_exec(tag: &Vec<char>) -> (r: Option<Vec<char>>)
    ensures
        match r {
            Some(v) => extract_name(tag@) == Some(v@),
            None => extract_name(tag@) is None,
        },
{
    let attr = str_to_chars("name=\"");
    let tlen: usize = tag.len();
    let alen: usize = attr.len();
    proof {
        assert(attr@ == name_attr());
    }
    match find_sub(tag, &attr) {
        None => None,
        Some(n) => {
            proof {
                lemma_find_idx_props(tag@, attr@);
                assert(matches_at(tag@, n as int, attr@));
                assert(n + alen <= tlen);
            }
            match find_ch_from(tag, n + attr.len(), '"') {
                None => None,
                Some(q) => {
                    proof {
                        lemma_find_idx_props(tag@.skip(n + attr@.len() as int), seq!['"']);
                        let qq = find_idx(tag@.skip(n + attr@.len() as int), seq!['"'])->0;
                        assert(matches_at(tag@.skip(n + attr@.len() as int), qq, seq!['"']));
                    }
                    Some(subvec(tag, n + attr.len(), q))
                },
            }
        },
    }
}

/// Executable counterpart of `step`: one reduction of the machine, if any
/// applies to the buffer as it stands.
fn step_exec(st: ParserState, b: &Vec<char>) -> (r: Option<(ParserState, usize, Vec<StreamEvent>)>)
    ensures
        match r {
            Some(t) => step(st, b@) == Some((t.0, t.1 as int, events_view(t.2@))),
            None => step(st, b@) is None,
        },
{
    let blen: usize = b.len();
    proof {
        assert(b@.len() == blen);
    }
    match st {
        ParserState::Text => {
            let pat = str_to_chars("<tool_code>");
            proof {
                assert(pat@ == open_tag());
            }
            match find_sub(b, &pat) {
                None => None,
                Some(i) => {
                    proof {
                        lemma_find_idx_props(b@, pat@);
                        assert(matches_at(b@, i as int, pat@));
                    }
                    let mut evs: Vec<StreamEvent> = Vec::new();
                    if i > 0 {
                        let tok = subvec(b, 0, i);
                        evs.push(StreamEvent::Token(chars_to_string(&tok)));
                    }
                    proof {
                        let want = if i > 0 {
                            seq![EventModel::Token(b@.take(i as int))]
                        } else {
                            Seq::<EventModel>::empty()
                        };
                        assert(events_view(evs@) =~= want);
                    }
                    Some((ParserState::InTag, i + pat.len(), evs))
                },
            }
        },
        ParserState::InTag => {
            match find_ch(b, '<') {
                None => None,
                Some(i) => {
                    proof {
                        lemma_find_idx_props(b@, seq!['<']);
                        assert(matches_at(b@, i as int, seq!['<']));
                    }
                    if b.len() - i <= 1 {
                        proof {
                            assert(i + 1 >= b@.len());
                        }
                        None
                    } else if b[i + 1] == '/' {
                        let cpat = str_to_chars("</tool_code>");
                        proof {
                            assert(cpat@ == close_tag());
                        }
                        match classify_at(b, i, &cpat) {
                            MatchKind::Full => {
                                proof {
                                    assert(matches_at(b@, i as int, cpat@));
                                    assert(events_view(Seq::<StreamEvent>::empty()) =~= Seq::<
                                        EventModel,
                                    >::empty());
                                }
                                Some((ParserState::Text, i + cpat.len(), Vec::new()))
                            },
                            MatchKind::Partial => None,
                            MatchKind::Mismatch => {
                                proof {
                                    assert(events_view(Seq::<StreamEvent>::empty()) =~= Seq::<
                                        EventModel,
                                    >::empty());
                                }
                                Some((ParserState::InTag, i + 1, Vec::new()))
                            },
                        }
                    } else {
                        let tpat = str_to_chars("<tool");
                        proof {
                            assert(tpat@ == tool_prefix());
                        }
                        match classify_at(b, i, &tpat) {
                            MatchKind::Full => {
                                match find_ch_from(b, i, '>') {
                                    None => None,
                                    Some(g) => {
                                        proof {
                                            lemma_find_idx_props(b@.skip(i as int), seq!['>']);
                                            let gg = find_idx(b@.skip(i as int), seq!['>'])->0;
                                            assert(matches_at(b@.skip(i as int), gg, seq!['>']));
                                        }
                                        let tag = subvec(b, i, g + 1);
                                        match extract_name_exec(&tag) {
                                            Some(name) => {
                                                let mut evs: Vec<StreamEvent> = Vec::new();
                                                evs.push(
                                                    StreamEvent::ToolStart(chars_to_string(&name)),
                                                );
                                                proof {
                                                    let want = seq![
                                                        EventModel::ToolStart(
                                                            extract_name(
                                                                b@.subrange(i as int, g + 1),
                                                            )->0,
                                                        ),
                                                    ];
                                                    assert(events_view(evs@) =~= want);
                                                }
                                                Some((ParserState::InToolArg, g + 1, evs))
                                            },
                                            None => {
                                                proof {
                                                    assert(events_view(Seq::<StreamEvent>::empty())
                                                        =~= Seq::<EventModel>::empty());
                                                }
                                                Some((ParserState::InTag, g + 1, Vec::new()))
                                            },
                                        }
                                    },
                                }
                            },
                            MatchKind::Partial => None,
                            MatchKind::Mismatch => {
                                proof {
                                    assert(events_view(Seq::<StreamEvent>::empty()) =~= Seq::<
                                        EventModel,
                                    >::empty());
                                }
                                Some((ParserState::InTag, i + 1, Vec::new()))
                            },
                        }
                    }
                },
            }
        },
        ParserState::InToolArg => {
            match find_ch(b, '<') {
                None => None,
                Some(i) => {
                    proof {
                        lemma_find_idx_props(b@, seq!['<']);
                        assert(matches_at(b@, i as int, seq!['<']));
                    }
                    if b.len() - i <= 1 {
                        proof {
                            assert(i + 1 >= b@.len());
                        }
                        None
                    } else if b[i + 1] == '/' {
                        let cpat = str_to_chars("</tool>");
                        proof {
                            assert(cpat@ == tool_close());
                        }
                        match classify_at(b, i, &cpat) {
                            MatchKind::Full => {
                                let mut evs: Vec<StreamEvent> = Vec::new();
                                evs.push(StreamEvent::ToolEnd);
                                proof {
                                    assert(matches_at(b@, i as int, cpat@));
                                    assert(events_view(evs@) =~= seq![EventModel::ToolEnd]);
                                }
                                Some((ParserState::InTag, i + cpat.len(), evs))
                            },
                            MatchKind::Partial => None,
                            MatchKind::Mismatch => {
                                proof {
                                    assert(events_view(Seq::<StreamEvent>::empty()) =~= Seq::<
                                        EventModel,
                                    >::empty());
                                }
                                Some((ParserState::InToolArg, i + 1, Vec::new()))
                            },
                        }
                    } else {
                        match find_ch_from(b, i, '>') {
                            None => None,
                            Some(g) => {
                                proof {
                                    lemma_find_idx_props(b@.skip(i as int), seq!['>']);
                                    let gg = find_idx(b@.skip(i as int), seq!['>'])->0;
                                    assert(matches_at(b@.skip(i as int), gg, seq!['>']));
                                    assert(b@.skip(i as int).subrange(gg, gg + 1)[0] == b@.skip(
                                        i as int,
                                    )[gg]);
                                    assert(b@[g as int] == '>');
                                    assert(b@.subrange(i as int, i + 1)[0] == b@[i as int]);
                                    assert(b@[i as int] == '<');
                                }
                                let name = subvec(b, i + 1, g);
                                let mut closing: Vec<char> = Vec::new();
                                closing.push('<');
                                closing.push('/');
                                extend_chars(&mut closing, &name);
                                closing.push('>');
                                proof {
                                    assert(closing@ =~= seq!['<', '/'] + name@ + seq!['>']);
                                }
                                match find_sub_from(b, g + 1, &closing) {
                                    None => None,
                                    Some(c) => {
                                        proof {
                                            lemma_find_idx_props(b@.skip(g + 1), closing@);
                                            let cc = find_idx(b@.skip(g + 1), closing@)->0;
                                            assert(matches_at(b@.skip(g + 1), cc, closing@));
                                        }
                                        let val = subvec(b, g + 1, c);
                                        let mut evs: Vec<StreamEvent> = Vec::new();
                                        evs.push(
                                            StreamEvent::ToolArg(
                                                chars_to_string(&name),
                                                chars_to_string(&val),
                                            ),
                                        );
                                        proof {
                                            let want = seq![
                                                EventModel::ToolArg(
                                                    b@.subrange(i + 1, g as int),
                                                    b@.subrange(g + 1, c as int),
                                                ),
                                            ];
                                            assert(events_view(evs@) =~= want);
                                        }
                                        Some((ParserState::InToolArg, c + closing.len(), evs))
                                    },
                                }
                            },
                        }
                    }
                },
            }
        },
    }
}

/// The resumable streaming parser.
pub struct Parser {
    state: ParserState,
    buffer: Vec<char>,
}

impl Parser {
    /// The machine state the parser is in.
    pub closed spec fn st(&self) -> ParserState {
        self.state
    }

    /// The characters received but not yet consumed or emitted.
    pub closed spec fn buf(&self) -> Seq<char> {
        self.buffer@
    }

    /// A fresh parser: plain-text state, empty buffer.
    pub fn new() -> (p: Parser)
        ensures
            p.st() == ParserState::Text,
            p.buf() == Seq::<char>::empty(),
    {
        let p = Parser { state: ParserState::Text, buffer: Vec::new() };
        proof {
            assert(p.buf() =~= Seq::<char>::empty());
        }
        p
    }

    /// Feed one fragment and collect the events it completes: exactly the
    /// result of running the machine to quiescence on the buffered text plus
    /// the fragment.
    pub fn process_chunk(&mut self, chunk: &str) -> (events: Vec<StreamEvent>)
        ensures
            ({
                let r = drain(old(self).st(), old(self).buf() + chunk@);
                &&& final(self).st() == r.0
                &&& final(self).buf() == r.1
                &&& events_view(events@) == r.2
            }),
    {
        let tail = str_to_chars(chunk);
        extend_chars(&mut self.buffer, &tail);
        let mut events: Vec<StreamEvent> = Vec::new();
        let ghost s0 = self.state;
        let ghost b0 = self.buffer@;
        proof {
            assert(b0 == old(self).buf() + chunk@);
            assert(events_view(events@) + drain(s0, b0).2 =~= drain(s0, b0).2);
        }
        loop
            invariant
                s0 == old(self).st(),
                b0 == old(self).buf() + chunk@,
                drain(s0, b0).0 == drain(self.state, self.buffer@).0,
                drain(s0, b0).1 == drain(self.state, self.buffer@).1,
                drain(s0, b0).2 == events_view(events@) + drain(self.state, self.buffer@).2,
            decreases self.buffer@.len(),
        {
            match step_exec(self.state, &self.buffer) {
                Some((s2, k, mut evs)) => {
                    proof {
                        lemma_step_consumes(self.state, self.buffer@);
                    }
                    let ghost bcur = self.buffer@;
                    let ghost scur = self.state;
                    let nb = subvec(&self.buffer, k, self.buffer.len());
                    proof {
                        assert(nb@ =~= bcur.skip(k as int));
                    }
                    self.buffer = nb;
                    self.state = s2;
                    let ghost eold = events@;
                    let ghost enew = evs@;
                    events.append(&mut evs);
                    proof {
                        assert(events@ == eold + enew);
                        let rest = drain(s2, bcur.skip(k as int));
                        assert(drain(scur, bcur).2 == events_view(enew) + rest.2);
                        assert(events_view(eold + enew) =~= events_view(eold) + events_view(
                            enew,
                        ));
                        assert(events_view(eold) + (events_view(enew) + rest.2) =~= (
                        events_view(eold) + events_view(enew)) + rest.2);
                    }
                },
                None => {
                    let ghost bcur = self.buffer@;
                    if matches!(self.state, ParserState::Text) {
                        let h = match rfind_ch(&self.buffer, '<') {
                            Some(l) => l,
                            None => self.buffer.len(),
                        };
                        proof {
                            crate::text::lemma_rfind_char_props(bcur, '<');
                            assert(h == flush_hold(bcur));
                            assert(h <= bcur.len());
                        }
                        let ghost eold = events@;
                        if h > 0 {
                            let tok = subvec(&self.buffer, 0, h);
                            events.push(StreamEvent::Token(chars_to_string(&tok)));
                        }
                        let nb = subvec(&self.buffer, h, self.buffer.len());
                        self.buffer = nb;
                        proof {
                            let fl = text_flush(bcur);
                            assert(self.buffer@ =~= fl.1);
                            assert(events_view(events@) =~= events_view(eold) + fl.2);
                            assert(events_view(eold) + (fl.2 + Seq::<EventModel>::empty())
                                =~= events_view(eold) + fl.2);
                            assert(drain(self.state, bcur) == fl);
                            assert(drain(s0, b0).2 =~= events_view(events@));
                        }
                    } else {
                        proof {
                            assert(drain(self.state, bcur) == (
                                self.state,
                                bcur,
                                Seq::<EventModel>::empty(),
                            ));
                            assert(events_view(events@) + Seq::<EventModel>::empty()
                                =~= events_view(events@));
                        }
                    }
                    return events;
                },
            }
        }
    }
}

} // verus!
