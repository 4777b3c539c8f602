//! Agent loop logic.
//!
//! One loop drives each agent session: it snapshots history, streams a model
//! answer, collects the tool calls out of the event stream, dispatches them
//! in order, and re-enters — optionally alternating between a Coder and a
//! Verifier persona.  Everything the loop decides is a function here, with a
//! contract; the surrounding runtime only performs I/O and feeds results
//! back.

use vstd::prelude::*;

use crate::parser::{EventModel, StreamEvent};
use crate::protocol::{Message, ToolCall};
use crate::text::{
    chars_to_string, extend_chars, find_idx, find_sub, str_to_chars,
};

verus! {

/// The persona the model is currently speaking as.
#[derive(Debug, Clone, Copy, PartialEq, Eq, Structural)]
pub enum AgentRole {
    Coder,
    Verifier,
}

/// The system prompt of the Coder persona.
pub const CODER_PROMPT: &'static str = "You are the Architect (Coder).\nYour goal is to implement the requested solution efficiently and correctly.\nYou have access to tools to write code, read files, and explore the project.\nDo NOT run tests yourself. Just focus on writing the best possible implementation.\nOnce you have written the code, the Verifier will take over to test it.";

/// The system prompt of the Verifier persona.
pub const VERIFIER_PROMPT: &'static str = "You are the Adversary (Verifier).\nYour goal is to PROVE the Coder's implementation is flawed.\nTrust nothing.\n1. Analyze the code just written.\n2. Write a reproduction script or test case (e.g., test_repro.rs) that targets edge cases or potential bugs.\n3. Run the test using `run_command`.\n   - If the test FAILS (Exit Code != 0), you have succeeded. The Coder will be summoned to fix it.\n   - If the test PASSES (Exit Code 0), you have failed to break it.\n4. If you cannot break the code and are satisfied it is correct, output the exact tag: <verified />";

impl AgentRole {
    /// The persona's lower-case name, as emitted in debug events and
    /// persisted metadata.
    pub fn as_str(&self) -> (r: &'static str)
        ensures
            r@ == match *self {
                AgentRole::Coder => "coder"@,
                AgentRole::Verifier => "verifier"@,
            },
    {
        match self {
            AgentRole::Coder => "coder",
            AgentRole::Verifier => "verifier",
        }
    }
}

/// The system prompt for a persona.
pub open spec fn prompt_of(role: AgentRole) -> Seq<char> {
    match role {
        AgentRole::Coder => CODER_PROMPT@,
        AgentRole::Verifier => VERIFIER_PROMPT@,
    }
}

/// Select the system prompt for a persona.
pub fn get_prompt_for_role(role: &AgentRole) -> (r: &'static str)
    ensures
        r@ == prompt_of(*role),
{
    match role {
        AgentRole::Coder => CODER_PROMPT,
        AgentRole::Verifier => VERIFIER_PROMPT,
    }
}

/// The synthetic user message that re-anchors the model on a new persona.
pub fn role_switch_message(role: &AgentRole) -> (r: String)
    ensures
        r@ == "\n[SYSTEM]: SWITCHING ROLE.\n"@ + prompt_of(*role),
{
    let mut out = str_to_chars("\n[SYSTEM]: SWITCHING ROLE.\n");
    let prompt = str_to_chars(get_prompt_for_role(role));
    extend_chars(&mut out, &prompt);
    chars_to_string(&out)
}

/// An event key on the UI boundary: `agent:<kind>:<session_id>`.
pub fn event_key(kind: &str, session_id: &str) -> (r: String)
    ensures
        r@ == "agent:"@ + kind@ + ":"@ + session_id@,
{
    let mut out = str_to_chars("agent:");
    let kv = str_to_chars(kind);
    extend_chars(&mut out, &kv);
    let colon = str_to_chars(":");
    extend_chars(&mut out, &colon);
    let sv = str_to_chars(session_id);
    extend_chars(&mut out, &sv);
    chars_to_string(&out)
}

/// Argument list with `key` bound to `value`: the first existing binding is
/// replaced, otherwise the pair is appended.
pub open spec fn upsert_of(
    args: Seq<(Seq<char>, Seq<char>)>,
    key: Seq<char>,
    value: Seq<char>,
) -> Seq<(Seq<char>, Seq<char>)>
    decreases args.len(),
{
    if args.len() == 0 {
        seq![(key, value)]
    } else if args[0].0 == key {
        seq![(key, value)] + args.drop_first()
    } else {
        seq![args[0]] + upsert_of(args.drop_first(), key, value)
    }
}

/// The collector's model: the accumulated assistant text, the tool call
/// under construction, and the finished calls in order.
pub struct CollectModel {
    pub text: Seq<char>,
    pub pending: Option<(Seq<char>, Seq<(Seq<char>, Seq<char>)>)>,
    pub calls: Seq<(Seq<char>, Seq<(Seq<char>, Seq<char>)>)>,
}

/// How one stream event changes the collector.
pub open spec fn collect_step(st: CollectModel, e: EventModel) -> CollectModel {
    match e {
        EventModel::Token(t) => CollectModel { text: st.text + t, ..st },
        EventModel::ToolStart(n) => CollectModel {
            pending: Some((n, Seq::<(Seq<char>, Seq<char>)>::empty())),
            ..st
        },
        EventModel::ToolArg(k, v) => match st.pending {
            Some(p) => CollectModel { pending: Some((p.0, upsert_of(p.1, k, v))), ..st },
            None => st,
        },
        EventModel::ToolEnd => match st.pending {
            Some(p) => CollectModel { pending: None, calls: st.calls.push(p), ..st },
            None => st,
        },
        EventModel::Error(_) => st,
        EventModel::Done => st,
    }
}

/// The model of one finished tool call.
pub open spec fn call_model(c: ToolCall) -> (Seq<char>, Seq<(Seq<char>, Seq<char>)>) {
    (c.name@, crate::dispatch::args_view(c.arguments@))
}

/// The models of a list of tool calls.
pub open spec fn calls_view(cs: Seq<ToolCall>) -> Seq<(Seq<char>, Seq<(Seq<char>, Seq<char>)>)> {
    cs.map_values(|c: ToolCall| call_model(c))
}

/// Folds a turn's stream events into the assistant text and the tool calls.
pub struct TurnCollector {
    text: Vec<char>,
    pending: Option<(String, Vec<(String, String)>)>,
    calls: Vec<ToolCall>,
}

impl TurnCollector {
    /// The collector's model.
    pub closed spec fn model(&self) -> CollectModel {
        CollectModel {
            text: self.text@,
            pending: match self.pending {
                Some((ref n, ref a)) => Some((n@, crate::dispatch::args_view(a@))),
                None => None,
            },
            calls: calls_view(self.calls@),
        }
    }

    /// A fresh collector: no text, no pending call, no calls.
    pub fn new() -> (c: TurnCollector)
        ensures
            c.model() == (CollectModel {
                text: Seq::<char>::empty(),
                pending: None,
                calls: Seq::<(Seq<char>, Seq<(Seq<char>, Seq<char>)>)>::empty(),
            }),
    {
        let c = TurnCollector { text: Vec::new(), pending: None, calls: Vec::new() };
        proof {
            assert(c.model().text =~= Seq::<char>::empty());
            assert(c.model().calls =~= Seq::<(Seq<char>, Seq<(Seq<char>, Seq<char>)>)>::empty());
        }
        c
    }

    /// Consume one stream event.
    pub fn push_event(&mut self, e: &StreamEvent)
        ensures
            final(self).model() == collect_step(old(self).model(), e@),
    {
        match e {
            StreamEvent::Token(t) => {
                let tv = str_to_chars(t.as_str());
                extend_chars(&mut self.text, &tv);
            },
            StreamEvent::ToolStart(n) => {
                self.pending = Some((n.clone(), Vec::new()));
                proof {
                    assert(crate::dispatch::args_view(Seq::<(String, String)>::empty())
                        =~= Seq::<(Seq<char>, Seq<char>)>::empty());
                }
            },
            StreamEvent::ToolArg(k, v) => {
                let pending = self.pending.take();
                match pending {
                    Some((name, args)) => {
                        let args2 = upsert_args(args, k, v);
                        self.pending = Some((name, args2));
                    },
                    None => {},
                }
            },
            StreamEvent::ToolEnd => {
                let pending = self.pending.take();
                match pending {
                    Some((name, args)) => {
                        let ghost old_calls = self.calls@;
                        self.calls.push(ToolCall { name, arguments: args });
                        proof {
                            assert forall|j: int| 0 <= j < self.calls@.len() implies calls_view(
                                self.calls@,
                            )[j] == old(self).model().calls.push(
                                (name@, crate::dispatch::args_view(args@)),
                            )[j] by {
                                assert(calls_view(self.calls@)[j] == call_model(self.calls@[j]));
                                if j < old_calls.len() {
                                    assert(self.calls@[j] == old_calls[j]);
                                    assert(old(self).model().calls[j] == call_model(old_calls[j]));
                                }
                            }
                            assert(calls_view(self.calls@) =~= old(self).model().calls.push(
                                (name@, crate::dispatch::args_view(args@)),
                            ));
                        }
                    },
                    None => {},
                }
            },
            StreamEvent::Error(_) => {},
            StreamEvent::Done => {},
        }
    }

    /// The assistant text accumulated this turn.
    pub fn text(&self) -> (r: String)
        ensures
            r@ == self.model().text,
    {
        chars_to_string(&self.text)
    }

    /// The finished tool calls, in the order the stream emitted them.
    pub fn into_calls(self) -> (r: Vec<ToolCall>)
        ensures
            calls_view(r@) == self.model().calls,
    {
        self.calls
    }

    /// How many tool calls have finished.
    pub fn call_count(&self) -> (r: usize)
        ensures
            r == self.model().calls.len(),
    {
        self.calls.len()
    }
}

/// Bind `key` to `value`, replacing an existing binding.
fn upsert_args(args: Vec<(String, String)>, key: &String, value: &String) -> (r: Vec<
    (String, String),
>)
    ensures
        crate::dispatch::args_view(r@) == upsert_of(
            crate::dispatch::args_view(args@),
            key@,
            value@,
        ),
{
    let mut out: Vec<(String, String)> = Vec::new();
    let mut i: usize = 0;
    let ghost av = crate::dispatch::args_view(args@);
    while i < args.len()
        invariant
            0 <= i <= args@.len(),
            av == crate::dispatch::args_view(args@),
            av.len() == args@.len(),
            crate::dispatch::args_view(out@) == av.take(i as int),
            forall|j: int| 0 <= j < i ==> av[j].0 != key@,
        decreases args@.len() - i,
    {
        proof {
            let pair = args@[i as int];
            assert(av[i as int] == (pair.0@, pair.1@));
        }
        let kv = str_to_chars(key.as_str());
        let nv = str_to_chars(args[i].0.as_str());
        if crate::text::chars_eq(&nv, &kv) {
            // Replace this binding and keep the rest unchanged.
            out.push((key.clone(), value.clone()));
            let mut j: usize = i + 1;
            while j < args.len()
                invariant
                    i + 1 <= j <= args@.len(),
                    av == crate::dispatch::args_view(args@),
                    av.len() == args@.len(),
                    av[i as int].0 == key@,
                    forall|x: int| 0 <= x < i ==> av[x].0 != key@,
                    crate::dispatch::args_view(out@) == av.take(i as int) + seq![
                        (key@, value@),
                    ] + av.subrange(i + 1, j as int),
                decreases args@.len() - j,
            {
                proof {
                    let pair = args@[j as int];
                    assert(av[j as int] == (pair.0@, pair.1@));
                }
                let ghost old_out = out@;
                let ghost prev_target = av.take(i as int) + seq![(key@, value@)] + av.subrange(
                    i + 1,
                    j as int,
                );
                out.push((args[j].0.clone(), args[j].1.clone()));
                proof {
                    let target = av.take(i as int) + seq![(key@, value@)] + av.subrange(
                        i + 1,
                        j + 1,
                    );
                    assert(target =~= prev_target + seq![av[j as int]]);
                    assert forall|x: int| 0 <= x < out@.len() implies crate::dispatch::args_view(
                        out@,
                    )[x] == target[x] by {
                        let pr = out@[x];
                        assert(crate::dispatch::args_view(out@)[x] == (pr.0@, pr.1@));
                        if x < old_out.len() {
                            assert(out@[x] == old_out[x]);
                            assert(crate::dispatch::args_view(old_out)[x] == (old_out[x].0@,
                            old_out[x].1@));
                            assert(crate::dispatch::args_view(old_out)[x] == prev_target[x]);
                        } else {
                            assert((pr.0@, pr.1@) == av[j as int]);
                        }
                    }
                    assert(crate::dispatch::args_view(out@) =~= target);
                }
                j += 1;
            }
            proof {
                lemma_upsert_found(av, key@, value@, i as int);
                assert(av.subrange(i + 1, av.len() as int) =~= av.skip(i + 1));
                assert(crate::dispatch::args_view(out@) == upsert_of(av, key@, value@));
            }
            return out;
        }
        out.push((args[i].0.clone(), args[i].1.clone()));
        proof {
            assert(crate::dispatch::args_view(out@) =~= av.take(i + 1));
        }
        i += 1;
    }
    out.push((key.clone(), value.clone()));
    proof {
        lemma_upsert_missing(av, key@, value@);
        assert(av.take(av.len() as int) =~= av);
        assert(crate::dispatch::args_view(out@) =~= av + seq![(key@, value@)]);
    }
    out
}

/// Where the key's first binding is at `i`, the upsert replaces it in place.
proof fn lemma_upsert_found(args: Seq<(Seq<char>, Seq<char>)>, key: Seq<char>, value: Seq<char>, i: int)
    requires
        0 <= i < args.len(),
        args[i].0 == key,
        forall|j: int| 0 <= j < i ==> args[j].0 != key,
    ensures
        upsert_of(args, key, value) == args.take(i) + seq![(key, value)] + args.skip(i + 1),
    decreases i,
{
    if i == 0 {
        assert(upsert_of(args, key, value) == seq![(key, value)] + args.drop_first());
        assert(args.take(0) + seq![(key, value)] + args.skip(1) =~= seq![(key, value)]
            + args.drop_first());
    } else {
        let t = args.drop_first();
        assert(t[i - 1].0 == key);
        assert forall|j: int| 0 <= j < i - 1 implies t[j].0 != key by {
            assert(t[j] == args[j + 1]);
        }
        lemma_upsert_found(t, key, value, i - 1);
        assert(upsert_of(args, key, value) == seq![args[0]] + (t.take(i - 1) + seq![
            (key, value),
        ] + t.skip(i)));
        assert(seq![args[0]] + (t.take(i - 1) + seq![(key, value)] + t.skip(i)) =~= args.take(
            i,
        ) + seq![(key, value)] + args.skip(i + 1));
    }
}

/// The iteration budget of the dual-persona loop.
pub const DUAL_MAX_ITERATIONS: u32 = 40;

/// The iteration budget of the single-persona loop.
pub const SINGLE_MAX_ITERATIONS: u32 = 20;

/// How many Coder-to-Verifier hand-offs are allowed before aborting.
pub const MAX_VERIFICATION_ATTEMPTS: u32 = 5;

/// The loop's control state for one agent session.
pub struct LoopState {
    pub running: bool,
    pub role: AgentRole,
    pub verification_attempts: u32,
    pub iterations: u32,
    pub max_iterations: u32,
}

/// What the loop does at the top of an iteration.
pub enum IterationStart {
    /// The running flag is clear: exit without dispatching anything.
    Exit,
    /// The iteration budget is spent: report it and stop.
    BudgetExhausted,
    /// Open a gateway stream for one more turn.
    Proceed,
}

/// What the loop does once a turn's stream has been collected.
pub enum TurnDecision {
    /// No tool calls: report `waiting` and stop until the user speaks.
    Wait,
    /// The Verifier emitted the verification tag: report `waiting` and stop.
    Verified,
    /// Dispatch the collected tool calls, in order.
    Dispatch,
}

/// The outcome of applying a persona transition.
pub enum SwitchOutcome {
    NoChange,
    /// Too many verification attempts: stop with an error.
    Aborted,
    /// The persona switched; the payload is the synthetic user message that
    /// re-anchors the model.
    Switched(String),
}

/// Does the assistant text contain the verification tag?
pub open spec fn contains_verified(t: Seq<char>) -> bool {
    find_idx(t, "<verified />"@) is Some
}

/// Does a command result report success?
pub open spec fn reports_success(out: Seq<char>) -> bool {
    find_idx(out, "(Exit Code: 0)"@) is Some
}

/// The persona transition one executed tool triggers, if any: a Coder that
/// writes a file hands off to the Verifier; a Verifier whose command run
/// does not report success hands back to the Coder.
pub open spec fn transition_of(role: AgentRole, tool: Seq<char>, output: Seq<char>) -> Option<
    AgentRole,
> {
    match role {
        AgentRole::Coder => if tool == "write_file"@ {
            Some(AgentRole::Verifier)
        } else {
            None
        },
        AgentRole::Verifier => if tool == "run_command"@ && !reports_success(output) {
            Some(AgentRole::Coder)
        } else {
            None
        },
    }
}

/// The transition a whole turn's executed tools trigger: the last
/// triggering tool wins.
pub open spec fn turn_transition_of(role: AgentRole, executed: Seq<(Seq<char>, Seq<char>)>) -> Option<
    AgentRole,
>
    decreases executed.len(),
{
    if executed.len() == 0 {
        None
    } else {
        match transition_of(role, executed.last().0, executed.last().1) {
            Some(r) => Some(r),
            None => turn_transition_of(role, executed.drop_last()),
        }
    }
}

/// The persona transition one executed tool triggers.
pub fn transition_for(role: &AgentRole, tool: &str, output: &str) -> (r: Option<AgentRole>)
    ensures
        r == transition_of(*role, tool@, output@),
{
    match role {
        AgentRole::Coder => {
            if crate::text::str_eq(tool, "write_file") {
                Some(AgentRole::Verifier)
            } else {
                None
            }
        },
        AgentRole::Verifier => {
            if crate::text::str_eq(tool, "run_command") {
                let ov = str_to_chars(output);
                let pat = str_to_chars("(Exit Code: 0)");
                match find_sub(&ov, &pat) {
                    Some(_) => None,
                    None => Some(AgentRole::Coder),
                }
            } else {
                None
            }
        },
    }
}

/// The transition a whole turn's executed tools trigger.
pub fn turn_transition(role: &AgentRole, executed: &Vec<(String, String)>) -> (r: Option<
    AgentRole,
>)
    ensures
        r == turn_transition_of(*role, crate::dispatch::args_view(executed@)),
{
    let ghost ev = crate::dispatch::args_view(executed@);
    let mut result: Option<AgentRole> = None;
    let mut i: usize = 0;
    proof {
        assert(ev.take(0) =~= Seq::<(Seq<char>, Seq<char>)>::empty());
    }
    while i < executed.len()
        invariant
            0 <= i <= executed@.len(),
            ev == crate::dispatch::args_view(executed@),
            ev.len() == executed@.len(),
            result == turn_transition_of(*role, ev.take(i as int)),
        decreases executed@.len() - i,
    {
        proof {
            let pair = executed@[i as int];
            assert(ev[i as int] == (pair.0@, pair.1@));
        }
        match transition_for(role, executed[i].0.as_str(), executed[i].1.as_str()) {
            Some(nr) => {
                result = Some(nr);
            },
            None => {},
        }
        proof {
            let pref = ev.take(i + 1);
            assert(pref.last() == ev[i as int]);
            assert(pref.drop_last() =~= ev.take(i as int));
        }
        i += 1;
    }
    proof {
        assert(ev.take(executed@.len() as int) =~= ev);
    }
    result
}

impl LoopState {
    /// A freshly spawned loop: running, in the Coder persona, with the
    /// budget of its mode.
    pub fn start(dual_persona: bool) -> (s: LoopState)
        ensures
            s.running,
            s.role == AgentRole::Coder,
            s.verification_attempts == 0,
            s.iterations == 0,
            s.max_iterations == if dual_persona {
                DUAL_MAX_ITERATIONS as int
            } else {
                SINGLE_MAX_ITERATIONS as int
            },
    {
        LoopState {
            running: true,
            role: AgentRole::Coder,
            verification_attempts: 0,
            iterations: 0,
            max_iterations: if dual_persona {
                DUAL_MAX_ITERATIONS
            } else {
                SINGLE_MAX_ITERATIONS
            },
        }
    }

    /// Check the running flag and the iteration budget before a turn.  A
    /// cleared flag exits at once, dispatching nothing; a spent budget
    /// clears the flag and stops.
    pub fn begin_iteration(&mut self) -> (r: IterationStart)
        ensures
            !old(self).running ==> r is Exit && *final(self) == *old(self),
            old(self).running && old(self).iterations >= old(self).max_iterations ==> r
                is BudgetExhausted && !final(self).running && final(self).iterations == old(
                self,
            ).iterations,
            old(self).running && old(self).iterations < old(self).max_iterations ==> r is Proceed
                && final(self).running && final(self).iterations == old(self).iterations + 1
                && final(self).role == old(self).role && final(self).verification_attempts == old(
                self,
            ).verification_attempts,
    {
        if !self.running {
            IterationStart::Exit
        } else if self.iterations >= self.max_iterations {
            self.running = false;
            IterationStart::BudgetExhausted
        } else {
            self.iterations = self.iterations + 1;
            IterationStart::Proceed
        }
    }

    /// Decide what to do with a collected turn: stop on the Verifier's
    /// verification tag, wait when no tool was called, dispatch otherwise.
    pub fn turn_decision(&mut self, assistant_text: &str, call_count: usize) -> (r: TurnDecision)
        ensures
            old(self).role == AgentRole::Verifier && contains_verified(assistant_text@) ==> r
                is Verified && !final(self).running,
            !(old(self).role == AgentRole::Verifier && contains_verified(assistant_text@))
                && call_count == 0 ==> r is Wait && !final(self).running,
            !(old(self).role == AgentRole::Verifier && contains_verified(assistant_text@))
                && call_count > 0 ==> r is Dispatch && *final(self) == *old(self),
            final(self).role == old(self).role && final(self).iterations == old(self).iterations
                && final(self).verification_attempts == old(self).verification_attempts
                && final(self).max_iterations == old(self).max_iterations,
    {
        let is_verifier = match self.role {
            AgentRole::Verifier => true,
            AgentRole::Coder => false,
        };
        if is_verifier {
            let tv = str_to_chars(assistant_text);
            let tag = str_to_chars("<verified />");
            if let Some(_) = find_sub(&tv, &tag) {
                self.running = false;
                return TurnDecision::Verified;
            }
        }
        if call_count == 0 {
            self.running = false;
            TurnDecision::Wait
        } else {
            TurnDecision::Dispatch
        }
    }

    /// Apply a persona transition after a turn's tools ran.  Entering the
    /// Verifier consumes one verification attempt; a spent attempt budget
    /// aborts the loop instead.
    pub fn apply_transition(&mut self, new_role: Option<AgentRole>) -> (r: SwitchOutcome)
        ensures
            match new_role {
                None => r is NoChange && *final(self) == *old(self),
                Some(nr) => {
                    let was = *old(self);
                    let now = *final(self);
                    if nr == was.role {
                        r is NoChange && now == was
                    } else if nr == AgentRole::Verifier && was.verification_attempts
                        >= MAX_VERIFICATION_ATTEMPTS {
                        &&& r is Aborted
                        &&& !now.running
                        &&& now.role == was.role
                    } else {
                        &&& r matches SwitchOutcome::Switched(m) && m@
                            == "\n[SYSTEM]: SWITCHING ROLE.\n"@ + prompt_of(nr)
                        &&& now.role == nr
                        &&& now.running == was.running
                        &&& now.verification_attempts == was.verification_attempts + (
                        if nr == AgentRole::Verifier {
                            1int
                        } else {
                            0int
                        })
                    }
                },
            },
    {
        match new_role {
            None => SwitchOutcome::NoChange,
            Some(nr) => {
                let same = match (nr, self.role) {
                    (AgentRole::Coder, AgentRole::Coder) => true,
                    (AgentRole::Verifier, AgentRole::Verifier) => true,
                    (_, _) => false,
                };
                if same {
                    return SwitchOutcome::NoChange;
                }
                let entering_verifier = match nr {
                    AgentRole::Verifier => true,
                    AgentRole::Coder => false,
                };
                if entering_verifier {
                    if self.verification_attempts >= MAX_VERIFICATION_ATTEMPTS {
                        self.running = false;
                        return SwitchOutcome::Aborted;
                    }
                    self.verification_attempts = self.verification_attempts + 1;
                }
                self.role = nr;
                SwitchOutcome::Switched(role_switch_message(&nr))
            },
        }
    }
}

/// The conversation history, replayed in insertion order.  Appending is the
/// only mutation, so every earlier replay is a prefix of every later one.
pub struct MessageLog {
    entries: Vec<Message>,
}

impl MessageLog {
    /// The history as (role, content) pairs, in insertion order.
    pub closed spec fn history(&self) -> Seq<(Seq<char>, Seq<char>)> {
        self.entries@.map_values(|m: Message| m@)
    }

    /// An empty history.
    pub fn new() -> (log: MessageLog)
        ensures
            log.history() == Seq::<(Seq<char>, Seq<char>)>::empty(),
    {
        let log = MessageLog { entries: Vec::new() };
        proof {
            assert(log.history() =~= Seq::<(Seq<char>, Seq<char>)>::empty());
        }
        log
    }

    /// Append one message.  Nothing else ever changes the history.
    pub fn append(&mut self, m: Message)
        ensures
            final(self).history() == old(self).history().push(m@),
    {
        let ghost old_entries = self.entries@;
        let ghost mv = m@;
        self.entries.push(m);
        proof {
            assert forall|j: int| 0 <= j < self.entries@.len() implies self.history()[j] == old(
                self,
            ).history().push(mv)[j] by {
                if j < old_entries.len() {
                    assert(self.entries@[j] == old_entries[j]);
                }
            }
            assert(self.history() =~= old(self).history().push(mv));
        }
    }

    /// The number of messages.
    pub fn len(&self) -> (r: usize)
        ensures
            r == self.history().len(),
    {
        self.entries.len()
    }

    /// Replay the history in insertion order.
    pub fn replay(&self) -> (r: Vec<Message>)
        ensures
            r@.map_values(|m: Message| m@) == self.history(),
    {
        let mut out: Vec<Message> = Vec::new();
        let mut i: usize = 0;
        while i < self.entries.len()
            invariant
                0 <= i <= self.entries@.len(),
                out@.len() == i,
                forall|j: int| 0 <= j < i ==> out@[j]@ == self.entries@[j]@,
            decreases self.entries@.len() - i,
        {
            let m = Message {
                role: self.entries[i].role.clone(),
                content: self.entries[i].content.clone(),
            };
            out.push(m);
            i += 1;
        }
        proof {
            assert(out@.map_values(|m: Message| m@) =~= self.history());
        }
        out
    }
}

/// Append-only history: whatever is appended later, the history replayed
/// earlier is a prefix of the history replayed afterwards, in the same
/// order.
pub proof fn theorem_history_append_only(
    before: Seq<(Seq<char>, Seq<char>)>,
    appended: Seq<(Seq<char>, Seq<char>)>,
)
    ensures
        (before + appended).len() >= before.len(),
        (before + appended).take(before.len() as int) == before,
{
    assert((before + appended).take(before.len() as int) =~= before);
}

/// Where the key is unbound, the upsert appends.
proof fn lemma_upsert_missing(args: Seq<(Seq<char>, Seq<char>)>, key: Seq<char>, value: Seq<char>)
    requires
        forall|j: int| 0 <= j < args.len() ==> args[j].0 != key,
    ensures
        upsert_of(args, key, value) == args + seq![(key, value)],
    decreases args.len(),
{
    if args.len() == 0 {
        assert(upsert_of(args, key, value) =~= args + seq![(key, value)]);
    } else {
        let t = args.drop_first();
        assert forall|j: int| 0 <= j < t.len() implies t[j].0 != key by {
            assert(t[j] == args[j + 1]);
        }
        lemma_upsert_missing(t, key, value);
        assert(seq![args[0]] + (t + seq![(key, value)]) =~= args + seq![(key, value)]);
    }
}

} // verus!
