//! Command executor.
//!
//! A command runs on a persistent interactive terminal, so its completion is
//! detected by a sentinel line that the shell prints afterwards (see
//! `shell`).  The executor is a state machine: the surrounding loop hands it
//! output chunks, read timeouts and channel closure, and it accumulates
//! output until the sentinel appears, then splits off the exit code and
//! renders the result.  The command-output subscriber slot is modelled by the
//! `subscribed` flag: it is held from `begin` until the step that produces an
//! outcome, and every outcome clears it.

use vstd::prelude::*;

use crate::numfmt::{dec_digits, dec_i32, dec_of, parse_i32_chars, parse_i32_of};
use crate::shell::sentinel_marker;
use crate::text::{
    chars_to_string, eq_at, extend_chars, find_idx, find_sub, matches_at, str_to_chars, subvec,
};

verus! {

/// Is `c` whitespace for the purposes of trimming command output?
pub open spec fn is_ws(c: char) -> bool {
    c == ' ' || c == '\t' || c == '\r' || c == '\n'
}

/// Length of the whitespace prefix of `s`.
pub open spec fn ws_prefix(s: Seq<char>) -> int
    decreases s.len(),
{
    if s.len() == 0 || !is_ws(s[0]) {
        0
    } else {
        1 + ws_prefix(s.drop_first())
    }
}

/// Length of the whitespace suffix of `s`.
pub open spec fn ws_suffix(s: Seq<char>) -> int
    decreases s.len(),
{
    if s.len() == 0 || !is_ws(s.last()) {
        0
    } else {
        1 + ws_suffix(s.drop_last())
    }
}

/// `s` with leading and trailing whitespace removed.
pub open spec fn trim_of(s: Seq<char>) -> Seq<char> {
    let a = ws_prefix(s);
    let z = s.len() - ws_suffix(s);
    if a < z {
        s.subrange(a, z)
    } else {
        Seq::<char>::empty()
    }
}

/// The whitespace prefix is whitespace, and ends at a non-whitespace
/// character or the end.
pub proof fn lemma_ws_prefix_props(s: Seq<char>)
    ensures
        0 <= ws_prefix(s) <= s.len(),
        forall|j: int| 0 <= j < ws_prefix(s) ==> is_ws(s[j]),
        ws_prefix(s) < s.len() ==> !is_ws(s[ws_prefix(s)]),
    decreases s.len(),
{
    if s.len() == 0 || !is_ws(s[0]) {
    } else {
        let t = s.drop_first();
        lemma_ws_prefix_props(t);
        assert forall|j: int| 0 <= j < ws_prefix(s) implies is_ws(s[j]) by {
            if j >= 1 {
                assert(is_ws(t[j - 1]));
                assert(t[j - 1] == s[j]);
            }
        }
        if ws_prefix(s) < s.len() {
            assert(s[ws_prefix(s)] == t[ws_prefix(t)]);
        }
    }
}

/// The whitespace suffix is whitespace, preceded by a non-whitespace
/// character or the start.
pub proof fn lemma_ws_suffix_props(s: Seq<char>)
    ensures
        0 <= ws_suffix(s) <= s.len(),
        forall|j: int| s.len() - ws_suffix(s) <= j < s.len() ==> is_ws(s[j]),
        ws_suffix(s) < s.len() ==> !is_ws(s[s.len() - ws_suffix(s) - 1]),
    decreases s.len(),
{
    if s.len() == 0 || !is_ws(s.last()) {
    } else {
        let t = s.drop_last();
        lemma_ws_suffix_props(t);
        assert(forall|j: int| 0 <= j < t.len() ==> t[j] == s[j]);
    }
}

/// Trim whitespace from both ends.
pub fn trim_chars(s: &Vec<char>) -> (r: Vec<char>)
    ensures
        r@ == trim_of(s@),
{
    proof {
        lemma_ws_prefix_props(s@);
        lemma_ws_suffix_props(s@);
    }
    let slen: usize = s.len();
    let mut a: usize = 0;
    while a < slen && (s[a] == ' ' || s[a] == '\t' || s[a] == '\r' || s[a] == '\n')
        invariant
            0 <= a <= slen,
            slen == s@.len(),
            forall|j: int| 0 <= j < a ==> is_ws(s@[j]),
        decreases slen - a,
    {
        a += 1;
    }
    proof {
        if a < ws_prefix(s@) {
            assert(is_ws(s@[a as int]));
        }
        if ws_prefix(s@) < a {
            assert(is_ws(s@[ws_prefix(s@)]));
        }
        assert(a == ws_prefix(s@));
    }
    let mut z: usize = slen;
    while z > a && (s[z - 1] == ' ' || s[z - 1] == '\t' || s[z - 1] == '\r' || s[z - 1]
        == '\n')
        invariant
            a <= z <= slen,
            slen == s@.len(),
            a == ws_prefix(s@),
            forall|j: int| z <= j < slen ==> is_ws(s@[j]),
        decreases z,
    {
        z -= 1;
    }
    proof {
        let zs = s@.len() - ws_suffix(s@);
        if z < a {
            assert(false);
        }
        if a < z {
            // The scan stopped at a non-whitespace character.
            assert(!is_ws(s@[z - 1]));
            if z < zs {
                assert(is_ws(s@[z as int]) || z == zs);
                if zs <= z {
                    assert(false);
                }
                assert(z < zs);
                assert(ws_suffix(s@) < s@.len());
                assert(!is_ws(s@[zs - 1]));
                assert(zs - 1 >= z);
                if zs - 1 > z - 1 {
                    assert(zs - 1 <= s@.len() - 1);
                }
                assert(is_ws(s@[zs - 1]) || zs - 1 == z - 1);
                assert(false);
            }
            if zs < z {
                assert(is_ws(s@[z - 1]));
                assert(false);
            }
            assert(z == zs);
            assert(trim_of(s@) == s@.subrange(a as int, z as int));
        } else {
            // Everything from `a` on is whitespace: the trim is empty.
            assert(z == a);
            if ws_prefix(s@) < zs {
                assert(!is_ws(s@[zs - 1]));
                if zs - 1 >= a {
                    assert(is_ws(s@[zs - 1]));
                }
                assert(zs - 1 < a);
                assert(is_ws(s@[ws_prefix(s@)]) || ws_prefix(s@) >= s@.len());
                if ws_prefix(s@) < s@.len() {
                    assert(ws_prefix(s@) <= zs - 1);
                }
                assert(false);
            }
            assert(trim_of(s@) =~= Seq::<char>::empty());
        }
    }
    subvec(s, a, z)
}

/// `s` with every copy of the sentinel marker removed from its front.
pub open spec fn strip_marker(s: Seq<char>) -> Seq<char>
    decreases s.len(),
{
    if sentinel_marker().len() > 0 && s.len() >= sentinel_marker().len() && s.take(
        sentinel_marker().len() as int,
    ) == sentinel_marker() {
        strip_marker(s.skip(sentinel_marker().len() as int))
    } else {
        s
    }
}

/// Remove every copy of the sentinel marker from the front of `s`.
pub fn strip_marker_chars(s: Vec<char>) -> (r: Vec<char>)
    ensures
        r@ == strip_marker(s@),
{
    let marker = str_to_chars("IRONGRAPH_CMD_DONE:");
    proof {
        assert(marker@ == sentinel_marker());
        reveal_strlit("IRONGRAPH_CMD_DONE:");
    }
    let mut cur = s;
    loop
        invariant
            marker@ == sentinel_marker(),
            marker@.len() > 0,
            strip_marker(s@) == strip_marker(cur@),
        decreases cur@.len(),
    {
        if cur.len() >= marker.len() && eq_at(&cur, 0, &marker) {
            proof {
                assert(cur@.take(marker@.len() as int) == cur@.subrange(
                    0,
                    marker@.len() as int,
                ));
            }
            let next = subvec(&cur, marker.len(), cur.len());
            proof {
                assert(next@ =~= cur@.skip(marker@.len() as int));
            }
            cur = next;
        } else {
            proof {
                if cur@.len() >= marker@.len() {
                    assert(cur@.take(marker@.len() as int) == cur@.subrange(
                        0,
                        marker@.len() as int,
                    ));
                }
                assert(strip_marker(cur@) == cur@);
            }
            return cur;
        }
    }
}

/// The exit code encoded after the sentinel in accumulated output `acc`:
/// the integer after the marker, or 1 when it does not parse.
pub open spec fn exit_code_of(acc: Seq<char>) -> int
    recommends
        find_idx(acc, sentinel_marker()) is Some,
{
    let i = find_idx(acc, sentinel_marker())->0;
    let code_str = trim_of(strip_marker(acc.skip(i)));
    match parse_i32_of(code_str) {
        Some(v) => v,
        None => 1,
    }
}

/// The text a completed command reports: the trimmed output before the
/// sentinel, then the exit-code line.
pub open spec fn completed_text(acc: Seq<char>) -> Seq<char>
    recommends
        find_idx(acc, sentinel_marker()) is Some,
{
    let i = find_idx(acc, sentinel_marker())->0;
    trim_of(acc.take(i)) + "\n(Exit Code: "@ + dec_of(exit_code_of(acc)) + ")"@
}

/// The note appended when the wall-clock budget runs out.
pub open spec fn timeout_note() -> Seq<char> {
    "\n[IronGraph: Timeout waiting for sentinel]"@
}

/// Decimal digits are digits, and at least one of them is rendered.
proof fn lemma_dec_digits_shape(n: int)
    ensures
        dec_digits(n).len() >= 1,
        crate::numfmt::all_digits(dec_digits(n)),
    decreases n,
{
    if n <= 0 {
    } else if n < 10 {
    } else {
        lemma_dec_digits_shape(n / 10);
        let d = dec_digits(n);
        assert forall|i: int| 0 <= i < d.len() implies crate::numfmt::is_digit(d[i]) by {
            if i < dec_digits(n / 10).len() {
                assert(d[i] == dec_digits(n / 10)[i]);
            } else {
                assert(d[i] == crate::numfmt::digit_chr(n % 10));
            }
        }
    }
}

/// Rendering a non-negative value and evaluating the digits round-trips.
proof fn lemma_dec_digits_val(n: int)
    requires
        n >= 0,
    ensures
        crate::numfmt::digits_val(dec_digits(n)) == n,
    decreases n,
{
    if n < 10 {
        let d = dec_digits(n);
        assert(d.len() == 1);
        assert(d.drop_last() =~= Seq::<char>::empty());
        assert(crate::numfmt::digits_val(Seq::<char>::empty()) == 0);
        assert(crate::numfmt::digit_val(d.last()) == n);
    } else {
        lemma_dec_digits_val(n / 10);
        let d = dec_digits(n);
        assert(d.drop_last() =~= dec_digits(n / 10));
        assert(d.last() == crate::numfmt::digit_chr(n % 10));
        assert(crate::numfmt::digit_val(d.last()) == n % 10);
    }
}

/// Parsing a rendered `i32` gives the value back.
proof fn lemma_parse_dec_roundtrip(n: i32)
    ensures
        parse_i32_of(dec_of(n as int)) == Some(n as int),
{
    if n as int >= 0 {
        let s = dec_of(n as int);
        lemma_dec_digits_shape(n as int);
        lemma_dec_digits_val(n as int);
        assert(crate::numfmt::is_digit(s[0]));
    } else {
        let m = -(n as int);
        let s = dec_of(n as int);
        lemma_dec_digits_shape(m);
        lemma_dec_digits_val(m);
        assert(s.skip(1) =~= dec_digits(m));
        assert(crate::numfmt::all_digits(s.skip(1)));
    }
}

/// The rendered output of a completed command, as the executor accumulates
/// it: the command's own output, then the sentinel line the shell printed.
pub open spec fn sentinel_report(pre: Seq<char>, n: i32) -> Seq<char> {
    pre + sentinel_marker() + dec_of(n as int) + "\n"@
}

/// Sentinel completeness: when a command's own output is free of the
/// sentinel and the shell then prints the sentinel line with exit status
/// `n`, the executor completes with exactly that code, and its result is the
/// trimmed output followed by the exit-code line.
pub proof fn theorem_sentinel_completeness(pre: Seq<char>, n: i32)
    requires
        forall|j: int|
            0 <= j < pre.len() ==> !matches_at(sentinel_report(pre, n), j, sentinel_marker()),
    ensures
        find_idx(sentinel_report(pre, n), sentinel_marker()) == Some(pre.len() as int),
        exit_code_of(sentinel_report(pre, n)) == n as int,
        completed_text(sentinel_report(pre, n)) == trim_of(pre) + "\n(Exit Code: "@ + dec_of(
            n as int,
        ) + ")"@,
{
    reveal_strlit("IRONGRAPH_CMD_DONE:");
    reveal_strlit("\n");
    let acc = sentinel_report(pre, n);
    let m = sentinel_marker();
    let tail = dec_of(n as int) + "\n"@;
    lemma_dec_digits_shape(if n as int >= 0 {
        n as int
    } else {
        -(n as int)
    });
    assert(acc.subrange(pre.len() as int, pre.len() + m.len() as int) =~= m);
    assert(matches_at(acc, pre.len() as int, m));
    crate::text::lemma_find_idx_is_first(acc, m, pre.len() as int);
    // After the marker: the digits and the newline, with the marker stripped
    // exactly once.
    assert(acc.skip(pre.len() as int) =~= m + tail);
    assert((m + tail).take(m.len() as int) =~= m);
    assert((m + tail).skip(m.len() as int) =~= tail);
    assert(strip_marker(m + tail) == strip_marker(tail));
    if tail.len() >= m.len() && tail.take(m.len() as int) == m {
        assert(tail.take(m.len() as int)[0] == tail[0]);
        if n as int >= 0 {
            assert(crate::numfmt::is_digit(dec_of(n as int)[0]));
            assert(tail[0] == dec_of(n as int)[0]);
        } else {
            assert(tail[0] == '-');
        }
        assert(m[0] == 'I');
        assert(false);
    }
    assert(strip_marker(tail) == tail);
    // Trimming the sentinel line leaves exactly the rendered code.
    let d = dec_of(n as int);
    assert(tail.len() == d.len() + 1);
    assert(tail[0] == d[0]);
    if n as int >= 0 {
        assert(crate::numfmt::is_digit(d[0]));
    } else {
        assert(d[0] == '-');
    }
    assert(!is_ws(tail[0]));
    assert(ws_prefix(tail) == 0);
    assert(tail.last() == '\n');
    assert(is_ws(tail.last()));
    let body = tail.drop_last();
    assert(body =~= d);
    assert(ws_suffix(tail) == 1 + ws_suffix(d));
    if n as int >= 0 {
        assert(crate::numfmt::is_digit(d.last()));
    } else {
        assert(d.last() == dec_digits(-(n as int)).last());
        assert(crate::numfmt::is_digit(d.last()));
    }
    assert(!is_ws(d.last()));
    assert(ws_suffix(d) == 0);
    assert(trim_of(tail) =~= d);
    lemma_parse_dec_roundtrip(n);
    assert(exit_code_of(acc) == n as int);
    assert(acc.take(pre.len() as int) =~= pre);
}

/// The tool output when no terminal session is active.  This is ordinary
/// output, not a failure: the model reads it and reacts.
pub fn no_terminal_message() -> (r: String)
    ensures
        r@ == "Error: No terminal session active."@,
{
    chars_to_string(&str_to_chars("Error: No terminal session active."))
}

/// The tool output when writing to the terminal failed.
pub fn pty_write_error_message(detail: &str) -> (r: String)
    ensures
        r@ == "Error writing to PTY: "@ + detail@,
{
    let mut out = str_to_chars("Error writing to PTY: ");
    let dv = str_to_chars(detail);
    extend_chars(&mut out, &dv);
    chars_to_string(&out)
}

/// What POSIX shell word-splitting makes of a string, if anything.
pub uninterp spec fn shell_split(s: Seq<char>) -> Option<Seq<Seq<char>>>;

/// Relies on `shlex::split`: POSIX shell word-splitting, a function of the
/// string alone; `None` exactly on erroneous input (an unclosed quote or a
/// trailing backslash), and an empty input splits into no words.
#[verifier::external_body]
fn shlex_split(s: &str) -> (r: Option<Vec<String>>)
    ensures
        match r {
            Some(v) => shell_split(s@) == Some(v.deep_view()) && (s@.len() == 0 ==> v@.len()
                == 0),
            None => shell_split(s@) is None && s@.len() > 0,
        },
{
    shlex::split(s)
}

/// Words joined by single spaces.
pub open spec fn joined_words(ws: Seq<Seq<char>>) -> Seq<char>
    decreases ws.len(),
{
    if ws.len() == 0 {
        Seq::<char>::empty()
    } else if ws.len() == 1 {
        ws[0]
    } else {
        joined_words(ws.drop_last()) + seq![' '] + ws.last()
    }
}

/// Join words with single spaces.
fn join_words(ws: &Vec<String>) -> (r: Vec<char>)
    ensures
        r@ == joined_words(ws.deep_view()),
{
    let mut r: Vec<char> = Vec::new();
    let mut i: usize = 0;
    proof {
        assert(r@ =~= joined_words(ws.deep_view().take(0)));
    }
    while i < ws.len()
        invariant
            0 <= i <= ws@.len(),
            ws.deep_view().len() == ws@.len(),
            r@ == joined_words(ws.deep_view().take(i as int)),
        decreases ws@.len() - i,
    {
        let ghost pref = ws.deep_view().take(i as int);
        if i > 0 {
            r.push(' ');
        }
        let word = str_to_chars(ws[i].as_str());
        proof {
            assert(word@ == ws.deep_view()[i as int]);
        }
        extend_chars(&mut r, &word);
        proof {
            let pref2 = ws.deep_view().take(i + 1);
            assert(pref2.drop_last() =~= pref);
            assert(pref2.last() == ws.deep_view()[i as int]);
            if i == 0 {
                assert(r@ =~= joined_words(pref2));
            } else {
                assert(r@ =~= joined_words(pref) + seq![' '] + word@);
                assert(joined_words(pref2) == joined_words(pref) + seq![' '] + word@);
            }
        }
        i += 1;
    }
    proof {
        assert(ws.deep_view().take(ws@.len() as int) =~= ws.deep_view());
    }
    r
}

/// The command line sent to the shell: the program, followed by the
/// shell-lexed words of the argument string re-joined with spaces.  An
/// argument string that does not lex, or lexes to nothing, leaves the
/// program alone.
pub open spec fn command_line_of(program: Seq<char>, args: Seq<char>) -> Seq<char> {
    match shell_split(args) {
        Some(ws) => if ws.len() == 0 {
            program
        } else {
            program + seq![' '] + joined_words(ws)
        },
        None => program,
    }
}

/// Build the command line for a program and a free-form argument string.
pub fn build_command_line(program: &str, args: &str) -> (r: String)
    ensures
        r@ == command_line_of(program@, args@),
{
    let mut line = str_to_chars(program);
    match shlex_split(args) {
        Some(words) => {
            if words.len() > 0 {
                line.push(' ');
                let rest = join_words(&words);
                extend_chars(&mut line, &rest);
                proof {
                    assert(line@ =~= program@ + seq![' '] + joined_words(words.deep_view()));
                }
            } else {
                proof {
                    assert(words.deep_view().len() == 0);
                }
            }
        },
        None => {},
    }
    chars_to_string(&line)
}

/// What the surrounding loop observed while waiting for output.
pub enum ExecEvent {
    /// A chunk of terminal output arrived.
    Chunk(String),
    /// No chunk arrived within the per-read timeout; `budget_exhausted` says
    /// whether the wall-clock budget has also run out.
    ReadTimeout { budget_exhausted: bool },
    /// The output channel closed.
    Closed,
}

/// How a finished command execution ended.
pub enum ExecOutcome {
    /// The sentinel was observed: the rendered text, the raw output that
    /// preceded the sentinel, and the exit code.
    Completed { text: String, raw: String, exit_code: i32 },
    /// The wall-clock budget ran out before the sentinel appeared.
    TimedOut { text: String },
    /// The output channel closed before the sentinel appeared.
    Closed { text: String },
}

/// The executor's answer to one event.
pub enum ExecStep {
    Continue,
    Done(ExecOutcome),
}

/// The sentinel-watching accumulator for one command on the terminal.
pub struct CommandExec {
    output: Vec<char>,
    subscribed: bool,
}

impl CommandExec {
    /// The output accumulated so far.
    pub closed spec fn acc(&self) -> Seq<char> {
        self.output@
    }

    /// Whether the command-output subscriber slot is held.
    pub closed spec fn subscribed(&self) -> bool {
        self.subscribed
    }

    /// Begin watching a command: installs the single subscriber, with
    /// nothing accumulated.
    pub fn begin() -> (e: CommandExec)
        ensures
            e.acc() == Seq::<char>::empty(),
            e.subscribed(),
    {
        let e = CommandExec { output: Vec::new(), subscribed: true };
        proof {
            assert(e.acc() =~= Seq::<char>::empty());
        }
        e
    }

    /// Consume one event.  The subscriber slot stays held exactly while the
    /// command is still running: every outcome releases it.
    pub fn step(&mut self, ev: ExecEvent) -> (r: ExecStep)
        requires
            old(self).subscribed(),
        ensures
            final(self).subscribed() == (r is Continue),
            match ev {
                ExecEvent::Chunk(s) => {
                    let acc2 = old(self).acc() + s@;
                    match find_idx(acc2, sentinel_marker()) {
                        Some(i) => r matches ExecStep::Done(
                            ExecOutcome::Completed { text, raw, exit_code },
                        ) && text@ == completed_text(acc2) && raw@ == acc2.take(i)
                            && exit_code as int == exit_code_of(acc2),
                        None => r is Continue && final(self).acc() == acc2,
                    }
                },
                ExecEvent::ReadTimeout { budget_exhausted } => {
                    if budget_exhausted {
                        r matches ExecStep::Done(ExecOutcome::TimedOut { text }) && text@
                            == old(self).acc() + timeout_note()
                    } else {
                        r is Continue && final(self).acc() == old(self).acc()
                    }
                },
                ExecEvent::Closed => r matches ExecStep::Done(ExecOutcome::Closed { text })
                    && text@ == old(self).acc(),
            },
    {
        match ev {
            ExecEvent::Chunk(s) => {
                let chunk = str_to_chars(s.as_str());
                extend_chars(&mut self.output, &chunk);
                let marker = str_to_chars("IRONGRAPH_CMD_DONE:");
                proof {
                    assert(marker@ == sentinel_marker());
                }
                match find_sub(&self.output, &marker) {
                    Some(i) => {
                        proof {
                            crate::text::lemma_find_idx_props(self.output@, marker@);
                            assert(matches_at(self.output@, i as int, marker@));
                        }
                        let raw = subvec(&self.output, 0, i);
                        let rest = subvec(&self.output, i, self.output.len());
                        proof {
                            assert(rest@ =~= self.output@.skip(i as int));
                        }
                        let code_chars = trim_chars(&strip_marker_chars(rest));
                        let exit_code = match parse_i32_chars(&code_chars) {
                            Some(v) => v,
                            None => 1,
                        };
                        let mut text = trim_chars(&raw);
                        let mid = str_to_chars("\n(Exit Code: ");
                        extend_chars(&mut text, &mid);
                        let digits = dec_i32(exit_code);
                        extend_chars(&mut text, &digits);
                        let close = str_to_chars(")");
                        extend_chars(&mut text, &close);
                        proof {
                            assert(raw@ == self.output@.take(i as int));
                            assert(text@ == completed_text(self.output@));
                        }
                        self.subscribed = false;
                        ExecStep::Done(
                            ExecOutcome::Completed {
                                text: chars_to_string(&text),
                                raw: chars_to_string(&raw),
                                exit_code,
                            },
                        )
                    },
                    None => ExecStep::Continue,
                }
            },
            ExecEvent::ReadTimeout { budget_exhausted } => {
                if budget_exhausted {
                    let mut text = subvec(&self.output, 0, self.output.len());
                    proof {
                        assert(text@ =~= self.output@);
                    }
                    let note = str_to_chars("\n[IronGraph: Timeout waiting for sentinel]");
                    extend_chars(&mut text, &note);
                    self.subscribed = false;
                    ExecStep::Done(ExecOutcome::TimedOut { text: chars_to_string(&text) })
                } else {
                    ExecStep::Continue
                }
            },
            ExecEvent::Closed => {
                let text = chars_to_string(&self.output);
                self.subscribed = false;
                ExecStep::Done(ExecOutcome::Closed { text })
            },
        }
    }
}

} // verus!
