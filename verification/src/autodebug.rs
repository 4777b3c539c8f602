//! Failure-context enrichment for failed commands.
//!
//! When a command exits non-zero, its output is scanned for a source
//! location — Rust diagnostics first, then TypeScript compiler errors, then
//! a generic `file:line:column` shape whose path must contain a dot.  For a
//! found location the referenced file's content yields a window of five
//! lines around the error line, marked at the error line, which the agent
//! loop appends to the tool output.

use vstd::prelude::*;

use crate::numfmt::{dec_of, dec_u64, parse_usize_chars, parse_usize_of};
use crate::text::{
    chars_to_string, extend_chars, find_char, find_ch, joined_sep, str_to_chars, subvec,
};

verus! {

/// What `regex::Regex::captures` finds for a pattern in a text.
pub uninterp spec fn regex_captures(pat: Seq<char>, text: Seq<char>) -> Option<
    Seq<Option<Seq<char>>>,
>;

/// Relies on `regex::Regex::new` and `Regex::captures`: the leftmost-first
/// match of the pattern in the text, a function of pattern and text alone;
/// `None` for an invalid pattern or no match, otherwise one entry per
/// capture group, absent for groups that did not participate.
#[verifier::external_body]
fn regex_captures_exec(pat: &str, text: &str) -> (r: Option<Vec<Option<String>>>)
    ensures
        match r {
            Some(v) => regex_captures(pat@, text@) == Some(v.deep_view()),
            None => regex_captures(pat@, text@) is None,
        },
{
    match regex::Regex::new(pat) {
        Ok(re) => re.captures(text).map(
            |caps| caps.iter().map(|m| m.map(|g| g.as_str().to_string())).collect(),
        ),
        Err(_) => None,
    }
}

/// The Rust diagnostic location shape: `--> file:line:column`.
pub open spec fn rust_pattern() -> Seq<char> {
    "-->\\s+(.+):(\\d+):(\\d+)"@
}

/// The TypeScript compiler location shape: `file(line,column): error`.
pub open spec fn ts_pattern() -> Seq<char> {
    "([\\w./-]+)\\((\\d+),\\d+\\):\\s+error"@
}

/// The generic location shape: `file:line:column` at a word boundary.
pub open spec fn generic_pattern() -> Seq<char> {
    "(?m)(?:^|\\s)([\\w./-]+):(\\d+):(\\d+)"@
}

/// The file and line captured by a location pattern, when both groups
/// participated.
pub open spec fn location_from(caps: Option<Seq<Option<Seq<char>>>>) -> Option<
    (Seq<char>, Seq<char>),
> {
    match caps {
        Some(g) => if g.len() >= 3 && g[1] is Some && g[2] is Some {
            Some((g[1]->0, g[2]->0))
        } else {
            None
        },
        None => None,
    }
}

/// The line number a captured digit group denotes, zero when it does not
/// parse.
pub open spec fn line_number_of(l: Seq<char>) -> int {
    match parse_usize_of(l) {
        Some(v) => v,
        None => 0,
    }
}

/// The source location referenced by failed-command output: the Rust shape
/// first, then the TypeScript shape, then the generic shape for paths that
/// contain a dot.
pub open spec fn error_location_of(out: Seq<char>) -> Option<(Seq<char>, int)> {
    match location_from(regex_captures(rust_pattern(), out)) {
        Some(fl) => Some((fl.0, line_number_of(fl.1))),
        None => match location_from(regex_captures(ts_pattern(), out)) {
            Some(fl) => Some((fl.0, line_number_of(fl.1))),
            None => match location_from(regex_captures(generic_pattern(), out)) {
                Some(fl) => if find_char(fl.0, '.') is Some {
                    Some((fl.0, line_number_of(fl.1)))
                } else {
                    None
                },
                None => None,
            },
        },
    }
}

/// The file and line of one capture result, as owned values.
fn location_from_exec(r: Option<Vec<Option<String>>>) -> (loc: Option<(String, String)>)
    ensures
        match loc {
            Some(fl) => location_from(match r {
                Some(ref v) => Some(v.deep_view()),
                None => None,
            }) == Some((fl.0@, fl.1@)),
            None => location_from(match r {
                Some(ref v) => Some(v.deep_view()),
                None => None,
            }) is None,
        },
{
    match r {
        Some(v) => {
            if v.len() >= 3 {
                proof {
                    assert(v.deep_view()[1] == v@[1].deep_view());
                    assert(v.deep_view()[2] == v@[2].deep_view());
                }
                let f = v[1].clone();
                let l = v[2].clone();
                match (f, l) {
                    (Some(fv), Some(lv)) => Some((fv, lv)),
                    (_, _) => None,
                }
            } else {
                None
            }
        },
        None => None,
    }
}

/// Parse a captured line-number group, zero when it does not parse.
fn line_number_exec(l: &str) -> (n: usize)
    ensures
        n as int == line_number_of(l@),
{
    let lv = str_to_chars(l);
    match parse_usize_chars(&lv) {
        Some(v) => v,
        None => 0,
    }
}

/// Scan failed-command output for a source location.
pub fn error_location(out: &str) -> (r: Option<(String, usize)>)
    ensures
        match r {
            Some(fl) => error_location_of(out@) == Some((fl.0@, fl.1 as int)),
            None => error_location_of(out@) is None,
        },
{
    let rust = regex_captures_exec("-->\\s+(.+):(\\d+):(\\d+)", out);
    match location_from_exec(rust) {
        Some((f, l)) => {
            let n = line_number_exec(l.as_str());
            Some((f, n))
        },
        None => {
            let ts = regex_captures_exec("([\\w./-]+)\\((\\d+),\\d+\\):\\s+error", out);
            match location_from_exec(ts) {
                Some((f, l)) => {
                    let n = line_number_exec(l.as_str());
                    Some((f, n))
                },
                None => {
                    let gen = regex_captures_exec(
                        "(?m)(?:^|\\s)([\\w./-]+):(\\d+):(\\d+)",
                        out,
                    );
                    match location_from_exec(gen) {
                        Some((f, l)) => {
                            let fv = str_to_chars(f.as_str());
                            match find_ch(&fv, '.') {
                                Some(_) => {
                                    let n = line_number_exec(l.as_str());
                                    Some((f, n))
                                },
                                None => None,
                            }
                        },
                        None => None,
                    }
                },
            }
        },
    }
}

/// A line with a lone trailing carriage return removed.
pub open spec fn strip_cr(l: Seq<char>) -> Seq<char> {
    if l.len() > 0 && l.last() == '\r' {
        l.drop_last()
    } else {
        l
    }
}

/// The lines of a text, as `str::lines` cuts them: split at `\n`, one
/// trailing `\r` removed per line, no final empty line.
pub open spec fn lines_of(s: Seq<char>) -> Seq<Seq<char>>
    decreases s.len(),
{
    if s.len() == 0 {
        Seq::<Seq<char>>::empty()
    } else {
        match find_char(s, '\n') {
            Some(i) => if 0 <= i < s.len() {
                seq![strip_cr(s.take(i))] + lines_of(s.skip(i + 1))
            } else {
                seq![strip_cr(s)]
            },
            None => seq![strip_cr(s)],
        }
    }
}

/// Remove a lone trailing carriage return.
fn strip_cr_chars(l: Vec<char>) -> (r: Vec<char>)
    ensures
        r@ == strip_cr(l@),
{
    let llen: usize = l.len();
    if llen > 0 && l[llen - 1] == '\r' {
        let r = subvec(&l, 0, llen - 1);
        proof {
            assert(r@ =~= l@.drop_last());
        }
        r
    } else {
        l
    }
}

/// Split a text into lines.
pub fn split_lines(content: &str) -> (r: Vec<String>)
    ensures
        r.deep_view() == lines_of(content@),
{
    let mut out: Vec<String> = Vec::new();
    let mut cur = str_to_chars(content);
    proof {
        assert(out.deep_view() =~= Seq::<Seq<char>>::empty());
        assert(out.deep_view() + lines_of(cur@) =~= lines_of(content@));
    }
    loop
        invariant
            lines_of(content@) == out.deep_view() + lines_of(cur@),
        decreases cur@.len(),
    {
        let ghost old_out = out.deep_view();
        let clen: usize = cur.len();
        if clen == 0 {
            proof {
                assert(lines_of(cur@) =~= Seq::<Seq<char>>::empty());
                assert(out.deep_view() + lines_of(cur@) =~= out.deep_view());
            }
            return out;
        }
        match find_ch(&cur, '\n') {
            Some(i) => {
                proof {
                    crate::text::lemma_find_idx_props(cur@, seq!['\n']);
                    assert(crate::text::matches_at(cur@, i as int, seq!['\n']));
                }
                let head = subvec(&cur, 0, i);
                let line = strip_cr_chars(head);
                out.push(chars_to_string(&line));
                let rest = subvec(&cur, i + 1, clen);
                proof {
                    assert(rest@ =~= cur@.skip(i + 1));
                }
                let ghost prev = cur@;
                cur = rest;
                proof {
                    assert forall|j: int| 0 <= j < out.deep_view().len() implies out.deep_view()[j]
                        == (old_out + seq![strip_cr(prev.take(i as int))])[j] by {
                        assert(out.deep_view()[j] == out@[j]@);
                    }
                    assert(out.deep_view() =~= old_out + seq![strip_cr(prev.take(i as int))]);
                    assert(lines_of(prev) == seq![strip_cr(prev.take(i as int))] + lines_of(
                        cur@,
                    ));
                    assert(old_out + (seq![strip_cr(prev.take(i as int))] + lines_of(cur@))
                        =~= (old_out + seq![strip_cr(prev.take(i as int))]) + lines_of(cur@));
                }
            },
            None => {
                let ghost prev = cur@;
                let line = strip_cr_chars(cur);
                out.push(chars_to_string(&line));
                proof {
                    assert(lines_of(prev) =~= seq![strip_cr(prev)]);
                    assert forall|j: int| 0 <= j < out.deep_view().len() implies out.deep_view()[j]
                        == (old_out + seq![line@])[j] by {
                        assert(out.deep_view()[j] == out@[j]@);
                    }
                    assert(out.deep_view() =~= old_out + seq![line@]);
                    assert(old_out + seq![strip_cr(prev)] =~= out.deep_view());
                }
                return out;
            },
        }
    }
}

/// One rendered line of the error window, marked when it is the error line.
pub open spec fn snippet_line(text: Seq<char>, num: int, target: int) -> Seq<char> {
    (if num == target {
        ">> "@
    } else {
        "   "@
    }) + dec_of(num) + "| "@ + text
}

/// The rendered window of lines `start..end` (zero-based), numbered from
/// one, marked at `target`.
pub open spec fn snippet_body(ls: Seq<Seq<char>>, start: int, end: int, target: int) -> Seq<
    char,
> {
    joined_sep(
        Seq::new((end - start) as nat, |k: int| snippet_line(ls[start + k], start + k + 1, target)),
        "\n"@,
    )
}

/// The auto-debug context for a located error: the file and line, then five
/// lines of context on each side with the error line marked.  `None` when
/// the line number falls outside the file.
pub open spec fn debug_context_of(file: Seq<char>, line: int, content: Seq<char>) -> Option<
    Seq<char>,
> {
    let ls = lines_of(content);
    if 1 <= line <= ls.len() {
        let start = if line > 5 {
            line - 5
        } else {
            0
        };
        let end = if line + 5 < ls.len() {
            line + 5
        } else {
            ls.len() as int
        };
        Some(
            "File: "@ + file + ":"@ + dec_of(line) + ":\n"@ + snippet_body(ls, start, end, line),
        )
    } else {
        None
    }
}

/// Render the auto-debug context for a located error.
pub fn debug_context(file: &str, line: usize, content: &str) -> (r: Option<String>)
    ensures
        match r {
            Some(s) => debug_context_of(file@, line as int, content@) == Some(s@),
            None => debug_context_of(file@, line as int, content@) is None,
        },
{
    let lines = split_lines(content);
    let nlines: usize = lines.len();
    proof {
        assert(lines.deep_view().len() == nlines);
    }
    if line < 1 || line > nlines {
        return None;
    }
    let start: usize = if line > 5 {
        line - 5
    } else {
        0
    };
    let end: usize = if nlines - line > 5 {
        line + 5
    } else {
        nlines
    };
    let ghost ls = lines.deep_view();
    let ghost rendered = Seq::new(
        (end - start) as nat,
        |k: int| snippet_line(ls[start + k], start + k + 1, line as int),
    );
    let mut parts: Vec<String> = Vec::new();
    let mut k: usize = 0;
    while k < end - start
        invariant
            0 <= k <= end - start,
            0 <= start <= end <= nlines,
            line as int <= nlines,
            nlines == ls.len(),
            ls == lines.deep_view(),
            rendered == Seq::new(
                (end - start) as nat,
                |x: int| snippet_line(ls[start + x], start + x + 1, line as int),
            ),
            parts@.len() == k,
            forall|j: int| 0 <= j < k ==> parts@[j]@ == rendered[j],
        decreases end - start - k,
    {
        let num: usize = start + k + 1;
        let mut piece: Vec<char> = if num == line {
            str_to_chars(">> ")
        } else {
            str_to_chars("   ")
        };
        let digits = dec_u64(num as u64);
        extend_chars(&mut piece, &digits);
        let sepc = str_to_chars("| ");
        extend_chars(&mut piece, &sepc);
        let text = str_to_chars(lines[start + k].as_str());
        proof {
            assert(text@ == ls[start + k]);
        }
        extend_chars(&mut piece, &text);
        proof {
            assert(piece@ == snippet_line(ls[start + k], start + k + 1, line as int));
            assert(rendered[k as int] == snippet_line(ls[start + k], start + k + 1, line as int));
        }
        parts.push(chars_to_string(&piece));
        k += 1;
    }
    proof {
        assert forall|j: int| 0 <= j < rendered.len() implies parts.deep_view()[j] == rendered[j] by {
            assert(parts.deep_view()[j] == parts@[j]@);
        }
        assert(parts.deep_view() =~= rendered);
    }
    let body = crate::text::join_strings(&parts, "\n");
    let mut out = str_to_chars("File: ");
    let fv = str_to_chars(file);
    extend_chars(&mut out, &fv);
    let colon = str_to_chars(":");
    extend_chars(&mut out, &colon);
    let ln = dec_u64(line as u64);
    extend_chars(&mut out, &ln);
    let headend = str_to_chars(":\n");
    extend_chars(&mut out, &headend);
    extend_chars(&mut out, &body);
    proof {
        assert(out@ =~= "File: "@ + file@ + ":"@ + dec_of(line as int) + ":\n"@ + snippet_body(
            ls,
            start as int,
            end as int,
            line as int,
        ));
    }
    Some(chars_to_string(&out))
}

/// A tool result with the auto-debug context appended.
pub fn with_debug_context(text: &str, ctx: &str) -> (r: String)
    ensures
        r@ == text@ + "\n\n[Auto-Debug] Context:\n"@ + ctx@,
{
    let mut out = str_to_chars(text);
    let head = str_to_chars("\n\n[Auto-Debug] Context:\n");
    extend_chars(&mut out, &head);
    let cv = str_to_chars(ctx);
    extend_chars(&mut out, &cv);
    chars_to_string(&out)
}

} // verus!
