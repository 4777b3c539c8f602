//! Tool dispatcher.
//!
//! A finished tool call selects one effector operation from a fixed
//! catalogue.  `plan` makes that decision — which operation, with which
//! arguments, or why none — and the render functions produce the textual
//! results the conversation sees: the file listing, the capped search
//! report, the unknown-tool message, and the consumer hint appended after a
//! successful write.

use vstd::multiset::Multiset;
use vstd::prelude::*;

use crate::numfmt::{dec_of, dec_u64};
use crate::protocol::{FileEntry, ToolCall};
use crate::text::{
    chars_eq, chars_to_string, extend_chars, find_char, find_ch, joined_sep, join_strings,
    str_eq, str_to_chars, subvec,
};

verus! {

/// The spec-level image of a tool call's arguments.
pub open spec fn args_view(args: Seq<(String, String)>) -> Seq<(Seq<char>, Seq<char>)> {
    args.map_values(|p: (String, String)| (p.0@, p.1@))
}

/// The value of the first argument named `key`.
pub open spec fn lookup_of(args: Seq<(Seq<char>, Seq<char>)>, key: Seq<char>) -> Option<
    Seq<char>,
>
    decreases args.len(),
{
    if args.len() == 0 {
        None
    } else if args[0].0 == key {
        Some(args[0].1)
    } else {
        lookup_of(args.drop_first(), key)
    }
}

/// Look an argument up by name.
pub fn arg_value(call: &ToolCall, key: &str) -> (r: Option<String>)
    ensures
        match r {
            Some(v) => lookup_of(args_view(call.arguments@), key@) == Some(v@),
            None => lookup_of(args_view(call.arguments@), key@) is None,
        },
{
    let kv = str_to_chars(key);
    let mut i: usize = 0;
    proof {
        assert(args_view(call.arguments@).skip(0) =~= args_view(call.arguments@));
    }
    while i < call.arguments.len()
        invariant
            0 <= i <= call.arguments@.len(),
            kv@ == key@,
            args_view(call.arguments@).len() == call.arguments@.len(),
            lookup_of(args_view(call.arguments@), key@) == lookup_of(
                args_view(call.arguments@).skip(i as int),
                key@,
            ),
        decreases call.arguments@.len() - i,
    {
        let ghost av = args_view(call.arguments@);
        proof {
            assert(av.skip(i as int)[0] == av[i as int]);
            let pair = call.arguments@[i as int];
            assert(av[i as int] == (pair.0@, pair.1@));
        }
        let nv = str_to_chars(call.arguments[i].0.as_str());
        if chars_eq(&nv, &kv) {
            return Some(call.arguments[i].1.clone());
        }
        proof {
            assert(av.skip(i as int).drop_first() =~= av.skip(i + 1));
        }
        i += 1;
    }
    proof {
        assert(args_view(call.arguments@).skip(call.arguments@.len() as int)
            =~= Seq::<(Seq<char>, Seq<char>)>::empty());
    }
    None
}

/// The effector operation a tool call maps to, with its arguments.
#[derive(Debug, Clone, PartialEq)]
pub enum ToolAction {
    RunCommand { program: String, args: String },
    ListFiles { dir_path: Option<String> },
    ReadFile { file_path: String },
    WriteFile { file_path: String, content: String },
    ReadSkeleton { file_path: String },
    SearchCode { query: String },
    /// A known tool whose required argument is absent.
    Invalid { name: String, missing: String },
    /// A name outside the catalogue.
    Unknown { name: String },
}

/// The spec-level image of a `ToolAction`.
pub enum ActionModel {
    RunCommand { program: Seq<char>, args: Seq<char> },
    ListFiles { dir_path: Option<Seq<char>> },
    ReadFile { file_path: Seq<char> },
    WriteFile { file_path: Seq<char>, content: Seq<char> },
    ReadSkeleton { file_path: Seq<char> },
    SearchCode { query: Seq<char> },
    Invalid { name: Seq<char>, missing: Seq<char> },
    Unknown { name: Seq<char> },
}

impl View for ToolAction {
    type V = ActionModel;

    open spec fn view(&self) -> ActionModel {
        match self {
            ToolAction::RunCommand { program, args } => ActionModel::RunCommand {
                program: program@,
                args: args@,
            },
            ToolAction::ListFiles { dir_path } => ActionModel::ListFiles {
                dir_path: match dir_path {
                    Some(d) => Some(d@),
                    None => None,
                },
            },
            ToolAction::ReadFile { file_path } => ActionModel::ReadFile { file_path: file_path@ },
            ToolAction::WriteFile { file_path, content } => ActionModel::WriteFile {
                file_path: file_path@,
                content: content@,
            },
            ToolAction::ReadSkeleton { file_path } => ActionModel::ReadSkeleton {
                file_path: file_path@,
            },
            ToolAction::SearchCode { query } => ActionModel::SearchCode { query: query@ },
            ToolAction::Invalid { name, missing } => ActionModel::Invalid {
                name: name@,
                missing: missing@,
            },
            ToolAction::Unknown { name } => ActionModel::Unknown { name: name@ },
        }
    }
}

/// The dispatch decision: which operation a call with this name and these
/// arguments selects.
pub open spec fn plan_of(name: Seq<char>, args: Seq<(Seq<char>, Seq<char>)>) -> ActionModel {
    if name == "run_command"@ {
        match lookup_of(args, "program"@) {
            Some(p) => ActionModel::RunCommand {
                program: p,
                args: match lookup_of(args, "args"@) {
                    Some(a) => a,
                    None => Seq::<char>::empty(),
                },
            },
            None => ActionModel::Invalid { name: name, missing: "program"@ },
        }
    } else if name == "list_files"@ {
        ActionModel::ListFiles { dir_path: lookup_of(args, "dir_path"@) }
    } else if name == "read_file"@ {
        match lookup_of(args, "file_path"@) {
            Some(p) => ActionModel::ReadFile { file_path: p },
            None => ActionModel::Invalid { name: name, missing: "file_path"@ },
        }
    } else if name == "write_file"@ {
        match lookup_of(args, "file_path"@) {
            Some(p) => match lookup_of(args, "content"@) {
                Some(c) => ActionModel::WriteFile { file_path: p, content: c },
                None => ActionModel::Invalid { name: name, missing: "content"@ },
            },
            None => ActionModel::Invalid { name: name, missing: "file_path"@ },
        }
    } else if name == "read_skeleton"@ {
        match lookup_of(args, "file_path"@) {
            Some(p) => ActionModel::ReadSkeleton { file_path: p },
            None => ActionModel::Invalid { name: name, missing: "file_path"@ },
        }
    } else if name == "search_code"@ {
        match lookup_of(args, "query"@) {
            Some(q) => ActionModel::SearchCode { query: q },
            None => ActionModel::Invalid { name: name, missing: "query"@ },
        }
    } else {
        ActionModel::Unknown { name: name }
    }
}

/// Decide which effector operation a tool call selects.
pub fn plan(call: &ToolCall) -> (r: ToolAction)
    ensures
        r@ == plan_of(call.name@, args_view(call.arguments@)),
{
    if str_eq(call.name.as_str(), "run_command") {
        match arg_value(call, "program") {
            Some(program) => {
                let args = match arg_value(call, "args") {
                    Some(a) => a,
                    None => String::new(),
                };
                ToolAction::RunCommand { program, args }
            },
            None => ToolAction::Invalid {
                name: call.name.clone(),
                missing: chars_to_string(&str_to_chars("program")),
            },
        }
    } else if str_eq(call.name.as_str(), "list_files") {
        ToolAction::ListFiles { dir_path: arg_value(call, "dir_path") }
    } else if str_eq(call.name.as_str(), "read_file") {
        match arg_value(call, "file_path") {
            Some(file_path) => ToolAction::ReadFile { file_path },
            None => ToolAction::Invalid {
                name: call.name.clone(),
                missing: chars_to_string(&str_to_chars("file_path")),
            },
        }
    } else if str_eq(call.name.as_str(), "write_file") {
        match arg_value(call, "file_path") {
            Some(file_path) => match arg_value(call, "content") {
                Some(content) => ToolAction::WriteFile { file_path, content },
                None => ToolAction::Invalid {
                    name: call.name.clone(),
                    missing: chars_to_string(&str_to_chars("content")),
                },
            },
            None => ToolAction::Invalid {
                name: call.name.clone(),
                missing: chars_to_string(&str_to_chars("file_path")),
            },
        }
    } else if str_eq(call.name.as_str(), "read_skeleton") {
        match arg_value(call, "file_path") {
            Some(file_path) => ToolAction::ReadSkeleton { file_path },
            None => ToolAction::Invalid {
                name: call.name.clone(),
                missing: chars_to_string(&str_to_chars("file_path")),
            },
        }
    } else if str_eq(call.name.as_str(), "search_code") {
        match arg_value(call, "query") {
            Some(query) => ToolAction::SearchCode { query },
            None => ToolAction::Invalid {
                name: call.name.clone(),
                missing: chars_to_string(&str_to_chars("query")),
            },
        }
    } else {
        ToolAction::Unknown { name: call.name.clone() }
    }
}

/// The reply for a tool name outside the catalogue.
pub fn unknown_tool_text(name: &str) -> (r: String)
    ensures
        r@ == "Unknown Tool: "@ + name@,
{
    let mut out = str_to_chars("Unknown Tool: ");
    let tail = str_to_chars(name);
    extend_chars(&mut out, &tail);
    chars_to_string(&out)
}

/// One line of a file listing: the name, prefixed when it is a directory.
pub open spec fn listed_entry(e: FileEntry) -> Seq<char> {
    if e.is_dir {
        "[DIR] "@ + e.name@
    } else {
        e.name@
    }
}

/// A directory listing: one entry per line.
pub open spec fn rendered_list(es: Seq<FileEntry>) -> Seq<char> {
    joined_sep(es.map_values(|e: FileEntry| listed_entry(e)), "\n"@)
}

/// Render a directory listing.
pub fn render_file_list(entries: &Vec<FileEntry>) -> (r: String)
    ensures
        r@ == rendered_list(entries@),
{
    let mut lines: Vec<String> = Vec::new();
    let mut i: usize = 0;
    while i < entries.len()
        invariant
            0 <= i <= entries@.len(),
            lines@.len() == i,
            forall|j: int| 0 <= j < i ==> lines@[j]@ == listed_entry(entries@[j]),
        decreases entries@.len() - i,
    {
        let mut line: Vec<char> = if entries[i].is_dir {
            str_to_chars("[DIR] ")
        } else {
            Vec::new()
        };
        let name = str_to_chars(entries[i].name.as_str());
        extend_chars(&mut line, &name);
        proof {
            assert(line@ == listed_entry(entries@[i as int]));
        }
        lines.push(chars_to_string(&line));
        i += 1;
    }
    proof {
        let f = |e: FileEntry| listed_entry(e);
        assert forall|j: int| 0 <= j < entries@.len() implies lines.deep_view()[j]
            == entries@.map_values(f)[j] by {
            assert(lines.deep_view()[j] == lines@[j].deep_view());
            assert(entries@.map_values(f)[j] == f(entries@[j]));
        }
        assert(lines.deep_view() =~= entries@.map_values(f));
    }
    let joined = join_strings(&lines, "\n");
    chars_to_string(&joined)
}

/// Lexicographic order on character sequences, by code point.
pub open spec fn lex_le(x: Seq<char>, y: Seq<char>) -> bool
    decreases x.len(),
{
    if x.len() == 0 {
        true
    } else if y.len() == 0 {
        false
    } else if x[0] != y[0] {
        x[0] < y[0]
    } else {
        lex_le(x.drop_first(), y.drop_first())
    }
}

/// The lexicographic order is total.
pub proof fn lemma_lex_le_total(x: Seq<char>, y: Seq<char>)
    ensures
        lex_le(x, y) || lex_le(y, x),
    decreases x.len(),
{
    if x.len() == 0 || y.len() == 0 {
    } else if x[0] != y[0] {
    } else {
        lemma_lex_le_total(x.drop_first(), y.drop_first());
    }
}

/// The lexicographic order is transitive.
pub proof fn lemma_lex_le_trans(x: Seq<char>, y: Seq<char>, z: Seq<char>)
    requires
        lex_le(x, y),
        lex_le(y, z),
    ensures
        lex_le(x, z),
    decreases x.len(),
{
    if x.len() == 0 || y.len() == 0 || z.len() == 0 {
    } else if x[0] == y[0] && y[0] == z[0] {
        lemma_lex_le_trans(x.drop_first(), y.drop_first(), z.drop_first());
    }
}

/// Is `x` lexicographically at most `y`?
pub fn lex_le_str(x: &str, y: &str) -> (r: bool)
    ensures
        r == lex_le(x@, y@),
{
    let xs = str_to_chars(x);
    let ys = str_to_chars(y);
    let xn: usize = xs.len();
    let yn: usize = ys.len();
    let mut i: usize = 0;
    proof {
        assert(x@.skip(0) =~= x@);
        assert(y@.skip(0) =~= y@);
    }
    loop
        invariant
            0 <= i <= xn,
            0 <= i <= yn,
            xn == x@.len(),
            yn == y@.len(),
            xs@ == x@,
            ys@ == y@,
            lex_le(x@, y@) == lex_le(x@.skip(i as int), y@.skip(i as int)),
        decreases xn - i,
    {
        proof {
            if i < xn {
                assert(x@.skip(i as int)[0] == x@[i as int]);
            }
            if i < yn {
                assert(y@.skip(i as int)[0] == y@[i as int]);
            }
        }
        if i == xn {
            return true;
        }
        if i == yn {
            return false;
        }
        if xs[i] != ys[i] {
            return xs[i] < ys[i];
        }
        proof {
            assert(x@.skip(i as int).drop_first() =~= x@.skip(i + 1));
            assert(y@.skip(i as int).drop_first() =~= y@.skip(i + 1));
        }
        i += 1;
    }
}

/// Listing order: directories before files, names lexicographically within
/// each group.
pub open spec fn entry_le(a: FileEntry, b: FileEntry) -> bool {
    if a.is_dir != b.is_dir {
        a.is_dir
    } else {
        lex_le(a.name@, b.name@)
    }
}

/// The listing order is total.
pub proof fn lemma_entry_le_total(a: FileEntry, b: FileEntry)
    ensures
        entry_le(a, b) || entry_le(b, a),
{
    lemma_lex_le_total(a.name@, b.name@);
}

/// The listing order is transitive.
pub proof fn lemma_entry_le_trans(a: FileEntry, b: FileEntry, c: FileEntry)
    requires
        entry_le(a, b),
        entry_le(b, c),
    ensures
        entry_le(a, c),
{
    if a.is_dir == b.is_dir && b.is_dir == c.is_dir {
        lemma_lex_le_trans(a.name@, b.name@, c.name@);
    }
}

/// Is the whole listing in order?
pub open spec fn sorted_entries(s: Seq<FileEntry>) -> bool {
    forall|i: int, j: int| 0 <= i < j < s.len() ==> entry_le(s[i], s[j])
}

/// Is `a` at most `b` in listing order?
fn entry_le_exec(a: &FileEntry, b: &FileEntry) -> (r: bool)
    ensures
        r == entry_le(*a, *b),
{
    if a.is_dir != b.is_dir {
        a.is_dir
    } else {
        lex_le_str(a.name.as_str(), b.name.as_str())
    }
}

/// Sort a directory listing: directories first, then names in order.  The
/// result holds exactly the given entries.
pub fn sort_entries(entries: Vec<FileEntry>) -> (r: Vec<FileEntry>)
    ensures
        sorted_entries(r@),
        r@.to_multiset() == entries@.to_multiset(),
{
    let ghost orig = entries@;
    let mut rest = entries;
    let mut out: Vec<FileEntry> = Vec::new();
    proof {
        broadcast use vstd::seq_lib::group_to_multiset_ensures;

        assert(out@.to_multiset() =~= Multiset::<FileEntry>::empty());
        assert(out@.to_multiset().add(rest@.to_multiset()) =~= orig.to_multiset());
    }
    while rest.len() > 0
        invariant
            sorted_entries(out@),
            out@.to_multiset().add(rest@.to_multiset()) == orig.to_multiset(),
        decreases rest@.len(),
    {
        let ghost rest_before = rest@;
        let x = match rest.pop() {
            Some(x) => x,
            None => {
                proof {
                    assert(false);
                }
                return out;
            },
        };
        proof {
            broadcast use vstd::seq_lib::group_to_multiset_ensures;

            assert(rest@.push(x) =~= rest_before);
            assert(rest_before.to_multiset() =~= rest@.to_multiset().insert(x));
        }
        let mut pos: usize = 0;
        while pos < out.len() && !entry_le_exec(&x, &out[pos])
            invariant
                0 <= pos <= out@.len(),
                forall|q: int| 0 <= q < pos ==> !entry_le(x, out@[q]),
            decreases out@.len() - pos,
        {
            pos += 1;
        }
        let ghost out_before = out@;
        let ghost p = pos as int;
        out.insert(pos, x);
        proof {
            broadcast use vstd::seq_lib::group_to_multiset_ensures;

            assert(out@ =~= out_before.insert(p, x));
            out_before.insert_ensures(p, x);
            // Order: everything before the slot is at most `x`, everything
            // after is at least `x`.
            assert forall|q: int| 0 <= q < p implies entry_le(out_before[q], x) by {
                lemma_entry_le_total(x, out_before[q]);
            }
            assert forall|i: int, j: int| 0 <= i < j < out@.len() implies entry_le(
                out@[i],
                out@[j],
            ) by {
                if j < p {
                    assert(out@[i] == out_before[i]);
                    assert(out@[j] == out_before[j]);
                } else if i > p {
                    assert(out@[i] == out_before[i - 1]);
                    assert(out@[j] == out_before[j - 1]);
                } else if i < p && j == p {
                    assert(out@[i] == out_before[i]);
                    assert(out@[j] == x);
                } else if i < p && j > p {
                    assert(out@[i] == out_before[i]);
                    assert(out@[j] == out_before[j - 1]);
                } else if i == p && j > p {
                    assert(out@[i] == x);
                    assert(out@[j] == out_before[j - 1]);
                    assert(p < out_before.len());
                    assert(entry_le(x, out_before[p]));
                    if j - 1 > p {
                        assert(entry_le(out_before[p], out_before[j - 1]));
                        lemma_entry_le_trans(x, out_before[p], out_before[j - 1]);
                    }
                }
            }
            // Contents: the insert adds exactly `x`.
            assert(out@.remove(p) =~= out_before);
            assert(out@.remove(p).to_multiset() =~= out@.to_multiset().remove(out@[p]));
            assert(out@[p] == x);
            assert(out@.to_multiset().contains(x));
            assert forall|e: FileEntry| #[trigger] out@.to_multiset().count(e)
                == out_before.to_multiset().insert(x).count(e) by {
                if e == x {
                    assert(out_before.to_multiset().count(e) == out@.to_multiset().remove(
                        x,
                    ).count(e));
                } else {
                    assert(out_before.to_multiset().count(e) == out@.to_multiset().remove(
                        x,
                    ).count(e));
                }
            }
            assert(out@.to_multiset() =~= out_before.to_multiset().insert(x));
            assert(out_before.to_multiset().insert(x).add(rest@.to_multiset())
                =~= out_before.to_multiset().add(rest@.to_multiset().insert(x)));
        }
    }
    proof {
        broadcast use vstd::seq_lib::group_to_multiset_ensures;

        assert(rest@.to_multiset() =~= Multiset::<FileEntry>::empty());
        assert(out@.to_multiset().add(rest@.to_multiset()) =~= out@.to_multiset());
    }
    out
}

/// The search report: all matches, or the first twenty under a count header.
pub open spec fn search_report_of(ms: Seq<Seq<char>>) -> Seq<char> {
    if ms.len() > 20 {
        "Found "@ + dec_of(ms.len() as int) + " matches. First 20:\n"@ + joined_sep(
            ms.take(20),
            "\n"@,
        )
    } else {
        joined_sep(ms, "\n"@)
    }
}

/// Render the report for a list of search match lines.
pub fn render_search_results(matches: &Vec<String>) -> (r: String)
    ensures
        r@ == search_report_of(matches.deep_view()),
{
    if matches.len() > 20 {
        let mut out = str_to_chars("Found ");
        let count = dec_u64(matches.len() as u64);
        extend_chars(&mut out, &count);
        let mid = str_to_chars(" matches. First 20:\n");
        extend_chars(&mut out, &mid);
        let mut first: Vec<String> = Vec::new();
        let mut i: usize = 0;
        while i < 20
            invariant
                0 <= i <= 20 <= matches@.len(),
                first@.len() == i,
                forall|j: int| 0 <= j < i ==> first@[j]@ == matches@[j]@,
            decreases 20 - i,
        {
            first.push(matches[i].clone());
            i += 1;
        }
        proof {
            assert forall|j: int| 0 <= j < 20 implies first.deep_view()[j]
                == matches.deep_view().take(20)[j] by {
                assert(first.deep_view()[j] == first@[j].deep_view());
                assert(matches.deep_view().take(20)[j] == matches.deep_view()[j]);
                assert(matches.deep_view()[j] == matches@[j].deep_view());
            }
            assert(first.deep_view() =~= matches.deep_view().take(20));
        }
        let joined = join_strings(&first, "\n");
        extend_chars(&mut out, &joined);
        chars_to_string(&out)
    } else {
        let joined = join_strings(matches, "\n");
        chars_to_string(&joined)
    }
}

/// The identifier a write looks up to find consumers of the written file:
/// for Rust, the file stem — or the directory name where the stem is `mod` —
/// and for script files the stem; other files get none.
pub open spec fn usage_term_of(path: Seq<char>) -> Option<Seq<char>> {
    let name = crate::paths::file_name_of(path);
    let stem = crate::paths::stem_of(name);
    match crate::paths::ext_of(name) {
        Some(e) => if e == "rs"@ {
            if stem == "mod"@ {
                crate::paths::parent_name_of(path)
            } else {
                Some(stem)
            }
        } else if e == "ts"@ || e == "tsx"@ || e == "js"@ || e == "jsx"@ {
            Some(stem)
        } else {
            None
        },
        None => None,
    }
}

/// Compute the consumer-search identifier for a written file.
pub fn usage_search_term(path: &str) -> (r: Option<String>)
    ensures
        match r {
            Some(t) => usage_term_of(path@) == Some(t@),
            None => usage_term_of(path@) is None,
        },
{
    let pv = str_to_chars(path);
    let name = crate::paths::file_name_chars(&pv);
    let (stem, ext) = crate::paths::split_name_chars(&name);
    match ext {
        Some(e) => {
            let rs = str_to_chars("rs");
            if chars_eq(&e, &rs) {
                let md = str_to_chars("mod");
                if chars_eq(&stem, &md) {
                    match crate::paths::parent_name_chars(&pv) {
                        Some(parent) => Some(chars_to_string(&parent)),
                        None => None,
                    }
                } else {
                    Some(chars_to_string(&stem))
                }
            } else {
                let ts = str_to_chars("ts");
                let tsx = str_to_chars("tsx");
                let js = str_to_chars("js");
                let jsx = str_to_chars("jsx");
                if chars_eq(&e, &ts) || chars_eq(&e, &tsx) || chars_eq(&e, &js) || chars_eq(
                    &e,
                    &jsx,
                ) {
                    Some(chars_to_string(&stem))
                } else {
                    None
                }
            }
        },
        None => None,
    }
}

/// What `regex::escape` makes of a string.
pub uninterp spec fn regex_escaped(s: Seq<char>) -> Seq<char>;

/// Relies on `regex::escape`: every regex metacharacter in the string is
/// escaped, deterministically from the string alone.
#[verifier::external_body]
fn regex_escape_exec(s: &str) -> (r: String)
    ensures
        r@ == regex_escaped(s@),
{
    regex::escape(s)
}

/// The whole-word search query for a consumer-search identifier.
pub open spec fn usage_query_of(term: Seq<char>) -> Seq<char> {
    "\\b"@ + regex_escaped(term) + "\\b"@
}

/// Build the whole-word search query for an identifier.
pub fn usage_query(term: &str) -> (r: String)
    ensures
        r@ == usage_query_of(term@),
{
    let mut out = str_to_chars("\\b");
    let esc = regex_escape_exec(term);
    let ev = str_to_chars(esc.as_str());
    extend_chars(&mut out, &ev);
    let close = str_to_chars("\\b");
    extend_chars(&mut out, &close);
    chars_to_string(&out)
}

/// The consumer paths taken from search match lines: the text before the
/// first `:` of each line, skipping the written file itself, first
/// occurrences only.
pub open spec fn consumers_rec(
    lines: Seq<Seq<char>>,
    own: Seq<char>,
    acc: Seq<Seq<char>>,
) -> Seq<Seq<char>>
    decreases lines.len(),
{
    if lines.len() == 0 {
        acc
    } else {
        let acc2 = match find_char(lines[0], ':') {
            Some(i) => {
                let p = lines[0].take(i);
                if p != own && !acc.contains(p) {
                    acc.push(p)
                } else {
                    acc
                }
            },
            None => acc,
        };
        consumers_rec(lines.drop_first(), own, acc2)
    }
}

/// The consumer paths of `own` among the given match lines.
pub open spec fn consumers_of(lines: Seq<Seq<char>>, own: Seq<char>) -> Seq<Seq<char>> {
    consumers_rec(lines, own, Seq::<Seq<char>>::empty())
}

/// Does the list contain this path?
fn contains_chars(v: &Vec<String>, p: &Vec<char>) -> (r: bool)
    ensures
        r == v.deep_view().contains(p@),
{
    let mut i: usize = 0;
    while i < v.len()
        invariant
            0 <= i <= v@.len(),
            forall|j: int| 0 <= j < i ==> v.deep_view()[j] != p@,
        decreases v@.len() - i,
    {
        let sv = str_to_chars(v[i].as_str());
        if chars_eq(&sv, p) {
            proof {
                assert(v.deep_view()[i as int] == p@);
            }
            return true;
        }
        proof {
            assert(v.deep_view()[i as int] == v@[i as int]@);
        }
        i += 1;
    }
    proof {
        if v.deep_view().contains(p@) {
            let w = choose|w: int| 0 <= w < v.deep_view().len() && v.deep_view()[w] == p@;
            assert(v.deep_view()[w] != p@);
        }
    }
    false
}

/// Collect the consumer paths of `own` from search match lines.
pub fn collect_consumers(matches: &Vec<String>, own: &str) -> (r: Vec<String>)
    ensures
        r.deep_view() == consumers_of(matches.deep_view(), own@),
{
    let ov = str_to_chars(own);
    let mut acc: Vec<String> = Vec::new();
    let mut i: usize = 0;
    proof {
        assert(matches.deep_view().skip(0) =~= matches.deep_view());
        assert(acc.deep_view() =~= Seq::<Seq<char>>::empty());
        assert(consumers_rec(matches.deep_view(), own@, Seq::<Seq<char>>::empty())
            == consumers_rec(matches.deep_view().skip(0), own@, acc.deep_view()));
    }
    while i < matches.len()
        invariant
            0 <= i <= matches@.len(),
            ov@ == own@,
            matches.deep_view().len() == matches@.len(),
            consumers_of(matches.deep_view(), own@) == consumers_rec(
                matches.deep_view().skip(i as int),
                own@,
                acc.deep_view(),
            ),
        decreases matches@.len() - i,
    {
        let ghost mv = matches.deep_view();
        proof {
            assert(mv.skip(i as int)[0] == mv[i as int]);
            assert(mv[i as int] == matches@[i as int]@);
            assert(mv.skip(i as int).drop_first() =~= mv.skip(i + 1));
        }
        let line = str_to_chars(matches[i].as_str());
        match find_ch(&line, ':') {
            Some(cut) => {
                proof {
                    crate::text::lemma_find_idx_props(line@, seq![':']);
                    assert(crate::text::matches_at(line@, cut as int, seq![':']));
                }
                let p = subvec(&line, 0, cut);
                let ghost old_acc = acc.deep_view();
                if !chars_eq(&p, &ov) && !contains_chars(&acc, &p) {
                    let ghost before = acc@;
                    acc.push(chars_to_string(&p));
                    proof {
                        assert forall|j: int| 0 <= j < acc@.len() implies acc.deep_view()[j] == (
                        if j < before.len() {
                            old_acc[j]
                        } else {
                            p@
                        }) by {
                            assert(acc.deep_view()[j] == acc@[j]@);
                            if j < before.len() {
                                assert(acc@[j] == before[j]);
                                assert(old_acc[j] == before[j]@);
                            }
                        }
                        assert(acc.deep_view() =~= old_acc.push(p@));
                    }
                }
            },
            None => {},
        }
        i += 1;
    }
    proof {
        assert(matches.deep_view().skip(matches@.len() as int) =~= Seq::<Seq<char>>::empty());
    }
    acc
}

/// Bulleted consumer lines, one per path.
pub open spec fn bullet_lines(cs: Seq<Seq<char>>) -> Seq<char>
    decreases cs.len(),
{
    if cs.len() == 0 {
        Seq::<char>::empty()
    } else {
        bullet_lines(cs.drop_last()) + "- "@ + cs.last() + "\n"@
    }
}

/// The message reported after a successful write: the confirmation, and a
/// note listing up to ten consumers of the written file when there are any.
pub open spec fn write_hint_of(consumers: Seq<Seq<char>>) -> Seq<char> {
    if consumers.len() == 0 {
        "Successfully wrote file."@
    } else {
        let shown = if consumers.len() > 10 {
            consumers.take(10)
        } else {
            consumers
        };
        let overflow = if consumers.len() > 10 {
            "... and "@ + dec_of(consumers.len() - 10) + " more.\n"@
        } else {
            Seq::<char>::empty()
        };
        "Successfully wrote file."@ + "\n\n[Context Note] This file is imported by:\n"@
            + bullet_lines(shown) + overflow + "Ensure you have not broken these consumers."@
    }
}

/// Render the post-write message for the collected consumers.
pub fn render_write_hint(consumers: &Vec<String>) -> (r: String)
    ensures
        r@ == write_hint_of(consumers.deep_view()),
{
    let mut out = str_to_chars("Successfully wrote file.");
    if consumers.len() == 0 {
        return chars_to_string(&out);
    }
    let note = str_to_chars("\n\n[Context Note] This file is imported by:\n");
    extend_chars(&mut out, &note);
    let shown_n: usize = if consumers.len() > 10 {
        10
    } else {
        consumers.len()
    };
    let ghost cv = consumers.deep_view();
    let ghost shown = if cv.len() > 10 {
        cv.take(10)
    } else {
        cv
    };
    let mut i: usize = 0;
    let ghost base = out@;
    proof {
        assert(bullet_lines(shown.take(0)) =~= Seq::<char>::empty());
        assert(out@ =~= base + bullet_lines(shown.take(0)));
    }
    while i < shown_n
        invariant
            0 <= i <= shown_n,
            cv == consumers.deep_view(),
            cv.len() == consumers@.len(),
            shown == if cv.len() > 10 {
                cv.take(10)
            } else {
                cv
            },
            shown_n == shown.len(),
            out@ == base + bullet_lines(shown.take(i as int)),
        decreases shown_n - i,
    {
        let dash = str_to_chars("- ");
        extend_chars(&mut out, &dash);
        let c = str_to_chars(consumers[i].as_str());
        proof {
            assert(c@ == cv[i as int]);
            assert(shown[i as int] == cv[i as int]);
        }
        extend_chars(&mut out, &c);
        let nl = str_to_chars("\n");
        extend_chars(&mut out, &nl);
        proof {
            let pref = shown.take(i + 1);
            assert(pref.drop_last() =~= shown.take(i as int));
            assert(pref.last() == shown[i as int]);
            assert(out@ =~= base + bullet_lines(pref));
        }
        i += 1;
    }
    proof {
        assert(shown.take(shown_n as int) =~= shown);
    }
    if consumers.len() > 10 {
        let more = str_to_chars("... and ");
        extend_chars(&mut out, &more);
        let n = dec_u64((consumers.len() - 10) as u64);
        extend_chars(&mut out, &n);
        let tail = str_to_chars(" more.\n");
        extend_chars(&mut out, &tail);
    }
    let warn = str_to_chars("Ensure you have not broken these consumers.");
    extend_chars(&mut out, &warn);
    proof {
        assert(out@ =~= write_hint_of(cv));
    }
    chars_to_string(&out)
}

/// The full consumer hint for a written file, from the raw search matches.
pub open spec fn consumer_hint_of(matches: Seq<Seq<char>>, own: Seq<char>) -> Seq<char> {
    write_hint_of(consumers_of(matches, own))
}

/// Render the post-write message for a written file from the raw search
/// match lines.
pub fn consumer_hint(matches: &Vec<String>, own: &str) -> (r: String)
    ensures
        r@ == consumer_hint_of(matches.deep_view(), own@),
{
    let consumers = collect_consumers(matches, own);
    render_write_hint(&consumers)
}

/// Consumer hints are reproducible: writing the same file twice over an
/// unchanged workspace — so with the same search matches — produces the
/// same hint.
pub proof fn theorem_write_hint_idempotent(
    matches: Seq<Seq<char>>,
    own: Seq<char>,
    r1: Seq<char>,
    r2: Seq<char>,
)
    requires
        r1 == consumer_hint_of(matches, own),
        r2 == consumer_hint_of(matches, own),
    ensures
        r1 == r2,
{
}

} // verus!
