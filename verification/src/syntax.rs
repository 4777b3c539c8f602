//! Syntax validation of written files.
//!
//! A write is rejected when the new content does not parse for its
//! language: Rust files go through the Rust parser, script files through
//! the ECMAScript parser, and any other extension is accepted untouched.

use vstd::prelude::*;

use crate::text::{chars_to_string, eq_at, extend_chars, str_to_chars};

verus! {

/// Does `s` end with `suf`?
pub open spec fn ends_with(s: Seq<char>, suf: Seq<char>) -> bool {
    s.len() >= suf.len() && s.skip(s.len() - suf.len()) == suf
}

/// Does the string end with the suffix?
pub fn str_ends_with(s: &str, suf: &str) -> (r: bool)
    ensures
        r == ends_with(s@, suf@),
{
    let sv = str_to_chars(s);
    let fv = str_to_chars(suf);
    if sv.len() < fv.len() {
        return false;
    }
    let at: usize = sv.len() - fv.len();
    let r = eq_at(&sv, at, &fv);
    proof {
        if crate::text::matches_at(s@, at as int, suf@) {
            assert(s@.subrange(at as int, at + suf@.len() as int) =~= s@.skip(
                s@.len() - suf@.len(),
            ));
        }
        if ends_with(s@, suf@) {
            assert(s@.subrange(at as int, at + suf@.len() as int) =~= s@.skip(
                s@.len() - suf@.len(),
            ));
        }
    }
    r
}

/// The Rust parser's verdict on a source text: the rendered error, if any.
pub uninterp spec fn rust_syntax_err(content: Seq<char>) -> Option<Seq<char>>;

/// Relies on `syn::parse_file`: whether a text parses as a Rust source
/// file, and the rendered error when it does not — a function of the text
/// alone.
#[verifier::external_body]
fn rust_parse_check(content: &str) -> (r: Option<String>)
    ensures
        match r {
            Some(e) => rust_syntax_err(content@) == Some(e@),
            None => rust_syntax_err(content@) is None,
        },
{
    syn::parse_file(content).err().map(|e| e.to_string())
}

/// The ECMAScript parser's verdict on a source text: the first rendered
/// parse error, if any.  The dialect is chosen from the path's extension.
pub uninterp spec fn js_syntax_err(path: Seq<char>, content: Seq<char>) -> Option<Seq<char>>;

/// Relies on `oxc_parser::Parser` with `oxc_span::SourceType::from_path`:
/// whether a text parses in the dialect named by the path's extension, and
/// the first error rendered, a function of path and text alone.
#[verifier::external_body]
fn js_parse_check(path: &str, content: &str) -> (r: Option<String>)
    ensures
        match r {
            Some(e) => js_syntax_err(path@, content@) == Some(e@),
            None => js_syntax_err(path@, content@) is None,
        },
{
    let allocator = oxc_allocator::Allocator::default();
    let source_type = oxc_span::SourceType::from_path(std::path::Path::new(path))
        .unwrap_or_default();
    let ret = oxc_parser::Parser::new(&allocator, content, source_type).parse();
    let first = ret.diagnostics.errors().next().map(|d| format!("{:?}", d));
    first
}

/// The verdict `validate_syntax` owes for a path and content: Rust files
/// and script files must parse; anything else passes.
pub open spec fn syntax_verdict(path: Seq<char>, content: Seq<char>) -> Option<Seq<char>> {
    if ends_with(path, ".rs"@) {
        match rust_syntax_err(content) {
            Some(e) => Some("Rust Syntax Error: "@ + e),
            None => None,
        }
    } else if ends_with(path, ".ts"@) || ends_with(path, ".js"@) || ends_with(path, ".tsx"@)
        || ends_with(path, ".jsx"@) {
        match js_syntax_err(path, content) {
            Some(e) => Some("JS/TS Syntax Error: "@ + e),
            None => None,
        }
    } else {
        None
    }
}

/// Check that `content` parses for the language the path's extension
/// names.  `Ok` exactly when the verdict is clean; the error carries the
/// parser's message.
pub fn validate_syntax(path: &str, content: &str) -> (r: Result<(), String>)
    ensures
        match r {
            Ok(_) => syntax_verdict(path@, content@) is None,
            Err(e) => syntax_verdict(path@, content@) == Some(e@),
        },
{
    if str_ends_with(path, ".rs") {
        match rust_parse_check(content) {
            Some(e) => {
                let mut msg = str_to_chars("Rust Syntax Error: ");
                let ev = str_to_chars(e.as_str());
                extend_chars(&mut msg, &ev);
                Err(chars_to_string(&msg))
            },
            None => Ok(()),
        }
    } else if str_ends_with(path, ".ts") || str_ends_with(path, ".js") || str_ends_with(
        path,
        ".tsx",
    ) || str_ends_with(path, ".jsx") {
        match js_parse_check(path, content) {
            Some(e) => {
                let mut msg = str_to_chars("JS/TS Syntax Error: ");
                let ev = str_to_chars(e.as_str());
                extend_chars(&mut msg, &ev);
                Err(chars_to_string(&msg))
            },
            None => Ok(()),
        }
    } else {
        Ok(())
    }
}

} // verus!
