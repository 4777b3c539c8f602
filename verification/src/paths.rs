//! Relative-path text: segments, file names, stems and extensions, and the
//! parent-traversal check that guards every workspace access.  Paths here
//! are plain `/`-separated strings relative to a workspace root.

use vstd::prelude::*;

use crate::protocol::FsError;
use crate::text::{
    chars_eq, find_char, find_ch, rfind_char, rfind_ch, str_to_chars, subvec,
};

verus! {

/// The segments of `p`, split on `/`.  Empty segments are kept.
pub open spec fn segments_of(p: Seq<char>) -> Seq<Seq<char>>
    decreases p.len(),
{
    match find_char(p, '/') {
        Some(i) => if 0 <= i < p.len() {
            seq![p.take(i)] + segments_of(p.skip(i + 1))
        } else {
            seq![p]
        },
        None => seq![p],
    }
}

/// Does `p` contain a parent-directory segment?
pub open spec fn has_parent_segment(p: Seq<char>) -> bool {
    segments_of(p).contains(".."@)
}

/// Splitting off the first segment splits the containment question.
proof fn lemma_segments_step(p: Seq<char>, i: int, d: Seq<char>)
    requires
        find_char(p, '/') == Some(i),
        0 <= i < p.len(),
    ensures
        segments_of(p).contains(d) <==> p.take(i) == d || segments_of(p.skip(i + 1)).contains(
            d,
        ),
{
    let head = seq![p.take(i)];
    let rest = segments_of(p.skip(i + 1));
    if segments_of(p).contains(d) {
        let w = choose|w: int| 0 <= w < (head + rest).len() && (head + rest)[w] == d;
        if w == 0 {
            assert(p.take(i) == d);
        } else {
            assert(rest[w - 1] == d);
        }
    }
    if p.take(i) == d {
        assert((head + rest)[0] == d);
    }
    if rest.contains(d) {
        let w = choose|w: int| 0 <= w < rest.len() && rest[w] == d;
        assert((head + rest)[w + 1] == d);
    }
}

/// Does the path contain a `..` segment?
pub fn has_parent_component(path: &str) -> (r: bool)
    ensures
        r == has_parent_segment(path@),
{
    let dd = str_to_chars("..");
    let mut cur = str_to_chars(path);
    proof {
        assert(cur@ == path@);
    }
    loop
        invariant
            dd@ == ".."@,
            has_parent_segment(path@) == segments_of(cur@).contains(".."@),
        decreases cur@.len(),
    {
        match find_ch(&cur, '/') {
            Some(i) => {
                proof {
                    crate::text::lemma_find_idx_props(cur@, seq!['/']);
                    assert(crate::text::matches_at(cur@, i as int, seq!['/']));
                    lemma_segments_step(cur@, i as int, ".."@);
                }
                let seg = subvec(&cur, 0, i);
                if chars_eq(&seg, &dd) {
                    return true;
                }
                let clen: usize = cur.len();
                let rest = subvec(&cur, i + 1, clen);
                proof {
                    assert(rest@ =~= cur@.skip(i + 1));
                }
                cur = rest;
            },
            None => {
                proof {
                    assert(segments_of(cur@) =~= seq![cur@]);
                    if cur@ == ".."@ {
                        assert(segments_of(cur@)[0] == ".."@);
                    }
                    if segments_of(cur@).contains(".."@) {
                        let w = choose|w: int|
                            0 <= w < segments_of(cur@).len() && segments_of(cur@)[w] == ".."@;
                        assert(segments_of(cur@)[w] == cur@);
                    }
                }
                return chars_eq(&cur, &dd);
            },
        }
    }
}

/// Reject a path that steps above the workspace root.  The filesystem layer
/// additionally canonicalises and re-checks the resolved prefix; this is the
/// textual gate every access passes first.
pub fn validate_path(user_path: &str) -> (r: Result<(), FsError>)
    ensures
        r is Ok <==> !has_parent_segment(user_path@),
        r is Err ==> r->Err_0 == FsError::SecurityViolation,
{
    if has_parent_component(user_path) {
        Err(FsError::SecurityViolation)
    } else {
        Ok(())
    }
}

/// Index where the file name starts: after the last `/`, or 0.
pub open spec fn name_start(p: Seq<char>) -> int {
    match rfind_char(p, '/') {
        Some(i) => i + 1,
        None => 0,
    }
}

/// The file name of `p`: everything after the last `/`.
pub open spec fn file_name_of(p: Seq<char>) -> Seq<char> {
    p.skip(name_start(p))
}

/// The stem of a file name: up to its last `.`, unless that dot leads.
pub open spec fn stem_of(name: Seq<char>) -> Seq<char> {
    match rfind_char(name, '.') {
        Some(i) => if i > 0 {
            name.take(i)
        } else {
            name
        },
        None => name,
    }
}

/// The extension of a file name: after its last `.`, unless that dot leads.
pub open spec fn ext_of(name: Seq<char>) -> Option<Seq<char>> {
    match rfind_char(name, '.') {
        Some(i) => if i > 0 {
            Some(name.skip(i + 1))
        } else {
            None
        },
        None => None,
    }
}

/// The name of the directory holding `p`'s file name, where one is spelled.
pub open spec fn parent_name_of(p: Seq<char>) -> Option<Seq<char>> {
    if name_start(p) > 0 {
        let dir = p.take(name_start(p) - 1);
        if file_name_of(dir).len() > 0 {
            Some(file_name_of(dir))
        } else {
            None
        }
    } else {
        None
    }
}

/// The file name of a path.
pub fn file_name_chars(p: &Vec<char>) -> (r: Vec<char>)
    ensures
        r@ == file_name_of(p@),
{
    match rfind_ch(p, '/') {
        Some(i) => {
            proof {
                crate::text::lemma_rfind_char_props(p@, '/');
            }
            let plen: usize = p.len();
            subvec(p, i + 1, plen)
        },
        None => {
            let r = subvec(p, 0, p.len());
            proof {
                assert(r@ =~= p@.skip(0));
            }
            r
        },
    }
}

/// The stem and extension of a file name.
pub fn split_name_chars(name: &Vec<char>) -> (r: (Vec<char>, Option<Vec<char>>))
    ensures
        r.0@ == stem_of(name@),
        match r.1 {
            Some(e) => ext_of(name@) == Some(e@),
            None => ext_of(name@) is None,
        },
{
    match rfind_ch(name, '.') {
        Some(i) => {
            proof {
                crate::text::lemma_rfind_char_props(name@, '.');
            }
            if i > 0 {
                let nlen: usize = name.len();
                (subvec(name, 0, i), Some(subvec(name, i + 1, nlen)))
            } else {
                let whole = subvec(name, 0, name.len());
                proof {
                    assert(whole@ =~= name@);
                }
                (whole, None)
            }
        },
        None => {
            let whole = subvec(name, 0, name.len());
            proof {
                assert(whole@ =~= name@);
            }
            (whole, None)
        },
    }
}

/// The name of the directory holding the path's file name.
pub fn parent_name_chars(p: &Vec<char>) -> (r: Option<Vec<char>>)
    ensures
        match r {
            Some(v) => parent_name_of(p@) == Some(v@),
            None => parent_name_of(p@) is None,
        },
{
    match rfind_ch(p, '/') {
        Some(i) => {
            proof {
                crate::text::lemma_rfind_char_props(p@, '/');
            }
            let dir = subvec(p, 0, i);
            proof {
                assert(dir@ =~= p@.take(name_start(p@) - 1));
            }
            let dn = file_name_chars(&dir);
            if dn.len() > 0 {
                Some(dn)
            } else {
                None
            }
        },
        None => None,
    }
}

} // verus!
