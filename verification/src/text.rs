//! Character-sequence searching and slicing over `Vec<char>`.
//!
//! The parser and the command executor work on buffers of characters.  This
//! module gives them first/last occurrence search, window comparison and
//! slicing, each with an exact contract, together with the two trusted
//! conversions between `&str`/`String` and `Vec<char>`.

use vstd::prelude::*;

verus! {

/// `p` occurs in `s` starting at index `i`.
pub open spec fn matches_at(s: Seq<char>, i: int, p: Seq<char>) -> bool {
    0 <= i && i + p.len() <= s.len() && s.subrange(i, i + p.len() as int) == p
}

/// Index of the first occurrence of `p` in `s`, if any.
pub open spec fn find_idx(s: Seq<char>, p: Seq<char>) -> Option<int>
    decreases s.len(),
{
    if matches_at(s, 0, p) {
        Some(0int)
    } else if s.len() == 0 {
        None
    } else {
        match find_idx(s.drop_first(), p) {
            Some(i) => Some(i + 1),
            None => None,
        }
    }
}

/// Index of the first occurrence of `p` in `s` at or after position `k`.
pub open spec fn find_idx_from(s: Seq<char>, k: int, p: Seq<char>) -> Option<int> {
    match find_idx(s.skip(k), p) {
        Some(i) => Some(k + i),
        None => None,
    }
}

/// Index of the first occurrence of the character `c` in `s`.
pub open spec fn find_char(s: Seq<char>, c: char) -> Option<int> {
    find_idx(s, seq![c])
}

/// Index of the first occurrence of `c` in `s` at or after position `k`.
pub open spec fn find_char_from(s: Seq<char>, k: int, c: char) -> Option<int> {
    find_idx_from(s, k, seq![c])
}

/// Index of the last occurrence of the character `c` in `s`, if any.
pub open spec fn rfind_char(s: Seq<char>, c: char) -> Option<int>
    decreases s.len(),
{
    if s.len() == 0 {
        None
    } else if s[s.len() - 1] == c {
        Some(s.len() - 1)
    } else {
        rfind_char(s.drop_last(), c)
    }
}

/// `find_idx` returns the first occurrence: a match with nothing earlier,
/// or `None` exactly when there is no match at all.
pub proof fn lemma_find_idx_props(s: Seq<char>, p: Seq<char>)
    ensures
        match find_idx(s, p) {
            Some(i) => 0 <= i && matches_at(s, i, p) && forall|j: int|
                0 <= j < i ==> !matches_at(s, j, p),
            None => forall|j: int| !matches_at(s, j, p),
        },
    decreases s.len(),
{
    if matches_at(s, 0, p) {
    } else if s.len() == 0 {
        assert forall|j: int| !matches_at(s, j, p) by {
            if matches_at(s, j, p) {
                assert(j == 0 && p.len() == 0);
            }
        }
    } else {
        let t = s.drop_first();
        lemma_find_idx_props(t, p);
        assert forall|j: int| 0 <= j implies matches_at(t, j, p) == matches_at(
            s,
            j + 1,
            p,
        ) by {
            if j + 1 + p.len() <= s.len() {
                assert(t.subrange(j, j + p.len() as int) =~= s.subrange(
                    j + 1,
                    j + 1 + p.len() as int,
                ));
            }
        }
        match find_idx(t, p) {
            Some(i) => {
                assert(matches_at(s, i + 1, p));
                assert forall|j: int| 0 <= j < i + 1 implies !matches_at(s, j, p) by {
                    if j > 0 {
                        assert(!matches_at(t, j - 1, p));
                    }
                }
            },
            None => {
                assert forall|j: int| !matches_at(s, j, p) by {
                    if 1 <= j {
                        assert(!matches_at(t, j - 1, p));
                    }
                }
            },
        }
    }
}

/// A match with nothing earlier pins down the value of `find_idx`.
pub proof fn lemma_find_idx_is_first(s: Seq<char>, p: Seq<char>, i: int)
    requires
        matches_at(s, i, p),
        forall|j: int| 0 <= j < i ==> !matches_at(s, j, p),
    ensures
        find_idx(s, p) == Some(i),
{
    lemma_find_idx_props(s, p);
    match find_idx(s, p) {
        Some(x) => {
            if x < i {
                assert(!matches_at(s, x, p));
            }
            if i < x {
                assert(!matches_at(s, i, p));
            }
        },
        None => {
            assert(!matches_at(s, i, p));
        },
    }
}

/// A match inside `s` is still a match after appending to `s`.
pub proof fn lemma_matches_at_append(s: Seq<char>, e: Seq<char>, i: int, p: Seq<char>)
    requires
        matches_at(s, i, p),
    ensures
        matches_at(s + e, i, p),
{
    assert((s + e).subrange(i, i + p.len() as int) =~= s.subrange(i, i + p.len() as int));
}

/// A first occurrence inside `s` stays the first occurrence after appending.
pub proof fn lemma_find_idx_append(s: Seq<char>, e: Seq<char>, p: Seq<char>)
    requires
        find_idx(s, p) is Some,
    ensures
        find_idx(s + e, p) == find_idx(s, p),
{
    lemma_find_idx_props(s, p);
    let i = find_idx(s, p)->0;
    lemma_matches_at_append(s, e, i, p);
    assert forall|j: int| 0 <= j < i implies !matches_at(s + e, j, p) by {
        if matches_at(s + e, j, p) {
            assert(j + p.len() <= s.len());
            assert((s + e).subrange(j, j + p.len() as int) =~= s.subrange(
                j,
                j + p.len() as int,
            ));
            assert(matches_at(s, j, p));
        }
    }
    lemma_find_idx_is_first(s + e, p, i);
}

/// `rfind_char` returns the last occurrence: a match with nothing later,
/// or `None` exactly when the character is absent.
pub proof fn lemma_rfind_char_props(s: Seq<char>, c: char)
    ensures
        match rfind_char(s, c) {
            Some(i) => 0 <= i < s.len() && s[i] == c && forall|j: int|
                i < j < s.len() ==> s[j] != c,
            None => forall|j: int| 0 <= j < s.len() ==> s[j] != c,
        },
    decreases s.len(),
{
    if s.len() == 0 {
    } else if s[s.len() - 1] == c {
    } else {
        let t = s.drop_last();
        lemma_rfind_char_props(t, c);
        assert(forall|j: int| 0 <= j < t.len() ==> t[j] == s[j]);
        match rfind_char(t, c) {
            Some(i) => {
                assert forall|j: int| i < j < s.len() implies s[j] != c by {
                    if j < s.len() - 1 {
                        assert(t[j] != c);
                    }
                }
            },
            None => {
                assert forall|j: int| 0 <= j < s.len() implies s[j] != c by {
                    if j < s.len() - 1 {
                        assert(t[j] != c);
                    }
                }
            },
        }
    }
}

/// Does the window of `s` at `i` equal `p`?
pub fn eq_at(s: &Vec<char>, i: usize, p: &Vec<char>) -> (b: bool)
    requires
        i <= s@.len(),
    ensures
        b == matches_at(s@, i as int, p@),
{
    if s.len() - i < p.len() {
        return false;
    }
    let mut j: usize = 0;
    while j < p.len()
        invariant
            j <= p@.len(),
            i + p@.len() <= s@.len(),
            s@.len() <= usize::MAX,
            forall|x: int| 0 <= x < j ==> s@[i + x] == p@[x],
        decreases p@.len() - j,
    {
        proof {
            assert(i + j < s@.len());
        }
        if s[i + j] != p[j] {
            proof {
                assert(s@.subrange(i as int, i + p@.len() as int)[j as int] == s@[i + j]);
            }
            return false;
        }
        j += 1;
    }
    proof {
        assert(s@.subrange(i as int, i + p@.len() as int) =~= p@);
    }
    true
}

/// First occurrence of `p` in `s` at or after position `k`.
pub fn find_sub_from(s: &Vec<char>, k: usize, p: &Vec<char>) -> (r: Option<usize>)
    requires
        k <= s@.len(),
    ensures
        match r {
            Some(i) => find_idx_from(s@, k as int, p@) == Some(i as int),
            None => find_idx_from(s@, k as int, p@) is None,
        },
{
    let mut i: usize = k;
    loop
        invariant
            k <= i <= s@.len(),
            forall|j: int| k <= j < i ==> !matches_at(s@, j, p@),
        decreases s@.len() - i,
    {
        if s.len() - i < p.len() {
            proof {
                lemma_find_from_align(s@, k as int, p@);
                assert forall|j: int| !matches_at(s@.skip(k as int), j, p@) by {
                    if matches_at(s@.skip(k as int), j, p@) {
                        lemma_matches_at_skip(s@, k as int, j, p@);
                        assert(j + k >= i);
                    }
                }
                lemma_find_idx_props(s@.skip(k as int), p@);
                if find_idx(s@.skip(k as int), p@) is Some {
                    let w = find_idx(s@.skip(k as int), p@)->0;
                    assert(matches_at(s@.skip(k as int), w, p@));
                }
            }
            return None;
        }
        if eq_at(s, i, p) {
            proof {
                lemma_find_from_align(s@, k as int, p@);
                lemma_matches_at_unskip(s@, k as int, i as int, p@);
                assert forall|j: int| 0 <= j < i - k implies !matches_at(
                    s@.skip(k as int),
                    j,
                    p@,
                ) by {
                    if matches_at(s@.skip(k as int), j, p@) {
                        lemma_matches_at_skip(s@, k as int, j, p@);
                    }
                }
                lemma_find_idx_is_first(s@.skip(k as int), p@, i - k);
            }
            return Some(i);
        }
        proof {
            if p@.len() == 0 {
                assert(s@.subrange(i as int, i as int) =~= p@);
                assert(matches_at(s@, i as int, p@));
            }
        }
        i += 1;
    }
}

/// Relates occurrences in `s.skip(k)` to occurrences in `s`: skip side.
proof fn lemma_matches_at_skip(s: Seq<char>, k: int, j: int, p: Seq<char>)
    requires
        0 <= k <= s.len(),
        matches_at(s.skip(k), j, p),
    ensures
        matches_at(s, k + j, p),
{
    assert(s.subrange(k + j, k + j + p.len() as int) =~= s.skip(k).subrange(
        j,
        j + p.len() as int,
    ));
}

/// Relates occurrences in `s` to occurrences in `s.skip(k)`: unskip side.
proof fn lemma_matches_at_unskip(s: Seq<char>, k: int, i: int, p: Seq<char>)
    requires
        0 <= k <= i,
        matches_at(s, i, p),
    ensures
        matches_at(s.skip(k), i - k, p),
{
    assert(s.skip(k).subrange(i - k, i - k + p.len() as int) =~= s.subrange(
        i,
        i + p.len() as int,
    ));
}

/// `find_idx_from` is `find_idx` on the skipped sequence, shifted by `k`.
proof fn lemma_find_from_align(s: Seq<char>, k: int, p: Seq<char>)
    requires
        0 <= k <= s.len(),
    ensures
        find_idx_from(s, k, p) is Some <==> find_idx(s.skip(k), p) is Some,
        find_idx_from(s, k, p) is Some ==> find_idx_from(s, k, p)->0 == k + find_idx(
            s.skip(k),
            p,
        )->0,
{
}

/// First occurrence of `p` anywhere in `s`.
pub fn find_sub(s: &Vec<char>, p: &Vec<char>) -> (r: Option<usize>)
    ensures
        match r {
            Some(i) => find_idx(s@, p@) == Some(i as int),
            None => find_idx(s@, p@) is None,
        },
{
    let r = find_sub_from(s, 0, p);
    proof {
        assert(s@.skip(0) =~= s@);
    }
    r
}

/// First occurrence of the character `c` in `s` at or after position `k`.
pub fn find_ch_from(s: &Vec<char>, k: usize, c: char) -> (r: Option<usize>)
    requires
        k <= s@.len(),
    ensures
        match r {
            Some(i) => find_char_from(s@, k as int, c) == Some(i as int),
            None => find_char_from(s@, k as int, c) is None,
        },
{
    let p: Vec<char> = vec![c];
    proof {
        assert(p@ =~= seq![c]);
    }
    find_sub_from(s, k, &p)
}

/// First occurrence of the character `c` anywhere in `s`.
pub fn find_ch(s: &Vec<char>, c: char) -> (r: Option<usize>)
    ensures
        match r {
            Some(i) => find_char(s@, c) == Some(i as int),
            None => find_char(s@, c) is None,
        },
{
    let p: Vec<char> = vec![c];
    proof {
        assert(p@ =~= seq![c]);
    }
    find_sub(s, &p)
}

/// Last occurrence of the character `c` in `s`.
pub fn rfind_ch(s: &Vec<char>, c: char) -> (r: Option<usize>)
    ensures
        match r {
            Some(i) => rfind_char(s@, c) == Some(i as int),
            None => rfind_char(s@, c) is None,
        },
{
    let mut i: usize = s.len();
    while i > 0
        invariant
            i <= s@.len(),
            forall|j: int| i <= j < s@.len() ==> s@[j] != c,
        decreases i,
    {
        i -= 1;
        if s[i] == c {
            proof {
                lemma_rfind_char_props(s@, c);
                match rfind_char(s@, c) {
                    Some(x) => {
                        if x < i {
                            assert(s@[i as int] != c);
                        }
                        if i < x {
                            assert(s@[x] != c);
                        }
                    },
                    None => {
                        assert(s@[i as int] != c);
                    },
                }
            }
            return Some(i);
        }
    }
    proof {
        lemma_rfind_char_props(s@, c);
        if rfind_char(s@, c) is Some {
            let x = rfind_char(s@, c)->0;
            assert(s@[x] != c);
        }
    }
    None
}

/// Copy of `s[i..j]` as a fresh vector.
pub fn subvec(s: &Vec<char>, i: usize, j: usize) -> (r: Vec<char>)
    requires
        i <= j <= s@.len(),
    ensures
        r@ == s@.subrange(i as int, j as int),
{
    let mut r: Vec<char> = Vec::new();
    let mut x: usize = i;
    while x < j
        invariant
            i <= x <= j <= s@.len(),
            r@ =~= s@.subrange(i as int, x as int),
        decreases j - x,
    {
        r.push(s[x]);
        proof {
            assert(r@ =~= s@.subrange(i as int, x + 1));
        }
        x += 1;
    }
    proof {
        assert(r@ =~= s@.subrange(i as int, j as int));
    }
    r
}

/// Append every character of `src` to `dst`.
pub fn extend_chars(dst: &mut Vec<char>, src: &Vec<char>)
    ensures
        final(dst)@ == old(dst)@ + src@,
{
    let mut x: usize = 0;
    while x < src.len()
        invariant
            x <= src@.len(),
            dst@ =~= old(dst)@ + src@.subrange(0, x as int),
        decreases src@.len() - x,
    {
        dst.push(src[x]);
        proof {
            assert(dst@ =~= old(dst)@ + src@.subrange(0, x + 1));
        }
        x += 1;
    }
    proof {
        assert(dst@ =~= old(dst)@ + src@);
    }
}

/// Are two character vectors equal?
pub fn chars_eq(a: &Vec<char>, b: &Vec<char>) -> (r: bool)
    ensures
        r == (a@ == b@),
{
    if a.len() != b.len() {
        return false;
    }
    let mut i: usize = 0;
    while i < a.len()
        invariant
            0 <= i <= a@.len(),
            a@.len() == b@.len(),
            forall|j: int| 0 <= j < i ==> a@[j] == b@[j],
        decreases a@.len() - i,
    {
        if a[i] != b[i] {
            return false;
        }
        i += 1;
    }
    proof {
        assert(a@ =~= b@);
    }
    true
}

/// Are two strings equal, as sequences of characters?
pub fn str_eq(a: &str, b: &str) -> (r: bool)
    ensures
        r == (a@ == b@),
{
    let va = str_to_chars(a);
    let vb = str_to_chars(b);
    chars_eq(&va, &vb)
}

/// Words joined by a separator.
pub open spec fn joined_sep(ws: Seq<Seq<char>>, sep: Seq<char>) -> Seq<char>
    decreases ws.len(),
{
    if ws.len() == 0 {
        Seq::<char>::empty()
    } else if ws.len() == 1 {
        ws[0]
    } else {
        joined_sep(ws.drop_last(), sep) + sep + ws.last()
    }
}

/// Join strings with a separator.
pub fn join_strings(ws: &Vec<String>, sep: &str) -> (r: Vec<char>)
    ensures
        r@ == joined_sep(ws.deep_view(), sep@),
{
    let mut r: Vec<char> = Vec::new();
    let mut i: usize = 0;
    proof {
        assert(r@ =~= joined_sep(ws.deep_view().take(0), sep@));
    }
    while i < ws.len()
        invariant
            0 <= i <= ws@.len(),
            ws.deep_view().len() == ws@.len(),
            r@ == joined_sep(ws.deep_view().take(i as int), sep@),
        decreases ws@.len() - i,
    {
        let ghost pref = ws.deep_view().take(i as int);
        if i > 0 {
            let sv = str_to_chars(sep);
            extend_chars(&mut r, &sv);
        }
        let word = str_to_chars(ws[i].as_str());
        proof {
            assert(word@ == ws.deep_view()[i as int]);
        }
        extend_chars(&mut r, &word);
        proof {
            let pref2 = ws.deep_view().take(i + 1);
            assert(pref2.drop_last() =~= pref);
            assert(pref2.last() == ws.deep_view()[i as int]);
            if i == 0 {
                assert(r@ =~= joined_sep(pref2, sep@));
            } else {
                assert(r@ =~= joined_sep(pref, sep@) + sep@ + word@);
                assert(joined_sep(pref2, sep@) == joined_sep(pref, sep@) + sep@ + word@);
            }
        }
        i += 1;
    }
    proof {
        assert(ws.deep_view().take(ws@.len() as int) =~= ws.deep_view());
    }
    r
}

/// Relies on `str::chars`: iterating a `&str` yields exactly the characters
/// of its view, in order.
#[verifier::external_body]
pub fn str_to_chars(s: &str) -> (r: Vec<char>)
    ensures
        r@ == s@,
{
    s.chars().collect()
}

/// Relies on `String`'s `FromIterator<char>` impl: collecting characters
/// builds the string holding exactly those characters, in order.
#[verifier::external_body]
pub fn chars_to_string(v: &Vec<char>) -> (r: String)
    ensures
        r@ == v@,
{
    v.iter().collect()
}

} // verus!
