//! Chunk-insensitivity of the streaming parser.
//!
//! Feeding a text to the parser in fragments yields the same event stream as
//! feeding it whole, up to the coalescing of adjacent `Token` payloads.  The
//! statement flattens each event stream — a `Token` becomes its characters,
//! every other event a marker — so that two streams are equivalent exactly
//! when their flattenings are equal, and proves the flattenings equal.

use vstd::prelude::*;

use crate::parser::{
    classify, close_tag, drain, flush_hold, open_tag, step, text_flush, tool_close, tool_prefix, EventModel, ParserState,
};
use crate::text::{
    find_char, find_char_from, find_idx, find_idx_from, lemma_find_idx_append,
    lemma_find_idx_is_first, lemma_find_idx_props, lemma_matches_at_append, lemma_rfind_char_props,
    matches_at, rfind_char,
};

verus! {

/// One atom of a flattened event stream: a character of some `Token`, or a
/// non-`Token` event.
pub enum FlatItem {
    Chr(char),
    Mark(EventModel),
}

/// One character as a flat item.
pub open spec fn chr_item(c: char) -> FlatItem {
    FlatItem::Chr(c)
}

/// The characters of a token payload, as flat items.
pub open spec fn flat_token(s: Seq<char>) -> Seq<FlatItem> {
    Seq::new(s.len(), |i: int| chr_item(s[i]))
}

/// The flattening of one event.
pub open spec fn flat_one(e: EventModel) -> Seq<FlatItem> {
    match e {
        EventModel::Token(s) => flat_token(s),
        _ => seq![FlatItem::Mark(e)],
    }
}

/// The flattening of an event stream.  Two streams with equal flattenings
/// carry the same tool-call structure and the same token text.
pub open spec fn flat(evs: Seq<EventModel>) -> Seq<FlatItem>
    decreases evs.len(),
{
    if evs.len() == 0 {
        Seq::<FlatItem>::empty()
    } else {
        flat_one(evs[0]) + flat(evs.drop_first())
    }
}

/// Flattening distributes over concatenation of event streams.
pub proof fn lemma_flat_append(a: Seq<EventModel>, b: Seq<EventModel>)
    ensures
        flat(a + b) == flat(a) + flat(b),
    decreases a.len(),
{
    if a.len() == 0 {
        assert(a + b =~= b);
        assert(flat(a) + flat(b) =~= flat(b));
    } else {
        assert((a + b).drop_first() =~= a.drop_first() + b);
        lemma_flat_append(a.drop_first(), b);
        assert((a + b)[0] == a[0]);
        assert(flat_one(a[0]) + (flat(a.drop_first()) + flat(b)) =~= (flat_one(a[0]) + flat(
            a.drop_first(),
        )) + flat(b));
    }
}

/// Flattening a token payload distributes over splitting the payload.
pub proof fn lemma_flat_token_split(s: Seq<char>, t: Seq<char>)
    ensures
        flat_token(s + t) == flat_token(s) + flat_token(t),
{
    assert(flat_token(s + t).len() == (flat_token(s) + flat_token(t)).len());
    assert forall|i: int| 0 <= i < (s + t).len() implies flat_token(s + t)[i] == (flat_token(
        s,
    ) + flat_token(t))[i] by {
        if i < s.len() {
            assert((s + t)[i] == s[i]);
            assert((flat_token(s) + flat_token(t))[i] == flat_token(s)[i]);
        } else {
            assert((s + t)[i] == t[i - s.len()]);
            assert((flat_token(s) + flat_token(t))[i] == flat_token(t)[i - s.len()]);
        }
    }
    assert(flat_token(s + t) =~= flat_token(s) + flat_token(t));
}

/// The token events a flush or text step emits for a safe prefix `s`.
pub open spec fn tok_evs(s: Seq<char>) -> Seq<EventModel> {
    if s.len() > 0 {
        seq![EventModel::Token(s)]
    } else {
        Seq::<EventModel>::empty()
    }
}

/// The flattening of the token events for `s` is just the characters of `s`.
pub proof fn lemma_flat_tok_evs(s: Seq<char>)
    ensures
        flat(tok_evs(s)) == flat_token(s),
{
    if s.len() > 0 {
        assert(tok_evs(s).drop_first() =~= Seq::<EventModel>::empty());
        assert(flat(Seq::<EventModel>::empty()) =~= Seq::<FlatItem>::empty());
        assert(flat_token(s) + Seq::<FlatItem>::empty() =~= flat_token(s));
    } else {
        assert(flat_token(s).len() == 0);
        assert(flat_token(s) =~= Seq::<FlatItem>::empty());
    }
}

/// `(b + e).skip(k)` is `b.skip(k) + e` for a cut inside `b`.
proof fn lemma_skip_append(b: Seq<char>, e: Seq<char>, k: int)
    requires
        0 <= k <= b.len(),
    ensures
        (b + e).skip(k) == b.skip(k) + e,
{
    assert((b + e).skip(k) =~= b.skip(k) + e);
}

/// A full window match survives appending; a definite mismatch does too.
proof fn lemma_classify_append(b: Seq<char>, e: Seq<char>, i: int, p: Seq<char>)
    requires
        0 <= i <= b.len(),
        !(classify(b, i, p) is Partial),
    ensures
        classify(b + e, i, p) == classify(b, i, p),
{
    if classify(b, i, p) is Full {
        lemma_matches_at_append(b, e, i, p);
    } else {
        // A mismatch has a definite witness inside `b`, which persists.
        let j = choose|j: int|
            0 <= j < p.len() && i + j < b.len() && b[i + j] != p[j];
        if !(exists|j: int| 0 <= j < p.len() && i + j < b.len() && b[i + j] != p[j]) {
            if b.len() >= i + p.len() {
                assert(b.subrange(i, i + p.len() as int) =~= p);
                assert(classify(b, i, p) is Full);
            } else {
                assert(b.skip(i) =~= p.take(b.len() - i));
                assert(classify(b, i, p) is Partial);
            }
        }
        assert(0 <= j < p.len() && i + j < b.len() && b[i + j] != p[j]);
        if matches_at(b + e, i, p) {
            assert((b + e).subrange(i, i + p.len() as int)[j] == (b + e)[i + j]);
        }
        if classify(b + e, i, p) is Partial {
            assert((b + e).skip(i)[j] == (b + e)[i + j]);
            assert(p.take((b + e).len() - i)[j] == p[j]);
        }
    }
}

/// An applicable reduction is unaffected by appending input: the same rule
/// fires, consuming the same characters and emitting the same events.
proof fn lemma_step_append(st: ParserState, b: Seq<char>, e: Seq<char>)
    requires
        step(st, b) is Some,
    ensures
        step(st, b + e) == step(st, b),
{
    match st {
        ParserState::Text => {
            lemma_find_idx_props(b, open_tag());
            let i = find_idx(b, open_tag())->0;
            lemma_find_idx_append(b, e, open_tag());
            assert((b + e).take(i) =~= b.take(i));
        },
        ParserState::InTag => {
            lemma_find_idx_props(b, seq!['<']);
            let i = find_char(b, '<')->0;
            assert(matches_at(b, i, seq!['<']));
            lemma_find_idx_append(b, e, seq!['<']);
            assert((b + e)[i + 1] == b[i + 1]);
            if b[i + 1] == '/' {
                lemma_classify_append(b, e, i, close_tag());
            } else {
                lemma_classify_append(b, e, i, tool_prefix());
                if classify(b, i, tool_prefix()) is Full {
                    match find_char_from(b, i, '>') {
                        Some(g) => {
                            lemma_find_idx_append(b.skip(i), e, seq!['>']);
                            lemma_skip_append(b, e, i);
                            lemma_find_idx_props(b.skip(i), seq!['>']);
                            let gg = find_idx(b.skip(i), seq!['>'])->0;
                            assert(matches_at(b.skip(i), gg, seq!['>']));
                            assert((b + e).subrange(i, g + 1) =~= b.subrange(i, g + 1));
                        },
                        None => {},
                    }
                }
            }
        },
        ParserState::InToolArg => {
            lemma_find_idx_props(b, seq!['<']);
            let i = find_char(b, '<')->0;
            assert(matches_at(b, i, seq!['<']));
            lemma_find_idx_append(b, e, seq!['<']);
            assert((b + e)[i + 1] == b[i + 1]);
            if b[i + 1] == '/' {
                lemma_classify_append(b, e, i, tool_close());
            } else {
                match find_char_from(b, i, '>') {
                    Some(g) => {
                        lemma_find_idx_append(b.skip(i), e, seq!['>']);
                        lemma_skip_append(b, e, i);
                        lemma_find_idx_props(b.skip(i), seq!['>']);
                        let gg = find_idx(b.skip(i), seq!['>'])->0;
                        assert(matches_at(b.skip(i), gg, seq!['>']));
                        assert(b.skip(i).subrange(gg, gg + 1)[0] == b.skip(i)[gg]);
                        assert(b[g] == '>');
                        assert(b.subrange(i, i + 1)[0] == b[i]);
                        assert(b[i] == '<');
                        assert((b + e).subrange(i + 1, g) =~= b.subrange(i + 1, g));
                        let name = b.subrange(i + 1, g);
                        let closing = seq!['<', '/'] + name + seq!['>'];
                        match find_idx_from(b, g + 1, closing) {
                            Some(c) => {
                                lemma_find_idx_append(b.skip(g + 1), e, closing);
                                lemma_skip_append(b, e, g + 1);
                                lemma_find_idx_props(b.skip(g + 1), closing);
                                let cc = find_idx(b.skip(g + 1), closing)->0;
                                assert(matches_at(b.skip(g + 1), cc, closing));
                                assert((b + e).subrange(g + 1, c) =~= b.subrange(g + 1, c));
                            },
                            None => {},
                        }
                    },
                    None => {},
                }
            }
        },
    }
}

/// The opening marker contains `<` only at its head.
proof fn lemma_open_tag_shape()
    ensures
        open_tag().len() == 11,
        open_tag()[0] == '<',
        forall|j: int| 1 <= j < 11 ==> open_tag()[j] != '<',
{
    reveal_strlit("<tool_code>");
    assert forall|j: int| 1 <= j < 11 implies open_tag()[j] != '<' by {
        if j == 1 {
            assert(open_tag()[1] == 't');
        } else if j == 2 {
            assert(open_tag()[2] == 'o');
        } else if j == 3 {
            assert(open_tag()[3] == 'o');
        } else if j == 4 {
            assert(open_tag()[4] == 'l');
        } else if j == 5 {
            assert(open_tag()[5] == '_');
        } else if j == 6 {
            assert(open_tag()[6] == 'c');
        } else if j == 7 {
            assert(open_tag()[7] == 'o');
        } else if j == 8 {
            assert(open_tag()[8] == 'd');
        } else if j == 9 {
            assert(open_tag()[9] == 'e');
        } else {
            assert(open_tag()[10] == '>');
        }
    }
}

/// Where no opening marker lies inside `b`, any occurrence in `b + e` starts
/// at or after the flush cut of `b`.
proof fn lemma_open_occurrence_beyond_hold(b: Seq<char>, e: Seq<char>, q: int)
    requires
        find_idx(b, open_tag()) is None,
        matches_at(b + e, q, open_tag()),
    ensures
        q >= flush_hold(b),
{
    lemma_open_tag_shape();
    lemma_find_idx_props(b, open_tag());
    lemma_rfind_char_props(b, '<');
    let h = flush_hold(b);
    if q + open_tag().len() <= b.len() {
        assert(b.subrange(q, q + open_tag().len() as int) =~= (b + e).subrange(
            q,
            q + open_tag().len() as int,
        ));
        assert(matches_at(b, q, open_tag()));
    }
    if q < b.len() {
        assert((b + e).subrange(q, q + open_tag().len() as int)[0] == (b + e)[q]);
        assert(b[q] == '<');
        match rfind_char(b, '<') {
            Some(l) => {
                assert(q <= l);
                if q < l {
                    assert((b + e).subrange(q, q + open_tag().len() as int)[l - q] == (b
                        + e)[l]);
                    assert(open_tag()[l - q] == '<');
                }
            },
            None => {
                assert(b[q] != '<');
            },
        }
    }
}

/// The flush cut of `b + e` decomposes as the cut of `b` plus the cut of the
/// remainder.
proof fn lemma_hold_decompose(b: Seq<char>, e: Seq<char>)
    requires
        find_idx(b, open_tag()) is None,
    ensures
        flush_hold(b) <= b.len(),
        flush_hold(b + e) == flush_hold(b) + flush_hold((b + e).skip(flush_hold(b))),
{
    lemma_rfind_char_props(b, '<');
    lemma_rfind_char_props(b + e, '<');
    let h = flush_hold(b);
    let s = (b + e).skip(h);
    lemma_rfind_char_props(s, '<');
    match rfind_char(b, '<') {
        Some(l) => {
            assert(s[0] == b[l]);
            match rfind_char(b + e, '<') {
                Some(m) => {
                    assert(h <= m);
                    match rfind_char(s, '<') {
                        Some(x) => {
                            assert((b + e)[h + x] == '<');
                            assert(h + x <= m);
                            assert(s[m - h] == (b + e)[m]);
                            assert(m - h <= x);
                        },
                        None => {
                            assert(s[0] != '<');
                        },
                    }
                },
                None => {
                    assert((b + e)[h] == b[h]);
                },
            }
        },
        None => {
            assert(s =~= e);
            match rfind_char(b + e, '<') {
                Some(m) => {
                    assert(b.len() <= m);
                    match rfind_char(s, '<') {
                        Some(x) => {
                            assert((b + e)[b.len() + x] == '<');
                            assert(b.len() + x <= m);
                            assert(s[m - b.len()] == (b + e)[m]);
                            assert(m - b.len() <= x);
                        },
                        None => {
                            assert(s[m - b.len()] == (b + e)[m]);
                        },
                    }
                },
                None => {
                    match rfind_char(s, '<') {
                        Some(x) => {
                            assert((b + e)[b.len() + x] == '<');
                        },
                        None => {},
                    }
                },
            }
        },
    }
}

/// Draining commutes with appending input: draining `b`, then draining with
/// `e` appended to what was retained, ends in the same state and buffer as
/// draining `b + e` at once, and the flattened events agree.
pub proof fn lemma_drain_append(st: ParserState, b: Seq<char>, e: Seq<char>)
    ensures
        ({
            let d1 = drain(st, b);
            let d2 = drain(d1.0, d1.1 + e);
            let dw = drain(st, b + e);
            &&& dw.0 == d2.0
            &&& dw.1 == d2.1
            &&& flat(dw.2) == flat(d1.2) + flat(d2.2)
        }),
    decreases b.len(),
{
    let d1 = drain(st, b);
    match step(st, b) {
        Some(r) => {
            crate::parser::lemma_step_consumes(st, b);
            lemma_step_append(st, b, e);
            let k = r.1;
            lemma_skip_append(b, e, k);
            lemma_drain_append(r.0, b.skip(k), e);
            let rest = drain(r.0, b.skip(k));
            let i2 = drain(rest.0, rest.1 + e);
            let iw = drain(r.0, b.skip(k) + e);
            let dw = drain(st, b + e);
            assert(dw.2 == r.2 + iw.2);
            lemma_flat_append(r.2, iw.2);
            lemma_flat_append(r.2, rest.2);
            assert(flat(r.2) + (flat(rest.2) + flat(i2.2)) =~= (flat(r.2) + flat(rest.2))
                + flat(i2.2));
        },
        None => {
            match st {
                ParserState::InTag => {
                    assert(d1 == (st, b, Seq::<EventModel>::empty()));
                    assert(flat(drain(st, b + e).2) =~= flat(Seq::<EventModel>::empty())
                        + flat(drain(st, b + e).2));
                },
                ParserState::InToolArg => {
                    assert(d1 == (st, b, Seq::<EventModel>::empty()));
                    assert(flat(drain(st, b + e).2) =~= flat(Seq::<EventModel>::empty())
                        + flat(drain(st, b + e).2));
                },
                ParserState::Text => {
                    lemma_drain_append_text_flush(b, e);
                },
            }
        },
    }
}

/// The `Text`-state flush case of `lemma_drain_append`: no opening marker in
/// `b`, so `b` flushes at its cut; appending `e` continues consistently.
proof fn lemma_drain_append_text_flush(b: Seq<char>, e: Seq<char>)
    requires
        step(ParserState::Text, b) is None,
    ensures
        ({
            let d1 = text_flush(b);
            let d2 = drain(d1.0, d1.1 + e);
            let dw = drain(ParserState::Text, b + e);
            &&& dw.0 == d2.0
            &&& dw.1 == d2.1
            &&& flat(dw.2) == flat(d1.2) + flat(d2.2)
        }),
{
    lemma_find_idx_props(b, open_tag());
    lemma_rfind_char_props(b, '<');
    let h = flush_hold(b);
    assert(h <= b.len());
    let d1 = text_flush(b);
    lemma_skip_append(b, e, h);
    assert(d1.1 + e == (b + e).skip(h));
    lemma_find_idx_props(b + e, open_tag());
    match find_idx(b + e, open_tag()) {
        Some(q) => {
            lemma_text_flush_fire(b, e, q);
        },
        None => {
            lemma_text_flush_none(b, e);
        },
    }
}

/// Flush case where `b + e` contains the opening marker: the whole input
/// fires the text step at `q`; the flushed side fires it on the retained
/// suffix, and the two sides re-join on the same tail.
#[verifier::rlimit(80)]
proof fn lemma_text_flush_fire(b: Seq<char>, e: Seq<char>, q: int)
    requires
        step(ParserState::Text, b) is None,
        find_idx(b + e, open_tag()) == Some(q),
    ensures
        ({
            let d1 = text_flush(b);
            let d2 = drain(d1.0, d1.1 + e);
            let dw = drain(ParserState::Text, b + e);
            &&& dw.0 == d2.0
            &&& dw.1 == d2.1
            &&& flat(dw.2) == flat(d1.2) + flat(d2.2)
        }),
{
    lemma_open_tag_shape();
    lemma_find_idx_props(b, open_tag());
    lemma_rfind_char_props(b, '<');
    let h = flush_hold(b);
    assert(h <= b.len());
    let d1 = text_flush(b);
    lemma_skip_append(b, e, h);
    assert(d1.1 + e == (b + e).skip(h));
    let s = (b + e).skip(h);
    lemma_find_idx_props(b + e, open_tag());
    {
        {
            // The whole input fires the text step at `q`; the flushed side
            // fires it at `q - h` on the retained suffix.
            assert(matches_at(b + e, q, open_tag()));
            lemma_open_occurrence_beyond_hold(b, e, q);
            assert(s.subrange(q - h, q - h + open_tag().len() as int) =~= (b + e).subrange(
                q,
                q + open_tag().len() as int,
            ));
            assert(matches_at(s, q - h, open_tag()));
            assert forall|j: int| 0 <= j < q - h implies !matches_at(s, j, open_tag()) by {
                if matches_at(s, j, open_tag()) {
                    assert((b + e).subrange(h + j, h + j + open_tag().len() as int)
                        =~= s.subrange(j, j + open_tag().len() as int));
                    assert(matches_at(b + e, h + j, open_tag()));
                }
            }
            lemma_find_idx_is_first(s, open_tag(), q - h);
            let k1 = q + open_tag().len() as int;
            let k2 = q - h + open_tag().len() as int;
            crate::parser::lemma_step_consumes(ParserState::Text, b + e);
            crate::parser::lemma_step_consumes(ParserState::Text, s);
            assert(s.skip(k2) =~= (b + e).skip(k1));
            let dtail = drain(ParserState::InTag, (b + e).skip(k1));
            // Events: token of the whole prefix versus flush token plus the
            // remainder token.
            let dw = drain(ParserState::Text, b + e);
            let d2 = drain(ParserState::Text, s);
            assert(dw.2 == tok_evs((b + e).take(q)) + dtail.2);
            assert(d2.2 == tok_evs(s.take(q - h)) + dtail.2);
            lemma_flat_append(tok_evs((b + e).take(q)), dtail.2);
            lemma_flat_append(tok_evs(s.take(q - h)), dtail.2);
            lemma_flat_tok_evs((b + e).take(q));
            lemma_flat_tok_evs(s.take(q - h));
            lemma_flat_tok_evs(b.take(h));
            assert((b + e).take(q) =~= b.take(h) + s.take(q - h));
            lemma_flat_token_split(b.take(h), s.take(q - h));
            assert(flat(dw.2) =~= (flat_token(b.take(h)) + flat_token(s.take(q - h)))
                + flat(dtail.2));
            assert(flat(d1.2) + flat(d2.2) =~= flat_token(b.take(h)) + (flat_token(
                s.take(q - h),
            ) + flat(dtail.2)));
            assert(d1.2 == tok_evs(b.take(h)));
        }
    }
}

/// Flush case where `b + e` holds no opening marker: both sides flush at
/// their cuts, which agree by decomposition of the cut.
#[verifier::rlimit(80)]
proof fn lemma_text_flush_none(b: Seq<char>, e: Seq<char>)
    requires
        step(ParserState::Text, b) is None,
        find_idx(b + e, open_tag()) is None,
    ensures
        ({
            let d1 = text_flush(b);
            let d2 = drain(d1.0, d1.1 + e);
            let dw = drain(ParserState::Text, b + e);
            &&& dw.0 == d2.0
            &&& dw.1 == d2.1
            &&& flat(dw.2) == flat(d1.2) + flat(d2.2)
        }),
{
    lemma_open_tag_shape();
    lemma_find_idx_props(b, open_tag());
    lemma_rfind_char_props(b, '<');
    let h = flush_hold(b);
    assert(h <= b.len());
    let d1 = text_flush(b);
    lemma_skip_append(b, e, h);
    assert(d1.1 + e == (b + e).skip(h));
    let s = (b + e).skip(h);
    lemma_find_idx_props(b + e, open_tag());
    {
        {
            // Neither side finds the marker: both flush at their cuts, and
            // the cuts agree by decomposition.
            lemma_hold_decompose(b, e);
            let h2 = flush_hold(b + e);
            let h2s = flush_hold(s);
            assert forall|j: int| !matches_at(s, j, open_tag()) by {
                if matches_at(s, j, open_tag()) {
                    assert((b + e).subrange(h + j, h + j + open_tag().len() as int)
                        =~= s.subrange(j, j + open_tag().len() as int));
                    assert(matches_at(b + e, h + j, open_tag()));
                }
            }
            lemma_find_idx_props(s, open_tag());
            if find_idx(s, open_tag()) is Some {
                let w = find_idx(s, open_tag())->0;
                assert(matches_at(s, w, open_tag()));
            }
            let dw = drain(ParserState::Text, b + e);
            let d2 = drain(ParserState::Text, s);
            assert(dw == text_flush(b + e));
            assert(d2 == text_flush(s));
            lemma_rfind_char_props(b + e, '<');
            lemma_rfind_char_props(s, '<');
            assert(h2s <= s.len());
            assert(dw.1 =~= d2.1);
            lemma_flat_tok_evs((b + e).take(h2));
            lemma_flat_tok_evs(s.take(h2s));
            lemma_flat_tok_evs(b.take(h));
            assert((b + e).take(h2) =~= b.take(h) + s.take(h2s));
            lemma_flat_token_split(b.take(h), s.take(h2s));
            assert(dw.2 == tok_evs((b + e).take(h2)));
            assert(d2.2 == tok_evs(s.take(h2s)));
            assert(text_flush(b).2 == tok_evs(b.take(h)));
        }
    }
}

/// A drained parser is quiescent: draining again moves nothing and emits
/// nothing.
pub proof fn lemma_drain_quiescent(st: ParserState, b: Seq<char>)
    ensures
        ({
            let d = drain(st, b);
            drain(d.0, d.1) == (d.0, d.1, Seq::<EventModel>::empty())
        }),
    decreases b.len(),
{
    match step(st, b) {
        Some(r) => {
            crate::parser::lemma_step_consumes(st, b);
            lemma_drain_quiescent(r.0, b.skip(r.1));
        },
        None => {
            match st {
                ParserState::Text => {
                    lemma_find_idx_props(b, open_tag());
                    lemma_rfind_char_props(b, '<');
                    let h = flush_hold(b);
                    let s = b.skip(h);
                    assert forall|j: int| !matches_at(s, j, open_tag()) by {
                        if matches_at(s, j, open_tag()) {
                            assert(b.subrange(h + j, h + j + open_tag().len() as int)
                                =~= s.subrange(j, j + open_tag().len() as int));
                            assert(matches_at(b, h + j, open_tag()));
                        }
                    }
                    lemma_find_idx_props(s, open_tag());
                    if find_idx(s, open_tag()) is Some {
                        let w = find_idx(s, open_tag())->0;
                        assert(matches_at(s, w, open_tag()));
                    }
                    lemma_rfind_char_props(s, '<');
                    match rfind_char(b, '<') {
                        Some(l) => {
                            assert(s[0] == b[l]);
                            match rfind_char(s, '<') {
                                Some(x) => {
                                    if x > 0 {
                                        assert(b[h + x] == s[x]);
                                    }
                                },
                                None => {
                                    assert(s[0] != '<');
                                },
                            }
                            assert(flush_hold(s) == 0);
                        },
                        None => {
                            assert(s =~= Seq::<char>::empty());
                            match rfind_char(s, '<') {
                                Some(x) => {
                                    assert(s[x] == '<');
                                },
                                None => {},
                            }
                        },
                    }
                    assert(text_flush(s).1 =~= s);
                },
                ParserState::InTag => {},
                ParserState::InToolArg => {},
            }
        },
    }
}

/// A fresh parser — the `Text` state with an empty buffer — is quiescent,
/// so the chunk-insensitivity theorem applies to it directly.
pub proof fn lemma_fresh_parser_quiescent()
    ensures
        drain(ParserState::Text, Seq::<char>::empty()) == (
            ParserState::Text,
            Seq::<char>::empty(),
            Seq::<EventModel>::empty(),
        ),
{
    reveal_strlit("<tool_code>");
    let b = Seq::<char>::empty();
    lemma_find_idx_props(b, open_tag());
    if find_idx(b, open_tag()) is Some {
        let i = find_idx(b, open_tag())->0;
        assert(matches_at(b, i, open_tag()));
    }
    lemma_rfind_char_props(b, '<');
    match rfind_char(b, '<') {
        Some(l) => {
            assert(b[l] == '<');
        },
        None => {},
    }
    assert(text_flush(b).1 =~= b);
}

/// Feeding fragments one at a time from a quiescent parser configuration.
pub open spec fn run_fragments(st: ParserState, b: Seq<char>, frags: Seq<Seq<char>>) -> (
    ParserState,
    Seq<char>,
    Seq<EventModel>,
)
    decreases frags.len(),
{
    if frags.len() == 0 {
        (st, b, Seq::<EventModel>::empty())
    } else {
        let d = drain(st, b + frags[0]);
        let rest = run_fragments(d.0, d.1, frags.drop_first());
        (rest.0, rest.1, d.2 + rest.2)
    }
}

/// Chunk-insensitivity: from a quiescent parser configuration, feeding any
/// fragments in order ends in the same state and buffer as feeding their
/// concatenation whole, and the two event streams flatten to the same
/// sequence — the non-`Token` events agree in content and position, and the
/// concatenated `Token` text agrees.
pub proof fn theorem_parse_chunk_insensitive(st: ParserState, b: Seq<char>, frags: Seq<Seq<char>>)
    requires
        drain(st, b) == (st, b, Seq::<EventModel>::empty()),
    ensures
        ({
            let whole = drain(st, b + frags.flatten());
            let parts = run_fragments(st, b, frags);
            &&& whole.0 == parts.0
            &&& whole.1 == parts.1
            &&& flat(whole.2) == flat(parts.2)
        }),
    decreases frags.len(),
{
    if frags.len() == 0 {
        assert(frags.flatten() =~= Seq::<char>::empty());
        assert(b + frags.flatten() =~= b);
    } else {
        let d = drain(st, b + frags[0]);
        lemma_drain_quiescent(st, b + frags[0]);
        theorem_parse_chunk_insensitive(d.0, d.1, frags.drop_first());
        lemma_drain_append(st, b + frags[0], frags.drop_first().flatten());
        assert(frags.flatten() == frags[0] + frags.drop_first().flatten());
        assert(b + frags.flatten() =~= (b + frags[0]) + frags.drop_first().flatten());
        let rest = run_fragments(d.0, d.1, frags.drop_first());
        let whole = drain(st, b + frags.flatten());
        let tail_whole = drain(d.0, d.1 + frags.drop_first().flatten());
        lemma_flat_append(d.2, rest.2);
    }
}

} // verus!
