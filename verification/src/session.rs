//! Session registry.
//!
//! Each running agent session owns a terminal session and a workspace root.
//! The tool layer reaches that state through a registry keyed by session id
//! — an explicit object handed by reference to whoever dispatches tools,
//! not a process-wide singleton.

use vstd::prelude::*;

use crate::text::{chars_eq, str_to_chars};

verus! {

/// What the tool layer needs to know about one running session.
#[derive(Debug, Clone, PartialEq)]
pub struct SessionRecord {
    /// The agent session's id.
    pub id: String,
    /// The workspace root the session works under.
    pub root: String,
    /// The id of the session's persistent terminal.
    pub terminal_session_id: String,
}

impl View for SessionRecord {
    type V = (Seq<char>, Seq<char>, Seq<char>);

    open spec fn view(&self) -> (Seq<char>, Seq<char>, Seq<char>) {
        (self.id@, self.root@, self.terminal_session_id@)
    }
}

/// The records as models, newest first.
pub open spec fn records_view(s: Seq<SessionRecord>) -> Seq<(Seq<char>, Seq<char>, Seq<char>)> {
    s.map_values(|r: SessionRecord| r@)
}

/// The record registered under `id`, if any: the first match wins.
pub open spec fn reg_lookup(s: Seq<(Seq<char>, Seq<char>, Seq<char>)>, id: Seq<char>) -> Option<
    (Seq<char>, Seq<char>, Seq<char>),
>
    decreases s.len(),
{
    if s.len() == 0 {
        None
    } else if s[0].0 == id {
        Some(s[0])
    } else {
        reg_lookup(s.drop_first(), id)
    }
}

/// The records with every entry under `id` removed.
pub open spec fn drop_id(s: Seq<(Seq<char>, Seq<char>, Seq<char>)>, id: Seq<char>) -> Seq<
    (Seq<char>, Seq<char>, Seq<char>),
>
    decreases s.len(),
{
    if s.len() == 0 {
        s
    } else if s[0].0 == id {
        drop_id(s.drop_first(), id)
    } else {
        seq![s[0]] + drop_id(s.drop_first(), id)
    }
}

/// Removing an id removes exactly its entries: lookups of the removed id
/// fail, all other lookups are untouched.
pub proof fn lemma_drop_id_lookup(s: Seq<(Seq<char>, Seq<char>, Seq<char>)>, id: Seq<char>)
    ensures
        reg_lookup(drop_id(s, id), id) is None,
        forall|id2: Seq<char>|
            id2 != id ==> #[trigger] reg_lookup(drop_id(s, id), id2) == reg_lookup(s, id2),
    decreases s.len(),
{
    if s.len() == 0 {
    } else {
        lemma_drop_id_lookup(s.drop_first(), id);
        if s[0].0 == id {
        } else {
            let d = seq![s[0]] + drop_id(s.drop_first(), id);
            assert(d[0] == s[0]);
            assert(d.drop_first() =~= drop_id(s.drop_first(), id));
        }
    }
}

/// The registry of running sessions.
pub struct SessionRegistry {
    records: Vec<SessionRecord>,
}

impl SessionRegistry {
    /// The registered records, newest first.
    pub closed spec fn records(&self) -> Seq<(Seq<char>, Seq<char>, Seq<char>)> {
        records_view(self.records@)
    }

    /// An empty registry.
    pub fn new() -> (r: SessionRegistry)
        ensures
            r.records() == Seq::<(Seq<char>, Seq<char>, Seq<char>)>::empty(),
    {
        let r = SessionRegistry { records: Vec::new() };
        proof {
            assert(r.records() =~= Seq::<(Seq<char>, Seq<char>, Seq<char>)>::empty());
        }
        r
    }

    /// Remove whatever is registered under `id`.  Every other registration
    /// is untouched.
    pub fn unregister_session(&mut self, id: &str)
        ensures
            final(self).records() == drop_id(old(self).records(), id@),
            reg_lookup(final(self).records(), id@) is None,
            forall|id2: Seq<char>|
                id2 != id@ ==> #[trigger] reg_lookup(final(self).records(), id2) == reg_lookup(
                    old(self).records(),
                    id2,
                ),
    {
        let idv = str_to_chars(id);
        let mut kept: Vec<SessionRecord> = Vec::new();
        let mut i: usize = 0;
        let ghost full = records_view(self.records@);
        proof {
            assert(full.skip(0) =~= full);
            assert(records_view(kept@) =~= Seq::<(Seq<char>, Seq<char>, Seq<char>)>::empty());
        }
        while i < self.records.len()
            invariant
                0 <= i <= self.records@.len(),
                idv@ == id@,
                full == records_view(self.records@),
                full.len() == self.records@.len(),
                drop_id(full, id@) == records_view(kept@) + drop_id(full.skip(i as int), id@),
            decreases self.records@.len() - i,
        {
            let ghost kept_before = records_view(kept@);
            proof {
                assert(full.skip(i as int)[0] == full[i as int]);
                assert(full[i as int] == self.records@[i as int]@);
                assert(full.skip(i as int).drop_first() =~= full.skip(i + 1));
            }
            let rid = str_to_chars(self.records[i].id.as_str());
            if !chars_eq(&rid, &idv) {
                let rec = SessionRecord {
                    id: self.records[i].id.clone(),
                    root: self.records[i].root.clone(),
                    terminal_session_id: self.records[i].terminal_session_id.clone(),
                };
                proof {
                    assert(rec@ == full[i as int]);
                }
                kept.push(rec);
                proof {
                    assert forall|j: int| 0 <= j < kept@.len() implies records_view(kept@)[j] == (
                    kept_before + seq![full[i as int]])[j] by {
                        assert(records_view(kept@)[j] == kept@[j]@);
                    }
                    assert(records_view(kept@) =~= kept_before + seq![full[i as int]]);
                    assert((kept_before + seq![full[i as int]]) + drop_id(full.skip(i + 1), id@)
                        =~= kept_before + (seq![full[i as int]] + drop_id(full.skip(i + 1), id@)));
                }
            }
            i += 1;
        }
        proof {
            assert(full.skip(self.records@.len() as int) =~= Seq::<
                (Seq<char>, Seq<char>, Seq<char>),
            >::empty());
            assert(records_view(kept@) + drop_id(full.skip(self.records@.len() as int), id@)
                =~= records_view(kept@));
            lemma_drop_id_lookup(full, id@);
        }
        self.records = kept;
    }

    /// Register `rec` under its id, replacing whatever was registered there.
    /// Every other registration is untouched.
    pub fn register_session(&mut self, rec: SessionRecord)
        ensures
            reg_lookup(final(self).records(), rec.id@) == Some(rec@),
            forall|id2: Seq<char>|
                id2 != rec.id@ ==> #[trigger] reg_lookup(final(self).records(), id2) == reg_lookup(
                    old(self).records(),
                    id2,
                ),
    {
        let ghost recm = rec@;
        self.unregister_session(rec.id.clone().as_str());
        let ghost cleaned = self.records();
        let mut rebuilt: Vec<SessionRecord> = Vec::new();
        rebuilt.push(rec);
        rebuilt.append(&mut self.records);
        self.records = rebuilt;
        proof {
            assert forall|j: int| 0 <= j < self.records@.len() implies records_view(
                self.records@,
            )[j] == (seq![recm] + cleaned)[j] by {
                assert(records_view(self.records@)[j] == self.records@[j]@);
            }
            assert(records_view(self.records@) =~= seq![recm] + cleaned);
            let f = records_view(self.records@);
            assert(f[0] == recm);
            assert(f.drop_first() =~= cleaned);
            assert forall|id2: Seq<char>| id2 != recm.0 implies #[trigger] reg_lookup(f, id2)
                == reg_lookup(old(self).records(), id2) by {
                assert(reg_lookup(f, id2) == reg_lookup(cleaned, id2));
            }
        }
    }

    /// The record registered under `id`, if any.
    pub fn get_session(&self, id: &str) -> (r: Option<SessionRecord>)
        ensures
            match r {
                Some(rec) => reg_lookup(self.records(), id@) == Some(rec@),
                None => reg_lookup(self.records(), id@) is None,
            },
    {
        let idv = str_to_chars(id);
        let mut i: usize = 0;
        let ghost full = self.records();
        proof {
            assert(full.skip(0) =~= full);
        }
        while i < self.records.len()
            invariant
                0 <= i <= self.records@.len(),
                idv@ == id@,
                full == self.records(),
                full.len() == self.records@.len(),
                reg_lookup(full, id@) == reg_lookup(full.skip(i as int), id@),
            decreases self.records@.len() - i,
        {
            proof {
                assert(full.skip(i as int)[0] == full[i as int]);
                assert(full[i as int] == self.records@[i as int]@);
                assert(full.skip(i as int).drop_first() =~= full.skip(i + 1));
            }
            let rid = str_to_chars(self.records[i].id.as_str());
            if chars_eq(&rid, &idv) {
                let rec = SessionRecord {
                    id: self.records[i].id.clone(),
                    root: self.records[i].root.clone(),
                    terminal_session_id: self.records[i].terminal_session_id.clone(),
                };
                proof {
                    assert(rec@ == full[i as int]);
                }
                return Some(rec);
            }
            i += 1;
        }
        proof {
            assert(full.skip(self.records@.len() as int) =~= Seq::<
                (Seq<char>, Seq<char>, Seq<char>),
            >::empty());
        }
        None
    }
}

/// Relies on `uuid::Uuid::new_v4` and its `Display` impl: a fresh random
/// version-4 UUID rendered in the hyphenated format of 36 characters.
/// Nothing beyond the length holds of every outcome.
#[verifier::external_body]
fn new_session_id() -> (r: String)
    ensures
        r@.len() == 36,
{
    uuid::Uuid::new_v4().to_string()
}

/// The record for a newly started session: a fresh id over the given
/// workspace root and terminal session.
pub fn fresh_session_record(root: String, terminal_session_id: String) -> (r: SessionRecord)
    ensures
        r.id@.len() == 36,
        r.root@ == root@,
        r.terminal_session_id@ == terminal_session_id@,
{
    SessionRecord { id: new_session_id(), root, terminal_session_id }
}

} // verus!
