//! User-profile updates over the database wrapper.

use vstd::prelude::*;

use crate::protocol::UserProfile;

verus! {

/// The database handle behind profile updates.  This stands in for the
/// relational store, which persists nothing here.
#[derive(Clone)]
pub struct DbPool;

impl DbPool {
    /// A fresh handle.
    pub fn new() -> (r: DbPool)
    {
        DbPool
    }

    /// Store the new name and bio for the single local user.
    pub fn update_user(&self, name: String, bio: String) -> (r: UserProfile)
        ensures
            r.id == 1,
            r.name@ == name@,
            r.bio@ == bio@,
    {
        UserProfile { id: 1, name, bio }
    }
}

/// Apply a profile-update request: an empty name is rejected, anything else
/// is stored and echoed back.
pub fn update_profile_logic(state: &DbPool, name: String, bio: String) -> (r: Result<
    UserProfile,
    String,
>)
    ensures
        name@.len() == 0 ==> (r matches Err(e) && e@ == "Name required"@),
        name@.len() > 0 ==> (r matches Ok(p) && p.id == 1 && p.name@ == name@ && p.bio@ == bio@),
{
    if name.as_str().is_empty() {
        let msg = crate::text::chars_to_string(&crate::text::str_to_chars("Name required"));
        Err(msg)
    } else {
        Ok(state.update_user(name, bio))
    }
}

} // verus!
