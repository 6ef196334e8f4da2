//! Session-scoped cache of platform facts.
//!
//! The queries themselves — asking the operating system for the current
//! user id, searching the path for an elevation command — are the caller's
//! concern; the cache only decides when the stored answer is reused, so
//! each fact is fetched at most once per session.

use vstd::prelude::*;

verus! {

/// Lazily filled platform facts of a macOS host.
pub struct Macos {
    /// The current user id, once fetched.
    pub user_id: Option<u64>,
    /// The path of the elevation command, once looked up; `Some(None)`
    /// records a lookup that found none.
    pub sudo_path: Option<Option<String>>,
}

impl Macos {
    /// A cache with nothing fetched yet.
    pub fn new() -> (r: Macos)
        ensures
            r.user_id is None,
            r.sudo_path is None,
    {
        Macos { user_id: None, sudo_path: None }
    }

    /// The current user id: the cached value when one is stored, else
    /// `fetched` — the answer the caller just obtained — which is stored
    /// for every later call.
    pub fn get_user_id(&mut self, fetched: u64) -> (r: u64)
        ensures
            old(self).user_id matches Some(u) ==> r == u && *final(self) == *old(self),
            old(self).user_id is None ==> r == fetched && final(self).user_id == Some(fetched)
                && final(self).sudo_path == old(self).sudo_path,
    {
        match self.user_id {
            Some(u) => u,
            None => {
                self.user_id = Some(fetched);
                fetched
            },
        }
    }

    /// The elevation command's path: the cached answer when one is stored,
    /// else `found` — the caller's fresh lookup result — which is stored,
    /// present or absent, for every later call.
    pub fn get_sudo_path(&mut self, found: Option<String>) -> (r: Option<String>)
        ensures
            old(self).sudo_path matches Some(cached) ==> (match (r, cached) {
                (Option::Some(a), Option::Some(b)) => a@ == b@,
                (Option::None, Option::None) => true,
                _ => false,
            }) && *final(self) == *old(self),
            old(self).sudo_path is None ==> r == found && (final(self).sudo_path matches Some(c)
                && (match (c, r) {
                (Option::Some(a), Option::Some(b)) => a@ == b@,
                (Option::None, Option::None) => true,
                _ => false,
            })) && final(self).user_id == old(self).user_id,
    {
        match &self.sudo_path {
            Some(cached) => match cached {
                Some(p) => Some(p.clone()),
                None => None,
            },
            None => {
                let stored = match &found {
                    Some(p) => Some(p.clone()),
                    None => None,
                };
                self.sudo_path = Some(stored);
                found
            },
        }
    }
}

} // verus!
