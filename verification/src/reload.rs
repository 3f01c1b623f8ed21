//! Reacting to configuration changes while the application runs: which
//! part of the application a changed or removed key concerns.
use vstd::prelude::*;

verus! {

/// How an entry changed.
#[derive(Debug, Clone, Copy, PartialEq, Eq, Structural)]
pub enum ChangeType {
    Added,
    Modified,
    Removed,
}

/// A change of one entry.
#[derive(Debug)]
pub struct ConfigChangeEvent {
    pub key: String,
    pub change_type: ChangeType,
}

/// The part of the application whose settings are reloaded.
#[derive(Debug, Clone, Copy, PartialEq, Eq, Structural)]
pub enum ReloadTarget {
    Server,
    Database,
    Logging,
    Application,
    General,
}

/// The part of the application whose resources are released.
#[derive(Debug, Clone, Copy, PartialEq, Eq, Structural)]
pub enum CleanupTarget {
    Server,
    Database,
    General,
}

/// What the application does about a change.
#[derive(Debug, Clone, Copy, PartialEq, Eq, Structural)]
pub enum ChangeReaction {
    Reload(ReloadTarget),
    Cleanup(CleanupTarget),
}

/// Whether `s` begins with `p`.
pub open spec fn has_prefix(s: Seq<char>, p: Seq<char>) -> bool {
    p.len() <= s.len() && s.subrange(0, p.len() as int) == p
}

/// Whether the text `s` begins with the text `p`, as `str::starts_with`
/// answers for a text pattern.
pub fn starts_with(s: &str, p: &str) -> (b: bool)
    ensures
        b == has_prefix(s@, p@),
{
    let n = s.unicode_len();
    let m = p.unicode_len();
    if m > n {
        return false;
    }
    let mut i: usize = 0;
    while i < m
        invariant
            n == s@.len(),
            m == p@.len(),
            m <= n,
            i <= m,
            forall|j: int| 0 <= j < i ==> s@[j] == p@[j],
        decreases m - i,
    {
        if s.get_char(i) != p.get_char(i) {
            assert(s@.subrange(0, m as int)[i as int] != p@[i as int]);
            return false;
        }
        i = i + 1;
    }
    assert(s@.subrange(0, m as int) =~= p@);
    true
}

/// What part of the application a change of `key` concerns, by the
/// section its key is in.
pub open spec fn reload_target(key: Seq<char>) -> ReloadTarget {
    if has_prefix(key, "server."@) {
        ReloadTarget::Server
    } else if has_prefix(key, "database."@) {
        ReloadTarget::Database
    } else if has_prefix(key, "logging."@) {
        ReloadTarget::Logging
    } else if has_prefix(key, "application."@) {
        ReloadTarget::Application
    } else {
        ReloadTarget::General
    }
}

/// What part of the application the removal of `key` concerns.
pub open spec fn cleanup_target(key: Seq<char>) -> CleanupTarget {
    if has_prefix(key, "server."@) {
        CleanupTarget::Server
    } else if has_prefix(key, "database."@) {
        CleanupTarget::Database
    } else {
        CleanupTarget::General
    }
}

/// The reaction to a change: an added or modified entry reloads the part
/// of the application its key concerns; a removed one releases it.
pub open spec fn change_reaction(key: Seq<char>, change: ChangeType) -> ChangeReaction {
    match change {
        ChangeType::Removed => ChangeReaction::Cleanup(cleanup_target(key)),
        _ => ChangeReaction::Reload(reload_target(key)),
    }
}

/// See `reload_target`.
pub fn reload_target_for(key: &str) -> (t: ReloadTarget)
    ensures
        t == reload_target(key@),
{
    if starts_with(key, "server.") {
        ReloadTarget::Server
    } else if starts_with(key, "database.") {
        ReloadTarget::Database
    } else if starts_with(key, "logging.") {
        ReloadTarget::Logging
    } else if starts_with(key, "application.") {
        ReloadTarget::Application
    } else {
        ReloadTarget::General
    }
}

/// See `cleanup_target`.
pub fn cleanup_target_for(key: &str) -> (t: CleanupTarget)
    ensures
        t == cleanup_target(key@),
{
    if starts_with(key, "server.") {
        CleanupTarget::Server
    } else if starts_with(key, "database.") {
        CleanupTarget::Database
    } else {
        CleanupTarget::General
    }
}

impl ConfigChangeEvent {
    /// What the application does about this change: see `change_reaction`.
    pub fn reaction(&self) -> (r: ChangeReaction)
        ensures
            r == change_reaction(self.key@, self.change_type),
    {
        match self.change_type {
            ChangeType::Removed => ChangeReaction::Cleanup(cleanup_target_for(self.key.as_str())),
            _ => ChangeReaction::Reload(reload_target_for(self.key.as_str())),
        }
    }
}

} // verus!
