//! Telling those who watch the tree that it has changed.

use vstd::prelude::*;

verus! {

/// What those who watch the tree are told.
#[derive(Clone, Copy, Debug, PartialEq, Eq, Structural)]
pub enum Signal {
    /// Nothing.
    Silent,
    /// They are woken, and the tree has a new version.
    Changed,
    /// They are woken, but the version stays.
    Woken,
}

/// The tree has changed: it has a new version.
pub fn notify_change(version: &mut u64)
    requires
        *old(version) < u64::MAX,
    ensures
        *final(version) == *old(version) + 1,
{
    *version += 1;
}

/// One who watches the tree, and the last version that was sent there.
#[derive(Clone, Copy, Debug)]
pub struct Tracker {
    pub last_seen: u64,
}

impl Tracker {
    /// Whether a tree of version `version` is still to be sent to this watcher.
    pub open spec fn owed(self, version: u64) -> bool {
        version != self.last_seen
    }

    /// Nothing has been sent yet.
    pub fn new() -> (t: Tracker)
        ensures
            t.last_seen == 0,
    {
        Tracker { last_seen: 0 }
    }

    /// Whether the tree is to be sent now that it has version `version`; if not, the watcher
    /// waits on.
    pub fn track(&mut self, version: u64) -> (send: bool)
        ensures
            send == old(self).owed(version),
            *final(self) == (Tracker { last_seen: version }),
    {
        if version == self.last_seen {
            return false;
        }
        self.last_seen = version;
        true
    }
}

/// A watcher that has been sent a version is owed it no more, and is owed the tree again after
/// every change that makes a new version; being woken without a new version sends nothing.
pub proof fn changes_are_sent_once(version: u64, changes: u64)
    requires
        version + changes <= u64::MAX,
    ensures
        (Tracker { last_seen: version }).owed((version + changes) as u64) == (changes > 0),
{
}

} // verus!
