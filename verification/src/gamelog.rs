//! The game log: structured entries that the interface layer turns into
//! text lines.

use vstd::prelude::*;

verus! {

/// One line of the log. Entries that mention an entity carry its name.
pub enum LogEntry {
    Welcome,
    NothingToPickUp,
    NoWayDown,
    DescendAndHeal,
    YouAreDead,
    Spotted { name: String },
    Triggers { name: String },
    PickedUp { name: String },
}

pub struct GameLog {
    pub entries: Vec<LogEntry>,
}

/// Whether a log entry is the trigger line for an entity with this name.
pub open spec fn logs_triggers(entry: LogEntry, nm: Seq<char>) -> bool {
    entry matches LogEntry::Triggers { name } && name@ == nm
}

/// Whether a log entry is the spotting line for an entity with this name.
pub open spec fn logs_spotted(entry: LogEntry, nm: Seq<char>) -> bool {
    entry matches LogEntry::Spotted { name } && name@ == nm
}

/// Whether a log entry is the pickup line for an item with this name.
pub open spec fn logs_picked_up(entry: LogEntry, nm: Seq<char>) -> bool {
    entry matches LogEntry::PickedUp { name } && name@ == nm
}

/// `b` is `a` with zero or more entries appended.
pub open spec fn log_extended(a: Seq<LogEntry>, b: Seq<LogEntry>) -> bool {
    &&& b.len() >= a.len()
    &&& forall|k: int| 0 <= k < a.len() ==> b[k] == a[k]
}

impl GameLog {
    pub fn new() -> (log: GameLog)
        ensures
            log.entries@.len() == 0,
    {
        GameLog { entries: Vec::new() }
    }

    /// Append one entry.
    pub fn push(&mut self, entry: LogEntry)
        ensures
            final(self).entries@ == old(self).entries@.push(entry),
    {
        self.entries.push(entry);
    }
}

} // verus!
