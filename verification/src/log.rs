//! The replicated log. Index 0 holds a null entry of term 0, so the first real
//! entry sits at index 1.

use vstd::prelude::*;

verus! {

/// A term number.
pub type Term = u128;

/// A position in the log.
pub type LogIndex = u128;

/// A change to the key-value store carried by a log entry.
#[derive(Debug, PartialEq, Eq)]
pub enum KvChange {
    Put(String, String),
    Delete(String),
}

/// What a log entry carries.
#[derive(Debug, PartialEq, Eq)]
pub enum LogEntryContent {
    Null,
    Kv(KvChange),
}

/// One entry of the replicated log.
#[derive(Debug, PartialEq, Eq)]
pub struct LogEntry {
    pub term: Term,
    pub content: LogEntryContent,
}

impl Clone for KvChange {
    fn clone(&self) -> (res: Self)
        ensures
            res == *self,
    {
        match self {
            KvChange::Put(k, v) => KvChange::Put(k.clone(), v.clone()),
            KvChange::Delete(k) => KvChange::Delete(k.clone()),
        }
    }
}

impl Clone for LogEntryContent {
    fn clone(&self) -> (res: Self)
        ensures
            res == *self,
    {
        match self {
            LogEntryContent::Null => LogEntryContent::Null,
            LogEntryContent::Kv(c) => LogEntryContent::Kv(c.clone()),
        }
    }
}

impl Clone for LogEntry {
    fn clone(&self) -> (res: Self)
        ensures
            res == *self,
    {
        LogEntry { term: self.term, content: self.content.clone() }
    }
}

impl LogEntry {
    /// The entry that starts every log.
    pub open spec fn spec_null() -> LogEntry {
        LogEntry { term: 0, content: LogEntryContent::Null }
    }

    /// The entry that starts every log: term 0, no content.
    pub fn null() -> (e: LogEntry)
        ensures
            e == LogEntry::spec_null(),
    {
        LogEntry { term: 0, content: LogEntryContent::Null }
    }
}

/// The value `key` holds after the changes in `entries`: the newest `Put` or
/// `Delete` of `key` decides; a `Put` gives its value, a `Delete` (or no
/// change of `key` at all) gives nothing.
pub open spec fn latest_value(entries: Seq<LogEntry>, key: Seq<char>) -> Option<String>
    decreases entries.len(),
{
    if entries.len() == 0 {
        None
    } else {
        match entries.last().content {
            LogEntryContent::Kv(KvChange::Put(k, v)) => if k@ == key {
                Some(v)
            } else {
                latest_value(entries.drop_last(), key)
            },
            LogEntryContent::Kv(KvChange::Delete(k)) => if k@ == key {
                None
            } else {
                latest_value(entries.drop_last(), key)
            },
            LogEntryContent::Null => latest_value(entries.drop_last(), key),
        }
    }
}

/// The replicated log together with the file it is kept in.
#[derive(Debug)]
pub struct Log {
    pub entries: Vec<LogEntry>,
    pub path: String,
}

impl Log {
    /// The log kept at `path`: the entries stored there, or, where nothing is
    /// stored yet, a log that holds only the null entry.
    pub fn new(path: String, stored: Option<Vec<LogEntry>>) -> (log: Log)
        ensures
            log.path == path,
            log.entries@ == (match stored {
                Some(entries) => entries@,
                None => seq![LogEntry::spec_null()],
            }),
    {
        let entries = match stored {
            Some(entries) => entries,
            None => {
                let mut v: Vec<LogEntry> = Vec::new();
                v.push(LogEntry::null());
                v
            },
        };
        Log { entries, path }
    }

    /// Adds `entry` at the end of the log.
    pub fn append(&mut self, entry: LogEntry)
        ensures
            final(self).entries@ == old(self).entries@.push(entry),
            final(self).path == old(self).path,
    {
        self.entries.push(entry);
    }

    /// The term of the last entry, or 0 for an empty log.
    pub fn last_term(&self) -> (t: Term)
        ensures
            t == (if self.entries@.len() == 0 { 0 } else { self.entries@.last().term }),
    {
        let n = self.entries.len();
        if n == 0 {
            0
        } else {
            self.entries[n - 1].term
        }
    }

    /// The index of the last entry.
    pub fn last_index(&self) -> (i: LogIndex)
        requires
            self.entries@.len() >= 1,
        ensures
            i == self.entries@.len() - 1,
    {
        let n = self.entries.len();
        (n as u128) - 1
    }

    /// The entry at `index` (taken as a `usize`), if the log reaches that far.
    pub fn get(&self, index: LogIndex) -> (e: Option<&LogEntry>)
        ensures
            e == (if (index as usize) < self.entries@.len() {
                Some(&self.entries@[(index as usize) as int])
            } else {
                None
            }),
    {
        let i = index as usize;
        if i < self.entries.len() {
            Some(&self.entries[i])
        } else {
            None
        }
    }

    /// Keeps the first `index` (taken as a `usize`) entries and drops the rest.
    pub fn truncate(&mut self, index: LogIndex)
        ensures
            final(self).entries@ == (if (index as usize) < old(self).entries@.len() {
                old(self).entries@.take((index as usize) as int)
            } else {
                old(self).entries@
            }),
            final(self).path == old(self).path,
    {
        self.entries.truncate(index as usize);
    }

    /// The number of entries after the null entry.
    pub fn len(&self) -> (n: usize)
        requires
            self.entries@.len() >= 1,
        ensures
            n == self.entries@.len() - 1,
    {
        self.entries.len() - 1
    }

    /// The last entry, if there is one.
    pub fn last(&self) -> (e: Option<&LogEntry>)
        ensures
            e == (if self.entries@.len() == 0 {
                None
            } else {
                Some(&self.entries@.last())
            }),
    {
        let n = self.entries.len();
        if n == 0 {
            None
        } else {
            Some(&self.entries[n - 1])
        }
    }

    /// The value `key` holds: that of its newest `Put`, unless a newer `Delete` removed it.
    pub fn kv_get(&self, key: String) -> (v: Option<String>)
        ensures
            v == latest_value(self.entries@, key@),
    {
        let mut i = self.entries.len();
        assert(self.entries@.take(i as int) == self.entries@);
        while i > 0
            invariant
                i <= self.entries@.len(),
                latest_value(self.entries@, key@) == latest_value(self.entries@.take(i as int), key@),
            decreases i,
        {
            let ghost prefix = self.entries@.take(i as int);
            assert(prefix.drop_last() == self.entries@.take(i - 1));
            let entry = &self.entries[i - 1];
            match &entry.content {
                LogEntryContent::Kv(KvChange::Put(k, v)) => {
                    if *k == key {
                        return Some(v.clone());
                    }
                },
                LogEntryContent::Kv(KvChange::Delete(k)) => {
                    if *k == key {
                        return None;
                    }
                },
                LogEntryContent::Null => {},
            }
            i = i - 1;
        }
        None
    }
}

} // verus!
