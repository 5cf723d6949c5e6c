//! The durable state of one node: the append-only, truncatable log of
//! entries, the last flushed vote, and the membership written at
//! initialization. The store is modelled directly; a persistence backend
//! sits behind it and must flush before each mutating call returns.

use vstd::prelude::*;

use crate::typeconf::TypeConfig;
use crate::vote::LogId;
use crate::vote::Vote;
use crate::vote::opt_vote_le;

verus! {

/// A log entry: its position and an opaque ordered batch of application
/// commands.
pub struct Entry<C: TypeConfig> {
    pub log_id: LogId,
    pub payload: Vec<C::AppData>,
}

/// Errors surfaced by the store.
#[derive(Clone, Copy, Debug, PartialEq, Eq, Structural)]
pub enum StorageError {
    /// `initialize` found a non-empty log.
    AlreadyInitialized,
}

/// The durable log, vote record and membership of one node.
pub struct LogStore<C: TypeConfig> {
    pub entries: Vec<Entry<C>>,
    pub vote: Option<Vote>,
    pub members: Vec<u64>,
}

impl<C: TypeConfig> LogStore<C> {
    /// Entry `i` sits at index `i`, and terms never decrease along the log.
    pub open spec fn entries_wf(log: Seq<Entry<C>>) -> bool {
        (forall|i: int| 0 <= i < log.len() ==> (#[trigger] log[i]).log_id.index == i)
        && (forall|i: int, j: int|
            0 <= i < j < log.len() ==> log[i].log_id.term <= log[j].log_id.term)
    }

    pub open spec fn wf(self) -> bool {
        Self::entries_wf(self.entries@)
    }

    /// The term of the stored vote; a store that never voted is at term 0.
    pub open spec fn vote_term(self) -> u64 {
        match self.vote {
            Option::Some(v) => v.term,
            Option::None => 0,
        }
    }

    /// No entry's term exceeds the stored vote's term: a node never holds
    /// entries from a term it has not seen.
    pub open spec fn terms_bounded(self) -> bool {
        forall|i: int|
            0 <= i < self.entries@.len() ==> (#[trigger] self.entries@[i]).log_id.term
                <= self.vote_term()
    }

    /// The id of the last entry, `None` for an empty log.
    pub open spec fn last_log_id_spec(self) -> Option<LogId> {
        if self.entries@.len() == 0 {
            Option::None
        } else {
            Option::Some(self.entries@.last().log_id)
        }
    }

    /// An empty, uninitialized store: no entries, no vote, no membership.
    pub fn new() -> (s: Self)
        ensures
            s.wf(),
            s.entries@.len() == 0,
            s.vote is None,
            s.members@.len() == 0,
    {
        LogStore { entries: Vec::new(), vote: Option::None, members: Vec::new() }
    }

    pub fn last_log_id(&self) -> (r: Option<LogId>)
        ensures
            r == self.last_log_id_spec(),
    {
        if self.entries.len() == 0 {
            Option::None
        } else {
            Option::Some(self.entries[self.entries.len() - 1].log_id)
        }
    }

    pub fn read_vote(&self) -> (v: Option<Vote>)
        ensures
            v == self.vote,
    {
        self.vote
    }

    /// Overwrites the vote record. The stored vote never decreases: callers
    /// must have checked the new vote against the old one.
    pub fn save_vote(&mut self, v: Vote)
        requires
            opt_vote_le(old(self).vote, Option::Some(v)),
        ensures
            final(self).vote == Option::Some(v),
            final(self).entries@ == old(self).entries@,
            final(self).members@ == old(self).members@,
    {
        self.vote = Option::Some(v);
    }

    /// Appends one entry at the end of the log; durable before it returns.
    pub fn append(&mut self, e: Entry<C>)
        requires
            old(self).wf(),
            e.log_id.index == old(self).entries@.len(),
            old(self).entries@.len() > 0 ==> old(self).entries@.last().log_id.term
                <= e.log_id.term,
        ensures
            final(self).wf(),
            final(self).entries@ == old(self).entries@.push(e),
            final(self).vote == old(self).vote,
            final(self).members@ == old(self).members@,
    {
        self.entries.push(e);
    }

    /// Appends a batch of entries, draining `es`; durable before it returns.
    /// The batch must continue the log: contiguous indexes from the current
    /// end and terms that never decrease.
    pub fn append_all(&mut self, es: &mut Vec<Entry<C>>)
        requires
            old(self).wf(),
            forall|j: int|
                0 <= j < old(es)@.len() ==> (#[trigger] old(es)@[j]).log_id.index == old(
                    self,
                ).entries@.len() + j,
            forall|i: int, j: int|
                0 <= i < j < old(es)@.len() ==> old(es)@[i].log_id.term
                    <= old(es)@[j].log_id.term,
            old(self).entries@.len() > 0 && old(es)@.len() > 0 ==> old(
                self,
            ).entries@.last().log_id.term <= old(es)@[0].log_id.term,
        ensures
            final(self).wf(),
            final(self).entries@ == old(self).entries@ + old(es)@,
            final(es)@.len() == 0,
            final(self).vote == old(self).vote,
            final(self).members@ == old(self).members@,
    {
        let ghost pre = self.entries@;
        let ghost added = es@;
        self.entries.append(es);
        proof {
            let all = self.entries@;
            assert(all == pre + added);
            assert forall|i: int, j: int|
                0 <= i < j < all.len() implies all[i].log_id.term <= all[j].log_id.term by {
                if i < pre.len() && j >= pre.len() {
                    if pre.len() > 0 && added.len() > 0 {
                        assert(pre[i].log_id.term <= pre.last().log_id.term);
                        assert(added[0].log_id.term <= added[j - pre.len()].log_id.term);
                    }
                }
            }
        }
    }

    /// Removes the entries at and above `from_index`; durable.
    pub fn truncate_from(&mut self, from_index: u64)
        requires
            old(self).wf(),
        ensures
            final(self).wf(),
            from_index < old(self).entries@.len() ==> final(self).entries@ == old(
                self,
            ).entries@.take(from_index as int),
            from_index >= old(self).entries@.len() ==> final(self).entries@ == old(
                self,
            ).entries@,
            final(self).vote == old(self).vote,
            final(self).members@ == old(self).members@,
    {
        if from_index < self.entries.len() as u64 {
            self.entries.truncate(from_index as usize);
        }
    }

    /// Reads the entry at `index`, if the log reaches it.
    pub fn read(&self, index: u64) -> (r: Option<&Entry<C>>)
        ensures
            index < self.entries@.len() ==> r == Option::Some(&self.entries@[index as int]),
            index >= self.entries@.len() ==> r is None,
    {
        if index < self.entries.len() as u64 {
            Option::Some(&self.entries[index as usize])
        } else {
            Option::None
        }
    }

    /// Writes the membership sentinel at index 0 if and only if the log is
    /// empty; an initialized log is left untouched and reported as such.
    pub fn initialize(&mut self, members: Vec<u64>) -> (r: Result<(), StorageError>)
        requires
            old(self).wf(),
        ensures
            final(self).wf(),
            final(self).vote == old(self).vote,
            r is Ok <==> old(self).entries@.len() == 0,
            old(self).entries@.len() == 0 ==> final(self).entries@.len() == 1
                && final(self).entries@[0].log_id == (LogId { term: 0, index: 0 })
                && final(self).entries@[0].payload@.len() == 0
                && final(self).members@ == members@,
            old(self).entries@.len() > 0 ==> r == Err::<(), StorageError>(
                StorageError::AlreadyInitialized,
            ) && final(self).entries@ == old(self).entries@ && final(self).members@ == old(
                self,
            ).members@,
    {
        if self.entries.len() == 0 {
            let sentinel = Entry::<C> { log_id: LogId { term: 0, index: 0 }, payload: Vec::new() };
            self.entries.push(sentinel);
            self.members = members;
            Ok(())
        } else {
            Err(StorageError::AlreadyInitialized)
        }
    }
}

} // verus!
