use vstd::prelude::*;
use crate::error::RaftError;
use crate::types::{Index, LogEntry, NodeId, Term, copy_log, log_view};

verus! {

/// The abstract contents of Raft's persistent storage.
pub struct StorageModel {
    pub term: Term,
    pub voted_for: Option<NodeId>,
    pub log: Seq<(Term, Seq<u8>)>,
    pub commit_index: Index,
}

impl StorageModel {
    pub open spec fn empty() -> StorageModel {
        StorageModel { term: 0, voted_for: None, log: Seq::empty(), commit_index: 0 }
    }

    pub open spec fn set_term(self, term: Term) -> StorageModel {
        StorageModel { term, ..self }
    }

    pub open spec fn set_voted_for(self, voted_for: Option<NodeId>) -> StorageModel {
        StorageModel { voted_for, ..self }
    }

    pub open spec fn append_log(self, entries: Seq<(Term, Seq<u8>)>) -> StorageModel {
        StorageModel { log: self.log + entries, ..self }
    }

    /// Cuts the log to its first `from_index` entries; an index past the end
    /// leaves the log as it is.
    pub open spec fn truncate_log(self, from_index: Index) -> StorageModel {
        if from_index <= self.log.len() {
            StorageModel { log: self.log.take(from_index as int), ..self }
        } else {
            self
        }
    }

    pub open spec fn set_commit_index(self, index: Index) -> StorageModel {
        StorageModel { commit_index: index, ..self }
    }
}

/// Raft storage held in memory.
pub struct InMemoryStorage {
    term: Term,
    voted_for: Option<u64>,
    log: Vec<(Term, LogEntry)>,
    commit_index: Index,
}

impl InMemoryStorage {
    pub closed spec fn model(&self) -> StorageModel {
        StorageModel {
            term: self.term,
            voted_for: self.voted_for,
            log: log_view(self.log@),
            commit_index: self.commit_index,
        }
    }

    pub fn new() -> (s: InMemoryStorage)
        ensures
            s.model() == StorageModel::empty(),
    {
        let s = InMemoryStorage { term: 0, voted_for: None, log: Vec::new(), commit_index: 0 };
        proof {
            assert(s.model().log =~= Seq::<(Term, Seq<u8>)>::empty());
        }
        s
    }

    pub fn get_term(&self) -> (r: Result<Term, RaftError>)
        ensures
            r matches Ok(t) && t == self.model().term,
    {
        Ok(self.term)
    }

    pub fn set_term(&mut self, term: Term) -> (r: Result<(), RaftError>)
        ensures
            r is Ok,
            final(self).model() == old(self).model().set_term(term),
    {
        self.term = term;
        Ok(())
    }

    pub fn get_voted_for(&self) -> (r: Result<Option<u64>, RaftError>)
        ensures
            r matches Ok(v) && v == self.model().voted_for,
    {
        Ok(self.voted_for)
    }

    pub fn set_voted_for(&mut self, voted_for: Option<u64>) -> (r: Result<(), RaftError>)
        ensures
            r is Ok,
            final(self).model() == old(self).model().set_voted_for(voted_for),
    {
        self.voted_for = voted_for;
        Ok(())
    }

    pub fn get_log(&self) -> (r: Result<Vec<(Term, LogEntry)>, RaftError>)
        ensures
            r matches Ok(l) && log_view(l@) == self.model().log,
    {
        Ok(copy_log(&self.log))
    }

    /// Appends `entries` after the stored log.
    pub fn append_log(&mut self, entries: Vec<(Term, LogEntry)>) -> (r: Result<(), RaftError>)
        ensures
            r is Ok,
            final(self).model() == old(self).model().append_log(log_view(entries@)),
    {
        let ghost start = self.log@;
        let n = entries.len();
        for i in 0..n
            invariant
                n == entries@.len(),
                log_view(self.log@) == log_view(start) + log_view(entries@.take(i as int)),
                self.term == old(self).term,
                self.voted_for == old(self).voted_for,
                self.commit_index == old(self).commit_index,
                start == old(self).log@,
        {
            let t = entries[i].0;
            let e = entries[i].1.copy();
            let ghost before = self.log@;
            let ghost ev = e@;
            self.log.push((t, e));
            proof {
                assert(entries@.take(i + 1) =~= entries@.take(i as int).push(entries@[i as int]));
                assert(log_view(self.log@) =~= log_view(before).push((t, ev)));
                assert(log_view(entries@.take(i + 1)) =~= log_view(entries@.take(i as int)).push((t, ev)));
                assert(log_view(start) + log_view(entries@.take(i + 1)) =~= (log_view(start) + log_view(
                    entries@.take(i as int),
                )).push((t, ev)));
            }
        }
        proof {
            assert(entries@.take(n as int) =~= entries@);
        }
        Ok(())
    }

    /// Keeps the first `from_index` entries; an index past the end changes nothing.
    pub fn truncate_log(&mut self, from_index: Index) -> (r: Result<(), RaftError>)
        ensures
            r is Ok,
            final(self).model() == old(self).model().truncate_log(from_index),
    {
        if from_index <= self.log.len() as Index {
            self.log.truncate(from_index as usize);
            proof {
                assert(log_view(self.log@) =~= log_view(old(self).log@).take(from_index as int));
            }
        }
        Ok(())
    }

    pub fn get_commit_index(&self) -> (r: Result<Index, RaftError>)
        ensures
            r matches Ok(c) && c == self.model().commit_index,
    {
        Ok(self.commit_index)
    }

    pub fn set_commit_index(&mut self, index: Index) -> (r: Result<(), RaftError>)
        ensures
            r is Ok,
            final(self).model() == old(self).model().set_commit_index(index),
    {
        self.commit_index = index;
        Ok(())
    }
}

/// Storage gives back what was written: after each write, the matching read
/// returns the written value, and the other fields stay as they were.
pub proof fn lemma_storage_read_after_write(
    m: StorageModel,
    term: Term,
    voted_for: Option<NodeId>,
    entries: Seq<(Term, Seq<u8>)>,
    index: Index,
)
    ensures
        m.set_term(term).term == term,
        m.set_term(term).log == m.log,
        m.set_voted_for(voted_for).voted_for == voted_for,
        m.set_voted_for(voted_for).term == m.term,
        m.set_commit_index(index).commit_index == index,
        m.set_commit_index(index).log == m.log,
        m.append_log(entries).log.take(m.log.len() as int) == m.log,
        m.append_log(entries).log.skip(m.log.len() as int) == entries,
{
    assert(m.append_log(entries).log.take(m.log.len() as int) =~= m.log);
    assert(m.append_log(entries).log.skip(m.log.len() as int) =~= entries);
}

/// Truncating keeps a prefix, and truncating then appending replaces the tail.
pub proof fn lemma_storage_truncate_then_append(m: StorageModel, from_index: Index, entries: Seq<(Term, Seq<u8>)>)
    requires
        from_index <= m.log.len(),
    ensures
        m.truncate_log(from_index).log == m.log.take(from_index as int),
        m.truncate_log(from_index).append_log(entries).log == m.log.take(from_index as int) + entries,
        m.truncate_log(from_index).term == m.term,
        m.truncate_log(from_index).commit_index == m.commit_index,
{
}

} // verus!
