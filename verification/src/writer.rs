//! The entry sink: an abstract writer accepting a stream of entries with an
//! explicit durability checkpoint, and an in-memory implementation that
//! records everything it is handed, in order.

use vstd::prelude::*;
use crate::entries::{Entry, EntryV};
use crate::errors::KytheError;

verus! {

/// An abstract sink for graph entries.
///
/// `entries()` is the sequence of every entry accepted so far, in the order
/// it was accepted; `flushes()` records one element per durability
/// checkpoint, namely the length of `entries()` at the moment of that
/// checkpoint.  An entry is durable once some later checkpoint covers it.
/// Both operations may fail; a failed operation adds no checkpoint.
pub trait KytheWriter: Sized {
    spec fn entries(&self) -> Seq<EntryV>;

    spec fn flushes(&self) -> Seq<int>;

    /// Accepts one entry.
    fn write_entry(&mut self, entry: Entry) -> (r: Result<(), KytheError>)
        ensures
            r is Ok ==> final(self).entries() == old(self).entries().push(entry@)
                && final(self).flushes() == old(self).flushes(),
            r is Err ==> final(self).flushes() == old(self).flushes()
                && r == Err::<(), KytheError>(KytheError::WriteError),
    ;

    /// A durability checkpoint: after it returns successfully, every entry
    /// accepted so far is committed.
    fn flush(&mut self) -> (r: Result<(), KytheError>)
        ensures
            r is Ok ==> final(self).entries() == old(self).entries()
                && final(self).flushes() == old(self).flushes().push(
                    old(self).entries().len() as int,
                ),
            r is Err ==> final(self).flushes() == old(self).flushes()
                && r == Err::<(), KytheError>(KytheError::WriteError),
    ;
}

/// An in-memory writer: keeps every entry in the order received and records
/// each flush checkpoint.  It never fails.
pub struct MemoryWriter {
    entries: Vec<Entry>,
    flush_marks: Vec<usize>,
}

impl MemoryWriter {
    pub fn new() -> (w: MemoryWriter)
        ensures
            w.entries() == Seq::<EntryV>::empty(),
            w.flushes() == Seq::<int>::empty(),
    {
        let w = MemoryWriter { entries: Vec::new(), flush_marks: Vec::new() };
        proof {
            assert(w.entries() =~= Seq::<EntryV>::empty());
            assert(w.flushes() =~= Seq::<int>::empty());
        }
        w
    }

    /// How many entries have been accepted.
    pub fn entry_count(&self) -> (n: usize)
        ensures n == self.entries().len(),
    {
        self.entries.len()
    }

    /// The `i`-th accepted entry.
    pub fn entry_at(&self, i: usize) -> (e: &Entry)
        requires i < self.entries().len(),
        ensures e@ == self.entries()[i as int],
    {
        &self.entries[i]
    }

    /// How many durability checkpoints have happened.
    pub fn flush_count(&self) -> (n: usize)
        ensures n == self.flushes().len(),
    {
        self.flush_marks.len()
    }

    /// The entry count at the `i`-th checkpoint.
    pub fn flush_mark_at(&self, i: usize) -> (n: usize)
        requires i < self.flushes().len(),
        ensures n == self.flushes()[i as int],
    {
        self.flush_marks[i]
    }
}

impl KytheWriter for MemoryWriter {
    closed spec fn entries(&self) -> Seq<EntryV> {
        self.entries@.map_values(|e: Entry| e@)
    }

    closed spec fn flushes(&self) -> Seq<int> {
        self.flush_marks@.map_values(|n: usize| n as int)
    }

    fn write_entry(&mut self, entry: Entry) -> (r: Result<(), KytheError>) {
        let ghost before = self.entries();
        let ghost ev = entry@;
        self.entries.push(entry);
        proof {
            assert(self.entries() =~= before.push(ev));
        }
        Ok(())
    }

    fn flush(&mut self) -> (r: Result<(), KytheError>) {
        let n = self.entries.len();
        let ghost before = self.flushes();
        self.flush_marks.push(n);
        proof {
            assert(self.flushes() =~= before.push(n as int));
        }
        Ok(())
    }
}

/// A writer whose sink is gone: every operation fails.  It accepts
/// nothing and checkpoints nothing, which is what the trait promises of a
/// failing writer.
pub struct FailingWriter {
}

impl FailingWriter {
    pub fn new() -> (w: FailingWriter)
        ensures
            w.entries() == Seq::<EntryV>::empty(),
            w.flushes() == Seq::<int>::empty(),
    {
        FailingWriter {}
    }
}

impl KytheWriter for FailingWriter {
    closed spec fn entries(&self) -> Seq<EntryV> {
        Seq::empty()
    }

    closed spec fn flushes(&self) -> Seq<int> {
        Seq::empty()
    }

    fn write_entry(&mut self, _entry: Entry) -> (r: Result<(), KytheError>) {
        Err(KytheError::WriteError)
    }

    fn flush(&mut self) -> (r: Result<(), KytheError>) {
        Err(KytheError::WriteError)
    }
}

} // verus!
