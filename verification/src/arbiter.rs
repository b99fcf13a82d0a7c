//! The connection arbiter: one exclusive writable handle, an unbounded
//! pool of readers. A writer transaction works on a snapshot of the
//! committed state and installs it on commit; any other exit keeps the
//! committed state, so nothing is ever left half-applied. An async shell
//! waits on the single slot; this core only grants or refuses it, so a
//! timeout can be layered on top without corrupting the arbiter.

use vstd::prelude::*;
use crate::store::Store;

verus! {

/// The single-writer arbiter over the committed store.
#[derive(Debug)]
pub struct ConnectionArbiter {
    /// The committed state every reader sees.
    pub store: Store,
    /// Whether the single writer slot is taken.
    pub writer_busy: bool,
}

/// The exclusive unit of work: a snapshot the writer mutates privately
/// until it commits.
#[derive(Debug)]
pub struct WriterTxn {
    pub store: Store,
}

impl ConnectionArbiter {
    /// Wraps a store; the writer slot starts free.
    pub fn new(store: Store) -> (r: Self)
        ensures
            r.store == store,
            !r.writer_busy,
    {
        ConnectionArbiter { store, writer_busy: false }
    }

    /// Grants the writer slot when it is free; a caller finding it busy
    /// must wait (the surrounding scheduler re-calls when the slot
    /// frees), which keeps writer transactions exclusive system-wide.
    pub fn acquire_writer(&mut self) -> (r: Option<WriterTxn>)
        ensures
            old(self).writer_busy ==> r is None && *final(self) == *old(self),
            !old(self).writer_busy ==> r is Some && final(self).writer_busy && final(self).store
                == old(self).store && r.unwrap().store@ == old(self).store@,
    {
        if self.writer_busy {
            None
        } else {
            self.writer_busy = true;
            Some(WriterTxn { store: self.store.duplicate() })
        }
    }

    /// Read access never waits on writers or on other readers: any
    /// number of callers may read the committed state concurrently.
    pub fn acquire_reader(&self) -> (r: &Store)
        ensures
            *r == self.store,
    {
        &self.store
    }

    /// Commits the transaction: its state becomes the committed state
    /// and the writer slot frees.
    pub fn commit(&mut self, txn: WriterTxn)
        requires
            old(self).writer_busy,
        ensures
            !final(self).writer_busy,
            final(self).store == txn.store,
    {
        self.store = txn.store;
        self.writer_busy = false;
    }

    /// Rolls the transaction back: its state is discarded, the
    /// committed state stands, and the writer slot frees. Every exit
    /// path other than `commit` ends here.
    pub fn rollback(&mut self, txn: WriterTxn)
        requires
            old(self).writer_busy,
        ensures
            !final(self).writer_busy,
            final(self).store == old(self).store,
    {
        let _ = txn;
        self.writer_busy = false;
    }
}

/// One step a caller can take against the writer slot.
#[derive(Debug, Clone, Copy, PartialEq, Eq, Structural)]
pub enum ArbiterOp {
    /// Ask for the slot; granted only when no holder exists, otherwise
    /// the caller keeps waiting and nothing changes.
    Acquire,
    /// Commit or roll back, releasing the slot.
    Release,
}

/// How many holders have an open writer transaction after `ops`,
/// starting from `h` holders.
pub open spec fn holders_after(h: nat, ops: Seq<ArbiterOp>) -> nat
    decreases ops.len(),
{
    if ops.len() == 0 {
        h
    } else {
        let h2 = match ops[0] {
            ArbiterOp::Acquire => if h == 0 { 1nat } else { h },
            ArbiterOp::Release => if h > 0 { (h - 1) as nat } else { h },
        };
        holders_after(h2, ops.skip(1))
    }
}

/// Law: mutual exclusion of writers. For every sequence of acquire and
/// release steps against an arbiter that starts with the slot free, at
/// most one holder has an open writer transaction at any instant: an
/// acquire is granted only while no transaction is open, exactly as
/// `acquire_writer` refuses the slot while `writer_busy`.
pub proof fn lemma_writer_mutual_exclusion(ops: Seq<ArbiterOp>)
    ensures
        holders_after(0, ops) <= 1,
{
    lemma_writer_mutual_exclusion_from(0, ops);
}

/// The invariant behind the law: the holder count never leaves {0, 1}.
pub proof fn lemma_writer_mutual_exclusion_from(h: nat, ops: Seq<ArbiterOp>)
    requires
        h <= 1,
    ensures
        holders_after(h, ops) <= 1,
    decreases ops.len(),
{
    if ops.len() > 0 {
        let h2 = match ops[0] {
            ArbiterOp::Acquire => if h == 0 { 1nat } else { h },
            ArbiterOp::Release => if h > 0 { (h - 1) as nat } else { h },
        };
        lemma_writer_mutual_exclusion_from(h2, ops.skip(1));
    }
}

} // verus!
