use crate::database::OpenDB;
use crate::error::Error;
use crate::storage::{
    apply_ops, bytes_equal, lookup, ops_known, opt_view, store_delete, store_put, Spaces,
    StorageBackend, WriteOp,
};
use crate::types::str_equal;
use vstd::prelude::*;
use vstd::slice::slice_to_vec;

verus! {

/// Where a transaction stands: it starts active and ends, once, committed
/// or rolled back.
pub enum TransactionState {
    Active,
    Committed,
    RolledBack,
}

/// The latest write of `ops` to `key` in namespace `cf`: `Some(Some(v))` for
/// a write of `v`, `Some(None)` for a removal, `None` when there is none.
pub open spec fn last_write(ops: Seq<WriteOp>, cf: Seq<char>, key: Seq<u8>) -> Option<Option<Seq<u8>>>
    decreases ops.len(),
{
    if ops.len() == 0 {
        None
    } else {
        match ops.last() {
            WriteOp::Put(c, k, v) => if c@ == cf && k@ == key {
                Some(Some(v@))
            } else {
                last_write(ops.drop_last(), cf, key)
            },
            WriteOp::Delete(c, k) => if c@ == cf && k@ == key {
                Some(None)
            } else {
                last_write(ops.drop_last(), cf, key)
            },
        }
    }
}

/// What a transaction with pending writes `ops` reads under `key` in
/// namespace `cf` of store `s`: its own latest write, or else the store.
pub open spec fn read_through(s: Spaces, ops: Seq<WriteOp>, cf: Seq<char>, key: Seq<u8>) -> Option<
    Seq<u8>,
> {
    match last_write(ops, cf, key) {
        Some(w) => w,
        None => lookup(s, cf, key),
    }
}

/// Once a batch of writes is applied, every key reads as the batch's latest
/// write to it, or as before where the batch did not write it: what a
/// transaction read of its own writes is what every reader sees after it
/// commits.
pub proof fn lemma_commit_shows_writes(s: Spaces, ops: Seq<WriteOp>, cf: Seq<char>, key: Seq<u8>)
    requires
        ops_known(s, ops),
    ensures
        lookup(apply_ops(s, ops), cf, key) == read_through(s, ops, cf, key),
        apply_ops(s, ops).dom() == s.dom(),
    decreases ops.len(),
{
    if ops.len() > 0 {
        let w = ops.drop_last();
        assert(ops_known(s, w)) by {
            assert forall|i: int| 0 <= i < w.len() implies s.contains_key(#[trigger] w[i].space()) by {
                assert(w[i] == ops[i]);
            }
        }
        lemma_commit_shows_writes(s, w, cf, key);
        let t = apply_ops(s, w);
        assert(s.contains_key(ops[ops.len() - 1].space()));
        match ops.last() {
            WriteOp::Put(c, k, v) => {
                assert(store_put(t, c@, k@, v@).dom() =~= t.dom());
            },
            WriteOp::Delete(c, k) => {
                assert(store_delete(t, c@, k@).dom() =~= t.dom());
            },
        }
    }
}

/// A transaction: writes are held in the handle and reach the store only
/// when it commits, all in one atomic batch. Reads see the transaction's own
/// writes over the store. A handle that is dropped while active is rolled
/// back: its writes never reach the store.
pub struct Transaction {
    writes: Vec<WriteOp>,
    state: TransactionState,
}

impl Transaction {
    /// The writes waiting for commit, in order.
    pub closed spec fn pending(&self) -> Seq<WriteOp> {
        self.writes@
    }

    /// Where the transaction stands.
    pub closed spec fn status(&self) -> TransactionState {
        self.state
    }

    /// An active transaction with no writes.
    pub(crate) fn new() -> (r: Transaction)
        ensures
            r.status() is Active,
            r.pending().len() == 0,
    {
        Transaction { writes: Vec::new(), state: TransactionState::Active }
    }

    fn is_active(&self) -> (r: bool)
        ensures
            r == self.status() is Active,
    {
        match self.state {
            TransactionState::Active => true,
            _ => false,
        }
    }

    /// The value under `key` in namespace `cf`, as this transaction sees it.
    /// Fails with a transaction error once the transaction has ended.
    pub fn get<S: StorageBackend>(&self, db: &OpenDB<S>, cf: &str, key: &[u8]) -> (r: Result<
        Option<Vec<u8>>,
        Error,
    >)
        requires
            db.wf(),
        ensures
            !(self.status() is Active) ==> (r matches Err(e) && e is Transaction),
            r matches Ok(v) ==> opt_view(v) == read_through(db.spaces(), self.pending(), cf@, key@),
            self.status() is Active && last_write(self.pending(), cf@, key@) is Some ==> r is Ok,
            self.status() is Active ==> (r matches Err(e) ==> e is Storage),
    {
        if !self.is_active() {
            return Err(Error::Transaction("Transaction not active".to_owned()));
        }
        let mut i: usize = self.writes.len();
        assert(self.writes@.subrange(0, i as int) =~= self.writes@);
        while i > 0
            invariant
                self.status() is Active,
                i <= self.writes@.len(),
                last_write(self.writes@, cf@, key@) == last_write(
                    self.writes@.subrange(0, i as int),
                    cf@,
                    key@,
                ),
            decreases i,
        {
            let ghost w = self.writes@.subrange(0, i as int);
            assert(w.drop_last() =~= self.writes@.subrange(0, i - 1));
            assert(w.last() == self.writes@[i - 1]);
            match &self.writes[i - 1] {
                WriteOp::Put(c, k, v) => {
                    if str_equal(c.as_str(), cf) && bytes_equal(k.as_slice(), key) {
                        return Ok(Some(slice_to_vec(v.as_slice())));
                    }
                },
                WriteOp::Delete(c, k) => {
                    if str_equal(c.as_str(), cf) && bytes_equal(k.as_slice(), key) {
                        return Ok(None);
                    }
                },
            }
            i = i - 1;
        }
        db.backend().get(cf, key)
    }

    /// Records a write of `value` under `key` in namespace `cf`. Fails with a
    /// transaction error once the transaction has ended.
    pub fn put(&mut self, cf: &str, key: &[u8], value: &[u8]) -> (r: Result<(), Error>)
        ensures
            !(old(self).status() is Active) ==> (r matches Err(e) && e is Transaction) && *final(self)
                == *old(self),
            old(self).status() is Active ==> r is Ok && final(self).status() is Active
                && final(self).pending().drop_last() == old(self).pending()
                && final(self).pending().len() == old(self).pending().len() + 1
                && (final(self).pending().last() matches WriteOp::Put(c, k, v) && c@ == cf@ && k@ == key@
                && v@ == value@),
    {
        if !self.is_active() {
            return Err(Error::Transaction("Transaction not active".to_owned()));
        }
        let ghost before = self.writes@;
        self.writes.push(WriteOp::Put(cf.to_owned(), slice_to_vec(key), slice_to_vec(value)));
        assert(self.writes@.drop_last() =~= before);
        Ok(())
    }

    /// Records the removal of `key` from namespace `cf`. Fails with a
    /// transaction error once the transaction has ended.
    pub fn delete(&mut self, cf: &str, key: &[u8]) -> (r: Result<(), Error>)
        ensures
            !(old(self).status() is Active) ==> (r matches Err(e) && e is Transaction) && *final(self)
                == *old(self),
            old(self).status() is Active ==> r is Ok && final(self).status() is Active
                && final(self).pending().drop_last() == old(self).pending()
                && final(self).pending().len() == old(self).pending().len() + 1
                && (final(self).pending().last() matches WriteOp::Delete(c, k) && c@ == cf@ && k@ == key@),
    {
        if !self.is_active() {
            return Err(Error::Transaction("Transaction not active".to_owned()));
        }
        let ghost before = self.writes@;
        self.writes.push(WriteOp::Delete(cf.to_owned(), slice_to_vec(key)));
        assert(self.writes@.drop_last() =~= before);
        Ok(())
    }

    /// Applies every pending write to the store of `db` as one atomic batch
    /// and ends the transaction. Fails with a transaction error, changing
    /// nothing, once the transaction has ended; fails with the store's error,
    /// with the store unchanged, when the batch is refused.
    pub fn commit<S: StorageBackend>(&mut self, db: &mut OpenDB<S>) -> (r: Result<(), Error>)
        requires
            old(db).wf(),
        ensures
            final(db).wf(),
            final(db).dim() == old(db).dim(),
            !(old(self).status() is Active) ==> (r matches Err(e) && e is Transaction) && *final(self)
                == *old(self) && final(db).spaces() == old(db).spaces(),
            old(self).status() is Active ==> final(self).status() is Committed,
            r is Ok ==> old(self).status() is Active && final(db).spaces() == apply_ops(
                old(db).spaces(),
                old(self).pending(),
            ),
            r is Err ==> final(db).spaces() == old(db).spaces(),
            old(self).status() is Active ==> (r matches Err(e) ==> e is Storage),
    {
        if !self.is_active() {
            return Err(Error::Transaction("Transaction already completed".to_owned()));
        }
        self.state = TransactionState::Committed;
        let mut writes: Vec<WriteOp> = Vec::new();
        std::mem::swap(&mut writes, &mut self.writes);
        db.apply_batch(&writes)
    }

    /// Discards every pending write and ends the transaction. Fails with a
    /// transaction error, changing nothing, once the transaction has ended.
    pub fn rollback(&mut self) -> (r: Result<(), Error>)
        ensures
            !(old(self).status() is Active) ==> (r matches Err(e) && e is Transaction) && *final(self)
                == *old(self),
            old(self).status() is Active ==> r is Ok && final(self).status() is RolledBack
                && final(self).pending().len() == 0,
    {
        if !self.is_active() {
            return Err(Error::Transaction("Transaction already completed".to_owned()));
        }
        self.state = TransactionState::RolledBack;
        self.writes.clear();
        Ok(())
    }
}

/// Starts transactions.
pub struct TransactionManager;

impl TransactionManager {
    /// A manager.
    pub fn new() -> (r: TransactionManager) {
        TransactionManager
    }

    /// A new active transaction with no writes.
    pub fn begin(&self) -> (r: Result<Transaction, Error>)
        ensures
            r matches Ok(t) && t.status() is Active && t.pending().len() == 0,
    {
        Ok(Transaction::new())
    }
}

} // verus!
