use vstd::prelude::*;
use left_right::{Absorb, ReadHandle, ReadHandleFactory, WriteHandle};
use crate::mempool::{
    apply_op, apply_ops, lemma_apply_ops_keeps_ids_unique, lookup, unique_ids, without, Mempool,
    MempoolOp, TxnRecord,
};
use crate::txn::Txn;

verus! {

impl Absorb<MempoolOp> for Mempool {
    fn absorb_first(&mut self, operation: &mut MempoolOp, _other: &Self) {
        self.apply(operation);
    }

    fn absorb_second(&mut self, operation: MempoolOp, _other: &Self) {
        self.apply(&operation);
    }

    fn sync_with(&mut self, first: &Self) {
        Mempool::sync_with(self, first);
    }
}

/// Why a pool operation failed.
#[derive(Clone, Copy, Debug, PartialEq, Eq, Structural)]
pub enum MempoolError {
    WriteHandleExhausted,
}

/// A pool with a single writer and many readers: changes are queued by the
/// writer and become visible to readers together when published.
#[verifier::external_body]
pub struct LeftRightMemPoolDB {
    read: ReadHandle<Mempool>,
    write: WriteHandle<Mempool, MempoolOp>,
}

#[verifier::external_type_specification]
#[verifier::external_body]
#[verifier::reject_recursive_types(T)]
pub struct ExReadHandleFactory<T>(ReadHandleFactory<T>);

/// The records that readers of the pool see.
pub uninterp spec fn published_records(db: LeftRightMemPoolDB) -> Seq<TxnRecord>;

/// The changes queued by the writer and not yet published.
pub uninterp spec fn pending_ops(db: LeftRightMemPoolDB) -> Seq<MempoolOp>;

/// Relies on `left_right::new`: both copies start from `Mempool::default`,
/// which holds no records, and nothing is queued.
#[verifier::external_body]
fn open_handles() -> (r: LeftRightMemPoolDB)
    ensures
        published_records(r) == Seq::<TxnRecord>::empty(),
        pending_ops(r) == Seq::<MempoolOp>::empty(),
{
    let (write, read) = left_right::new::<Mempool, MempoolOp>();
    LeftRightMemPoolDB { read, write }
}

/// Relies on `WriteHandle::append`: the change is queued after the others and
/// readers do not see it yet.
#[verifier::external_body]
fn queue_op(db: &mut LeftRightMemPoolDB, op: MempoolOp)
    ensures
        published_records(*final(db)) == published_records(*old(db)),
        pending_ops(*final(db)) == pending_ops(*old(db)).push(op),
{
    db.write.append(op);
}

/// Relies on `WriteHandle::publish`: the queued changes are absorbed, in the
/// order they were queued, by `Absorb for Mempool` (that is, by
/// `Mempool::apply`), and readers then see the result.
#[verifier::external_body]
fn publish_ops(db: &mut LeftRightMemPoolDB)
    ensures
        published_records(*final(db)) == apply_ops(
            published_records(*old(db)),
            pending_ops(*old(db)),
        ),
        pending_ops(*final(db)) == Seq::<MempoolOp>::empty(),
{
    db.write.publish();
}

/// Relies on `ReadHandle::enter`, which fails only once the write handle has
/// been dropped (here it lives as long as the pool), and on the derived
/// `Clone` of `Mempool`, which copies every record.
#[verifier::external_body]
fn read_snapshot(db: &LeftRightMemPoolDB) -> (r: Option<Mempool>)
    ensures
        r is Some,
        r->0.records() == published_records(*db),
{
    db.read.enter().map(|guard| guard.clone())
}

/// `ids` removed from `s` one after the other.
pub open spec fn remove_all(s: Seq<TxnRecord>, ids: Seq<Seq<char>>) -> Seq<TxnRecord>
    decreases ids.len(),
{
    if ids.len() == 0 {
        s
    } else {
        without(remove_all(s, ids.drop_last()), ids.last())
    }
}

/// Each change removes the record with the matching id.
pub open spec fn removes_ids(ops: Seq<MempoolOp>, ids: Seq<Seq<char>>) -> bool {
    &&& ops.len() == ids.len()
    &&& forall|i: int|
        0 <= i < ops.len() ==> (#[trigger] ops[i] is Remove && ops[i]->Remove_0.txn_id@ == ids[i])
}

/// Adding each record one after the other.
pub open spec fn additions(recs: Seq<TxnRecord>) -> Seq<MempoolOp> {
    recs.map_values(|r: TxnRecord| MempoolOp::Add(r))
}

pub open spec fn txn_ids(txns: Seq<Txn>) -> Seq<Seq<char>> {
    txns.map_values(|t: Txn| t.txn_id@)
}

/// The record `TxnRecord::new` makes.
pub open spec fn record_of(txn: Txn, serialized: String, added_at: u128) -> TxnRecord {
    TxnRecord {
        txn_id: txn.txn_id,
        txn: serialized,
        txn_timestamp: txn.txn_timestamp,
        txn_added_timestamp: added_at,
        txn_validated_timestamp: 0,
        txn_deleted_timestamp: 0,
    }
}

proof fn lemma_removals(s: Seq<TxnRecord>, ops: Seq<MempoolOp>, ids: Seq<Seq<char>>)
    requires
        removes_ids(ops, ids),
    ensures
        apply_ops(s, ops) == remove_all(s, ids),
    decreases ops.len(),
{
    if ops.len() > 0 {
        assert(removes_ids(ops.drop_last(), ids.drop_last())) by {
            assert forall|i: int| 0 <= i < ops.drop_last().len() implies (
            #[trigger] ops.drop_last()[i] is Remove && ops.drop_last()[i]->Remove_0.txn_id@
                == ids.drop_last()[i]) by {
                assert(ops[i] is Remove);
            }
        }
        lemma_removals(s, ops.drop_last(), ids.drop_last());
        assert(ops[ops.len() - 1] is Remove);
    }
}

impl LeftRightMemPoolDB {
    /// Nothing is queued between two operations of the pool, and no two
    /// records readers see share an id.
    pub open spec fn wf(self) -> bool {
        &&& pending_ops(self).len() == 0
        &&& unique_ids(published_records(self))
    }

    /// The records readers see.
    pub open spec fn records(self) -> Seq<TxnRecord> {
        published_records(self)
    }

    pub fn new() -> (r: LeftRightMemPoolDB)
        ensures
            r.wf(),
            r.records() == Seq::<TxnRecord>::empty(),
    {
        open_handles()
    }

    /// A factory of further read handles, for readers on other threads.
    /// Relies on `ReadHandle::factory`.
    #[verifier::external_body]
    pub fn factory(&self) -> (r: ReadHandleFactory<Mempool>) {
        self.read.factory()
    }

    /// A copy of what readers see.
    pub fn get(&self) -> (r: Option<Mempool>)
        ensures
            r is Some,
            r->0.records() == self.records(),
    {
        read_snapshot(self)
    }

    fn publish(&mut self)
        requires
            unique_ids(old(self).records()),
        ensures
            final(self).records() == apply_ops(old(self).records(), pending_ops(*old(self))),
            final(self).wf(),
    {
        publish_ops(self);
        proof {
            lemma_apply_ops_keeps_ids_unique(old(self).records(), pending_ops(*old(self)));
        }
    }

    /// Adds `txn`, serialized as `serialized`, at time `added_at`; a record
    /// with the same id is replaced.
    pub fn add_txn(&mut self, txn: &Txn, serialized: String, added_at: u128) -> (r: Result<
        (),
        MempoolError,
    >)
        requires
            old(self).wf(),
        ensures
            r is Ok,
            final(self).wf(),
            final(self).records() == apply_op(
                old(self).records(),
                MempoolOp::Add(record_of(*txn, serialized, added_at)),
            ),
    {
        let rec = TxnRecord::new(txn, serialized, added_at);
        assert(rec == record_of(*txn, serialized, added_at));
        let ghost op = MempoolOp::Add(rec);
        queue_op(self, MempoolOp::Add(rec));
        self.publish();
        proof {
            let ops = pending_ops(*old(self)).push(op);
            assert(ops.drop_last() =~= Seq::<MempoolOp>::empty());
            assert(ops.last() == op);
            assert(apply_ops(old(self).records(), ops.drop_last()) == old(self).records());
            assert(apply_ops(old(self).records(), ops) == apply_op(old(self).records(), op));
        }
        Ok(())
    }

    /// The serialized transaction with id `txn_id`, if readers see one; an
    /// empty id finds nothing.
    pub fn get_txn(&self, txn_id: &String) -> (r: Option<String>)
        ensures
            r == (if txn_id@.len() == 0 {
                None
            } else {
                match lookup(self.records(), txn_id@) {
                    Some(rec) => Some(rec.txn),
                    None => None,
                }
            }),
    {
        if txn_id.as_str().unicode_len() == 0 {
            return None;
        }
        let snapshot = self.get();
        match snapshot {
            Some(pool) => match pool.get_record(txn_id) {
                Some(rec) => Some(rec.txn),
                None => None,
            },
            None => None,
        }
    }

    /// Adds the records in order and publishes them together.
    pub fn add_txn_batch(&mut self, batch: &Vec<TxnRecord>) -> (r: Result<(), MempoolError>)
        requires
            old(self).wf(),
        ensures
            r is Ok,
            final(self).wf(),
            final(self).records() == apply_ops(old(self).records(), additions(batch@)),
    {
        let mut i: usize = 0;
        while i < batch.len()
            invariant
                i <= batch@.len(),
                self.records() == old(self).records(),
                pending_ops(*self) =~= additions(batch@.subrange(0, i as int)),
            decreases batch@.len() - i,
        {
            queue_op(self, MempoolOp::Add(batch[i].duplicate()));
            i = i + 1;
            proof {
                assert(pending_ops(*self) =~= additions(batch@.subrange(0, i as int)));
            }
        }
        assert(batch@.subrange(0, i as int) =~= batch@);
        self.publish();
        Ok(())
    }

    /// Removes the record with id `txn_id`, if any.
    pub fn remove_txn_by_id(&mut self, txn_id: String) -> (r: Result<(), MempoolError>)
        requires
            old(self).wf(),
        ensures
            r is Ok,
            final(self).wf(),
            final(self).records() == without(old(self).records(), txn_id@),
    {
        let rec = TxnRecord::new_by_id(&txn_id);
        let ghost op = MempoolOp::Remove(rec);
        queue_op(self, MempoolOp::Remove(rec));
        self.publish();
        proof {
            let ops = pending_ops(*old(self)).push(op);
            assert(ops.drop_last() =~= Seq::<MempoolOp>::empty());
            assert(ops.last() == op);
            assert(apply_ops(old(self).records(), ops.drop_last()) == old(self).records());
            assert(apply_ops(old(self).records(), ops) == apply_op(old(self).records(), op));
        }
        Ok(())
    }

    /// Removes the record of `txn`, if any.
    pub fn remove_txn(&mut self, txn: &Txn) -> (r: Result<(), MempoolError>)
        requires
            old(self).wf(),
        ensures
            r is Ok,
            final(self).wf(),
            final(self).records() == without(old(self).records(), txn.txn_id@),
    {
        self.remove_txn_by_id(txn.txn_id.clone())
    }

    /// Removes the records of the transactions in order and publishes the
    /// removals together.
    pub fn remove_txn_batch(&mut self, batch: &Vec<Txn>) -> (r: Result<(), MempoolError>)
        requires
            old(self).wf(),
        ensures
            r is Ok,
            final(self).wf(),
            final(self).records() == remove_all(old(self).records(), txn_ids(batch@)),
    {
        let mut i: usize = 0;
        while i < batch.len()
            invariant
                i <= batch@.len(),
                self.records() == old(self).records(),
                removes_ids(pending_ops(*self), txn_ids(batch@.subrange(0, i as int))),
            decreases batch@.len() - i,
        {
            let rec = TxnRecord::new_by_id(&batch[i].txn_id);
            queue_op(self, MempoolOp::Remove(rec));
            i = i + 1;
            proof {
                let ops = pending_ops(*self);
                let ids = txn_ids(batch@.subrange(0, i as int));
                assert forall|j: int| 0 <= j < ops.len() implies (#[trigger] ops[j] is Remove
                    && ops[j]->Remove_0.txn_id@ == ids[j]) by {
                    if j < ops.len() - 1 {
                        assert(ops[j] == ops.drop_last()[j]);
                    }
                }
            }
        }
        assert(batch@.subrange(0, i as int) =~= batch@);
        proof {
            lemma_removals(old(self).records(), pending_ops(*self), txn_ids(batch@));
        }
        self.publish();
        Ok(())
    }

    /// Accepts every transaction; the pool holds no rules of its own.
    pub fn validate(&mut self, _txn: &Txn) -> (r: Result<(), MempoolError>)
        ensures
            r is Ok,
            *final(self) == *old(self),
    {
        Ok(())
    }

    /// Accepts every id; the pool holds no rules of its own.
    pub fn validate_by_id(&mut self, _txn_id: String) -> (r: Result<(), MempoolError>)
        ensures
            r is Ok,
            *final(self) == *old(self),
    {
        Ok(())
    }

    /// How many records readers see.
    pub fn size(&self) -> (r: usize)
        ensures
            r == self.records().len(),
    {
        match self.get() {
            Some(pool) => pool.len(),
            None => 0,
        }
    }
}

} // verus!
