use vstd::prelude::*;
use crate::txn::Txn;

verus! {

/// A transaction as held in the pool: its id, its serialized form and its
/// lifecycle stamps (nanoseconds since the Unix epoch; 0 when not reached).
#[derive(Clone, Debug, PartialEq, Eq, Hash)]
pub struct TxnRecord {
    pub txn_id: String,
    pub txn: String,
    pub txn_timestamp: u128,
    pub txn_added_timestamp: u128,
    pub txn_validated_timestamp: u128,
    pub txn_deleted_timestamp: u128,
}

impl TxnRecord {
    /// The record of `txn`, whose serialized form is `serialized`, added to
    /// the pool at time `added_at`.
    pub fn new(txn: &Txn, serialized: String, added_at: u128) -> (r: TxnRecord)
        ensures
            r.txn_id == txn.txn_id,
            r.txn == serialized,
            r.txn_timestamp == txn.txn_timestamp,
            r.txn_added_timestamp == added_at,
            r.txn_validated_timestamp == 0,
            r.txn_deleted_timestamp == 0,
    {
        TxnRecord {
            txn_id: txn.txn_id.clone(),
            txn: serialized,
            txn_timestamp: txn.txn_timestamp,
            txn_added_timestamp: added_at,
            txn_validated_timestamp: 0,
            txn_deleted_timestamp: 0,
        }
    }

    /// A record that carries only an id, as used to remove by id.
    pub fn new_by_id(txn_id: &String) -> (r: TxnRecord)
        ensures
            r.txn_id == txn_id,
            r.txn@ == Seq::<char>::empty(),
            r.txn_timestamp == 0,
            r.txn_added_timestamp == 0,
            r.txn_validated_timestamp == 0,
            r.txn_deleted_timestamp == 0,
    {
        TxnRecord {
            txn_id: txn_id.clone(),
            txn: String::new(),
            txn_timestamp: 0,
            txn_added_timestamp: 0,
            txn_validated_timestamp: 0,
            txn_deleted_timestamp: 0,
        }
    }

    /// A field-by-field copy.
    pub fn duplicate(&self) -> (r: TxnRecord)
        ensures
            r == *self,
    {
        TxnRecord {
            txn_id: self.txn_id.clone(),
            txn: self.txn.clone(),
            txn_timestamp: self.txn_timestamp,
            txn_added_timestamp: self.txn_added_timestamp,
            txn_validated_timestamp: self.txn_validated_timestamp,
            txn_deleted_timestamp: self.txn_deleted_timestamp,
        }
    }
}

impl Default for TxnRecord {
    fn default() -> (r: TxnRecord)
        ensures
            r.txn_id@ == Seq::<char>::empty(),
            r.txn@ == Seq::<char>::empty(),
            r.txn_timestamp == 0,
            r.txn_added_timestamp == 0,
            r.txn_validated_timestamp == 0,
            r.txn_deleted_timestamp == 0,
    {
        TxnRecord {
            txn_id: String::new(),
            txn: String::new(),
            txn_timestamp: 0,
            txn_added_timestamp: 0,
            txn_validated_timestamp: 0,
            txn_deleted_timestamp: 0,
        }
    }
}

/// The records of `s` whose id is not `id`, in order.
pub open spec fn without(s: Seq<TxnRecord>, id: Seq<char>) -> Seq<TxnRecord>
    decreases s.len(),
{
    if s.len() == 0 {
        s
    } else if s.last().txn_id@ == id {
        without(s.drop_last(), id)
    } else {
        without(s.drop_last(), id).push(s.last())
    }
}

/// The last record of `s` with id `id`, if any.
pub open spec fn lookup(s: Seq<TxnRecord>, id: Seq<char>) -> Option<TxnRecord>
    decreases s.len(),
{
    if s.len() == 0 {
        None
    } else if s.last().txn_id@ == id {
        Some(s.last())
    } else {
        lookup(s.drop_last(), id)
    }
}

/// No two records share an id.
pub open spec fn unique_ids(s: Seq<TxnRecord>) -> bool {
    forall|i: int, j: int|
        0 <= i < j < s.len() ==> #[trigger] s[i].txn_id@ != #[trigger] s[j].txn_id@
}

/// A change to the pool.
#[derive(Clone, Debug, PartialEq, Eq)]
pub enum MempoolOp {
    Add(TxnRecord),
    Remove(TxnRecord),
}

/// The records after `op`: an add replaces any record with the same id and
/// puts the new one last; a remove drops the record with that id.
pub open spec fn apply_op(s: Seq<TxnRecord>, op: MempoolOp) -> Seq<TxnRecord> {
    match op {
        MempoolOp::Add(rec) => without(s, rec.txn_id@).push(rec),
        MempoolOp::Remove(rec) => without(s, rec.txn_id@),
    }
}

/// The records after each of `ops` in turn.
pub open spec fn apply_ops(s: Seq<TxnRecord>, ops: Seq<MempoolOp>) -> Seq<TxnRecord>
    decreases ops.len(),
{
    if ops.len() == 0 {
        s
    } else {
        apply_op(apply_ops(s, ops.drop_last()), ops.last())
    }
}

proof fn lemma_without_excludes(s: Seq<TxnRecord>, id: Seq<char>)
    ensures
        forall|i: int| 0 <= i < without(s, id).len() ==> #[trigger] without(s, id)[i].txn_id@ != id,
        lookup(without(s, id), id) is None,
    decreases s.len(),
{
    if s.len() > 0 {
        lemma_without_excludes(s.drop_last(), id);
        let w = without(s.drop_last(), id);
        if s.last().txn_id@ != id {
            assert(w.push(s.last()).drop_last() =~= w);
        }
    }
}

/// Removing the same id twice removes nothing more.
pub proof fn lemma_without_twice(s: Seq<TxnRecord>, id: Seq<char>)
    ensures
        without(without(s, id), id) == without(s, id),
    decreases s.len(),
{
    if s.len() > 0 {
        lemma_without_twice(s.drop_last(), id);
        let w = without(s.drop_last(), id);
        if s.last().txn_id@ != id {
            assert(w.push(s.last()).drop_last() =~= w);
        }
    }
}

/// Adding the same record twice leaves the pool as adding it once.
pub proof fn lemma_add_idempotent(s: Seq<TxnRecord>, rec: TxnRecord)
    ensures
        apply_op(apply_op(s, MempoolOp::Add(rec)), MempoolOp::Add(rec)) == apply_op(
            s,
            MempoolOp::Add(rec),
        ),
{
    let w = without(s, rec.txn_id@);
    assert(w.push(rec).drop_last() =~= w);
    lemma_without_twice(s, rec.txn_id@);
}

/// Removing the same record twice leaves the pool as removing it once.
pub proof fn lemma_remove_idempotent(s: Seq<TxnRecord>, rec: TxnRecord)
    ensures
        apply_op(apply_op(s, MempoolOp::Remove(rec)), MempoolOp::Remove(rec)) == apply_op(
            s,
            MempoolOp::Remove(rec),
        ),
{
    lemma_without_twice(s, rec.txn_id@);
}

/// After a record is added, looking up its id finds exactly that record.
pub proof fn lemma_get_after_add(s: Seq<TxnRecord>, rec: TxnRecord)
    ensures
        lookup(apply_op(s, MempoolOp::Add(rec)), rec.txn_id@) == Some(rec),
{
}

/// An add or a remove keeps the ids of the pool distinct.
pub proof fn lemma_apply_keeps_ids_unique(s: Seq<TxnRecord>, op: MempoolOp)
    requires
        unique_ids(s),
    ensures
        unique_ids(apply_op(s, op)),
{
    match op {
        MempoolOp::Add(rec) => {
            lemma_without_unique(s, rec.txn_id@);
            lemma_without_excludes(s, rec.txn_id@);
        },
        MempoolOp::Remove(rec) => {
            lemma_without_unique(s, rec.txn_id@);
        },
    }
}

proof fn lemma_without_subset(s: Seq<TxnRecord>, id: Seq<char>)
    ensures
        forall|i: int| 0 <= i < without(s, id).len() ==> s.contains(#[trigger] without(s, id)[i]),
    decreases s.len(),
{
    if s.len() > 0 {
        lemma_without_subset(s.drop_last(), id);
        let w = without(s.drop_last(), id);
        assert forall|i: int| 0 <= i < without(s, id).len() implies s.contains(
            #[trigger] without(s, id)[i],
        ) by {
            if s.last().txn_id@ != id && i == w.len() {
                assert(s[s.len() - 1] == s.last());
            } else {
                assert(s.drop_last().contains(w[i]));
                let k = choose|k: int| 0 <= k < s.drop_last().len() && s.drop_last()[k] == w[i];
                assert(s[k] == w[i]);
            }
        }
    }
}

pub proof fn lemma_without_unique(s: Seq<TxnRecord>, id: Seq<char>)
    requires
        unique_ids(s),
    ensures
        unique_ids(without(s, id)),
    decreases s.len(),
{
    if s.len() > 0 {
        let d = s.drop_last();
        assert(unique_ids(d)) by {
            assert forall|i: int, j: int| 0 <= i < j < d.len() implies #[trigger] d[i].txn_id@
                != #[trigger] d[j].txn_id@ by {
                assert(d[i] == s[i] && d[j] == s[j]);
            }
        }
        lemma_without_unique(d, id);
        lemma_without_subset(d, id);
        let w = without(d, id);
        if s.last().txn_id@ != id {
            let ws = w.push(s.last());
            assert forall|i: int, j: int| 0 <= i < j < ws.len() implies #[trigger] ws[i].txn_id@
                != #[trigger] ws[j].txn_id@ by {
                if j == w.len() {
                    assert(d.contains(w[i]));
                    let k = choose|k: int| 0 <= k < d.len() && d[k] == w[i];
                    assert(s[k] == w[i]);
                    assert(s[s.len() - 1] == s.last());
                } else {
                    assert(ws[i] == w[i] && ws[j] == w[j]);
                }
            }
        }
    }
}

/// A run of changes keeps the ids of the pool distinct.
pub proof fn lemma_apply_ops_keeps_ids_unique(s: Seq<TxnRecord>, ops: Seq<MempoolOp>)
    requires
        unique_ids(s),
    ensures
        unique_ids(apply_ops(s, ops)),
    decreases ops.len(),
{
    if ops.len() > 0 {
        lemma_apply_ops_keeps_ids_unique(s, ops.drop_last());
        lemma_apply_keeps_ids_unique(apply_ops(s, ops.drop_last()), ops.last());
    }
}

/// The records a pool holds.
#[derive(Clone, Debug, PartialEq, Eq)]
pub struct Mempool {
    pub store: Vec<TxnRecord>,
}

impl Mempool {
    pub open spec fn records(&self) -> Seq<TxnRecord> {
        self.store@
    }

    pub fn new() -> (r: Mempool)
        ensures
            r.records() == Seq::<TxnRecord>::empty(),
    {
        Mempool { store: Vec::new() }
    }

    /// Drops the record whose id is `id`.
    fn remove_id(&mut self, id: &String)
        ensures
            final(self).records() == without(old(self).records(), id@),
    {
        let mut kept: Vec<TxnRecord> = Vec::new();
        let mut i: usize = 0;
        while i < self.store.len()
            invariant
                i <= self.store@.len(),
                kept@ == without(self.store@.subrange(0, i as int), id@),
            decreases self.store@.len() - i,
        {
            proof {
                assert(self.store@.subrange(0, i + 1).drop_last() =~= self.store@.subrange(
                    0,
                    i as int,
                ));
            }
            if self.store[i].txn_id != *id {
                kept.push(self.store[i].duplicate());
            }
            i = i + 1;
        }
        assert(self.store@.subrange(0, i as int) =~= self.store@);
        self.store = kept;
    }

    /// Applies one change.
    pub fn apply(&mut self, op: &MempoolOp)
        ensures
            final(self).records() == apply_op(old(self).records(), *op),
    {
        match op {
            MempoolOp::Add(rec) => {
                self.remove_id(&rec.txn_id);
                self.store.push(rec.duplicate());
            },
            MempoolOp::Remove(rec) => {
                self.remove_id(&rec.txn_id);
            },
        }
    }

    /// Applies a change to the first of the two copies.
    pub fn absorb_first(&mut self, op: &MempoolOp, _other: &Mempool)
        ensures
            final(self).records() == apply_op(old(self).records(), *op),
    {
        self.apply(op);
    }

    /// Applies a change to the second of the two copies.
    pub fn absorb_second(&mut self, op: MempoolOp, _other: &Mempool)
        ensures
            final(self).records() == apply_op(old(self).records(), op),
    {
        self.apply(&op);
    }

    /// Replaces this copy's records by those of `first`.
    pub fn sync_with(&mut self, first: &Mempool)
        ensures
            final(self).records() == first.records(),
    {
        let mut copy: Vec<TxnRecord> = Vec::new();
        let mut i: usize = 0;
        while i < first.store.len()
            invariant
                i <= first.store@.len(),
                copy@ == first.store@.subrange(0, i as int),
            decreases first.store@.len() - i,
        {
            copy.push(first.store[i].duplicate());
            i = i + 1;
            proof {
                assert(copy@ =~= first.store@.subrange(0, i as int));
            }
        }
        assert(first.store@.subrange(0, i as int) =~= first.store@);
        self.store = copy;
    }

    /// The record with id `id`, if any.
    pub fn get_record(&self, id: &String) -> (r: Option<TxnRecord>)
        ensures
            r == lookup(self.records(), id@),
    {
        let mut j: usize = self.store.len();
        assert(self.store@.subrange(0, j as int) =~= self.store@);
        while j > 0
            invariant
                j <= self.store@.len(),
                lookup(self.store@, id@) == lookup(self.store@.subrange(0, j as int), id@),
            decreases j,
        {
            proof {
                assert(self.store@.subrange(0, j as int).drop_last() =~= self.store@.subrange(
                    0,
                    j - 1,
                ));
            }
            if self.store[j - 1].txn_id == *id {
                return Some(self.store[j - 1].duplicate());
            }
            j = j - 1;
        }
        None
    }

    /// How many records the pool holds.
    pub fn len(&self) -> (r: usize)
        ensures
            r == self.records().len(),
    {
        self.store.len()
    }
}

impl Default for Mempool {
    fn default() -> (r: Mempool)
        ensures
            r.records() == Seq::<TxnRecord>::empty(),
    {
        Mempool::new()
    }
}

} // verus!
