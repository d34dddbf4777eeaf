use vrrb_core_chain::mempool::{Mempool, MempoolOp, TxnRecord};
use vrrb_core_chain::mempool_db::LeftRightMemPoolDB;
use vrrb_core_chain::txn::Txn;

fn txn(id: &str) -> Txn {
    Txn {
        txn_id: String::from(id),
        txn_timestamp: 7,
        sender_address: String::from("aaa1"),
        sender_public_key: String::from("RSA"),
        receiver_address: String::from("bbb1"),
        txn_token: None,
        txn_amount: 0,
        txn_payload: String::from("x"),
        txn_signature: String::from("x"),
        validators: vec![],
        nonce: 0,
    }
}

fn record(id: &str) -> TxnRecord {
    TxnRecord::new(&txn(id), format!("serialized-{}", id), 100)
}

#[test]
fn mempool_batch() {
    let mut db = LeftRightMemPoolDB::new();
    assert!(db.add_txn_batch(&vec![record("1"), record("2"), record("3")]).is_ok());
    assert_eq!(db.size(), 3);
    assert!(db.remove_txn_by_id(String::from("2")).is_ok());
    assert_eq!(db.size(), 2);
    assert!(db.remove_txn_batch(&vec![txn("1"), txn("3")]).is_ok());
    assert_eq!(db.size(), 0);
}

#[test]
fn add_twice_is_add_once() {
    let mut db = LeftRightMemPoolDB::new();
    db.add_txn(&txn("1"), String::from("s1"), 5).unwrap();
    let once = db.get().unwrap();
    db.add_txn(&txn("1"), String::from("s1"), 5).unwrap();
    assert_eq!(db.get().unwrap(), once);
    assert_eq!(db.size(), 1);
}

#[test]
fn remove_twice_is_remove_once() {
    let mut db = LeftRightMemPoolDB::new();
    db.add_txn(&txn("1"), String::from("s1"), 5).unwrap();
    db.add_txn(&txn("2"), String::from("s2"), 5).unwrap();
    db.remove_txn(&txn("1")).unwrap();
    let once = db.get().unwrap();
    db.remove_txn(&txn("1")).unwrap();
    assert_eq!(db.get().unwrap(), once);
    assert_eq!(db.size(), 1);
}

#[test]
fn get_after_add_returns_serialized_txn() {
    let mut db = LeftRightMemPoolDB::new();
    db.add_txn(&txn("42"), String::from("{\"txn_id\":\"42\"}"), 9).unwrap();
    assert_eq!(db.get_txn(&String::from("42")), Some(String::from("{\"txn_id\":\"42\"}")));
    assert_eq!(db.get_txn(&String::from("43")), None);
    assert_eq!(db.get_txn(&String::from("")), None);
    let rec = db.get().unwrap().get_record(&String::from("42")).unwrap();
    assert_eq!(rec.txn_timestamp, 7);
    assert_eq!(rec.txn_added_timestamp, 9);
    assert_eq!(rec.txn_validated_timestamp, 0);
}

#[test]
fn re_adding_replaces_the_record() {
    let mut db = LeftRightMemPoolDB::new();
    db.add_txn(&txn("1"), String::from("old"), 1).unwrap();
    db.add_txn(&txn("1"), String::from("new"), 2).unwrap();
    assert_eq!(db.size(), 1);
    assert_eq!(db.get_txn(&String::from("1")), Some(String::from("new")));
}

#[test]
fn validate_accepts() {
    let mut db = LeftRightMemPoolDB::new();
    assert!(db.validate(&txn("1")).is_ok());
    assert!(db.validate_by_id(String::from("1")).is_ok());
}

#[test]
fn new_by_id_carries_only_the_id() {
    let r = TxnRecord::new_by_id(&String::from("abc"));
    assert_eq!(r.txn_id, "abc");
    assert_eq!(r.txn, "");
    assert_eq!(r, TxnRecord { txn_id: String::from("abc"), ..TxnRecord::default() });
}

#[test]
fn absorb_and_sync() {
    let mut first = Mempool::default();
    let mut second = Mempool::new();
    let add = MempoolOp::Add(record("1"));
    first.absorb_first(&add, &second);
    second.absorb_second(add.clone(), &first);
    assert_eq!(first, second);
    assert_eq!(first.len(), 1);
    let mut late = Mempool::new();
    late.sync_with(&first);
    assert_eq!(late, first);
    first.apply(&MempoolOp::Remove(TxnRecord::new_by_id(&String::from("1"))));
    assert_eq!(first.len(), 0);
}

#[test]
fn readers_from_the_factory_see_published_records() {
    let mut db = LeftRightMemPoolDB::new();
    let factory = db.factory();
    db.add_txn(&txn("1"), String::from("s1"), 5).unwrap();
    let reader = factory.handle();
    assert_eq!(reader.enter().unwrap().len(), 1);
}
