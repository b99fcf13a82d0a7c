use dim_core::arbiter::ConnectionArbiter;
use dim_core::library::{library_get, library_post, mark_hidden};
use dim_core::publisher::Publisher;
use dim_core::store::Store;

#[test]
fn only_one_writer_transaction_at_a_time() {
    let mut arbiter = ConnectionArbiter::new(Store::new());
    let txn = arbiter.acquire_writer();
    assert!(txn.is_some());
    // the slot is taken: a second caller is refused and must wait
    assert!(arbiter.acquire_writer().is_none());
    arbiter.commit(txn.unwrap());
    // released: the next writer gets in
    assert!(arbiter.acquire_writer().is_some());
}

#[test]
fn readers_see_committed_state_only() {
    let mut arbiter = ConnectionArbiter::new(Store::new());
    let mut publisher = Publisher::new();
    let mut txn = arbiter.acquire_writer().unwrap();
    library_post(&mut txn.store, &mut publisher, "Movies".to_string());
    // not yet committed: readers still see the old state, without waiting
    assert!(library_get(arbiter.acquire_reader()).is_empty());
    arbiter.commit(txn);
    assert_eq!(library_get(arbiter.acquire_reader()).len(), 1);
}

#[test]
fn rollback_discards_the_transaction() {
    let mut arbiter = ConnectionArbiter::new(Store::new());
    let mut publisher = Publisher::new();
    let mut txn = arbiter.acquire_writer().unwrap();
    library_post(&mut txn.store, &mut publisher, "Movies".to_string());
    arbiter.rollback(txn);
    assert!(library_get(arbiter.acquire_reader()).is_empty());
    // the slot is free again
    assert!(arbiter.acquire_writer().is_some());
}

#[test]
fn writer_transactions_serialize_hide_races() {
    let mut arbiter = ConnectionArbiter::new(Store::new());
    let mut publisher = Publisher::new();
    let mut setup = arbiter.acquire_writer().unwrap();
    library_post(&mut setup.store, &mut publisher, "Movies".to_string());
    arbiter.commit(setup);

    // two would-be concurrent deleters run strictly one after the other
    let mut first = arbiter.acquire_writer().unwrap();
    assert!(arbiter.acquire_writer().is_none());
    assert_eq!(mark_hidden(&mut first.store, 1), 1);
    arbiter.commit(first);

    let mut second = arbiter.acquire_writer().unwrap();
    assert_eq!(mark_hidden(&mut second.store, 1), 0);
    arbiter.commit(second);
}
