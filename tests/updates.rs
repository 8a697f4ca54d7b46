use index_controller::update_actor::{
    get_arc_ownership_blocking, staging_step, PayloadEvent, StagingAction, UpdateStores,
    RELEASE_POLL_MS,
};
use index_controller::updates::{
    IndexDocumentsMethod, UpdateError, UpdateFormat, UpdateMeta, UpdateRecord, UpdateResult, UpdateState,
    UpdateStore,
};

fn addition() -> UpdateMeta {
    UpdateMeta::DocumentsAddition {
        method: IndexDocumentsMethod::ReplaceDocuments,
        format: UpdateFormat::Json,
        primary_key: None,
    }
}

fn register(store: &mut UpdateStore, path: &str) -> u64 {
    match store.register_update(addition(), path.to_string(), 1) {
        Ok(id) => id,
        Err(_) => panic!("registration must succeed"),
    }
}

#[test]
fn three_additions_are_processed_in_order() {
    let mut store = UpdateStore::new();
    assert_eq!(register(&mut store, "update_a"), 0);
    assert_eq!(register(&mut store, "update_b"), 1);
    assert_eq!(register(&mut store, "update_c"), 2);
    for expected in 0..3u64 {
        assert_eq!(store.start_next(), Some(expected));
        let res = UpdateResult::DocumentsAddition { nb_documents: 1 };
        assert!(store.finish(expected, Ok(res), 10 + expected as i64).is_ok());
    }
    assert_eq!(store.start_next(), None);
    let ids: Vec<u64> = store.list().iter().map(|r| r.update_id).collect();
    assert_eq!(ids, vec![0, 1, 2]);
    for r in store.list() {
        assert!(matches!(r.state, UpdateState::Processed(_)));
        assert!(r.payload.is_none());
    }
}

#[test]
fn one_update_processed_at_a_time() {
    let mut store = UpdateStore::new();
    register(&mut store, "update_a");
    register(&mut store, "update_b");
    assert_eq!(store.start_next(), Some(0));
    assert_eq!(store.start_next(), None);
    assert!(matches!(
        store.finish(1, Err("late".to_string()), 5),
        Err(UpdateError::Error(_))
    ));
    assert!(store.finish(0, Err("bad json".to_string()), 5).is_ok());
    assert_eq!(store.start_next(), Some(1));
}

#[test]
fn finished_update_releases_its_staged_file() {
    // The client went away mid-stream: the queue closes, what arrived is
    // registered, and the engine fails on it.
    assert_eq!(staging_step(&PayloadEvent::Chunk(4096)), StagingAction::Append);
    assert_eq!(staging_step(&PayloadEvent::Closed), StagingAction::Register);
    assert_eq!(staging_step(&PayloadEvent::Failed), StagingAction::Abort);
    let mut store = UpdateStore::new();
    let id = register(&mut store, "update_files/update_1234");
    assert_eq!(store.start_next(), Some(id));
    match store.finish(id, Err("unexpected end of input".to_string()), 7) {
        Ok(path) => assert_eq!(path, "update_files/update_1234"),
        Err(_) => panic!("finish must succeed"),
    }
    let rec = match store.meta(id) {
        Some(r) => r,
        None => panic!("record must stay"),
    };
    assert!(matches!(&rec.state, UpdateState::Failed(m) if m == "unexpected end of input"));
    assert!(rec.payload.is_none());
    assert_eq!(rec.terminated_at, Some(7));
    assert!(store.meta(99).is_none());
}

#[test]
fn recovery_requeues_or_drops_unfinished_updates() {
    let mut store = UpdateStore::new();
    register(&mut store, "update_a");
    register(&mut store, "update_b");
    register(&mut store, "update_c");
    register(&mut store, "update_d");
    assert_eq!(store.start_next(), Some(0));
    assert!(store.finish(0, Ok(UpdateResult::Other), 3).is_ok());
    assert_eq!(store.start_next(), Some(1));
    // Payload of update 2 vanished in the crash.
    store.recover(&vec![false, true, false, true]);
    let recs = store.list();
    let ids: Vec<u64> = recs.iter().map(|r| r.update_id).collect();
    assert_eq!(ids, vec![0, 1, 3]);
    assert!(matches!(recs[0].state, UpdateState::Processed(UpdateResult::Other)));
    assert!(matches!(recs[1].state, UpdateState::Enqueued));
    assert!(matches!(recs[2].state, UpdateState::Enqueued));
    assert_eq!(store.start_next(), Some(1));
    assert_eq!(register(&mut store, "update_e"), 4);
}

#[test]
fn stores_are_keyed_by_index() {
    let mut stores = UpdateStores::new();
    assert!(matches!(stores.list_updates(5), Err(UpdateError::UnexistingIndex(5))));
    assert!(matches!(stores.get_update(5, 0), Err(UpdateError::UnexistingIndex(5))));
    assert!(matches!(stores.register_update(5, UpdateMeta::ClearDocuments, "p".to_string(), 1), Ok(0)));
    assert!(matches!(stores.register_update(6, UpdateMeta::DeleteDocuments, "q".to_string(), 1), Ok(0)));
    assert!(matches!(stores.register_update(5, UpdateMeta::Settings(b"{}".to_vec()), "r".to_string(), 2), Ok(1)));
    match stores.list_updates(5) {
        Ok(v) => assert_eq!(v.len(), 2),
        Err(_) => panic!("log of 5 must exist"),
    }
    assert!(matches!(stores.start_next(5), Ok(Some(0))));
    assert!(matches!(stores.start_next(7), Err(UpdateError::UnexistingIndex(7))));
    match stores.finish(5, 0, Ok(UpdateResult::Other), 3) {
        Ok(p) => assert_eq!(p, "p"),
        Err(_) => panic!("finish must succeed"),
    }
    assert!(matches!(stores.get_update(5, 0), Ok(Some(r)) if matches!(r.state, UpdateState::Processed(_))));
    assert!(matches!(stores.get_update(5, 9), Ok(None)));
    assert!(stores.delete(5).is_some());
    assert!(!stores.is_loaded(5));
    assert!(stores.is_loaded(6));
}

#[test]
fn loaded_store_is_installed_once() {
    let mut stores = UpdateStores::new();
    assert!(stores.install_loaded(3, UpdateStore::new()));
    assert!(matches!(stores.register_update(3, UpdateMeta::ClearDocuments, "a".to_string(), 1), Ok(0)));
    // Another task loaded it meanwhile: the store already there is kept.
    assert!(!stores.install_loaded(3, UpdateStore::new()));
    match stores.list_updates(3) {
        Ok(v) => assert_eq!(v.len(), 1),
        Err(_) => panic!("log of 3 must exist"),
    }
    stores.get_or_create(3);
    stores.get_or_create(4);
    assert!(matches!(stores.list_updates(4), Ok(v) if v.is_empty()));
}

#[test]
fn closing_waits_for_the_last_holder() {
    assert_eq!(get_arc_ownership_blocking(1), None);
    assert_eq!(get_arc_ownership_blocking(2), Some(RELEASE_POLL_MS));
    assert_eq!(RELEASE_POLL_MS, 100);
}

fn record(update_id: u64, state: UpdateState, payload: Option<&str>) -> UpdateRecord {
    UpdateRecord {
        update_id,
        meta: UpdateMeta::ClearDocuments,
        enqueued_at: 1,
        payload: payload.map(|p| p.to_string()),
        state,
        terminated_at: None,
    }
}

#[test]
fn stored_log_is_read_back_only_when_consistent() {
    let good = vec![
        record(0, UpdateState::Processed(UpdateResult::Other), None),
        record(1, UpdateState::Processing, Some("b")),
        record(4, UpdateState::Enqueued, Some("c")),
    ];
    let mut store = match UpdateStore::from_records(good) {
        Some(s) => s,
        None => panic!("a consistent log must load"),
    };
    assert_eq!(store.list().len(), 3);
    store.recover(&vec![false, true, true]);
    assert_eq!(store.start_next(), Some(1));
    assert!(matches!(store.register_update(UpdateMeta::ClearDocuments, "d".to_string(), 2), Ok(5)));

    let out_of_order = vec![record(2, UpdateState::Enqueued, Some("a")), record(1, UpdateState::Enqueued, Some("b"))];
    assert!(UpdateStore::from_records(out_of_order).is_none());
    let enqueued_before_done = vec![
        record(0, UpdateState::Enqueued, Some("a")),
        record(1, UpdateState::Failed("x".to_string()), None),
    ];
    assert!(UpdateStore::from_records(enqueued_before_done).is_none());
    let terminal_with_payload = vec![record(0, UpdateState::Failed("x".to_string()), Some("a"))];
    assert!(UpdateStore::from_records(terminal_with_payload).is_none());
    assert!(UpdateStore::from_records(vec![record(u64::MAX, UpdateState::Enqueued, Some("a"))]).is_none());
    match UpdateStore::from_records(Vec::new()) {
        Some(mut s) => assert!(matches!(s.register_update(UpdateMeta::ClearDocuments, "e".to_string(), 1), Ok(0))),
        None => panic!("an empty log must load"),
    }
}

#[test]
fn restore_repairs_a_log_after_a_crash() {
    let stored = vec![
        record(0, UpdateState::Processed(UpdateResult::Other), None),
        record(1, UpdateState::Processing, Some("b")),
        record(2, UpdateState::Enqueued, Some("c")),
        record(3, UpdateState::Enqueued, Some("d")),
    ];
    let mut store = match UpdateStore::restore(stored, &vec![false, true, false, true]) {
        Some(s) => s,
        None => panic!("a consistent log must be restored"),
    };
    let ids: Vec<u64> = store.list().iter().map(|r| r.update_id).collect();
    assert_eq!(ids, vec![0, 1, 3]);
    assert!(store.list().iter().all(|r| !matches!(r.state, UpdateState::Processing)));
    assert_eq!(store.start_next(), Some(1));
    let broken = vec![record(1, UpdateState::Enqueued, Some("a")), record(1, UpdateState::Enqueued, Some("b"))];
    assert!(UpdateStore::restore(broken, &vec![true, true]).is_none());
}
