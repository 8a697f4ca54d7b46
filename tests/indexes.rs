use std::sync::Arc;

use index_controller::controller::{ControllerError, IndexController, IndexSettings};
use index_controller::index_actor::{channel_of, Channel, Dispatcher, IndexMsgKind};
use index_controller::index_store::{IndexError, IndexStore, Opening};
use index_controller::resolver::UuidResolverError;
use index_controller::update_actor::get_arc_ownership_blocking;
use index_controller::updates::{IndexDocumentsMethod, UpdateFormat, UpdateMeta, UpdateResult, UpdateState};

#[test]
fn first_write_creates_the_index() {
    let mut store: IndexStore<u32> = IndexStore::new();
    assert_eq!(store.opening(9), Opening::Create);
    store.install(9, None, 1, 100);
    assert_eq!(store.opening(9), Opening::Cached);
    assert!(store.record_write(9, 250).is_ok());
    let meta = match store.get_meta(9) {
        Some(m) => m,
        None => panic!("meta must exist"),
    };
    assert_eq!(meta.created_at, 100);
    assert_eq!(meta.updated_at, 250);
    assert!(meta.created_at <= meta.updated_at);
    // A clock that steps back does not move `updated_at` back.
    assert!(store.record_write(9, 50).is_ok());
    assert!(matches!(store.get_meta(9), Some(m) if m.updated_at == 250));
    assert!(matches!(store.record_write(10, 1), Err(IndexError::UnexistingIndex)));
}

#[test]
fn explicit_create_is_not_idempotent() {
    let mut store: IndexStore<u32> = IndexStore::new();
    match store.create_index(1, Some("id".to_string()), 7, 5) {
        Ok(m) => {
            assert_eq!(m.uuid, 1);
            assert_eq!(m.created_at, 5);
            assert_eq!(m.updated_at, 5);
            assert_eq!(m.primary_key, Some("id".to_string()));
        }
        Err(_) => panic!("create must succeed"),
    }
    assert!(matches!(store.create_index(1, None, 8, 6), Err(IndexError::IndexAlreadyExists)));
    assert_eq!(store.get(1), Some(&7));
}

#[test]
fn delete_hands_back_the_handle() {
    let mut store: IndexStore<u32> = IndexStore::new();
    assert_eq!(store.delete(3), None);
    assert!(store.create_index(3, None, 30, 1).is_ok());
    assert_eq!(store.delete(3), Some(30));
    assert_eq!(store.get(3), None);
    assert!(store.get_meta(3).is_none());
    assert_eq!(store.opening(3), Opening::Create);
}

#[test]
fn writes_go_one_at_a_time() {
    assert_eq!(channel_of(IndexMsgKind::Update), Channel::Write);
    assert_eq!(channel_of(IndexMsgKind::CreateIndex), Channel::Write);
    assert_eq!(channel_of(IndexMsgKind::Delete), Channel::Write);
    assert_eq!(channel_of(IndexMsgKind::Search), Channel::Read);
    assert_eq!(channel_of(IndexMsgKind::GetMeta), Channel::Read);
    let mut d = Dispatcher::new();
    assert!(d.try_start(Channel::Write));
    assert!(!d.try_start(Channel::Write));
    for _ in 0..10 {
        assert!(d.try_start(Channel::Read));
    }
    assert!(!d.try_start(Channel::Read));
    d.complete(Channel::Write);
    assert!(d.try_start(Channel::Write));
    d.complete(Channel::Read);
    assert!(d.try_start(Channel::Read));
}

#[test]
fn search_in_flight_survives_delete() {
    let mut c: IndexController<Arc<String>> = IndexController::new();
    let settings = IndexSettings { name: Some("books".to_string()), primary_key: None };
    let id = match c.create_index(settings) {
        Ok(id) => id,
        Err(_) => panic!("create must succeed"),
    };
    let engine = Arc::new("engine of books".to_string());
    assert!(c.index_opened(id, "books".to_string(), None, engine).is_ok());
    // A long search clones the handle before the index is deleted.
    let in_flight = match c.index_for_read("books".to_string()) {
        Ok(h) => Arc::clone(h),
        Err(_) => panic!("index must be readable"),
    };
    let (_, handle) = match c.delete_index("books".to_string()) {
        Ok(x) => x,
        Err(_) => panic!("delete must succeed"),
    };
    let handle = match handle {
        Some(h) => h,
        None => panic!("an open handle is handed back"),
    };
    assert_eq!(get_arc_ownership_blocking(Arc::strong_count(&handle)), Some(100));
    assert_eq!(in_flight.as_str(), "engine of books");
    drop(in_flight);
    assert_eq!(get_arc_ownership_blocking(Arc::strong_count(&handle)), None);
    assert!(matches!(
        c.index_for_read("books".to_string()),
        Err(ControllerError::Resolver(UuidResolverError::UnexistingIndex(_)))
    ));
    assert!(matches!(
        c.resolver.resolve("books".to_string()),
        Err(UuidResolverError::UnexistingIndex(_))
    ));
}

#[test]
fn controller_update_flow() {
    let mut c: IndexController<u8> = IndexController::new();
    assert!(matches!(
        c.register_update("books".to_string(), false, UpdateMeta::ClearDocuments, "f0".to_string()),
        Err(ControllerError::Resolver(UuidResolverError::UnexistingIndex(_)))
    ));
    let (id, u0) = match c.register_update("books".to_string(), true, UpdateMeta::ClearDocuments, "f1".to_string()) {
        Ok(x) => x,
        Err(_) => panic!("register must succeed"),
    };
    assert_eq!(u0, 0);
    assert!(matches!(
        c.register_update("books".to_string(), false, UpdateMeta::DeleteDocuments, "f2".to_string()),
        Ok((i, 1)) if i == id
    ));
    // The index was never created explicitly: its first write creates it.
    assert_eq!(c.indexes.opening(id), Opening::Create);
    c.indexes.install(id, None, 1, 3);
    assert!(matches!(c.updates.start_next(id), Ok(Some(0))));
    match c.update_done(id, 0, Ok(UpdateResult::DocumentDeletion { deleted: 2 })) {
        Ok(p) => assert_eq!(p, "f1"),
        Err(_) => panic!("update must finish"),
    }
    match c.all_update_status("books".to_string()) {
        Ok(v) => {
            assert_eq!(v.len(), 2);
            assert!(matches!(v[0].state, UpdateState::Processed(UpdateResult::DocumentDeletion { deleted: 2 })));
            assert!(matches!(v[1].state, UpdateState::Enqueued));
        }
        Err(_) => panic!("log must exist"),
    }
    assert!(matches!(c.update_status("books".to_string(), 1), Ok(Some(r)) if r.update_id == 1));
    assert!(matches!(c.update_status("books".to_string(), 5), Ok(None)));
    match c.get_index("books".to_string()) {
        Ok(Some(m)) => {
            assert_eq!(m.name, "books");
            assert_eq!(m.meta.created_at, 3);
            assert!(m.meta.updated_at >= m.meta.created_at);
            assert!(m.meta.updated_at > 1_600_000_000_000);
        }
        _ => panic!("index must be listed"),
    }
    let all = c.list_indexes();
    assert_eq!(all.len(), 1);
    assert_eq!(all[0].name, "books");
    assert!(matches!(
        c.create_index(IndexSettings { name: None, primary_key: None }),
        Err(ControllerError::Resolver(UuidResolverError::BadlyFormatted(_)))
    ));
}

#[test]
fn listing_skips_names_without_metadata() {
    let mut c: IndexController<u8> = IndexController::new();
    let a = match c.create_index(IndexSettings { name: Some("a".to_string()), primary_key: None }) {
        Ok(id) => id,
        Err(_) => panic!("create must succeed"),
    };
    assert!(c.create_index(IndexSettings { name: Some("b".to_string()), primary_key: None }).is_ok());
    assert!(c.index_opened(a, "a".to_string(), Some("pk".to_string()), 0).is_ok());
    assert!(matches!(
        c.index_opened(a, "a".to_string(), None, 0),
        Err(ControllerError::Index(IndexError::IndexAlreadyExists))
    ));
    let all = c.list_indexes();
    assert_eq!(all.len(), 1);
    assert_eq!(all[0].name, "a");
    assert_eq!(all[0].meta.primary_key, Some("pk".to_string()));
    assert!(matches!(c.get_index("b".to_string()), Ok(None)));
}

#[test]
fn named_updates_carry_their_kind() {
    let mut c: IndexController<u8> = IndexController::new();
    assert!(matches!(
        c.clear_documents("movies".to_string(), "s0".to_string()),
        Err(ControllerError::Resolver(UuidResolverError::UnexistingIndex(_)))
    ));
    assert!(matches!(
        c.update_settings("movies".to_string(), b"{}".to_vec(), false, "s1".to_string()),
        Err(ControllerError::Resolver(UuidResolverError::UnexistingIndex(_)))
    ));
    let (id, u0) = match c.add_documents(
        "movies".to_string(),
        IndexDocumentsMethod::UpdateDocuments,
        UpdateFormat::JsonStream,
        Some("id".to_string()),
        "s2".to_string(),
    ) {
        Ok(x) => x,
        Err(_) => panic!("add_documents creates the index"),
    };
    assert_eq!(u0, 0);
    assert!(matches!(c.delete_documents("movies".to_string(), "s3".to_string()), Ok((i, 1)) if i == id));
    assert!(matches!(c.clear_documents("movies".to_string(), "s4".to_string()), Ok((i, 2)) if i == id));
    assert!(matches!(
        c.update_settings("movies".to_string(), b"{\"a\":1}".to_vec(), false, "s5".to_string()),
        Ok((i, 3)) if i == id
    ));
    assert!(matches!(
        c.add_documents("bad name".to_string(), IndexDocumentsMethod::ReplaceDocuments, UpdateFormat::Csv, None, "s6".to_string()),
        Err(ControllerError::Resolver(UuidResolverError::BadlyFormatted(_)))
    ));
    match c.all_update_status("movies".to_string()) {
        Ok(v) => {
            assert_eq!(v.len(), 4);
            assert!(matches!(
                &v[0].meta,
                UpdateMeta::DocumentsAddition {
                    method: IndexDocumentsMethod::UpdateDocuments,
                    format: UpdateFormat::JsonStream,
                    primary_key: Some(k),
                } if k == "id"
            ));
            assert!(matches!(v[1].meta, UpdateMeta::DeleteDocuments));
            assert!(matches!(v[2].meta, UpdateMeta::ClearDocuments));
            assert!(matches!(&v[3].meta, UpdateMeta::Settings(b) if b == b"{\"a\":1}"));
            assert_eq!(v[3].payload, Some("s5".to_string()));
        }
        Err(_) => panic!("log must exist"),
    }
}

#[test]
fn controller_reports_exact_name_errors() {
    let mut c: IndexController<u8> = IndexController::new();
    let books = IndexSettings { name: Some("books".to_string()), primary_key: None };
    assert!(c.create_index(books).is_ok());
    let again = IndexSettings { name: Some("books".to_string()), primary_key: None };
    assert!(matches!(
        c.create_index(again),
        Err(ControllerError::Resolver(UuidResolverError::NameAlreadyExist))
    ));
    let bad = IndexSettings { name: Some("no spaces".to_string()), primary_key: None };
    match c.create_index(bad) {
        Err(ControllerError::Resolver(UuidResolverError::BadlyFormatted(n))) => assert_eq!(n, "no spaces"),
        _ => panic!("bad name must be refused"),
    }
    assert!(c.delete_index("books".to_string()).is_ok());
    match c.get_index("books".to_string()) {
        Err(ControllerError::Resolver(UuidResolverError::UnexistingIndex(n))) => assert_eq!(n, "books"),
        _ => panic!("deleted index must be unknown"),
    }
    match c.delete_index("books".to_string()) {
        Err(ControllerError::Resolver(UuidResolverError::UnexistingIndex(n))) => assert_eq!(n, "books"),
        _ => panic!("deleted index must be unknown"),
    }
    match c.all_update_status("a b".to_string()) {
        Err(ControllerError::Resolver(UuidResolverError::BadlyFormatted(n))) => assert_eq!(n, "a b"),
        _ => panic!("bad name must be reported"),
    }
    match c.delete_documents("books".to_string(), "p".to_string()) {
        Err(ControllerError::Resolver(UuidResolverError::UnexistingIndex(n))) => assert_eq!(n, "books"),
        _ => panic!("unknown index must be reported"),
    }
}

#[test]
fn listing_follows_the_name_map_order() {
    let mut c: IndexController<u8> = IndexController::new();
    let mut ids = Vec::new();
    for n in ["zeta", "alpha", "mid"] {
        let id = match c.create_index(IndexSettings { name: Some(n.to_string()), primary_key: None }) {
            Ok(id) => id,
            Err(_) => panic!("create must succeed"),
        };
        assert!(c.index_opened(id, n.to_string(), None, 0).is_ok());
        ids.push(id);
    }
    let names: Vec<String> = c.list_indexes().into_iter().map(|m| m.name).collect();
    assert_eq!(names, vec!["zeta".to_string(), "alpha".to_string(), "mid".to_string()]);
    let uuids: Vec<u128> = c.list_indexes().into_iter().map(|m| m.meta.uuid).collect();
    assert_eq!(uuids, ids);
}

#[test]
fn a_new_index_has_an_empty_log() {
    let mut c: IndexController<u8> = IndexController::new();
    let id = match c.create_index(IndexSettings { name: Some("fresh".to_string()), primary_key: None }) {
        Ok(id) => id,
        Err(_) => panic!("create must succeed"),
    };
    assert!(c.index_opened(id, "fresh".to_string(), None, 0).is_ok());
    assert!(matches!(c.all_update_status("fresh".to_string()), Ok(v) if v.is_empty()));
}

#[test]
fn document_ids_are_staged_as_a_json_array() {
    let ids = vec!["a".to_string(), "b\"c".to_string()];
    let bytes = index_controller::controller::document_ids_payload(&ids);
    assert_eq!(bytes, br#"["a","b\"c"]"#.to_vec());
    assert_eq!(index_controller::controller::document_ids_payload(&Vec::new()), b"[]".to_vec());
}
