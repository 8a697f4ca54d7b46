use index_controller::name::is_valid_index_uid;
use index_controller::resolver::{Code, NameMap, UuidResolverError};

#[test]
fn create_delete_recreate_gives_new_id() {
    let mut map = NameMap::new();
    let u1 = match map.create("books".to_string()) {
        Ok(id) => id,
        Err(_) => panic!("first create must succeed"),
    };
    assert!(matches!(
        map.create("books".to_string()),
        Err(UuidResolverError::NameAlreadyExist)
    ));
    match map.delete("books".to_string()) {
        Ok(id) => assert_eq!(id, u1),
        Err(_) => panic!("delete must succeed"),
    }
    let u2 = match map.create("books".to_string()) {
        Ok(id) => id,
        Err(_) => panic!("create after delete must succeed"),
    };
    assert_ne!(u1, u2);
}

#[test]
fn create_with_reused_id_is_refused() {
    let mut map = NameMap::new();
    assert!(matches!(map.create_with_id("a".to_string(), 7), Ok(7)));
    assert!(matches!(map.delete("a".to_string()), Ok(7)));
    assert!(matches!(
        map.create_with_id("a".to_string(), 7),
        Err(UuidResolverError::Internal(_))
    ));
    assert!(matches!(map.create_with_id("a".to_string(), 8), Ok(8)));
}

#[test]
fn get_or_create_twice_returns_same_id() {
    let mut map = NameMap::new();
    let a = match map.get_or_create("logs".to_string()) {
        Ok(id) => id,
        Err(_) => panic!("get_or_create must succeed"),
    };
    let b = match map.get_or_create("logs".to_string()) {
        Ok(id) => id,
        Err(_) => panic!("get_or_create must succeed"),
    };
    assert_eq!(a, b);
    let all = map.list();
    assert_eq!(all.len(), 1);
    assert_eq!(all[0].0, "logs");
    assert_eq!(all[0].1, a);
}

#[test]
fn resolve_follows_the_map() {
    let mut map = NameMap::new();
    assert!(matches!(map.create_with_id("movies".to_string(), 42), Ok(42)));
    assert!(matches!(map.resolve("movies".to_string()), Ok(42)));
    match map.resolve("songs".to_string()) {
        Err(UuidResolverError::UnexistingIndex(n)) => assert_eq!(n, "songs"),
        _ => panic!("unknown name must be reported"),
    }
    match map.resolve("bad name".to_string()) {
        Err(UuidResolverError::BadlyFormatted(n)) => assert_eq!(n, "bad name"),
        _ => panic!("bad name must be reported"),
    }
    match map.delete("songs".to_string()) {
        Err(UuidResolverError::UnexistingIndex(n)) => assert_eq!(n, "songs"),
        _ => panic!("unknown name must be reported"),
    }
}

#[test]
fn names_are_validated() {
    assert!(is_valid_index_uid("a-b_C9"));
    assert!(!is_valid_index_uid(""));
    assert!(!is_valid_index_uid("with space"));
    assert!(!is_valid_index_uid("caf\u{e9}"));
    assert!(is_valid_index_uid(&"x".repeat(64)));
    assert!(!is_valid_index_uid(&"x".repeat(65)));
    let mut map = NameMap::new();
    match map.create("a/b".to_string()) {
        Err(UuidResolverError::BadlyFormatted(n)) => assert_eq!(n, "a/b"),
        _ => panic!("bad name must be refused"),
    }
    assert!(map.list().is_empty());
}

#[test]
fn error_codes() {
    assert_eq!(UuidResolverError::NameAlreadyExist.error_code(), Code::IndexAlreadyExists);
    assert_eq!(
        UuidResolverError::UnexistingIndex("x".to_string()).error_code(),
        Code::IndexNotFound
    );
    assert_eq!(
        UuidResolverError::BadlyFormatted("x y".to_string()).error_code(),
        Code::InvalidIndexUid
    );
    assert_eq!(UuidResolverError::Internal("io".to_string()).error_code(), Code::Internal);
}

#[test]
fn ids_stay_distinct_across_names() {
    let mut map = NameMap::new();
    let mut ids = Vec::new();
    for n in ["a", "b", "c", "d"] {
        match map.create(n.to_string()) {
            Ok(id) => ids.push(id),
            Err(_) => panic!("create must succeed"),
        }
    }
    for i in 0..ids.len() {
        for j in 0..ids.len() {
            if i != j {
                assert_ne!(ids[i], ids[j]);
            }
        }
    }
    assert!(matches!(map.resolve("c".to_string()), Ok(id) if id == ids[2]));
}
