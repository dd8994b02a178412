use minipost::ident::PostId;
use minipost::store::{PostStore, StoreError};

fn id_a() -> PostId {
    PostId::parse(b"00000000-0000-0000-0000-000000000001").unwrap()
}

fn id_b() -> PostId {
    PostId::parse(b"00000000-0000-0000-0000-000000000002").unwrap()
}

#[test]
fn create_then_get_round_trip() {
    let mut store = PostStore::new();
    let id = store
        .create(b"Hello".to_vec(), b"World".to_vec())
        .expect("create failed");
    let post = store.get_by_id(&id).expect("created post not found");
    assert_eq!(post.title, b"Hello".to_vec());
    assert_eq!(post.content, b"World".to_vec());
    assert_eq!(post.id.as_bytes(), id.as_bytes());
}

#[test]
fn created_ids_are_distinct() {
    let mut store = PostStore::new();
    let mut ids: Vec<Vec<u8>> = Vec::new();
    for i in 0..8 {
        let id = store
            .create(format!("t{}", i).into_bytes(), Vec::new())
            .expect("create failed");
        ids.push(id.as_bytes().to_vec());
    }
    for i in 0..ids.len() {
        for j in 0..i {
            assert_ne!(ids[i], ids[j]);
        }
    }
}

#[test]
fn absent_id_is_absence_not_error() {
    let mut store = PostStore::new();
    store
        .insert_new(id_a(), b"t".to_vec(), b"c".to_vec())
        .expect("insert failed");
    assert!(store.get_by_id(&id_b()).is_none());
    assert!(store.get_by_id(&id_a()).is_some());
}

#[test]
fn empty_store_finds_nothing() {
    let store = PostStore::new();
    assert!(store.get_by_id(&id_a()).is_none());
    assert!(!store.contains_id(&id_a()));
}

#[test]
fn duplicate_insert_fails_and_changes_nothing() {
    let mut store = PostStore::new();
    store
        .insert_new(id_a(), b"first".to_vec(), b"one".to_vec())
        .expect("insert failed");
    let r = store.insert_new(id_a(), b"second".to_vec(), b"two".to_vec());
    assert!(matches!(r, Err(StoreError::DuplicateId)));
    let post = store.get_by_id(&id_a()).unwrap();
    assert_eq!(post.title, b"first".to_vec());
    assert_eq!(post.content, b"one".to_vec());
}

#[test]
fn posts_are_never_mutated_by_later_creates() {
    let mut store = PostStore::new();
    let id = store
        .create(b"keep".to_vec(), b"me".to_vec())
        .expect("create failed");
    store
        .create(b"other".to_vec(), b"post".to_vec())
        .expect("create failed");
    let post = store.get_by_id(&id).unwrap();
    assert_eq!(post.title, b"keep".to_vec());
    assert_eq!(post.content, b"me".to_vec());
}
