use tofnd::context::KeygenInitSanitized;
use tofnd::service::{persistable_record, Service, ServiceError};
use tofnd::store::{ShareStore, StoreError};

fn params(key: &str) -> KeygenInitSanitized {
    KeygenInitSanitized::new(key.to_string(), vec!["A".to_string(), "B".to_string()], vec![1, 1], 0, 1).unwrap()
}

#[test]
fn keygen_with_one_session_id_succeeds_once() {
    let mut s = Service::new();
    let p = params("key-uid");
    assert_eq!(s.start_keygen(&p), Ok(()));
    assert_eq!(s.start_keygen(&p), Err(ServiceError::DuplicateSession));
    assert_eq!(s.finish_keygen(&"key-uid".to_string(), vec![vec![1], vec![2]]), Ok(()));
    assert_eq!(s.start_keygen(&p), Err(ServiceError::DuplicateSession));
    assert_eq!(s.start_sign(&"key-uid".to_string()), Ok(vec![vec![1], vec![2]]));
}

#[test]
fn stored_record_is_read_by_signing() {
    let mut s = Service::new();
    assert_eq!(s.start_keygen(&params("k1")), Ok(()));
    assert_eq!(s.start_keygen(&params("k2")), Ok(()));
    assert_eq!(s.finish_keygen(&"k2".to_string(), vec![vec![2]]), Ok(()));
    assert_eq!(s.finish_keygen(&"k1".to_string(), vec![vec![1]]), Ok(()));
    assert_eq!(s.start_sign(&"k1".to_string()), Ok(vec![vec![1]]));
    assert_eq!(s.start_sign(&"k2".to_string()), Ok(vec![vec![2]]));
}

#[test]
fn signing_unknown_key_fails() {
    let s = Service::new();
    assert_eq!(s.start_sign(&"non-existing key".to_string()), Err(ServiceError::UnknownSession));
}

#[test]
fn aborted_keygen_stores_nothing_and_frees_the_id() {
    let mut s = Service::new();
    let p = params("key-uid");
    assert_eq!(s.start_keygen(&p), Ok(()));
    s.abort_keygen(&"key-uid".to_string());
    assert_eq!(s.start_sign(&"key-uid".to_string()), Err(ServiceError::UnknownSession));
    assert_eq!(s.finish_keygen(&"key-uid".to_string(), vec![vec![1]]), Err(ServiceError::UnknownSession));
    assert_eq!(s.start_keygen(&p), Ok(()));
}

#[test]
fn store_put_get() {
    let mut st = ShareStore::new();
    assert!(!st.has_record(&"a".to_string()));
    assert_eq!(st.get(&"a".to_string()), Err(StoreError::NotFound));
    assert_eq!(st.put("a".to_string(), vec![vec![1]]), Ok(()));
    assert_eq!(st.put("b".to_string(), vec![vec![2]]), Ok(()));
    assert_eq!(st.put("a".to_string(), vec![vec![3]]), Err(StoreError::AlreadyExists));
    assert!(st.has_record(&"a".to_string()));
    assert_eq!(st.get(&"a".to_string()), Ok(vec![vec![1]]));
    assert_eq!(st.get(&"b".to_string()), Ok(vec![vec![2]]));
}

#[test]
fn record_is_stored_only_when_every_share_finished() {
    assert_eq!(persistable_record(&vec![Some(vec![1]), Some(vec![2, 3])]), Some(vec![vec![1], vec![2, 3]]));
    assert_eq!(persistable_record(&vec![Some(vec![1]), None]), None);
    assert_eq!(persistable_record(&vec![]), None);
}

#[test]
fn signing_shares_must_match_the_stored_record() {
    let mut s = Service::new();
    assert_eq!(s.start_keygen(&params("key-uid")), Ok(()));
    assert_eq!(s.finish_keygen(&"key-uid".to_string(), vec![vec![1], vec![2]]), Ok(()));
    assert_eq!(s.start_sign_shares(&"key-uid".to_string(), 2), Ok(vec![vec![1], vec![2]]));
    assert_eq!(s.start_sign_shares(&"key-uid".to_string(), 1), Err(ServiceError::ShareCountMismatch));
    assert_eq!(s.start_sign_shares(&"other".to_string(), 2), Err(ServiceError::UnknownSession));
}
