use tofnd::context::{local_contexts, total_share_count, uids_are_distinct, Context, InitError, KeygenContext, KeygenError, KeygenInitSanitized, KeygenType};
use tofnd::service::{Service, ServiceError};

fn uids(names: &[&str]) -> Vec<String> {
    names.iter().map(|n| n.to_string()).collect()
}

fn params(counts: Vec<usize>, my_index: usize, threshold: usize) -> KeygenInitSanitized {
    let names: Vec<&str> = ["A", "B", "C", "D", "E"][..counts.len()].to_vec();
    KeygenInitSanitized::new("key".to_string(), uids(&names), counts, my_index, threshold).unwrap()
}

#[test]
fn valid_params_give_local_share_count() {
    let p = params(vec![1, 2, 1, 3, 2], 3, 6);
    assert_eq!(p.my_shares_count(), 3);
    assert_eq!(p.total_shares(), 9);
    assert_eq!(p.my_share_offset(), 4);
}

#[test]
fn single_party_single_share() {
    let p = params(vec![1], 0, 0);
    assert_eq!(p.my_shares_count(), 1);
    assert_eq!(p.total_shares(), 1);
}

#[test]
fn local_party_without_shares() {
    let p = params(vec![2, 0, 1], 1, 2);
    assert_eq!(p.my_shares_count(), 0);
    assert_eq!(local_contexts(&p).len(), 0);
}

#[test]
fn misaligned_lists_are_invalid() {
    let r = KeygenInitSanitized::new("key".to_string(), uids(&["A", "B"]), vec![1, 1, 1], 0, 0);
    assert_eq!(r.err(), Some(InitError::InvalidParameters));
}

#[test]
fn threshold_equal_to_total_is_invalid() {
    let r = KeygenInitSanitized::new("key".to_string(), uids(&["A", "B"]), vec![1, 2], 0, 3);
    assert_eq!(r.err(), Some(InitError::InvalidParameters));
    let r = KeygenInitSanitized::new("key".to_string(), uids(&["A", "B"]), vec![1, 2], 0, 2);
    assert!(r.is_ok());
}

#[test]
fn no_shares_at_all_is_invalid() {
    let r = KeygenInitSanitized::new("key".to_string(), uids(&["A"]), vec![0], 0, 0);
    assert_eq!(r.err(), Some(InitError::InvalidParameters));
    let r = KeygenInitSanitized::new("key".to_string(), vec![], vec![], 0, 0);
    assert_eq!(r.err(), Some(InitError::UnknownParticipant));
}

#[test]
fn local_index_out_of_range_is_unknown() {
    let r = KeygenInitSanitized::new("key".to_string(), uids(&["A", "B"]), vec![1, 1], 2, 0);
    assert_eq!(r.err(), Some(InitError::UnknownParticipant));
}

#[test]
fn misalignment_is_reported_before_the_index() {
    let r = KeygenInitSanitized::new("key".to_string(), uids(&["A"]), vec![1, 1], 5, 0);
    assert_eq!(r.err(), Some(InitError::InvalidParameters));
}

#[test]
fn repeated_identity_is_invalid() {
    let r = KeygenInitSanitized::new("key".to_string(), uids(&["A", "B", "A"]), vec![1, 1, 1], 0, 1);
    assert_eq!(r.err(), Some(InitError::InvalidParameters));
    assert!(!uids_are_distinct(&uids(&["A", "B", "A"])));
    assert!(uids_are_distinct(&uids(&["A", "B", "C"])));
}

#[test]
fn overflowing_total_is_invalid() {
    let r = KeygenInitSanitized::new("key".to_string(), uids(&["A", "B"]), vec![usize::MAX, 1], 0, 0);
    assert_eq!(r.err(), Some(InitError::InvalidParameters));
    assert_eq!(total_share_count(&vec![usize::MAX, 1]), None);
    assert_eq!(total_share_count(&vec![usize::MAX, 0]), Some(usize::MAX));
    assert_eq!(total_share_count(&vec![]), Some(0));
}

#[test]
fn keygen_log_line_escapes_names() {
    let p = KeygenInitSanitized::new("k".to_string(), uids(&["A\"x", "B\\y"]), vec![1, 1], 0, 1).unwrap();
    assert_eq!(
        p.log_info(),
        "[uid:A\"x, shares:1] starting Keygen with [key: k, (t,n)=(1,2), participants:[\"A\\\"x\", \"B\\\\y\"]"
    );
    assert_eq!(
        p.log_line("roster"),
        "[uid:A\"x, shares:1] starting Keygen with [key: k, (t,n)=(1,2), participants:roster"
    );
}

#[test]
fn keygen_log_line() {
    let p = params(vec![1, 2, 1, 3, 2], 3, 6);
    assert_eq!(
        p.log_info(),
        "[uid:D, shares:3] starting Keygen with [key: key, (t,n)=(6,9), participants:[\"A\", \"B\", \"C\", \"D\", \"E\"]"
    );
}

#[test]
fn share_log_line_and_index() {
    let p = params(vec![1, 2, 1, 3, 2], 3, 6);
    let c = Context::new(&p, 1);
    assert_eq!(c.log_info(), "[key] [uid:D, share:2/3]");
    assert_eq!(c.share_index(), 5);
    let d = c.clone_with_subindex(2);
    assert_eq!(d.tofnd_subindex, 2);
    assert_eq!(d.share_index(), 6);
    assert_eq!(d.log_info(), "[key] [uid:D, share:3/3]");
}

#[test]
fn multi_digit_counts_in_log_line() {
    let p = params(vec![12, 105], 1, 116);
    let c = Context::new(&p, 99);
    assert_eq!(c.log_info(), "[key] [uid:B, share:100/105]");
}

#[test]
fn local_contexts_cover_each_share() {
    let p = params(vec![1, 2, 1, 3, 2], 3, 6);
    let cs = local_contexts(&p);
    assert_eq!(cs.len(), 3);
    for (i, c) in cs.iter().enumerate() {
        assert_eq!(c.tofnd_subindex, i);
        assert_eq!(c.share_index(), 4 + i);
    }
}

#[test]
fn keygen_context_keeps_scheme() {
    let mut service = Service::new();
    let p = params(vec![2, 1], 0, 1);
    let k = KeygenContext::new_without_subindex(KeygenType::Multisig, &mut service, &p).unwrap().unwrap();
    assert_eq!(k.log_info(), "[key] [uid:A, share:1/2]");
    let k2 = k.clone_with_subindex(1);
    assert!(matches!(k2, KeygenContext::Multisig(_)));
    assert_eq!(k2.log_info(), "[key] [uid:A, share:2/2]");
    let q = KeygenInitSanitized::new("other".to_string(), uids(&["A", "B"]), vec![2, 1], 0, 1).unwrap();
    let g = KeygenContext::new_without_subindex(KeygenType::Gg20, &mut service, &q).unwrap();
    assert!(matches!(g, Some(KeygenContext::Gg20(_))));
}

#[test]
fn keygen_start_refuses_a_session_id_in_use() {
    let mut service = Service::new();
    let p = params(vec![1, 1], 0, 1);
    assert!(KeygenContext::new_without_subindex(KeygenType::Multisig, &mut service, &p).is_ok());
    assert!(matches!(
        KeygenContext::new_without_subindex(KeygenType::Multisig, &mut service, &p),
        Err(KeygenError::DuplicateSession)
    ));
    assert_eq!(service.finish_keygen(&"key".to_string(), vec![vec![7]]), Ok(()));
    assert!(matches!(
        KeygenContext::new_without_subindex(KeygenType::Gg20, &mut service, &p),
        Err(KeygenError::DuplicateSession)
    ));
    assert_eq!(service.start_sign(&"key".to_string()), Ok(vec![vec![7]]));
}

#[test]
fn keygen_start_refuses_bad_parameters_without_reserving() {
    let mut service = Service::new();
    let bad = KeygenInitSanitized {
        new_key_uid: "key".to_string(),
        party_uids: uids(&["A", "B"]),
        party_share_counts: vec![1, 1],
        my_index: 0,
        threshold: 2,
    };
    assert!(matches!(
        KeygenContext::new_without_subindex(KeygenType::Gg20, &mut service, &bad),
        Err(KeygenError::InvalidParameters)
    ));
    let outside = KeygenInitSanitized { my_index: 2, threshold: 1, ..bad };
    assert!(matches!(
        KeygenContext::new_without_subindex(KeygenType::Gg20, &mut service, &outside),
        Err(KeygenError::UnknownParticipant)
    ));
    assert_eq!(service.finish_keygen(&"key".to_string(), vec![]), Err(ServiceError::UnknownSession));
}

#[test]
fn keygen_start_accepts_a_party_without_shares() {
    let mut service = Service::new();
    let none_here = params(vec![0, 2], 0, 1);
    assert_eq!(none_here.my_shares_count(), 0);
    assert!(matches!(
        KeygenContext::new_without_subindex(KeygenType::Gg20, &mut service, &none_here),
        Ok(None)
    ));
    assert!(matches!(
        KeygenContext::new_without_subindex(KeygenType::Gg20, &mut service, &none_here),
        Err(KeygenError::DuplicateSession)
    ));
    assert_eq!(service.finish_keygen(&"key".to_string(), vec![]), Ok(()));
}
