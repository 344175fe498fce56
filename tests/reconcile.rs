use tofnd::context::KeygenInitSanitized;
use tofnd::driver::{Abort, AbortCause};
use tofnd::reconcile::{collect_accused, culprit_parties, culprit_uids, owner_of_share, reconcile, ReconcileError, SessionOutcome, ShareOutcome};

fn params(counts: Vec<usize>) -> KeygenInitSanitized {
    let names: Vec<String> = ["A", "B", "C", "D", "E"][..counts.len()].iter().map(|n| n.to_string()).collect();
    let total: usize = counts.iter().sum();
    KeygenInitSanitized::new("key".to_string(), names, counts, 0, total - 1).unwrap()
}

fn aborted() -> ShareOutcome {
    ShareOutcome::Aborted(Abort { cause: AbortCause::Timeout, round: 2, missing: vec![3] })
}

#[test]
fn shares_of_one_party_accused_together_name_it_once() {
    // shares 0..4; shares 1 and 2 belong to party B
    let p = params(vec![1, 2, 1]);
    let outcomes = vec![ShareOutcome::Faulted(vec![1, 2]), ShareOutcome::Faulted(vec![2, 1])];
    match reconcile(&p, &outcomes) {
        Ok(SessionOutcome::Culprits(c)) => {
            assert_eq!(c, vec![1]);
            assert_eq!(culprit_uids(&p, &c), vec!["B".to_string()]);
        }
        _ => panic!("expected culprits"),
    }
}

#[test]
fn culprits_are_sorted_by_roster_position() {
    let p = params(vec![1, 2, 1, 3]);
    let outcomes = vec![ShareOutcome::Faulted(vec![6, 0, 4])];
    match reconcile(&p, &outcomes) {
        Ok(SessionOutcome::Culprits(c)) => {
            assert_eq!(c, vec![0, 3]);
            assert_eq!(culprit_uids(&p, &c), vec!["A".to_string(), "D".to_string()]);
        }
        _ => panic!("expected culprits"),
    }
}

#[test]
fn fault_outweighs_completion_and_abort() {
    let p = params(vec![1, 1, 1]);
    let outcomes = vec![ShareOutcome::Completed(vec![5]), aborted(), ShareOutcome::Faulted(vec![2])];
    match reconcile(&p, &outcomes) {
        Ok(SessionOutcome::Culprits(c)) => assert_eq!(c, vec![2]),
        _ => panic!("expected culprits"),
    }
}

#[test]
fn abort_without_fault_is_aborted() {
    let p = params(vec![1, 1]);
    let outcomes = vec![ShareOutcome::Completed(vec![5]), aborted()];
    assert!(matches!(reconcile(&p, &outcomes), Ok(SessionOutcome::Aborted)));
}

#[test]
fn divergent_results_are_inconsistent() {
    let p = params(vec![2, 1]);
    let outcomes = vec![ShareOutcome::Completed(vec![1, 2, 3]), ShareOutcome::Completed(vec![1, 2, 4])];
    assert!(matches!(reconcile(&p, &outcomes), Err(ReconcileError::ProtocolInconsistency)));
    let outcomes = vec![ShareOutcome::Completed(vec![1, 2, 3]), ShareOutcome::Completed(vec![1, 2])];
    assert!(matches!(reconcile(&p, &outcomes), Err(ReconcileError::ProtocolInconsistency)));
}

#[test]
fn equal_results_succeed() {
    let p = params(vec![2, 1]);
    let outcomes = vec![ShareOutcome::Completed(vec![1, 2, 3]), ShareOutcome::Completed(vec![1, 2, 3])];
    match reconcile(&p, &outcomes) {
        Ok(SessionOutcome::Success(v)) => assert_eq!(v, vec![1, 2, 3]),
        _ => panic!("expected success"),
    }
}

#[test]
fn no_outcomes_and_unknown_shares() {
    let p = params(vec![2, 1]);
    assert!(matches!(reconcile(&p, &vec![]), Err(ReconcileError::NoShares)));
    let outcomes = vec![ShareOutcome::Faulted(vec![0, 3])];
    assert!(matches!(reconcile(&p, &outcomes), Err(ReconcileError::UnknownShare)));
}

#[test]
fn share_owners() {
    let p = params(vec![1, 0, 2, 1]);
    assert_eq!(owner_of_share(&p, 0), Some(0));
    assert_eq!(owner_of_share(&p, 1), Some(2));
    assert_eq!(owner_of_share(&p, 2), Some(2));
    assert_eq!(owner_of_share(&p, 3), Some(3));
    assert_eq!(owner_of_share(&p, 4), None);
}

#[test]
fn accused_shares_are_collected_in_order() {
    let outcomes = vec![ShareOutcome::Faulted(vec![3]), ShareOutcome::Completed(vec![1]), ShareOutcome::Faulted(vec![1, 0])];
    assert_eq!(collect_accused(&outcomes), vec![3, 1, 0]);
    let p = params(vec![1, 1, 1, 1]);
    assert_eq!(culprit_parties(&p, &vec![3, 1, 1]), Some(vec![1, 3]));
    assert_eq!(culprit_parties(&p, &vec![3, 4]), None);
}
