use dreamwake_client::baselines::ObsoleteReason;
use dreamwake_client::delivery::{
    fold_member_decodes, group_failure, group_verdict, public_standalone, supersedes,
    GroupFailure, MemberDecode, MemberFold, Publication, ReplicationFault,
};
use dreamwake_client::ids::EntityId;

fn id(index: u64) -> EntityId {
    EntityId { index, generation: 1 }
}

fn member(failure: Option<ReplicationFault>, has_seed: bool) -> MemberDecode {
    MemberDecode { failure, has_seed }
}

#[test]
fn only_public_actors_arrive_standalone() {
    assert!(public_standalone(id(9), id(1), id(2), id(3), true));
    assert!(!public_standalone(id(9), id(1), id(2), id(3), false));
    for fixed in [1, 2, 3] {
        assert!(!public_standalone(id(fixed), id(1), id(2), id(3), true));
    }
}

#[test]
fn newer_fragments_supersede_incomplete_publications() {
    let old = Publication { revision: 3, snapshot: 10 };
    assert!(supersedes(Some(old), Publication { revision: 4, snapshot: 1 }, 1));
    assert!(supersedes(Some(old), Publication { revision: 3, snapshot: 11 }, 2));
    assert!(!supersedes(Some(old), Publication { revision: 3, snapshot: 10 }, 2));
    assert!(!supersedes(Some(old), Publication { revision: 4, snapshot: 1 }, 0));
    assert!(!supersedes(None, Publication { revision: 4, snapshot: 1 }, 1));
}

#[test]
fn member_decodes_use_seeds_where_reconstruction_failed() {
    let members = vec![
        member(None, false),
        member(Some(ReplicationFault::BaselineResetPending), true),
        member(Some(ReplicationFault::Obsolete(ObsoleteReason::RetiredBaseline)), true),
        member(None, true),
    ];
    let fold = fold_member_decodes(&members).unwrap();
    assert_eq!(
        fold,
        MemberFold {
            use_seed: vec![false, true, true, false],
            obsolete: Some(ObsoleteReason::RetiredBaseline),
            reset_pending: true,
        }
    );
    assert_eq!(
        group_verdict(&fold, true),
        Err(ReplicationFault::Obsolete(ObsoleteReason::RetiredBaseline))
    );
    assert_eq!(group_verdict(&fold, false), Err(ReplicationFault::InvalidPayload));
    let pending = MemberFold { obsolete: None, ..fold };
    assert_eq!(group_verdict(&pending, true), Err(ReplicationFault::BaselineResetPending));
    let clean = fold_member_decodes(&vec![member(None, false), member(None, true)]).unwrap();
    assert_eq!(group_verdict(&clean, true), Ok(()));
}

#[test]
fn member_failures_without_seeds_refuse_the_group() {
    assert_eq!(
        fold_member_decodes(&vec![
            member(Some(ReplicationFault::BaselineResetPending), false),
            member(Some(ReplicationFault::Conflict), true),
        ]),
        Err(ReplicationFault::InvalidIdentity)
    );
    assert_eq!(
        fold_member_decodes(&vec![member(
            Some(ReplicationFault::Obsolete(ObsoleteReason::Scope)),
            false
        )]),
        Err(ReplicationFault::Obsolete(ObsoleteReason::Scope))
    );
    assert_eq!(
        fold_member_decodes(&vec![member(None, false), member(Some(ReplicationFault::Conflict), true)]),
        Err(ReplicationFault::Conflict)
    );
}

#[test]
fn failed_publications_wait_repair_count_or_refuse() {
    assert_eq!(group_failure(ReplicationFault::BaselineResetPending), GroupFailure::AwaitReset);
    assert_eq!(group_failure(ReplicationFault::Unknown), GroupFailure::Repair);
    assert_eq!(group_failure(ReplicationFault::Capacity), GroupFailure::Repair);
    assert_eq!(
        group_failure(ReplicationFault::Obsolete(ObsoleteReason::Publication)),
        GroupFailure::Stale
    );
    assert_eq!(group_failure(ReplicationFault::InvalidPayload), GroupFailure::Refuse);
}
