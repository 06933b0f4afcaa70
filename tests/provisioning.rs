use noir_mobile::artifact::{artifact_bytecode, ArtifactError};
use noir_mobile::srs::{
    requested_subgroup_size, subgroup_size_for, Staging, StagingAction, StagingError,
    DEFAULT_SUBGROUP_SIZE,
};

#[test]
fn subgroup_size_is_next_power_of_two() {
    assert_eq!(subgroup_size_for(0), 1);
    assert_eq!(subgroup_size_for(1), 1);
    assert_eq!(subgroup_size_for(2), 2);
    assert_eq!(subgroup_size_for(3), 4);
    assert_eq!(subgroup_size_for(1000000), 1048576);
    assert_eq!(subgroup_size_for(1048576), 1048576);
    assert_eq!(subgroup_size_for(1048577), 2097152);
    assert_eq!(subgroup_size_for(u32::MAX), 4294967296);
}

#[test]
fn default_size_without_circuit() {
    assert_eq!(requested_subgroup_size(None), DEFAULT_SUBGROUP_SIZE);
    assert_eq!(DEFAULT_SUBGROUP_SIZE, 1048576);
    assert_eq!(requested_subgroup_size(Some(5)), 8);
}

#[test]
fn staging_goes_on_after_failed_copy() {
    let mut s = Staging::new(2);
    assert_eq!(s.next_action(), StagingAction::CopyTo(0));
    s.record_copy(false);
    assert_eq!(s.next_action(), StagingAction::CopyTo(1));
    s.record_copy(true);
    assert_eq!(s.next_action(), StagingAction::RemoveTransient);
    assert_eq!(s.record_removal(true), Ok(()));
    assert_eq!(s.next_action(), StagingAction::Finished);
    assert_eq!(s.failed_targets(), vec![0]);
}

#[test]
fn staging_removal_failure_is_fatal() {
    let mut s = Staging::new(1);
    s.record_copy(true);
    assert_eq!(s.record_removal(false), Err(StagingError::RemovalFailed));
    assert_eq!(s.next_action(), StagingAction::Finished);
    assert_eq!(s.failed_targets(), Vec::<usize>::new());
}

#[test]
fn staging_without_targets_removes_at_once() {
    let s = Staging::new(0);
    assert_eq!(s.next_action(), StagingAction::RemoveTransient);
}

#[test]
fn artifact_bytecode_extraction() {
    assert_eq!(
        artifact_bytecode(br#"{"noir_version":"0.19","bytecode":"H4sIAAAA"}"#),
        Ok("H4sIAAAA".to_string())
    );
    assert_eq!(artifact_bytecode(b"not json"), Err(ArtifactError::MalformedDocument));
    assert_eq!(artifact_bytecode(br#"{"abi":{}}"#), Err(ArtifactError::MissingBytecode));
    assert_eq!(artifact_bytecode(br#"{"bytecode":5}"#), Err(ArtifactError::MissingBytecode));
    assert_eq!(artifact_bytecode(br#"["bytecode"]"#), Err(ArtifactError::MissingBytecode));
    assert_eq!(artifact_bytecode(br#"{"bytecode":""}"#), Ok(String::new()));
    assert_eq!(
        artifact_bytecode(br#"{"bytecode":"a\nb"}"#),
        Ok("a\nb".to_string())
    );
    assert_eq!(artifact_bytecode(br#"{"bytecode":"x""#), Err(ArtifactError::MalformedDocument));
}
