use nagame::preview::{Completion, ConfirmRequest, PreviewState, RevertRequest};

fn deadline(seconds: u64) -> u64 {
    1_000_000 + seconds * 1000
}

#[test]
fn refuses_a_second_pending_preview() {
    let mut state = PreviewState::default();
    assert_eq!(state.start(1, deadline(15), ()), Some("preview-1".into()));
    assert_eq!(state.start(2, deadline(15), ()), None);
}

#[test]
fn matching_revert_takes_pending_preview() {
    let mut state = PreviewState::default();
    let id = state.start(1, deadline(15), "before").unwrap();

    match state.request_revert(&id) {
        RevertRequest::Restore(preview) => assert_eq!(preview.payload, "before"),
        _ => panic!("matching transaction was not selected for restore"),
    }
    assert!(!state.is_pending());
}

#[test]
fn mismatched_revert_preserves_pending_preview() {
    let mut state = PreviewState::default();
    state.start(1, deadline(15), ()).unwrap();

    assert!(matches!(
        state.request_revert("preview-999"),
        RevertRequest::Mismatch
    ));
    assert!(state.is_pending());
}

#[test]
fn disconnect_only_takes_the_owners_preview() {
    let mut state = PreviewState::default();
    state.start(7, deadline(15), ()).unwrap();

    assert!(state.take_for_client(8).is_none());
    assert!(state.is_pending());
    assert!(state.take_for_client(7).is_some());
    assert!(!state.is_pending());
}

#[test]
fn timeout_only_takes_an_expired_preview() {
    let now = deadline(0);
    let mut state = PreviewState::default();
    state.start(1, now + 1000, ()).unwrap();

    assert!(state.take_if_expired(now).is_none());
    assert!(state
        .take_if_expired(now + 1000)
        .is_some());
}

#[test]
fn completed_revert_is_idempotent_without_touching_a_new_preview() {
    let mut state = PreviewState::default();
    let completed = state.start(1, deadline(15), ()).unwrap();
    let old = match state.request_revert(&completed) {
        RevertRequest::Restore(preview) => preview,
        _ => panic!("preview was not selected for restore"),
    };
    state.complete(old.id, Completion::Reverted);
    let current = state.start(2, deadline(15), ()).unwrap();

    assert!(matches!(
        state.request_revert(&completed),
        RevertRequest::AlreadyReverted
    ));
    assert!(state.is_pending());
    assert!(matches!(
        state.request_revert(&current),
        RevertRequest::Restore(_)
    ));
}

#[test]
fn completed_confirmation_is_idempotent_without_touching_a_new_preview() {
    let mut state = PreviewState::default();
    let completed = state.start(1, deadline(15), ()).unwrap();
    let old = match state.request_confirm(&completed) {
        ConfirmRequest::Persist(preview) => preview,
        _ => panic!("matching transaction was not selected for persistence"),
    };
    state.complete(old.id, Completion::Confirmed);
    let current = state.start(2, deadline(15), ()).unwrap();

    assert!(matches!(
        state.request_confirm(&completed),
        ConfirmRequest::AlreadyConfirmed
    ));
    assert!(state.is_pending());
    assert!(matches!(
        state.request_confirm(&current),
        ConfirmRequest::Persist(_)
    ));
}

#[test]
fn no_pending_preview_is_distinct_from_a_mismatch() {
    let mut state = PreviewState::<()>::default();
    assert!(matches!(
        state.request_revert("preview-1"),
        RevertRequest::NoPending
    ));
}

#[test]
fn confirming_is_told_apart_from_reverting() {
    let mut state = PreviewState::<()>::default();
    assert!(matches!(state.request_confirm("preview-1"), ConfirmRequest::NoPending));
    let id = state.start(1, 5, ()).unwrap();
    assert!(matches!(state.request_confirm("preview-2"), ConfirmRequest::Mismatch));
    let taken = state.take_pending().unwrap();
    assert_eq!(taken.id, id);
    state.complete(taken.id, Completion::Reverted);
    assert!(matches!(state.request_confirm(&id), ConfirmRequest::NoPending));
    assert!(matches!(state.request_revert(&id), RevertRequest::AlreadyReverted));
    assert!(matches!(state.request_revert(&id), RevertRequest::AlreadyReverted));
}

#[test]
fn transactions_are_numbered_and_a_retry_keeps_its_number() {
    let mut state = PreviewState::default();
    for number in 1..=11 {
        let id = state.start(3, 40, number).unwrap();
        assert_eq!(id, format!("preview-{number}"));
        assert_eq!(state.deadline(), Some(40));
        let mut preview = state.take_pending().unwrap();
        assert_eq!(state.deadline(), None);
        preview.deadline = 50;
        state.retry(preview);
        assert_eq!(state.deadline(), Some(50));
        assert!(state.take_if_expired(49).is_none());
        assert_eq!(state.take_if_expired(50).unwrap().payload, number);
    }
}
