use mpc_core::collaboration::{self, DeleteCollaborationResponse, GetResultIdsResponse, RegisterCollaborationResponse};
use mpc_core::config::{cs_config, get_config};
use mpc_core::error::Error;
use mpc_core::orchestrator::{check_and_prepare_execution, record_execution_outcome};
use mpc_core::participation::{self, ListParticipationsResponse, PostRegisterUploadResponse, RegisterParticipationResponse};
use mpc_core::store::CoordinationState;

fn new_collaboration(state: &mut CoordinationState, parties: i32) -> i32 {
    let resp = collaboration::post(
        "demo".to_string(),
        b"this is just some data".to_vec(),
        cs_config(),
        "data".to_string(),
        parties,
        state,
    )
    .expect("creating a collaboration must succeed");
    match resp {
        RegisterCollaborationResponse::OK(c) => c.id,
        _ => panic!("expected the created collaboration"),
    }
}

#[test]
fn test_success_path() {
    // create collaboration requiring 1 party; register; confirm upload;
    // the engine stub succeeds; the result ids become available
    let mut state = CoordinationState::new();
    let id = new_collaboration(&mut state, 1);
    participation::register_input_party(id, 1, &mut state).unwrap();
    participation::register_upload(id, 1, vec!["abc".to_string()], &mut state).unwrap();
    let task = check_and_prepare_execution(&mut state, id)
        .unwrap()
        .expect("quorum of one is met, the trigger must fire");
    assert_eq!(task.secret_ids, vec!["abc".to_string()]);
    // the engine stub returns a result share identifier
    let payload = record_execution_outcome(&mut state, id, Ok("result-1".to_string()));
    assert_eq!(payload.code, 200);
    assert_eq!(payload.message, "Success");
    assert_eq!(payload.secret_id, Some("result-1".to_string()));
    match collaboration::get_result_ids(id, &state).unwrap() {
        GetResultIdsResponse::Success(ids) => assert_eq!(ids, vec!["result-1".to_string()]),
        _ => panic!("expected result identifiers"),
    }
}

#[test]
fn test_failure_path() {
    // same flow, but the engine stub fails; the failure is terminal and
    // stable across repeated queries
    let mut state = CoordinationState::new();
    let id = new_collaboration(&mut state, 1);
    participation::register_input_party(id, 1, &mut state).unwrap();
    participation::register_upload(id, 1, vec!["abc".to_string()], &mut state).unwrap();
    let _task = check_and_prepare_execution(&mut state, id).unwrap().unwrap();
    let payload = record_execution_outcome(&mut state, id, Err("boom".to_string()));
    assert_eq!(payload.code, 500);
    assert_eq!(payload.message, "boom");
    assert_eq!(payload.secret_id, None);
    for _ in 0..3 {
        match collaboration::get_result_ids(id, &state) {
            Err(Error::MPCExecutionFailed(m)) => assert_eq!(m, "boom"),
            other => panic!("expected a stable execution failure, got {:?}", other),
        }
    }
}

#[test]
fn test_premature_query_is_conflict_not_missing() {
    let mut state = CoordinationState::new();
    let id = new_collaboration(&mut state, 1);
    // before any participant has uploaded, the result query says "not
    // finished", and that maps to a conflict status, not to "not found"
    match collaboration::get_result_ids(id, &state) {
        Err(e) => {
            assert_eq!(e, Error::ProcessingNotFinished);
            assert_eq!(e.status_code(), 409);
        },
        Ok(_) => panic!("no result can exist yet"),
    }
    participation::register_input_party(id, 1, &mut state).unwrap();
    assert_eq!(
        collaboration::get_result_ids(id, &state),
        Err(Error::ProcessingNotFinished)
    );
}

#[test]
fn test_exactly_once_trigger() {
    // two parties confirm near-simultaneously: both trigger evaluations
    // observe quorum, but only one wins the started-marker insert and the
    // engine runs exactly once
    let mut state = CoordinationState::new();
    let id = new_collaboration(&mut state, 2);
    participation::register_input_party(id, 1, &mut state).unwrap();
    participation::register_input_party(id, 2, &mut state).unwrap();
    participation::register_upload(id, 1, vec!["s1".to_string()], &mut state).unwrap();
    participation::register_upload(id, 2, vec!["s2".to_string()], &mut state).unwrap();
    // both detached evaluations now run, one after the other
    let first = check_and_prepare_execution(&mut state, id).unwrap();
    let second = check_and_prepare_execution(&mut state, id).unwrap();
    let mut engine_invocations = 0;
    for attempt in [first, second] {
        if let Some(task) = attempt {
            engine_invocations += 1;
            assert_eq!(task.secret_ids, vec!["s1".to_string(), "s2".to_string()]);
            record_execution_outcome(&mut state, id, Ok("joint-result".to_string()));
        }
    }
    assert_eq!(engine_invocations, 1);
    // the marker stays terminal: later evaluations never fire again
    assert!(check_and_prepare_execution(&mut state, id).unwrap().is_none());
    match collaboration::get_result_ids(id, &state).unwrap() {
        GetResultIdsResponse::Success(ids) => assert_eq!(ids, vec!["joint-result".to_string()]),
        _ => panic!("expected the single terminal result"),
    }
}

#[test]
fn test_trigger_waits_for_quorum() {
    let mut state = CoordinationState::new();
    let id = new_collaboration(&mut state, 2);
    participation::register_input_party(id, 1, &mut state).unwrap();
    participation::register_input_party(id, 2, &mut state).unwrap();
    participation::register_upload(id, 1, vec!["s1".to_string()], &mut state).unwrap();
    // one of two confirmed: no trigger
    assert!(check_and_prepare_execution(&mut state, id).unwrap().is_none());
    assert_eq!(
        collaboration::get_result_ids(id, &state),
        Err(Error::ProcessingNotFinished)
    );
}

#[test]
fn test_registration_errors() {
    let mut state = CoordinationState::new();
    // registering against a missing collaboration
    assert_eq!(
        participation::register_input_party(2, 1, &mut state),
        Err(Error::CollaborationNotFound { collab_id: 2 })
    );
    let id = new_collaboration(&mut state, 1);
    match participation::register_input_party(id, 1, &mut state).unwrap() {
        RegisterParticipationResponse::OK(p) => {
            assert_eq!(p.collaboration_id, id);
            assert_eq!(p.party_id, 1);
            assert_eq!(p.secret_ids, None);
        },
        _ => panic!("expected a fresh registration"),
    }
    // a duplicate registration is rejected by the uniqueness rule
    assert_eq!(
        participation::register_input_party(id, 1, &mut state),
        Err(Error::DuplicateParticipant)
    );
    // confirming an upload without registering first
    assert_eq!(
        participation::register_upload(id, 9, vec!["x".to_string()], &mut state),
        Err(Error::ParticipantNotRegistered)
    );
}

#[test]
fn test_confirm_upload_is_written_once() {
    // a registration is mutated exactly once: a second confirmation is
    // answered as already registered and the stored identifiers stay
    let mut state = CoordinationState::new();
    let id = new_collaboration(&mut state, 2);
    participation::register_input_party(id, 1, &mut state).unwrap();
    assert_eq!(
        participation::register_upload(id, 1, vec!["first".to_string()], &mut state).unwrap(),
        PostRegisterUploadResponse::OK
    );
    assert_eq!(
        participation::register_upload(id, 1, vec!["second".to_string()], &mut state).unwrap(),
        PostRegisterUploadResponse::AlreadyRegistered
    );
    match participation::list(id, &state).unwrap() {
        ListParticipationsResponse::OK(rows) => {
            assert_eq!(rows.len(), 1);
            assert_eq!(rows[0].secret_ids, Some(vec![Some("first".to_string())]));
        },
    }
}

#[test]
fn test_withdraw_before_upload() {
    let mut state = CoordinationState::new();
    let id = new_collaboration(&mut state, 1);
    participation::register_input_party(id, 1, &mut state).unwrap();
    participation::delete(id, 1, &mut state).unwrap();
    match participation::list(id, &state).unwrap() {
        ListParticipationsResponse::OK(rows) => assert_eq!(rows.len(), 0),
    }
    // after withdrawing, confirming is rejected again
    assert_eq!(
        participation::register_upload(id, 1, vec!["x".to_string()], &mut state),
        Err(Error::ParticipantNotRegistered)
    );
}

#[test]
fn test_output_parties_travel_with_the_task() {
    let mut state = CoordinationState::new();
    let id = new_collaboration(&mut state, 1);
    participation::register_output_party(id, 7, "http://party7/notify-me".to_string(), &mut state)
        .unwrap();
    // duplicates are allowed by design
    participation::register_output_party(id, 7, "http://party7/notify-me".to_string(), &mut state)
        .unwrap();
    participation::register_input_party(id, 1, &mut state).unwrap();
    participation::register_upload(id, 1, vec!["abc".to_string()], &mut state).unwrap();
    let task = check_and_prepare_execution(&mut state, id).unwrap().unwrap();
    assert_eq!(
        task.output_parties,
        vec![
            "http://party7/notify-me".to_string(),
            "http://party7/notify-me".to_string()
        ]
    );
    assert_eq!(
        participation::register_output_party(3, 7, "http://x".to_string(), &mut state),
        Err(Error::CollaborationNotFound { collab_id: 3 })
    );
}

#[test]
fn test_delete_collaboration() {
    let mut state = CoordinationState::new();
    let id = new_collaboration(&mut state, 1);
    assert_eq!(
        collaboration::delete(id, &mut state).unwrap(),
        DeleteCollaborationResponse::Removed
    );
    // deleting a missing collaboration is reported, never silently fine
    assert_eq!(
        collaboration::delete(id, &mut state).unwrap(),
        DeleteCollaborationResponse::NotFound
    );
    assert_eq!(
        collaboration::delete(255, &mut state).unwrap(),
        DeleteCollaborationResponse::NotFound
    );
}

#[test]
fn test_delete_cascades_to_result() {
    let mut state = CoordinationState::new();
    let id = new_collaboration(&mut state, 1);
    participation::register_input_party(id, 1, &mut state).unwrap();
    participation::register_upload(id, 1, vec!["abc".to_string()], &mut state).unwrap();
    let _ = check_and_prepare_execution(&mut state, id).unwrap().unwrap();
    record_execution_outcome(&mut state, id, Ok("r".to_string()));
    collaboration::delete(id, &mut state).unwrap();
    // the result row went with the collaboration
    assert_eq!(
        collaboration::get_result_ids(id, &state),
        Err(Error::ProcessingNotFinished)
    );
}

#[test]
fn test_config_round_trip() {
    let mut state = CoordinationState::new();
    let id = new_collaboration(&mut state, 1);
    let config = get_config(id, &state).unwrap();
    assert_eq!(config.prime, "198766463529478683931867765928436695041");
    assert_eq!(config.r, "141515903391459779531506841503331516415");
    assert_eq!(config.rinv, "133854242216446749056083838363708373830");
    assert!(config.no_ssl_validation);
    assert_eq!(config.providers.len(), 2);
    assert_eq!(config.providers[0].id, 1);
    assert_eq!(config.providers[1].id, 2);
    assert_eq!(
        config.providers[0].amphora_service_url,
        "http://127.0.0.1.sslip.io/0/amphora"
    );
    assert!(matches!(
        get_config(77, &state),
        Err(Error::CollaborationNotFound { collab_id: 77 })
    ));
}

#[test]
fn test_error_statuses() {
    assert_eq!(Error::CollaborationNotFound { collab_id: 1 }.status_code(), 404);
    assert_eq!(Error::ParticipantNotRegistered.status_code(), 404);
    assert_eq!(Error::ProcessingNotFinished.status_code(), 409);
    assert_eq!(Error::AlreadyStarted.status_code(), 409);
    assert_eq!(Error::DuplicateParticipant.status_code(), 208);
    assert_eq!(Error::MalformedInput.status_code(), 422);
    assert_eq!(Error::ShapeMismatch.status_code(), 422);
    assert_eq!(Error::MasksNotFound.status_code(), 422);
    assert_eq!(Error::MPCExecutionFailed("x".to_string()).status_code(), 500);
    assert_eq!(Error::ProcessingNotFinished.message(), "Not waiting");
    assert_eq!(
        Error::MPCExecutionFailed("boom".to_string()).message(),
        "MPC execution failed: boom"
    );
}
