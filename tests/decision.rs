use cellulose::decision::{
    advance, decide_on_result, Decision, DenyReason, FaultReason, PolicyResult, Stage, Step,
};

#[test]
fn passed_checks_lead_to_the_next() {
    assert_eq!(advance(Stage::Credential, true), Step::Next(Stage::KeyValidity));
    assert_eq!(advance(Stage::KeyValidity, true), Step::Next(Stage::TokenVerification));
    assert_eq!(advance(Stage::TokenVerification, true), Step::Next(Stage::PolicyPresence));
    assert_eq!(advance(Stage::PolicyPresence, true), Step::Next(Stage::Evaluation));
}

#[test]
fn missing_token_is_unauthorized() {
    let s = advance(Stage::Credential, false);
    assert_eq!(s, Step::Done(Decision::Deny(DenyReason::MissingCredential)));
    if let Step::Done(d) = s {
        assert_eq!(d.status_code(), 401);
    }
}

#[test]
fn expired_keys_are_a_server_error() {
    let s = advance(Stage::KeyValidity, false);
    assert_eq!(s, Step::Done(Decision::SystemError(FaultReason::KeysExpired)));
    if let Step::Done(d) = s {
        assert_eq!(d.status_code(), 500);
    }
}

#[test]
fn invalid_token_and_missing_policy_are_unauthorized() {
    assert_eq!(
        advance(Stage::TokenVerification, false),
        Step::Done(Decision::Deny(DenyReason::InvalidToken))
    );
    let s = advance(Stage::PolicyPresence, false);
    assert_eq!(s, Step::Done(Decision::Deny(DenyReason::NoPolicy)));
    if let Step::Done(d) = s {
        assert_eq!(d.status_code(), 401);
    }
}

#[test]
fn policy_results_map_to_decisions() {
    assert_eq!(decide_on_result(PolicyResult::Bool(true)), Decision::Allow);
    assert_eq!(
        decide_on_result(PolicyResult::Bool(false)),
        Decision::Deny(DenyReason::PolicyDenied)
    );
    assert_eq!(
        decide_on_result(PolicyResult::NonBoolean),
        Decision::SystemError(FaultReason::NonBooleanResult)
    );
    assert_eq!(
        decide_on_result(PolicyResult::Failed),
        Decision::SystemError(FaultReason::PolicyExecutionFailed)
    );
}

#[test]
fn status_codes() {
    assert_eq!(Decision::Allow.status_code(), 200);
    assert!(Decision::Allow.is_allow());
    assert_eq!(Decision::Deny(DenyReason::PolicyDenied).status_code(), 401);
    assert!(!Decision::Deny(DenyReason::PolicyDenied).is_allow());
    assert_eq!(Decision::SystemError(FaultReason::BadPolicy).status_code(), 500);
}

#[test]
fn evaluation_stage_refused_policy_is_a_fault() {
    assert_eq!(advance(Stage::Evaluation, true), Step::Next(Stage::Evaluation));
    assert_eq!(
        advance(Stage::Evaluation, false),
        Step::Done(Decision::SystemError(FaultReason::BadPolicy))
    );
}
