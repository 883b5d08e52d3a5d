//! The per-request decision: its three outcomes, the checks made before any
//! policy runs, and how a policy's result becomes a decision.
use vstd::prelude::*;

verus! {

/// Why a request was refused because of the caller.
#[derive(PartialEq, Eq, Structural, Clone, Copy, Debug)]
pub enum DenyReason {
    MissingCredential,
    InvalidToken,
    NoPolicy,
    PolicyDenied,
}

/// Why a request could not be decided because of the installation.
#[derive(PartialEq, Eq, Structural, Clone, Copy, Debug)]
pub enum FaultReason {
    KeysExpired,
    BadPolicy,
    PolicyExecutionFailed,
    NonBooleanResult,
}

/// The outcome of one request.
#[derive(PartialEq, Eq, Structural, Clone, Copy, Debug)]
pub enum Decision {
    Allow,
    Deny(DenyReason),
    SystemError(FaultReason),
}

/// The HTTP status that answers a decision.
pub open spec fn status_of(d: Decision) -> u16 {
    match d {
        Decision::Allow => 200,
        Decision::Deny(_) => 401,
        Decision::SystemError(_) => 500,
    }
}

impl Decision {
    /// The HTTP status that answers this decision: 200, 401 or 500.
    pub fn status_code(&self) -> (r: u16)
        ensures
            r == status_of(*self),
    {
        match self {
            Decision::Allow => 200,
            Decision::Deny(_) => 401,
            Decision::SystemError(_) => 500,
        }
    }

    /// Whether access is granted.
    pub fn is_allow(&self) -> (r: bool)
        ensures
            r == (*self == Decision::Allow),
    {
        match self {
            Decision::Allow => true,
            _ => false,
        }
    }
}

/// What running a policy gave.
#[derive(PartialEq, Eq, Structural, Clone, Copy, Debug)]
pub enum PolicyResult {
    Bool(bool),
    NonBoolean,
    Failed,
}

/// The decision that a policy's result stands for.
pub open spec fn decision_of_result(r: PolicyResult) -> Decision {
    match r {
        PolicyResult::Bool(true) => Decision::Allow,
        PolicyResult::Bool(false) => Decision::Deny(DenyReason::PolicyDenied),
        PolicyResult::NonBoolean => Decision::SystemError(FaultReason::NonBooleanResult),
        PolicyResult::Failed => Decision::SystemError(FaultReason::PolicyExecutionFailed),
    }
}

/// Maps a policy's result to a decision: `true` allows, `false` denies, a
/// value of another type or a failed run is a fault.
pub fn decide_on_result(r: PolicyResult) -> (d: Decision)
    ensures
        d == decision_of_result(r),
{
    match r {
        PolicyResult::Bool(true) => Decision::Allow,
        PolicyResult::Bool(false) => Decision::Deny(DenyReason::PolicyDenied),
        PolicyResult::NonBoolean => Decision::SystemError(FaultReason::NonBooleanResult),
        PolicyResult::Failed => Decision::SystemError(FaultReason::PolicyExecutionFailed),
    }
}

/// The checks a request passes before its policy runs, in the order they are made.
#[derive(PartialEq, Eq, Structural, Clone, Copy, Debug)]
pub enum Stage {
    Credential,
    KeyValidity,
    TokenVerification,
    PolicyPresence,
    Evaluation,
}

/// What comes after a check: the next one, or the final decision.
#[derive(PartialEq, Eq, Structural, Clone, Copy, Debug)]
pub enum Step {
    Next(Stage),
    Done(Decision),
}

/// The decision a request gets when the check at `stage` fails.
pub open spec fn failure_at(stage: Stage) -> Decision {
    match stage {
        Stage::Credential => Decision::Deny(DenyReason::MissingCredential),
        Stage::KeyValidity => Decision::SystemError(FaultReason::KeysExpired),
        Stage::TokenVerification => Decision::Deny(DenyReason::InvalidToken),
        Stage::PolicyPresence => Decision::Deny(DenyReason::NoPolicy),
        Stage::Evaluation => Decision::SystemError(FaultReason::BadPolicy),
    }
}

/// The check that follows a passed `stage`.
pub open spec fn stage_after(stage: Stage) -> Stage {
    match stage {
        Stage::Credential => Stage::KeyValidity,
        Stage::KeyValidity => Stage::TokenVerification,
        Stage::TokenVerification => Stage::PolicyPresence,
        _ => Stage::Evaluation,
    }
}

/// Advances the checks: a passed check leads to the next one, a failed one
/// ends the request with that check's decision. At the evaluation stage the
/// check is whether the policy source was accepted; passing it leaves the
/// request there, for the policy's own result to decide.
pub fn advance(stage: Stage, passed: bool) -> (s: Step)
    ensures
        passed ==> s == Step::Next(stage_after(stage)),
        !passed ==> s == Step::Done(failure_at(stage)),
{
    if !passed {
        let d = match stage {
            Stage::Credential => Decision::Deny(DenyReason::MissingCredential),
            Stage::KeyValidity => Decision::SystemError(FaultReason::KeysExpired),
            Stage::TokenVerification => Decision::Deny(DenyReason::InvalidToken),
            Stage::PolicyPresence => Decision::Deny(DenyReason::NoPolicy),
            Stage::Evaluation => Decision::SystemError(FaultReason::BadPolicy),
        };
        Step::Done(d)
    } else {
        let next = match stage {
            Stage::Credential => Stage::KeyValidity,
            Stage::KeyValidity => Stage::TokenVerification,
            Stage::TokenVerification => Stage::PolicyPresence,
            _ => Stage::Evaluation,
        };
        Step::Next(next)
    }
}

} // verus!
