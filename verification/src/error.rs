//! The errors that the runtime reports, and what contracts say of them.

use vstd::prelude::*;

verus! {

/// What kind of failure an operation on a file met.
#[derive(Clone, Copy, Debug, PartialEq, Eq, Structural)]
pub enum IoKind {
    AlreadyExists,
    Interrupted,
    InvalidData,
    InvalidInput,
    NotFound,
    Other,
}

/// A failure of the runtime.
#[derive(Debug)]
pub enum RuntimeError {
    ActiveSession(String),
    AuthenticationRequired(String),
    ContextBudgetExceeded(String),
    EventWriter(String),
    Io { path: String, kind: IoKind, message: String },
    Json(String),
    PersistedState(String),
    Protocol(String),
    PublishedCredentialFinalizationFailure,
    ReplayOutputLimitExceeded { limit_bytes: usize },
    TerminalSession(String),
    Usage(String),
}

/// A failure with its texts taken as character sequences.
pub enum ErrorModel {
    ActiveSession(Seq<char>),
    AuthenticationRequired(Seq<char>),
    ContextBudgetExceeded(Seq<char>),
    EventWriter(Seq<char>),
    Io { path: Seq<char>, kind: IoKind, message: Seq<char> },
    Json(Seq<char>),
    PersistedState(Seq<char>),
    Protocol(Seq<char>),
    PublishedCredentialFinalizationFailure,
    ReplayOutputLimitExceeded { limit_bytes: usize },
    TerminalSession(Seq<char>),
    Usage(Seq<char>),
}

impl View for RuntimeError {
    type V = ErrorModel;

    open spec fn view(&self) -> ErrorModel {
        match *self {
            RuntimeError::ActiveSession(text) => ErrorModel::ActiveSession(text@),
            RuntimeError::AuthenticationRequired(text) => ErrorModel::AuthenticationRequired(text@),
            RuntimeError::ContextBudgetExceeded(text) => ErrorModel::ContextBudgetExceeded(text@),
            RuntimeError::EventWriter(text) => ErrorModel::EventWriter(text@),
            RuntimeError::Io { path, kind, message } => ErrorModel::Io {
                path: path@,
                kind,
                message: message@,
            },
            RuntimeError::Json(text) => ErrorModel::Json(text@),
            RuntimeError::PersistedState(text) => ErrorModel::PersistedState(text@),
            RuntimeError::Protocol(text) => ErrorModel::Protocol(text@),
            RuntimeError::PublishedCredentialFinalizationFailure =>
                ErrorModel::PublishedCredentialFinalizationFailure,
            RuntimeError::ReplayOutputLimitExceeded { limit_bytes } =>
                ErrorModel::ReplayOutputLimitExceeded { limit_bytes },
            RuntimeError::TerminalSession(text) => ErrorModel::TerminalSession(text@),
            RuntimeError::Usage(text) => ErrorModel::Usage(text@),
        }
    }
}

/// The outcome of a check: nothing, or the failure it reports.
pub open spec fn failure<T>(result: Result<T, RuntimeError>) -> Option<ErrorModel> {
    match result {
        Ok(_) => None,
        Err(error) => Some(error@),
    }
}

/// A protocol failure with the given message, as a check reports it.
pub open spec fn protocol_failure(message: Seq<char>) -> Option<ErrorModel> {
    Some(ErrorModel::Protocol(message))
}

/// A usage failure with the given message, as a check reports it.
pub open spec fn usage_failure(message: Seq<char>) -> Option<ErrorModel> {
    Some(ErrorModel::Usage(message))
}

/// The first failure of two checks made one after the other.
pub open spec fn first_failure(
    first: Option<ErrorModel>,
    second: Option<ErrorModel>,
) -> Option<ErrorModel> {
    if first is Some {
        first
    } else {
        second
    }
}

/// A protocol failure with the given message.
pub fn protocol(message: &str) -> (error: RuntimeError)
    ensures
        error@ == ErrorModel::Protocol(message@),
{
    RuntimeError::Protocol(message.to_owned())
}

/// A usage failure with the given message.
pub fn usage(message: &str) -> (error: RuntimeError)
    ensures
        error@ == ErrorModel::Usage(message@),
{
    RuntimeError::Usage(message.to_owned())
}

/// A failure of persisted state with the given message.
pub fn persisted_state(message: &str) -> (error: RuntimeError)
    ensures
        error@ == ErrorModel::PersistedState(message@),
{
    RuntimeError::PersistedState(message.to_owned())
}

/// The failures among the three releases, in release order.
pub open spec fn release_failures(
    run: Option<ErrorModel>,
    conversation: Option<ErrorModel>,
    legacy: Option<ErrorModel>,
) -> Seq<ErrorModel> {
    optional_failure(run) + optional_failure(conversation) + optional_failure(legacy)
}

/// One failure or none, as a sequence.
pub open spec fn optional_failure(result: Option<ErrorModel>) -> Seq<ErrorModel> {
    match result {
        Some(error) => seq![error],
        None => Seq::empty(),
    }
}

/// Every failure of a list, taken by its view.
pub open spec fn failures_view(failures: Seq<RuntimeError>) -> Seq<ErrorModel> {
    failures.map_values(|error: RuntimeError| error@)
}

/// Collects what failed when the run, the conversation and the legacy session
/// were released: all of them are attempted, and every failure is kept.
pub fn reconcile_releases(
    run: Result<(), RuntimeError>,
    conversation: Result<(), RuntimeError>,
    legacy: Result<(), RuntimeError>,
) -> (failures: Vec<RuntimeError>)
    ensures
        failures_view(failures@) == release_failures(
            failure(run),
            failure(conversation),
            failure(legacy),
        ),
{
    let mut failures: Vec<RuntimeError> = Vec::new();
    let ghost none: Seq<ErrorModel> = Seq::empty();
    push_failure(&mut failures, run);
    push_failure(&mut failures, conversation);
    push_failure(&mut failures, legacy);
    assert(failures_view(failures@) =~= release_failures(
        failure(run),
        failure(conversation),
        failure(legacy),
    ));
    failures
}

/// Collects what failed when something was done and when what was made for it was taken
/// away: both are attempted, and every failure is kept.
pub fn reconcile_operation_and_cleanup(
    operation: Result<(), RuntimeError>,
    cleanup: Result<(), RuntimeError>,
) -> (failures: Vec<RuntimeError>)
    ensures
        failures_view(failures@) == optional_failure(failure(operation)) + optional_failure(
            failure(cleanup),
        ),
{
    let mut failures: Vec<RuntimeError> = Vec::new();
    push_failure(&mut failures, operation);
    push_failure(&mut failures, cleanup);
    assert(failures_view(failures@) =~= optional_failure(failure(operation)) + optional_failure(
        failure(cleanup),
    ));
    failures
}

/// Adds what failed to a list of failures.
pub fn push_failure(failures: &mut Vec<RuntimeError>, result: Result<(), RuntimeError>)
    ensures
        final(failures)@.len() == old(failures)@.len() + (if result is Err {
            1nat
        } else {
            0nat
        }),
        failures_view(final(failures)@) == failures_view(old(failures)@) + optional_failure(
            failure(result),
        ),
{
    if let Err(error) = result {
        failures.push(error);
    }
    assert(failures_view(failures@) =~= failures_view(old(failures)@) + optional_failure(
        failure(result),
    ));
}

/// Of two failures the first that there is counts, and there is none exactly where neither
/// is.
pub proof fn law_first_failure_counts(first: Option<ErrorModel>, second: Option<ErrorModel>)
    ensures
        first is Some ==> first_failure(first, second) == first,
        first is None ==> first_failure(first, second) == second,
        first_failure(first, second) is None <==> first is None && second is None,
{
}

} // verus!
