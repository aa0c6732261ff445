//! The failures that a trial can meet.

use vstd::prelude::*;
use vstd::string::*;

verus! {

/// Why an operation on a trial failed.
#[derive(Clone, Copy, Debug, PartialEq, Eq, Structural)]
pub enum ErrorKind {
    /// A distribution lacks a bound, or a value does not lie within its bounds.
    Validation,
    /// The storage knows no trial of the given id.
    TrialNotFound,
    /// A write reached a trial that is already completed or failed.
    FinishedTrial,
    /// The objective itself gave up.
    Objective,
}

/// A failure: its kind and a message for whoever reads the log.
#[derive(Debug)]
pub struct TrialError {
    kind: ErrorKind,
    message: String,
}

impl TrialError {
    pub closed spec fn spec_kind(&self) -> ErrorKind {
        self.kind
    }

    pub closed spec fn spec_message(&self) -> Seq<char> {
        self.message@
    }

    /// A failure of the objective, with the objective's own message.
    pub fn new(message: &str) -> (e: TrialError)
        ensures
            e.spec_kind() == ErrorKind::Objective,
            e.spec_message() == message@,
    {
        TrialError { kind: ErrorKind::Objective, message: message.to_owned() }
    }

    pub fn validation(message: &str) -> (e: TrialError)
        ensures
            e.spec_kind() == ErrorKind::Validation,
            e.spec_message() == message@,
    {
        TrialError { kind: ErrorKind::Validation, message: message.to_owned() }
    }

    pub fn trial_not_found() -> (e: TrialError)
        ensures
            e.is_trial_not_found(),
    {
        TrialError { kind: ErrorKind::TrialNotFound, message: "Not found specific trial".to_owned() }
    }

    pub fn finished_trial() -> (e: TrialError)
        ensures
            e.is_finished_trial(),
    {
        TrialError {
            kind: ErrorKind::FinishedTrial,
            message: "cannot update finished trial".to_owned(),
        }
    }

    /// The failure of a write that reached a finished trial.
    pub open spec fn is_finished_trial(&self) -> bool {
        self.spec_kind() == ErrorKind::FinishedTrial && self.spec_message()
            == "cannot update finished trial"@
    }

    /// The failure of a request for a trial that the storage does not hold.
    pub open spec fn is_trial_not_found(&self) -> bool {
        self.spec_kind() == ErrorKind::TrialNotFound && self.spec_message()
            == "Not found specific trial"@
    }

    #[verifier::when_used_as_spec(spec_kind)]
    pub fn kind(&self) -> (k: ErrorKind)
        ensures
            k == self.spec_kind(),
    {
        self.kind
    }

    pub fn message(&self) -> (m: String)
        ensures
            m@ == self.spec_message(),
    {
        self.message.clone()
    }
}

} // verus!
