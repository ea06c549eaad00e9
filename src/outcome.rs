use vstd::prelude::*;

verus! {

/// What one probe attempt of a target came to.
#[derive(Debug, PartialEq, Eq)]
pub enum Outcome {
    /// The target answered, with this HTTP status code (of any class).
    Success { status_code: u16 },
    /// No response was obtained; the message says why.
    Failure { message: String },
}

impl Outcome {
    /// Whether the target answered.
    pub fn is_success(&self) -> (r: bool)
        ensures
            r == (*self is Success),
    {
        match self {
            Outcome::Success { .. } => true,
            Outcome::Failure { .. } => false,
        }
    }
}

/// The outcome of one attempt, from what the request produced: the status
/// code of a response, if one was received (whatever its class: the target
/// is reachable), else the description of why none was.
pub fn probe_outcome(response_status: Option<u16>, error_message: String) -> (r: Outcome)
    ensures
        match response_status {
            Some(code) => r == (Outcome::Success { status_code: code }),
            None => r == (Outcome::Failure { message: error_message }),
        },
{
    match response_status {
        Some(code) => Outcome::Success { status_code: code },
        None => Outcome::Failure { message: error_message },
    }
}

/// The final, retry-resolved verdict for one target, with the time spent
/// on all of its attempts, in nanoseconds.
#[derive(Debug, PartialEq, Eq)]
pub struct ProbeResult {
    pub target: String,
    pub outcome: Outcome,
    pub elapsed_ns: u64,
}

impl ProbeResult {
    /// Whether the target is reported up.
    pub fn is_up(&self) -> (r: bool)
        ensures
            r == (self.outcome is Success),
    {
        self.outcome.is_success()
    }
}

} // verus!
