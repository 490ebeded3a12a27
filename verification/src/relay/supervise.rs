//! How the relay ends.
use vstd::prelude::*;

use crate::audit;
use crate::text::{copy_text, join3};

verus! {

/// How a task ended.
#[derive(Debug, PartialEq, Eq)]
pub enum TaskEnd {
    /// As it should.
    Finished,
    /// With an error.
    Failed(String),
    /// It was broken off, or panicked.
    Broken(String),
}

/// What made the relay stop.
#[derive(Debug, PartialEq, Eq)]
pub enum Stop {
    /// A signal, or an error while waiting for one.
    Signal(Option<String>),
    /// The admin server ended first.
    Admin,
    /// The pipeline ended first.
    Pipeline,
}

/// The error that a task's end means.
pub open spec fn complaint(name: Seq<char>, end: TaskEnd) -> Option<Seq<char>> {
    match end {
        TaskEnd::Finished => None,
        TaskEnd::Failed(e) => Some(name + " task failed: "@ + e@),
        TaskEnd::Broken(e) => Some(name + " task join failure: "@ + e@),
    }
}

/// The first error of several.
pub open spec fn first_of(a: Option<Seq<char>>, b: Option<Seq<char>>) -> Option<Seq<char>> {
    if a is Some {
        a
    } else {
        b
    }
}

/// The error with which the relay ends.
pub open spec fn relay_error(stop: Stop, admin: TaskEnd, pipeline: TaskEnd) -> Option<Seq<char>> {
    let a = complaint("admin"@, admin);
    let p = complaint("pipeline"@, pipeline);
    match stop {
        Stop::Signal(e) => first_of(audit::opt_view(e), first_of(a, p)),
        Stop::Admin => first_of(a, first_of(p, Some("admin task stopped unexpectedly"@))),
        Stop::Pipeline => first_of(p, a),
    }
}

/// A result, by its error.
pub open spec fn error_of(r: Result<(), String>) -> Option<Seq<char>> {
    match r {
        Ok(_) => None,
        Err(e) => Some(e@),
    }
}

/// What a task's end means.
pub fn task_outcome(name: &str, outcome: &TaskEnd) -> (r: Result<(), String>)
    ensures
        error_of(r) == complaint(name@, *outcome),
{
    match outcome {
        TaskEnd::Finished => Ok(()),
        TaskEnd::Failed(e) => Err(join3(name, " task failed: ", e)),
        TaskEnd::Broken(e) => Err(join3(name, " task join failure: ", e)),
    }
}

/// How the relay ends, once both tasks have.
pub fn run(stop: Stop, admin: &TaskEnd, pipeline: &TaskEnd) -> (r: Result<(), String>)
    ensures
        error_of(r) == relay_error(stop, *admin, *pipeline),
{
    let a = task_outcome("admin", admin);
    let p = task_outcome("pipeline", pipeline);
    match stop {
        Stop::Signal(Some(e)) => Err(e),
        Stop::Signal(None) => if a.is_err() {
            a
        } else {
            p
        },
        Stop::Admin => if a.is_err() {
            a
        } else if p.is_err() {
            p
        } else {
            Err(copy_text("admin task stopped unexpectedly"))
        },
        Stop::Pipeline => if p.is_err() {
            p
        } else {
            a
        },
    }
}

/// The relay ends well just when no task failed and it was not the admin server
/// that ended first.
pub proof fn law_failures_are_passed_on(stop: Stop, admin: TaskEnd, pipeline: TaskEnd)
    ensures
        relay_error(stop, admin, pipeline) is None <==> {
            &&& admin is Finished
            &&& pipeline is Finished
            &&& stop != Stop::Admin
            &&& (stop matches Stop::Signal(e) ==> e is None)
        },
{
}

/// The relay ends with the error of what made it stop, before any other.
pub proof fn law_first_failure_is_told(a: String, p: String, e: String, admin: TaskEnd, end: TaskEnd)
    ensures
        relay_error(Stop::Signal(Some(e)), admin, end) == Some(e@),
        relay_error(Stop::Signal(None), TaskEnd::Failed(a), end) == Some(
            "admin"@ + " task failed: "@ + a@,
        ),
        relay_error(Stop::Admin, TaskEnd::Failed(a), end) == Some(
            "admin"@ + " task failed: "@ + a@,
        ),
        relay_error(Stop::Admin, TaskEnd::Broken(a), end) == Some(
            "admin"@ + " task join failure: "@ + a@,
        ),
        relay_error(Stop::Pipeline, admin, TaskEnd::Failed(p)) == Some(
            "pipeline"@ + " task failed: "@ + p@,
        ),
        relay_error(Stop::Pipeline, admin, TaskEnd::Broken(p)) == Some(
            "pipeline"@ + " task join failure: "@ + p@,
        ),
        relay_error(Stop::Pipeline, TaskEnd::Failed(a), TaskEnd::Finished) == Some(
            "admin"@ + " task failed: "@ + a@,
        ),
        relay_error(Stop::Admin, TaskEnd::Finished, TaskEnd::Finished) == Some(
            "admin task stopped unexpectedly"@,
        ),
        relay_error(Stop::Admin, TaskEnd::Finished, TaskEnd::Failed(p)) == Some(
            "pipeline"@ + " task failed: "@ + p@,
        ),
        relay_error(Stop::Signal(None), TaskEnd::Finished, TaskEnd::Failed(p)) == Some(
            "pipeline"@ + " task failed: "@ + p@,
        ),
{
}

} // verus!
