//! Replies of the HTTP server that triggers tasks on demand.

use vstd::prelude::*;

use crate::number::parse;
use crate::tasks::Task;

verus! {

/// Default listening port.
pub const DEFAULT_PORT: u16 = 8080;

/// The port named by a setting, or the default where it names none.
pub open spec fn port_of(value: Option<Seq<char>>) -> nat {
    match value {
        Some(text) => match crate::number::parsed(text, u16::MAX as nat) {
            Some(port) => port,
            None => DEFAULT_PORT as nat,
        },
        None => DEFAULT_PORT as nat,
    }
}

/// Parse a port number, falling back to [`DEFAULT_PORT`] when invalid.
#[must_use]
pub fn parse_port(value: Option<String>) -> (port: u16)
    ensures
        port == port_of(crate::text::optional_text(value)),
{
    match value {
        Some(text) => match parse(text.as_str(), u16::MAX as u64) {
            Some(port) => port as u16,
            None => DEFAULT_PORT,
        },
        None => DEFAULT_PORT,
    }
}

/// A response to a request.
#[derive(Debug, PartialEq, Eq)]
pub struct Reply {
    /// HTTP status code.
    pub status: u16,
    pub body: String,
}

/// What a request to run a task leads to.
#[derive(Debug, PartialEq, Eq)]
pub enum Trigger {
    /// Run the task, then answer with its outcome.
    Run(Task),
    /// Answer without running anything.
    Reject(Reply),
}

/// The contents of a [`Trigger`].
pub enum TriggerView {
    Run(Task),
    Reject { status: u16, body: Seq<char> },
}

impl View for Trigger {
    type V = TriggerView;

    open spec fn view(&self) -> TriggerView {
        match self {
            Trigger::Run(task) => TriggerView::Run(*task),
            Trigger::Reject(reply) => TriggerView::Reject {
                status: reply.status,
                body: reply.body@,
            },
        }
    }
}

/// What a request to run a task by name leads to.
pub open spec fn decision_on(name: Seq<char>) -> TriggerView {
    match crate::tasks::task_named(name) {
        Some(task) => if task.period() is None {
            TriggerView::Reject { status: 400, body: name + ": runs continuously"@ }
        } else {
            TriggerView::Run(task)
        },
        None => TriggerView::Reject { status: 404, body: "unknown task: "@ + name },
    }
}

/// Decide on a request to run the task named by the path segment.
///
/// An unknown name is answered with `404`. Resident tasks run anyway and cannot
/// be triggered; they are answered with `400`.
pub fn on_request(task_name: &str) -> (decision: Trigger)
    ensures
        decision@ == decision_on(task_name@),
{
    match Task::from_name(task_name) {
        Some(task) => {
            if task.is_resident() {
                let mut body = task_name.to_owned();
                body.append(": runs continuously");
                Trigger::Reject(Reply { status: 400, body })
            } else {
                Trigger::Run(task)
            }
        },
        None => {
            let mut body = "unknown task: ".to_owned();
            body.append(task_name);
            Trigger::Reject(Reply { status: 404, body })
        },
    }
}

/// The answer to a request whose task has run, successfully or with the given
/// error.
pub fn outcome_reply(task_name: &str, error: Option<&str>) -> (reply: Reply)
    ensures
        match error {
            None => reply.status == 200 && reply.body@ == task_name@ + ": done"@,
            Some(error) => reply.status == 500 && reply.body@ == task_name@ + ": "@ + error@,
        },
{
    let mut body = task_name.to_owned();
    match error {
        None => {
            body.append(": done");
            Reply { status: 200, body }
        },
        Some(error) => {
            body.append(": ");
            body.append(error);
            Reply { status: 500, body }
        },
    }
}

/// Every task is triggered by its name, but for the resident ones, which are
/// refused.
pub proof fn resident_tasks_are_refused(task: Task)
    ensures
        if task.period() is Some {
            decision_on(task.label()) == TriggerView::Run(task)
        } else {
            decision_on(task.label()) is Reject && decision_on(task.label())->status == 400
        },
{
    crate::tasks::tasks_are_found_by_their_names(task, task.label());
}

/// A name that no task has triggers nothing.
pub proof fn unknown_names_trigger_nothing(name: Seq<char>)
    requires
        forall|task: Task| #[trigger] task.label() != name,
    ensures
        decision_on(name) is Reject,
        decision_on(name)->status == 404,
{
    assert(Task::Templatedata.label() != name);
    assert(Task::Recentchanges.label() != name);
    assert(Task::Ill.label() != name);
}

} // verus!
