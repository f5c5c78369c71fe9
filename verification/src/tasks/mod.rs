//! Periodic maintenance tasks and their schedule.

use vstd::prelude::*;

use crate::text::same;

pub mod ill;
pub mod recentchanges;
pub mod templatedata;

verus! {

/// How many seconds to wait for running tasks once shutdown is requested.
pub const SHUTDOWN_GRACE: u64 = 30;

/// Seconds between runs of the template data task (every other day).
pub const TEMPLATEDATA_INTERVAL: u64 = 172_800;

/// Seconds between runs of the interlanguage link scan (weekly). A full scan is
/// expensive, so it is run no more often than this.
pub const ILL_INTERVAL: u64 = 604_800;

/// A periodic maintenance task.
#[derive(Debug, Clone, Copy, PartialEq, Eq, Structural)]
pub enum Task {
    /// Maintains the list of most-transcluded templates that lack
    /// `TemplateData`.
    Templatedata,
    /// Reports edits that add `utm_source` tracking parameters.
    Recentchanges,
    /// Reports interlanguage links whose target has a Japanese article.
    Ill,
}

/// When a task runs.
#[derive(Debug, Clone, Copy, PartialEq, Eq, Structural)]
pub enum Schedule {
    /// Once; a resident task then runs until shutdown.
    Once,
    /// At once, and again after so many seconds, until shutdown.
    Every(u64),
}

/// The task called by a name.
pub open spec fn task_named(name: Seq<char>) -> Option<Task> {
    if name == "templatedata"@ {
        Some(Task::Templatedata)
    } else if name == "recentchanges"@ {
        Some(Task::Recentchanges)
    } else if name == "ill"@ {
        Some(Task::Ill)
    } else {
        None
    }
}

impl Task {
    /// The name of the task.
    pub open spec fn label(self) -> Seq<char> {
        match self {
            Task::Templatedata => "templatedata"@,
            Task::Recentchanges => "recentchanges"@,
            Task::Ill => "ill"@,
        }
    }

    /// Seconds between runs; `None` for a task that runs continuously.
    pub open spec fn period(self) -> Option<u64> {
        match self {
            Task::Templatedata => Some(TEMPLATEDATA_INTERVAL),
            Task::Recentchanges => None,
            Task::Ill => Some(ILL_INTERVAL),
        }
    }

    /// Look up a task by its [`Task::name`].
    #[must_use]
    pub fn from_name(name: &str) -> (task: Option<Task>)
        ensures
            task == task_named(name@),
    {
        if same(name, "templatedata") {
            Some(Task::Templatedata)
        } else if same(name, "recentchanges") {
            Some(Task::Recentchanges)
        } else if same(name, "ill") {
            Some(Task::Ill)
        } else {
            None
        }
    }

    /// Human-readable name for logging.
    #[must_use]
    pub fn name(self) -> (name: &'static str)
        ensures
            name@ == self.label(),
    {
        match self {
            Task::Templatedata => "templatedata",
            Task::Recentchanges => "recentchanges",
            Task::Ill => "ill",
        }
    }

    /// Seconds between runs; `None` means the task runs continuously until
    /// shutdown.
    #[must_use]
    pub fn interval(self) -> (seconds: Option<u64>)
        ensures
            seconds == self.period(),
    {
        match self {
            Task::Templatedata => Some(TEMPLATEDATA_INTERVAL),
            Task::Recentchanges => None,
            Task::Ill => Some(ILL_INTERVAL),
        }
    }

    /// Whether the task runs continuously instead of on a fixed interval.
    #[must_use]
    pub fn is_resident(self) -> (yes: bool)
        ensures
            yes == (self.period() is None),
    {
        self.interval().is_none()
    }

    /// All tasks, each of which runs in parallel with the others.
    pub fn all() -> (tasks: Vec<Task>)
        ensures
            tasks@ == seq![Task::Templatedata, Task::Recentchanges, Task::Ill],
    {
        vec![Task::Templatedata, Task::Recentchanges, Task::Ill]
    }

    /// When to run the task.
    ///
    /// Batch tasks run immediately on startup and then after each
    /// [`Task::interval`]; resident tasks run until shutdown of their own
    /// accord. In a dry run each task runs once.
    pub fn schedule(self, dry_run: bool) -> (schedule: Schedule)
        ensures
            schedule == (match self.period() {
                Some(seconds) => if dry_run {
                    Schedule::Once
                } else {
                    Schedule::Every(seconds)
                },
                None => Schedule::Once,
            }),
    {
        match self.interval() {
            Some(seconds) => if dry_run {
                Schedule::Once
            } else {
                Schedule::Every(seconds)
            },
            None => Schedule::Once,
        }
    }
}

/// How many seconds to wait for each task to finish, once there is nothing else
/// to do. A dry run performs a single pass of every task, however long that
/// takes; after a shutdown the wait is not to block it indefinitely.
pub fn patience(dry_run: bool) -> (seconds: Option<u64>)
    ensures
        seconds == (if dry_run {
            None
        } else {
            Some(SHUTDOWN_GRACE)
        }),
{
    if dry_run {
        None
    } else {
        Some(SHUTDOWN_GRACE)
    }
}

/// A task is found by its own name and by no other.
pub proof fn tasks_are_found_by_their_names(task: Task, name: Seq<char>)
    ensures
        task_named(name) == Some(task) <==> name == task.label(),
{
    reveal_strlit("templatedata");
    reveal_strlit("recentchanges");
    reveal_strlit("ill");
    assert("templatedata"@.len() == 12);
    assert("recentchanges"@.len() == 13);
    assert("ill"@.len() == 3);
}

/// Every task is among those that run.
pub proof fn every_task_runs(task: Task)
    ensures
        seq![Task::Templatedata, Task::Recentchanges, Task::Ill].contains(task),
{
    let all = seq![Task::Templatedata, Task::Recentchanges, Task::Ill];
    assert(all[0] == Task::Templatedata && all[1] == Task::Recentchanges && all[2] == Task::Ill);
}

} // verus!
