//! What the bot runs, and how it cuts up and collects what it asks for.

use vstd::prelude::*;

use crate::batch;
use crate::number;
use crate::server;
use crate::server::TriggerView;
use crate::tasks;
use crate::tasks::Task;
use crate::titles;

verus! {

/// The tasks by name. No other name is one of a task.
pub proof fn names_of_tasks(name: Seq<char>)
    ensures
        Task::Templatedata.label() == "templatedata"@,
        Task::Recentchanges.label() == "recentchanges"@,
        Task::Ill.label() == "ill"@,
        tasks::task_named(name) == Some(Task::Templatedata) <==> name == "templatedata"@,
        tasks::task_named(name) == Some(Task::Recentchanges) <==> name == "recentchanges"@,
        tasks::task_named(name) == Some(Task::Ill) <==> name == "ill"@,
{
    reveal_strlit("templatedata");
    reveal_strlit("recentchanges");
    reveal_strlit("ill");
    assert("templatedata"@.len() == 12);
    assert("recentchanges"@.len() == 13);
    assert("ill"@.len() == 3);
}

/// Templates are surveyed every other day, links are scanned every week, and
/// recent changes are watched without end.
pub proof fn periods_of_tasks()
    ensures
        Task::Templatedata.period() == Some((2 * 24 * 60 * 60) as u64),
        Task::Ill.period() == Some((7 * 24 * 60 * 60) as u64),
        Task::Recentchanges.period() is None,
        tasks::SHUTDOWN_GRACE == 30,
{
}

/// The server listens on the port given where it is a readable number, and else on
/// its own.
pub proof fn the_port_of_the_server(text: Seq<char>)
    ensures
        server::port_of(None) == 8080,
        match number::parsed(text, 65535) {
            Some(port) => server::port_of(Some(text)) == port,
            None => server::port_of(Some(text)) == 8080,
        },
{
}

/// A request to run a task runs it where it runs once in a while. One that runs all
/// the time, or a name that is none, is refused in words.
pub proof fn requests_to_run_a_task(name: Seq<char>)
    ensures
        name == "templatedata"@ ==> server::decision_on(name) == TriggerView::Run(
            Task::Templatedata,
        ),
        name == "ill"@ ==> server::decision_on(name) == TriggerView::Run(Task::Ill),
        name == "recentchanges"@ ==> server::decision_on(name) == (TriggerView::Reject {
            status: 400,
            body: name + ": runs continuously"@,
        }),
        name != "templatedata"@ && name != "ill"@ && name != "recentchanges"@
            ==> server::decision_on(name) == (TriggerView::Reject {
            status: 404,
            body: "unknown task: "@ + name,
        }),
{
    names_of_tasks(name);
}

/// A batch holds the next items in their order, as many as fit.
pub proof fn a_batch_holds_the_next_items<T>(items: Seq<T>, at: int, size: int, i: int)
    requires
        0 <= at <= items.len(),
        size > 0,
    ensures
        batch::batch_of(items, at, size).len() == (if items.len() - at < size {
            items.len() - at
        } else {
            size
        }),
        batch::batch_end(at, size, items.len() as int) == at + batch::batch_of(
            items,
            at,
            size,
        ).len(),
        0 <= i < batch::batch_of(items, at, size).len() ==> batch::batch_of(items, at, size)[i]
            == items[at + i],
{
}

/// Batches are as few as hold all items.
pub proof fn batches_are_as_few_as_can_be(len: int, size: int)
    requires
        len >= 0,
        size > 0,
    ensures
        len <= batch::batches_in(len, size) * size,
        len > 0 ==> (batch::batches_in(len, size) - 1) * size < len,
{
    let n = batch::batches_in(len, size);
    let q = len / size;
    let r = len % size;
    assert(len == q * size + r && 0 <= r < size) by (nonlinear_arith)
        requires
            size > 0,
            q == len / size,
            r == len % size,
    ;
    assert((q + 1) * size == q * size + size) by (nonlinear_arith);
    assert((q - 1) * size == q * size - size) by (nonlinear_arith);
}

/// Values are collected one by one, each where it has not come before.
pub proof fn values_are_collected_once(values: Seq<Seq<char>>, value: Seq<char>)
    ensures
        titles::unique_of(seq![]).len() == 0,
        titles::unique_of(values.push(value)) == if values.contains(value) {
            titles::unique_of(values)
        } else {
            titles::unique_of(values).push(value)
        },
{
    assert(values.push(value).drop_last() =~= values);
}

} // verus!
