//! One invocation of a block in one branch, from the lookup in the cache
//! to its result.

use crate::policy::{tries_again, ErrorKind, RetryPolicy};
use serde_json::Value;
use vstd::prelude::*;

verus! {

/// Where an invocation stands.
#[derive(Clone, Debug)]
pub enum Task {
    /// Nothing was done yet.
    Pending,
    /// The cache was asked and has not answered.
    LookingUp,
    /// The cache has no result, or an attempt failed and another is due.
    /// `failures` counts the failed attempts.
    Missed { failures: u32 },
    /// An attempt is under way.
    Executing { failures: u32 },
    /// An attempt gave `value`, which is still to be written to the
    /// cache.
    Computed { value: Value },
    /// The result is `value`.
    Done { value: Value },
    /// The invocation failed for good.
    Failed { kind: ErrorKind },
}

/// The stages of an invocation, without what they carry.
#[derive(Clone, Copy, Debug, PartialEq, Eq, Structural)]
pub enum Stage {
    Pending,
    LookingUp,
    Missed,
    Executing,
    Computed,
    Done,
    Failed,
}

/// What the outside world reports to a run. `task` is the branch that the
/// report is about.
#[derive(Clone, Debug)]
pub enum Event {
    /// The cache holds `value` under the key that was looked up.
    CacheHit { task: usize, value: Value },
    /// The cache holds nothing under the key.
    CacheMiss { task: usize },
    /// The cache could not be read.
    LookupFailed { task: usize },
    /// An attempt gave `value`.
    Executed { task: usize, value: Value },
    /// An attempt failed.
    ExecutionFailed { task: usize, kind: ErrorKind },
    /// A result of block `block` could not be written to the cache.
    StoreFailed { block: usize },
    /// A lookup or an attempt of block `block` took `elapsed_ms`
    /// milliseconds.
    Timed { block: usize, elapsed_ms: u64 },
}

impl Task {
    /// The stage of the invocation.
    pub open spec fn stage(self) -> Stage {
        match self {
            Task::Pending => Stage::Pending,
            Task::LookingUp => Stage::LookingUp,
            Task::Missed { .. } => Stage::Missed,
            Task::Executing { .. } => Stage::Executing,
            Task::Computed { .. } => Stage::Computed,
            Task::Done { .. } => Stage::Done,
            Task::Failed { .. } => Stage::Failed,
        }
    }

    /// The stage of the invocation.
    pub fn stage_of(&self) -> (stage: Stage)
        ensures
            stage == self.stage(),
    {
        match self {
            Task::Pending => Stage::Pending,
            Task::LookingUp => Stage::LookingUp,
            Task::Missed { .. } => Stage::Missed,
            Task::Executing { .. } => Stage::Executing,
            Task::Computed { .. } => Stage::Computed,
            Task::Done { .. } => Stage::Done,
            Task::Failed { .. } => Stage::Failed,
        }
    }
}

/// The branch that an event is about, if it is about one.
pub open spec fn event_task(event: Event) -> Option<int> {
    match event {
        Event::CacheHit { task, .. } => Some(task as int),
        Event::CacheMiss { task } => Some(task as int),
        Event::LookupFailed { task } => Some(task as int),
        Event::Executed { task, .. } => Some(task as int),
        Event::ExecutionFailed { task, .. } => Some(task as int),
        Event::StoreFailed { .. } => None,
        Event::Timed { .. } => None,
    }
}

/// An invocation after an event that is about it. An answer of the cache
/// counts only while the cache is being asked, and the outcome of an
/// attempt only while one is under way: any other event leaves the
/// invocation as it is. A result of an attempt goes to the cache first.
pub open spec fn after_event(task: Task, event: Event, policy: RetryPolicy) -> Task {
    match (task, event) {
        (Task::LookingUp, Event::CacheHit { value, .. }) => Task::Done { value },
        (Task::LookingUp, Event::CacheMiss { .. }) => Task::Missed { failures: 0 },
        (Task::LookingUp, Event::LookupFailed { .. }) => Task::Missed { failures: 0 },
        (Task::Executing { .. }, Event::Executed { value, .. }) => Task::Computed { value },
        (Task::Executing { failures }, Event::ExecutionFailed { kind, .. }) => if tries_again(
            policy,
            failures,
            kind,
        ) {
            Task::Missed { failures: (failures + 1) as u32 }
        } else {
            Task::Failed { kind }
        },
        _ => task,
    }
}

/// The first invocation from `from` on that is at the stage.
pub open spec fn first_from(tasks: Seq<Task>, stage: Stage, from: int) -> Option<int>
    decreases tasks.len() - from,
{
    if from < 0 || from >= tasks.len() {
        None
    } else if tasks[from].stage() == stage {
        Some(from)
    } else {
        first_from(tasks, stage, from + 1)
    }
}

/// The first invocation that is at the stage.
pub open spec fn first_at(tasks: Seq<Task>, stage: Stage) -> Option<int> {
    first_from(tasks, stage, 0)
}

/// How many of the first `upto` invocations are at the stage.
pub open spec fn count_upto(tasks: Seq<Task>, stage: Stage, upto: int) -> nat
    decreases upto,
{
    if upto <= 0 {
        0
    } else {
        count_upto(tasks, stage, upto - 1) + if tasks[upto - 1].stage() == stage {
            1nat
        } else {
            0nat
        }
    }
}

/// How many invocations are at the stage.
pub open spec fn count_at(tasks: Seq<Task>, stage: Stage) -> nat {
    count_upto(tasks, stage, tasks.len() as int)
}

/// How many invocations wait for the outside world: for the cache's
/// answer or for the outcome of an attempt.
pub open spec fn in_flight(tasks: Seq<Task>) -> nat {
    count_at(tasks, Stage::LookingUp) + count_at(tasks, Stage::Executing)
}

/// The first invocation that is at the stage.
pub fn find_first(tasks: &Vec<Task>, stage: Stage) -> (found: Option<usize>)
    ensures
        match found {
            Some(i) => first_at(tasks@, stage) == Some(i as int) && i < tasks@.len()
                && tasks@[i as int].stage() == stage,
            None => first_at(tasks@, stage) is None,
        },
{
    let mut i: usize = 0;
    while i < tasks.len()
        invariant
            i <= tasks.len(),
            first_at(tasks@, stage) == first_from(tasks@, stage, i as int),
        decreases tasks.len() - i,
    {
        if tasks[i].stage_of() == stage {
            return Some(i);
        }
        i += 1;
    }
    None
}

/// How many invocations are at the stage.
pub fn count_stage(tasks: &Vec<Task>, stage: Stage) -> (count: usize)
    ensures
        count == count_at(tasks@, stage),
{
    let mut count: usize = 0;
    let mut i: usize = 0;
    while i < tasks.len()
        invariant
            i <= tasks.len(),
            count == count_upto(tasks@, stage, i as int),
            count <= i,
        decreases tasks.len() - i,
    {
        if tasks[i].stage_of() == stage {
            count += 1;
        }
        i += 1;
    }
    count
}

/// The first invocation at a stage is at that stage, and none before it
/// is.
pub proof fn lemma_first_from(tasks: Seq<Task>, stage: Stage, from: int)
    requires
        0 <= from,
    ensures
        match first_from(tasks, stage, from) {
            Some(i) => {
                &&& from <= i < tasks.len()
                &&& tasks[i].stage() == stage
                &&& forall|j: int| from <= j < i ==> (#[trigger] tasks[j]).stage() != stage
            },
            None => forall|j: int| from <= j < tasks.len() ==> (#[trigger] tasks[j]).stage() != stage,
        },
    decreases tasks.len() - from,
{
    if from < tasks.len() && tasks[from].stage() != stage {
        lemma_first_from(tasks, stage, from + 1);
    }
}

/// Counting further cannot make the count smaller.
pub proof fn lemma_count_grows(tasks: Seq<Task>, stage: Stage, from: int, to: int)
    requires
        from <= to,
    ensures
        count_upto(tasks, stage, from) <= count_upto(tasks, stage, to),
    decreases to - from,
{
    if from < to {
        lemma_count_grows(tasks, stage, from, to - 1);
    }
}

/// An invocation at a stage is counted.
pub proof fn lemma_count_positive(tasks: Seq<Task>, stage: Stage, i: int)
    requires
        0 <= i < tasks.len(),
        tasks[i].stage() == stage,
    ensures
        count_at(tasks, stage) > 0,
{
    lemma_count_grows(tasks, stage, i + 1, tasks.len() as int);
}

/// Where no invocation is at a stage, the count is zero.
pub proof fn lemma_count_zero(tasks: Seq<Task>, stage: Stage, upto: int)
    requires
        upto <= tasks.len(),
        forall|j: int| 0 <= j < upto ==> (#[trigger] tasks[j]).stage() != stage,
    ensures
        count_upto(tasks, stage, upto) == 0,
    decreases upto,
{
    if upto > 0 {
        lemma_count_zero(tasks, stage, upto - 1);
    }
}

/// One invocation that changes changes the count by what it leaves and
/// what it enters.
pub proof fn lemma_count_update(tasks: Seq<Task>, stage: Stage, i: int, task: Task, upto: int)
    requires
        0 <= i < tasks.len(),
        0 <= upto <= tasks.len(),
    ensures
        count_upto(tasks.update(i, task), stage, upto) + (if i < upto && tasks[i].stage()
            == stage {
            1nat
        } else {
            0nat
        }) == count_upto(tasks, stage, upto) + (if i < upto && task.stage() == stage {
            1nat
        } else {
            0nat
        }),
    decreases upto,
{
    if upto > 0 {
        lemma_count_update(tasks, stage, i, task, upto - 1);
    }
}

} // verus!
