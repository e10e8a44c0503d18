//! What a run is and does, stated over sequences.

use crate::app::{open_maps, resolved_by, well_formed, BlockType, BlockView};
use crate::cache::cache_key_of;
use crate::json::{json_items, json_member, json_string};
use crate::policy::{backoff, tries_again, ErrorKind, RetryPolicy};
use crate::run::{Action, BlockMeta, Status};
use crate::scope::{gathered, owners, spread};
use crate::task::{after_event, event_task, first_at, in_flight, Event, Stage, Task};
use serde_json::Value;
use vstd::prelude::*;

verus! {

/// An action as a mathematical value.
pub enum ActionView {
    Lookup { task: int, key: Seq<char> },
    Execute { task: int, block: int, failures: u32, delay_ms: u64, inputs: Seq<Value> },
    Store { task: int, key: Seq<char>, value: Value },
    Wait,
    Finished,
}

impl View for Action {
    type V = ActionView;

    open spec fn view(&self) -> ActionView {
        match self {
            Action::Lookup { task, key } => ActionView::Lookup { task: *task as int, key: key@ },
            Action::Execute { task, block, failures, delay_ms, inputs } => ActionView::Execute {
                task: *task as int,
                block: *block as int,
                failures: *failures,
                delay_ms: *delay_ms,
                inputs: inputs@,
            },
            Action::Store { task, key, value } => ActionView::Store {
                task: *task as int,
                key: key@,
                value: *value,
            },
            Action::Wait => ActionView::Wait,
            Action::Finished => ActionView::Finished,
        }
    }
}

/// A scope that a `Map` has opened: the branches it was opened in, and for
/// each branch it made the one it belongs to.
pub struct FrameView {
    pub parents: Seq<Seq<Value>>,
    pub owner: Seq<usize>,
    pub start: int,
}

/// A run as a mathematical value.
pub struct RunView {
    pub app: Seq<BlockView>,
    /// For each block, the blocks that its dependencies stand for.
    pub deps: Seq<Seq<usize>>,
    pub input: Value,
    pub policy: RetryPolicy,
    pub workers: usize,
    /// The block that runs now; the number of blocks when all have run.
    pub pc: int,
    /// The live branches: in each, the outputs of the blocks before `pc`.
    pub branches: Seq<Seq<Value>>,
    /// The open scopes, the innermost last.
    pub frames: Seq<FrameView>,
    /// The invocations of block `pc`, one for each branch.
    pub tasks: Seq<Task>,
    pub status: Status,
    pub meta: Seq<BlockMeta>,
}

/// A block that has counted nothing.
pub open spec fn no_counts() -> BlockMeta {
    BlockMeta { hits: 0, misses: 0, retries: 0, store_failures: 0, latency_ms: 0 }
}

/// A run before anything has run: one branch without outputs, no open
/// scope, and at least one worker.
pub open spec fn started(
    app: Seq<BlockView>,
    deps: Seq<Seq<usize>>,
    input: Value,
    policy: RetryPolicy,
    workers: usize,
) -> RunView {
    RunView {
        app,
        deps,
        input,
        policy,
        workers: if workers == 0 {
            1
        } else {
            workers
        },
        pc: 0,
        branches: seq![Seq::<Value>::empty()],
        frames: Seq::<FrameView>::empty(),
        tasks: Seq::<Task>::empty(),
        status: Status::Running,
        meta: Seq::new(app.len(), |k: int| no_counts()),
    }
}

/// The kinds of block that need work from outside the run.
pub open spec fn is_work(variant: BlockType) -> bool {
    match variant {
        BlockType::Code => true,
        BlockType::LLM => true,
        BlockType::Search => true,
        BlockType::Curl => true,
        BlockType::Browser => true,
        _ => false,
    }
}

/// The inputs of block `block` in a branch: the outputs of the blocks it
/// depends on, in the order of its dependencies.
pub open spec fn inputs_of(s: RunView, block: int, branch: Seq<Value>) -> Seq<Value> {
    Seq::new(s.deps[block].len(), |k: int| branch[s.deps[block][k] as int])
}

/// The key of the current block in branch `b`.
pub open spec fn key_of(s: RunView, b: int) -> Seq<char> {
    cache_key_of(s.app[s.pc].variant, s.app[s.pc].config, inputs_of(s, s.pc, s.branches[b]))
}

/// The items that the `Map` at the current block runs over in a branch:
/// those of the output of its first dependency, or, where the block's
/// configuration is a string, those of the member of that name. `None`
/// where the block has no dependency or what is found is no array.
pub open spec fn map_items(s: RunView, branch: Seq<Value>) -> Option<Seq<Value>> {
    if s.deps[s.pc].len() == 0 {
        None
    } else {
        let source = branch[s.deps[s.pc][0] as int];
        let collection = match json_string(s.app[s.pc].config) {
            Some(field) => json_member(source, field),
            None => Some(source),
        };
        match collection {
            Some(found) => json_items(found),
            None => None,
        }
    }
}

/// The first branch from `from` on in which the `Map` finds no items.
pub open spec fn first_without_items(s: RunView, from: int) -> Option<int>
    decreases s.branches.len() - from,
{
    if from < 0 || from >= s.branches.len() {
        None
    } else if map_items(s, s.branches[from]) is None {
        Some(from)
    } else {
        first_without_items(s, from + 1)
    }
}

/// The run after the current block, which needs no outside work, has run
/// in every branch.
pub open spec fn stepped(s: RunView) -> RunView {
    match s.app[s.pc].variant {
        BlockType::Input => RunView {
            branches: Seq::new(s.branches.len(), |b: int| s.branches[b].push(s.input)),
            pc: s.pc + 1,
            ..s
        },
        BlockType::Data => RunView {
            branches: Seq::new(s.branches.len(), |b: int| s.branches[b].push(s.app[s.pc].config)),
            pc: s.pc + 1,
            ..s
        },
        BlockType::MapEach => match first_without_items(s, 0) {
            Some(b) => RunView {
                status: Status::Failed {
                    block: s.pc as usize,
                    branch: b as usize,
                    kind: ErrorKind::Execution,
                },
                ..s
            },
            None => {
                let items = Seq::new(s.branches.len(), |b: int| map_items(s, s.branches[b])->0);
                RunView {
                    frames: s.frames.push(
                        FrameView { parents: s.branches, owner: owners(items), start: s.pc },
                    ),
                    branches: spread(s.branches, items),
                    pc: s.pc + 1,
                    ..s
                }
            },
        },
        BlockType::Reduce => {
            let top = s.frames.last();
            RunView {
                branches: gathered(top.parents, s.branches, top.owner, top.start, s.pc),
                frames: s.frames.drop_last(),
                pc: s.pc + 1,
                ..s
            }
        },
        _ => s,
    }
}

/// The run brought to where it needs the outside world, or to its end:
/// blocks that need no outside work run one after the other; a block that
/// needs some gets a pending invocation in every branch.
pub open spec fn settled(s: RunView) -> RunView
    decreases s.app.len() - s.pc,
{
    if s.status != Status::Running {
        s
    } else if s.pc < 0 || s.pc >= s.app.len() {
        RunView { status: Status::Finished, tasks: Seq::<Task>::empty(), ..s }
    } else if is_work(s.app[s.pc].variant) {
        RunView { tasks: Seq::new(s.branches.len(), |b: int| Task::Pending), ..s }
    } else {
        let next = stepped(s);
        if next.pc > s.pc && next.app.len() == s.app.len() {
            settled(next)
        } else {
            RunView { tasks: Seq::<Task>::empty(), ..next }
        }
    }
}

/// Every invocation has its result.
pub open spec fn all_done(tasks: Seq<Task>) -> bool {
    forall|i: int| 0 <= i < tasks.len() ==> (#[trigger] tasks[i]).stage() == Stage::Done
}

/// The run after the current block has its result in every branch: each
/// branch has the result behind its outputs.
pub open spec fn completed(s: RunView) -> RunView {
    RunView {
        branches: Seq::new(
            s.branches.len(),
            |b: int| s.branches[b].push(s.tasks[b]->Done_value),
        ),
        tasks: Seq::<Task>::empty(),
        pc: s.pc + 1,
        ..s
    }
}

/// One more, unless the counter is full.
pub open spec fn bumped(count: u64) -> u64 {
    if count < u64::MAX {
        (count + 1) as u64
    } else {
        count
    }
}

/// The counts of a block after an event about one of its invocations.
pub open spec fn noted(meta: BlockMeta, task: Task, event: Event, policy: RetryPolicy) -> BlockMeta {
    match (task, event) {
        (Task::LookingUp, Event::CacheHit { .. }) => BlockMeta { hits: bumped(meta.hits), ..meta },
        (Task::LookingUp, Event::CacheMiss { .. }) => BlockMeta {
            misses: bumped(meta.misses),
            ..meta
        },
        (Task::LookingUp, Event::LookupFailed { .. }) => BlockMeta {
            misses: bumped(meta.misses),
            store_failures: bumped(meta.store_failures),
            ..meta
        },
        (Task::Executing { failures }, Event::ExecutionFailed { kind, .. }) => if tries_again(
            policy,
            failures,
            kind,
        ) {
            BlockMeta { retries: bumped(meta.retries), ..meta }
        } else {
            meta
        },
        _ => meta,
    }
}

/// The sum, or the largest number where the sum is larger.
pub open spec fn capped_sum(a: u64, b: u64) -> u64 {
    if a + b <= u64::MAX {
        (a + b) as u64
    } else {
        u64::MAX
    }
}

/// The run after an event. An event about a branch that the current block
/// does not run in, or that comes when the run is over, changes nothing.
/// A failed read of the cache counts as a miss; a failed write is
/// counted and changes nothing else, and so is the time that the driver
/// reports.
pub open spec fn handled(s: RunView, event: Event) -> RunView {
    match event {
        Event::Timed { block, elapsed_ms } => if block < s.meta.len() {
            RunView {
                meta: s.meta.update(
                    block as int,
                    BlockMeta {
                        latency_ms: capped_sum(s.meta[block as int].latency_ms, elapsed_ms),
                        ..s.meta[block as int]
                    },
                ),
                ..s
            }
        } else {
            s
        },
        Event::StoreFailed { block } => if block < s.meta.len() {
            RunView {
                meta: s.meta.update(
                    block as int,
                    BlockMeta {
                        store_failures: bumped(s.meta[block as int].store_failures),
                        ..s.meta[block as int]
                    },
                ),
                ..s
            }
        } else {
            s
        },
        _ => {
            let i = event_task(event)->0;
            if s.status == Status::Running && 0 <= i < s.tasks.len() {
                RunView {
                    tasks: s.tasks.update(
                        i,
                        after_event(s.tasks[i], event, s.policy),
                    ),
                    meta: s.meta.update(s.pc, noted(s.meta[s.pc], s.tasks[i], event, s.policy)),
                    ..s
                }
            } else {
                s
            }
        },
    }
}

/// What the run does next, and the run after it has said so.
///
/// A block whose invocations all have their result is left behind, and
/// the run is settled again. Otherwise, in this order: a result that is
/// not in the cache yet is written to it; if an invocation has failed for
/// good, nothing more is started, and the run fails once nothing is under
/// way; if a worker is free, an invocation that is due for an attempt
/// gets it, or else a pending one is looked up in the cache; else there
/// is nothing to do but wait.
pub open spec fn decided(s: RunView) -> (RunView, ActionView)
    decreases s.app.len() - s.pc,
{
    if s.status != Status::Running {
        (s, ActionView::Finished)
    } else if all_done(s.tasks) {
        let next = settled(completed(s));
        if s.pc < next.pc <= next.app.len() && next.app.len() == s.app.len() {
            decided(next)
        } else {
            (s, ActionView::Wait)
        }
    } else if first_at(s.tasks, Stage::Computed) is Some {
        let i = first_at(s.tasks, Stage::Computed)->0;
        let value = s.tasks[i]->Computed_value;
        (
            RunView { tasks: s.tasks.update(i, Task::Done { value }), ..s },
            ActionView::Store { task: i, key: key_of(s, i), value },
        )
    } else if first_at(s.tasks, Stage::Failed) is Some {
        let i = first_at(s.tasks, Stage::Failed)->0;
        if in_flight(s.tasks) > 0 {
            (s, ActionView::Wait)
        } else {
            (
                RunView {
                    status: Status::Failed {
                        block: s.pc as usize,
                        branch: i as usize,
                        kind: s.tasks[i]->Failed_kind,
                    },
                    ..s
                },
                ActionView::Finished,
            )
        }
    } else if in_flight(s.tasks) >= s.workers {
        (s, ActionView::Wait)
    } else if first_at(s.tasks, Stage::Missed) is Some {
        let i = first_at(s.tasks, Stage::Missed)->0;
        let failures = s.tasks[i]->Missed_failures;
        (
            RunView { tasks: s.tasks.update(i, Task::Executing { failures }), ..s },
            ActionView::Execute {
                task: i,
                block: s.pc,
                failures,
                delay_ms: backoff(s.policy, failures as nat) as u64,
                inputs: inputs_of(s, s.pc, s.branches[i]),
            },
        )
    } else if first_at(s.tasks, Stage::Pending) is Some {
        let i = first_at(s.tasks, Stage::Pending)->0;
        (
            RunView { tasks: s.tasks.update(i, Task::LookingUp), ..s },
            ActionView::Lookup { task: i, key: key_of(s, i) },
        )
    } else {
        (s, ActionView::Wait)
    }
}

/// What holds of a run at all times.
pub open spec fn steady(s: RunView) -> bool {
    &&& well_formed(s.app)
    &&& resolved_by(s.app, s.deps)
    &&& 0 <= s.pc <= s.app.len()
    &&& forall|b: int| 0 <= b < s.branches.len() ==> (#[trigger] s.branches[b]).len() == s.pc
    &&& s.frames.len() == open_maps(s.app, s.pc).len()
    &&& forall|f: int|
        0 <= f < s.frames.len() ==> (#[trigger] s.frames[f]).start == open_maps(s.app, s.pc)[f]
    &&& forall|f: int|
        0 <= f < s.frames.len() ==> (#[trigger] s.frames[f]).owner.len() == if f + 1
            < s.frames.len() {
            s.frames[f + 1].parents.len()
        } else {
            s.branches.len()
        }
    &&& forall|f: int, p: int|
        0 <= f < s.frames.len() && 0 <= p < s.frames[f].parents.len() ==> (
        #[trigger] s.frames[f].parents[p]).len() == s.frames[f].start
    &&& s.meta.len() == s.app.len()
    &&& s.workers >= 1
}

/// What holds of a run between two calls: while it is running, the
/// current block needs outside work and has one invocation for each
/// branch.
pub open spec fn run_wf(s: RunView) -> bool {
    &&& steady(s)
    &&& s.status == Status::Running ==> {
        &&& s.pc < s.app.len()
        &&& is_work(s.app[s.pc].variant)
        &&& s.tasks.len() == s.branches.len()
    }
    &&& s.status == Status::Finished ==> s.pc == s.app.len()
}

/// Every open `Map` before block `i` is a block before `i`.
pub proof fn lemma_open_maps_bounds(blocks: Seq<BlockView>, i: int)
    requires
        0 <= i <= blocks.len(),
    ensures
        open_maps(blocks, i).len() <= i,
        forall|k: int|
            0 <= k < open_maps(blocks, i).len() ==> 0 <= (#[trigger] open_maps(blocks, i)[k]) < i,
    decreases i,
{
    if i > 0 {
        lemma_open_maps_bounds(blocks, i - 1);
    }
}

/// Every branch that a `Map` makes has one output more than its parent.
pub proof fn lemma_spread_lengths(parents: Seq<Seq<Value>>, items: Seq<Seq<Value>>, n: int)
    requires
        parents.len() == items.len(),
        forall|p: int| 0 <= p < parents.len() ==> (#[trigger] parents[p]).len() == n,
    ensures
        spread(parents, items).len() == owners(items).len(),
        forall|t: int|
            0 <= t < spread(parents, items).len() ==> (#[trigger] spread(parents, items)[t]).len()
                == n + 1,
    decreases parents.len(),
{
    if parents.len() > 0 {
        lemma_spread_lengths(parents.drop_last(), items.drop_last(), n);
    }
}

} // verus!
