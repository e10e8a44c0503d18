//! Runs: one execution of a pipeline on one input record.
//!
//! A run does no outside work itself. It says what is to be done next
//! (ask the cache, run a block, write a result) and is told what came of
//! it. Blocks that need nothing from outside (`Input`, `Data`, `Map`,
//! `Reduce`) are done on the way. The blocks run in the order of their
//! declaration; one block runs in all branches before the next begins, in
//! as many branches at a time as the run has workers.

use crate::app::{block_fault, is_resolution, open_maps, App, BlockType};
use crate::cache::cache_key;
use crate::json::{value_items, value_member, value_string};
use crate::policy::{backoff_delay, is_retryable, ErrorKind, RetryPolicy};
use crate::run_model::{
    all_done, bumped, completed, decided, first_without_items, handled, inputs_of, key_of,
    lemma_open_maps_bounds, lemma_spread_lengths, map_items, no_counts, noted, run_wf, settled,
    started, steady, stepped, FrameView, RunView,
};
use crate::scope::{column, fan_out, gather, rows};
use crate::task::{
    after_event, count_stage, find_first, lemma_first_from, Event, Stage, Task,
};
use serde_json::Value;
use vstd::prelude::*;

verus! {

/// How a run stands.
#[derive(Clone, Copy, Debug, PartialEq, Eq, Structural)]
pub enum Status {
    /// There are blocks left to run.
    Running,
    /// Block `block` failed in branch `branch`; no later block has run.
    Failed { block: usize, branch: usize, kind: ErrorKind },
    /// Every block has run.
    Finished,
}

/// What a run has counted for one block, over all branches.
#[derive(Clone, Copy, Debug, PartialEq, Eq, Structural)]
pub struct BlockMeta {
    /// Results that came from the cache.
    pub hits: u64,
    /// Lookups that found nothing, or could not be made.
    pub misses: u64,
    /// Attempts that were made again after a failure.
    pub retries: u64,
    /// Reads and writes of the cache that failed.
    pub store_failures: u64,
    /// The time that lookups and attempts took, in milliseconds, as far as
    /// the driver has reported it.
    pub latency_ms: u64,
}

/// What a run asks its driver to do.
#[derive(Clone, Debug)]
pub enum Action {
    /// Ask the cache for the result under `key`, for branch `task`.
    Lookup { task: usize, key: String },
    /// Run block `block` in branch `task` on `inputs`, the outputs of the
    /// blocks it depends on, after waiting `delay_ms` milliseconds.
    Execute { task: usize, block: usize, failures: u32, delay_ms: u64, inputs: Vec<Value> },
    /// Write `value` to the cache under `key`.
    Store { task: usize, key: String, value: Value },
    /// Nothing can be started before an event comes in.
    Wait,
    /// The run is over: see its status.
    Finished,
}

/// A scope that a `Map` has opened.
#[derive(Debug)]
struct Frame {
    parents: Vec<Vec<Value>>,
    owner: Vec<usize>,
    start: usize,
}

/// One execution of a pipeline on one input record.
#[derive(Debug)]
pub struct Run {
    app: App,
    input: Value,
    policy: RetryPolicy,
    workers: usize,
    pc: usize,
    branches: Vec<Vec<Value>>,
    frames: Vec<Frame>,
    tasks: Vec<Task>,
    status: Status,
    meta: Vec<BlockMeta>,
}

impl View for Frame {
    type V = FrameView;

    closed spec fn view(&self) -> FrameView {
        FrameView { parents: rows(self.parents@), owner: self.owner@, start: self.start as int }
    }
}

impl View for Run {
    type V = RunView;

    closed spec fn view(&self) -> RunView {
        RunView {
            app: self.app@,
            deps: self.app.resolution(),
            input: self.input,
            policy: self.policy,
            workers: self.workers,
            pc: self.pc as int,
            branches: rows(self.branches@),
            frames: Seq::new(self.frames@.len(), |f: int| self.frames@[f]@),
            tasks: self.tasks@,
            status: self.status,
            meta: self.meta@,
        }
    }
}

/// The vector in the other order.
fn reversed<T>(items: Vec<T>) -> (out: Vec<T>)
    ensures
        out@ == items@.reverse(),
{
    let ghost before = items@;
    let mut items = items;
    let mut out: Vec<T> = Vec::new();
    while items.len() > 0
        invariant
            items@.len() + out@.len() == before.len(),
            items@ == before.take(items@.len() as int),
            forall|k: int| 0 <= k < out@.len() ==> out@[k] == before[before.len() - 1 - k],
        decreases items@.len(),
    {
        let last = items.pop().unwrap();
        assert(items@ =~= before.take(items@.len() as int));
        out.push(last);
    }
    assert(out@ =~= before.reverse());
    out
}

/// Puts one more output behind those of each branch.
fn extend_each(branches: Vec<Vec<Value>>, values: Vec<Value>) -> (out: Vec<Vec<Value>>)
    requires
        branches@.len() == values@.len(),
    ensures
        rows(out@) == Seq::new(branches@.len(), |b: int| branches@[b]@.push(values@[b])),
{
    let ghost before = rows(branches@);
    let ghost added = values@;
    let mut branches = branches;
    let mut values = values;
    let mut back: Vec<Vec<Value>> = Vec::new();
    while branches.len() > 0
        invariant
            branches@.len() == values@.len(),
            branches@.len() + back@.len() == before.len(),
            before.len() == added.len(),
            rows(branches@) == before.take(branches@.len() as int),
            values@ == added.take(values@.len() as int),
            forall|k: int|
                0 <= k < back@.len() ==> (#[trigger] back@[k])@ == before[before.len() - 1
                    - k].push(added[before.len() - 1 - k]),
        decreases branches@.len(),
    {
        let ghost rows_before = rows(branches@);
        let mut branch = branches.pop().unwrap();
        let value = values.pop().unwrap();
        assert(branch@ == rows_before[branches@.len() as int]);
        assert(rows(branches@) =~= before.take(branches@.len() as int));
        assert(values@ =~= added.take(values@.len() as int));
        branch.push(value);
        back.push(branch);
    }
    let out = reversed(back);
    assert(rows(out@) =~= Seq::new(before.len(), |b: int| before[b].push(added[b])));
    out
}

/// As many copies of the value as asked for.
fn copies(value: &Value, count: usize) -> (out: Vec<Value>)
    ensures
        out@ == Seq::new(count as nat, |b: int| *value),
{
    let mut out: Vec<Value> = Vec::new();
    let mut b: usize = 0;
    while b < count
        invariant
            b <= count,
            out@ == Seq::new(b as nat, |k: int| *value),
        decreases count - b,
    {
        out.push(value.clone());
        assert(out@ =~= Seq::new((b + 1) as nat, |k: int| *value));
        b += 1;
    }
    out
}

impl Run {
    /// The invariant of a run.
    pub open spec fn wf(&self) -> bool {
        run_wf(self@)
    }

    /// The inputs of the current block in branch `b`.
    fn inputs_for(&self, b: usize) -> (inputs: Vec<Value>)
        requires
            steady(self@),
            self@.pc < self@.app.len(),
            b < self@.branches.len(),
        ensures
            inputs@ == inputs_of(self@, self@.pc, self@.branches[b as int]),
    {
        let found = self.app.dependencies(self.pc);
        let mut inputs: Vec<Value> = Vec::new();
        let mut k: usize = 0;
        while k < found.len()
            invariant
                steady(self@),
                self@.pc < self@.app.len(),
                b < self@.branches.len(),
                found@ == self@.deps[self@.pc],
                k <= found.len(),
                inputs@.len() == k,
                forall|j: int|
                    0 <= j < k ==> inputs@[j] == self@.branches[b as int][found@[j] as int],
            decreases found.len() - k,
        {
            let at = found[k];
            assert(is_resolution(
                self@.app,
                self@.pc,
                self@.app[self@.pc].depends_on[k as int],
                self@.deps[self@.pc][k as int] as int,
            ));
            assert(self@.branches[b as int].len() == self@.pc);
            assert(self@.branches[b as int] == self.branches@[b as int]@);
            inputs.push(self.branches[b][at].clone());
            k += 1;
        }
        assert(inputs@ =~= inputs_of(self@, self@.pc, self@.branches[b as int]));
        inputs
    }

    /// The key of the current block in branch `b`.
    fn key_for(&self, b: usize) -> (key: String)
        requires
            steady(self@),
            self@.pc < self@.app.len(),
            b < self@.branches.len(),
        ensures
            key@ == key_of(self@, b as int),
    {
        let inputs = self.inputs_for(b);
        let block = self.app.block(self.pc);
        cache_key(block.variant, &block.config, &inputs)
    }

    /// The items that the `Map` at the current block runs over in branch
    /// `b`.
    fn items_for(&self, b: usize) -> (items: Option<Vec<Value>>)
        requires
            steady(self@),
            self@.pc < self@.app.len(),
            b < self@.branches.len(),
        ensures
            match items {
                Some(found) => map_items(self@, self@.branches[b as int]) == Some(found@),
                None => map_items(self@, self@.branches[b as int]) is None,
            },
    {
        let found = self.app.dependencies(self.pc);
        if found.len() == 0 {
            return None;
        }
        let at = found[0];
        assert(is_resolution(
            self@.app,
            self@.pc,
            self@.app[self@.pc].depends_on[0],
            self@.deps[self@.pc][0] as int,
        ));
        assert(self@.branches[b as int].len() == self@.pc);
        assert(self@.branches[b as int] == self.branches@[b as int]@);
        let source = &self.branches[b][at];
        let block = self.app.block(self.pc);
        match value_string(&block.config) {
            Some(field) => match value_member(source, field.as_str()) {
                Some(collection) => value_items(&collection),
                None => None,
            },
            None => value_items(source),
        }
    }

    /// The items that the `Map` at the current block runs over, branch by
    /// branch, or the first branch in which it finds none.
    fn all_items(&self) -> (found: Result<Vec<Vec<Value>>, usize>)
        requires
            steady(self@),
            self@.pc < self@.app.len(),
        ensures
            match found {
                Ok(items) => {
                    &&& first_without_items(self@, 0) is None
                    &&& rows(items@) == Seq::new(
                        self@.branches.len(),
                        |b: int| map_items(self@, self@.branches[b])->0,
                    )
                },
                Err(b) => first_without_items(self@, 0) == Some(b as int),
            },
    {
        let mut items: Vec<Vec<Value>> = Vec::new();
        let mut b: usize = 0;
        while b < self.branches.len()
            invariant
                steady(self@),
                self@.pc < self@.app.len(),
                b <= self.branches@.len(),
                self.branches@.len() == self@.branches.len(),
                first_without_items(self@, 0) == first_without_items(self@, b as int),
                items@.len() == b,
                forall|j: int|
                    0 <= j < b ==> (#[trigger] items@[j])@ == map_items(
                        self@,
                        self@.branches[j],
                    )->0,
            decreases self.branches@.len() - b,
        {
            match self.items_for(b) {
                Some(found) => {
                    items.push(found);
                },
                None => {
                    return Err(b);
                },
            }
            b += 1;
        }
        assert(rows(items@) =~= Seq::new(
            self@.branches.len(),
            |b: int| map_items(self@, self@.branches[b])->0,
        ));
        Ok(items)
    }

    /// Runs the blocks that need no outside work until one does, the run
    /// fails or no block is left.
    fn settle(&mut self)
        requires
            steady(old(self)@),
            old(self)@.status == Status::Running,
            old(self)@.tasks.len() == 0,
        ensures
            final(self)@ == settled(old(self)@),
            run_wf(final(self)@),
            final(self)@.pc >= old(self)@.pc,
            final(self)@.app == old(self)@.app,
    {
        loop
            invariant
                steady(self@),
                self@.status == Status::Running,
                self@.tasks.len() == 0,
                settled(self@) == settled(old(self)@),
                self@.pc >= old(self)@.pc,
                self@.app == old(self)@.app,
            decreases self@.app.len() - self@.pc,
        {
            let ghost before = self@;
            if self.pc >= self.app.len() {
                self.status = Status::Finished;
                proof {
                    assert(self@.tasks =~= Seq::<Task>::empty());
                    assert(self@ == settled(before));
                }
                return ;
            }
            let count = self.branches.len();
            let variant = self.app.block(self.pc).variant;
            match variant {
                BlockType::Input => {
                    let values = copies(&self.input, count);
                    let mut branches: Vec<Vec<Value>> = Vec::new();
                    std::mem::swap(&mut branches, &mut self.branches);
                    self.branches = extend_each(branches, values);
                    self.pc = self.pc + 1;
                    proof {
                        assert(self@.branches =~= stepped(before).branches);
                        assert(self@ =~= stepped(before));
                        assert(steady(self@));
                    }
                },
                BlockType::Data => {
                    let values = copies(&self.app.block(self.pc).config, count);
                    let mut branches: Vec<Vec<Value>> = Vec::new();
                    std::mem::swap(&mut branches, &mut self.branches);
                    self.branches = extend_each(branches, values);
                    self.pc = self.pc + 1;
                    proof {
                        assert(self@.branches =~= stepped(before).branches);
                        assert(self@ =~= stepped(before));
                        assert(steady(self@));
                    }
                },
                BlockType::MapEach => {
                    match self.all_items() {
                        Err(b) => {
                            self.status = Status::Failed {
                                block: self.pc,
                                branch: b,
                                kind: ErrorKind::Execution,
                            };
                            proof {
                                assert(self@.tasks =~= Seq::<Task>::empty());
                                assert(self@ == stepped(before));
                                assert(self@ == settled(before));
                            }
                            return ;
                        },
                        Ok(items) => {
                            let made = fan_out(&self.branches, &items);
                            let mut parents: Vec<Vec<Value>> = made.0;
                            std::mem::swap(&mut parents, &mut self.branches);
                            self.frames.push(Frame { parents, owner: made.1, start: self.pc });
                            self.pc = self.pc + 1;
                            proof {
                                lemma_spread_lengths(
                                    before.branches,
                                    rows(items@),
                                    before.pc,
                                );
                                assert(self@.frames =~= stepped(before).frames);
                                assert(self@ =~= stepped(before));
                                assert(steady(self@));
                            }
                        },
                    }
                },
                BlockType::Reduce => {
                    proof {
                        lemma_open_maps_bounds(before.app, before.pc);
                        assert(block_fault(before.app, before.pc) is None);
                    }
                    let frame = self.frames.pop().unwrap();
                    proof {
                        assert(frame@ == before.frames.last());
                        assert forall|t: int| 0 <= t < self.branches@.len() implies (
                        #[trigger] self.branches@[t])@.len() == self.pc by {
                            assert(before.branches[t] == self.branches@[t]@);
                        }
                    }
                    self.branches = gather(
                        frame.parents,
                        &self.branches,
                        &frame.owner,
                        frame.start,
                        self.pc,
                    );
                    self.pc = self.pc + 1;
                    proof {
                        assert(self@.frames =~= stepped(before).frames);
                        assert(self@ =~= stepped(before));
                        assert(steady(self@));
                    }
                },
                _ => {
                    self.tasks = pending(count);
                    assert(self@ == settled(before));
                    return ;
                },
            }
        }
    }

    /// Leaves the current block, whose invocations all have their result,
    /// behind.
    fn complete_block(&mut self)
        requires
            run_wf(old(self)@),
            old(self)@.status == Status::Running,
            all_done(old(self)@.tasks),
        ensures
            final(self)@ == completed(old(self)@),
            steady(final(self)@),
            final(self)@.status == Status::Running,
    {
        let ghost before = self@;
        let values = results_of(&self.tasks);
        let mut branches: Vec<Vec<Value>> = Vec::new();
        std::mem::swap(&mut branches, &mut self.branches);
        self.branches = extend_each(branches, values);
        self.tasks = Vec::new();
        let count = self.app.len();
        assert(self.pc < count);
        self.pc = self.pc + 1;
        proof {
            assert(self@.branches =~= completed(before).branches);
            assert(self@.tasks =~= completed(before).tasks);
            assert(self@ == completed(before));
            assert(open_maps(before.app, before.pc + 1) == open_maps(before.app, before.pc));
        }
    }

    /// Starts a run of `app` on `input`, with at most `workers` invocations
    /// under way at a time (one, if `workers` is zero). The blocks that need
    /// no outside work and come before the first that does have run when
    /// this returns.
    pub fn new(app: App, input: Value, policy: RetryPolicy, workers: usize) -> (run: Run)
        requires
            app.wf(),
        ensures
            run@ == settled(started(app@, app.resolution(), input, policy, workers)),
            run.wf(),
    {
        let mut meta: Vec<BlockMeta> = Vec::new();
        let mut i: usize = 0;
        while i < app.len()
            invariant
                i <= app@.len(),
                meta@ == Seq::new(i as nat, |k: int| no_counts()),
            decreases app@.len() - i,
        {
            meta.push(
                BlockMeta { hits: 0, misses: 0, retries: 0, store_failures: 0, latency_ms: 0 },
            );
            assert(meta@ =~= Seq::new((i + 1) as nat, |k: int| no_counts()));
            i += 1;
        }
        let mut branches: Vec<Vec<Value>> = Vec::new();
        branches.push(Vec::new());
        let mut run = Run {
            app,
            input,
            policy,
            workers: if workers == 0 {
                1
            } else {
                workers
            },
            pc: 0,
            branches,
            frames: Vec::new(),
            tasks: Vec::new(),
            status: Status::Running,
            meta,
        };
        proof {
            let s = started(app@, app.resolution(), input, policy, workers);
            assert(run@.branches =~= s.branches);
            assert(run@.frames =~= s.frames);
            assert(run@.tasks =~= s.tasks);
            assert(run@ == s);
        }
        run.settle();
        run
    }

    /// The pipeline that runs.
    pub fn app(&self) -> (app: &App)
        ensures
            app@ == self@.app,
            app.resolution() == self@.deps,
    {
        &self.app
    }

    /// How the run stands.
    pub fn status(&self) -> (status: Status)
        ensures
            status == self@.status,
    {
        self.status
    }

    /// The block that runs now; the number of blocks when all have run.
    pub fn position(&self) -> (pc: usize)
        ensures
            pc == self@.pc,
    {
        self.pc
    }

    /// What the run has counted for block `block`, if there is such a
    /// block.
    pub fn meta(&self, block: usize) -> (meta: Option<BlockMeta>)
        ensures
            meta == if block < self@.meta.len() {
                Some(self@.meta[block as int])
            } else {
                None
            },
    {
        if block < self.meta.len() {
            Some(self.meta[block])
        } else {
            None
        }
    }

    /// What block `block` has put out in each live branch, if the block
    /// has run: one value while no scope is open.
    pub fn output(&self, block: usize) -> (values: Option<Vec<Value>>)
        requires
            self.wf(),
        ensures
            match values {
                Some(found) => block < self@.pc && found@ == column(self@.branches, block as int),
                None => block >= self@.pc,
            },
    {
        if block >= self.pc {
            return None;
        }
        let mut values: Vec<Value> = Vec::new();
        let mut b: usize = 0;
        while b < self.branches.len()
            invariant
                steady(self@),
                block < self.pc,
                b <= self.branches@.len(),
                values@.len() == b,
                forall|j: int| 0 <= j < b ==> values@[j] == self@.branches[j][block as int],
            decreases self.branches@.len() - b,
        {
            assert(self@.branches[b as int] == self.branches@[b as int]@);
            values.push(self.branches[b][block].clone());
            b += 1;
        }
        assert(values@ =~= column(self@.branches, block as int));
        Some(values)
    }

    /// Takes in what the outside world reports.
    pub fn handle(&mut self, event: Event)
        requires
            old(self).wf(),
        ensures
            final(self)@ == handled(old(self)@, event),
            final(self).wf(),
    {
        let ghost before = self@;
        let task = match &event {
            Event::CacheHit { task, .. } => *task,
            Event::CacheMiss { task } => *task,
            Event::LookupFailed { task } => *task,
            Event::Executed { task, .. } => *task,
            Event::ExecutionFailed { task, .. } => *task,
            Event::StoreFailed { block } => {
                if *block < self.meta.len() {
                    let meta = self.meta[*block];
                    self.meta.set(
                        *block,
                        BlockMeta { store_failures: bump(meta.store_failures), ..meta },
                    );
                }
                proof {
                    assert(self@ == handled(before, event));
                }
                return ;
            },
            Event::Timed { block, elapsed_ms } => {
                if *block < self.meta.len() {
                    let meta = self.meta[*block];
                    let latency_ms = if *elapsed_ms > u64::MAX - meta.latency_ms {
                        u64::MAX
                    } else {
                        meta.latency_ms + *elapsed_ms
                    };
                    self.meta.set(*block, BlockMeta { latency_ms, ..meta });
                }
                proof {
                    assert(self@ == handled(before, event));
                }
                return ;
            },
        };
        if !(self.status == Status::Running) || task >= self.tasks.len() {
            return ;
        }
        let meta = note(self.meta[self.pc], &self.tasks[task], &event, &self.policy);
        let after = advance_task(&self.tasks[task], event, &self.policy);
        self.tasks.set(task, after);
        self.meta.set(self.pc, meta);
        proof {
            assert(self@ == handled(before, event));
        }
    }

    /// Says what is to be done next, and notes that it is under way. The
    /// driver does what is asked and reports the outcome with `handle`;
    /// after `Wait` it reports an outcome before it asks again.
    pub fn next_action(&mut self) -> (action: Action)
        requires
            old(self).wf(),
        ensures
            (final(self)@, action@) == decided(old(self)@),
            final(self).wf(),
    {
        loop
            invariant
                run_wf(self@),
                decided(self@) == decided(old(self)@),
            decreases self@.app.len() - self@.pc,
        {
            if !(self.status == Status::Running) {
                return Action::Finished;
            }
            let ghost before = self@;
            if tasks_all_done(&self.tasks) {
                self.complete_block();
                self.settle();
                continue ;
            }
            proof {
                lemma_first_from(before.tasks, Stage::Computed, 0);
                lemma_first_from(before.tasks, Stage::Failed, 0);
                lemma_first_from(before.tasks, Stage::Missed, 0);
                lemma_first_from(before.tasks, Stage::Pending, 0);
            }
            match find_first(&self.tasks, Stage::Computed) {
                Some(i) => {
                    let value = held_value(&self.tasks[i]);
                    let stored = value.clone();
                    let key = self.key_for(i);
                    self.tasks.set(i, Task::Done { value });
                    return Action::Store { task: i, key, value: stored };
                },
                None => {},
            }
            let looking = count_stage(&self.tasks, Stage::LookingUp);
            let executing = count_stage(&self.tasks, Stage::Executing);
            match find_first(&self.tasks, Stage::Failed) {
                Some(i) => {
                    if looking > 0 || executing > 0 {
                        return Action::Wait;
                    }
                    let kind = match &self.tasks[i] {
                        Task::Failed { kind } => *kind,
                        _ => ErrorKind::Execution,
                    };
                    self.status = Status::Failed { block: self.pc, branch: i, kind };
                    return Action::Finished;
                },
                None => {},
            }
            if looking >= self.workers || executing >= self.workers - looking {
                return Action::Wait;
            }
            match find_first(&self.tasks, Stage::Missed) {
                Some(i) => {
                    let failures = match &self.tasks[i] {
                        Task::Missed { failures } => *failures,
                        _ => 0,
                    };
                    let inputs = self.inputs_for(i);
                    let delay_ms = backoff_delay(&self.policy, failures);
                    self.tasks.set(i, Task::Executing { failures });
                    return Action::Execute { task: i, block: self.pc, failures, delay_ms, inputs };
                },
                None => {},
            }
            match find_first(&self.tasks, Stage::Pending) {
                Some(i) => {
                    let key = self.key_for(i);
                    self.tasks.set(i, Task::LookingUp);
                    return Action::Lookup { task: i, key };
                },
                None => {},
            }
            return Action::Wait;
        }
    }
}

/// The value that an invocation holds for the cache.
fn held_value(task: &Task) -> (value: Value)
    requires
        task.stage() == Stage::Computed,
    ensures
        value == task->Computed_value,
{
    match task {
        Task::Computed { value } => value.clone(),
        _ => vstd::pervasive::unreached(),
    }
}

/// As many pending invocations as asked for.
fn pending(count: usize) -> (tasks: Vec<Task>)
    ensures
        tasks@ == Seq::new(count as nat, |b: int| Task::Pending),
{
    let mut tasks: Vec<Task> = Vec::new();
    let mut b: usize = 0;
    while b < count
        invariant
            b <= count,
            tasks@ == Seq::new(b as nat, |k: int| Task::Pending),
        decreases count - b,
    {
        tasks.push(Task::Pending);
        assert(tasks@ =~= Seq::new((b + 1) as nat, |k: int| Task::Pending));
        b += 1;
    }
    tasks
}

/// Whether every invocation has its result.
fn tasks_all_done(tasks: &Vec<Task>) -> (done: bool)
    ensures
        done == all_done(tasks@),
{
    let mut i: usize = 0;
    while i < tasks.len()
        invariant
            i <= tasks.len(),
            forall|j: int| 0 <= j < i ==> (#[trigger] tasks@[j]).stage() == Stage::Done,
        decreases tasks.len() - i,
    {
        if tasks[i].stage_of() != Stage::Done {
            return false;
        }
        i += 1;
    }
    true
}

/// The results of invocations that all have one.
fn results_of(tasks: &Vec<Task>) -> (values: Vec<Value>)
    requires
        all_done(tasks@),
    ensures
        values@ == Seq::new(tasks@.len(), |b: int| tasks@[b]->Done_value),
{
    let mut values: Vec<Value> = Vec::new();
    let mut i: usize = 0;
    while i < tasks.len()
        invariant
            i <= tasks.len(),
            all_done(tasks@),
            values@.len() == i,
            forall|j: int| 0 <= j < i ==> values@[j] == tasks@[j]->Done_value,
        decreases tasks.len() - i,
    {
        match &tasks[i] {
            Task::Done { value } => {
                values.push(value.clone());
            },
            _ => {
                assert(tasks@[i as int].stage() == Stage::Done);
            },
        }
        i += 1;
    }
    assert(values@ =~= Seq::new(tasks@.len(), |b: int| tasks@[b]->Done_value));
    values
}

/// One more, unless the counter is full.
fn bump(count: u64) -> (more: u64)
    ensures
        more == bumped(count),
{
    if count < u64::MAX {
        count + 1
    } else {
        count
    }
}

/// The counts of a block after an event about one of its invocations.
fn note(meta: BlockMeta, task: &Task, event: &Event, policy: &RetryPolicy) -> (after: BlockMeta)
    ensures
        after == noted(meta, *task, *event, *policy),
{
    match (task, event) {
        (Task::LookingUp, Event::CacheHit { .. }) => BlockMeta { hits: bump(meta.hits), ..meta },
        (Task::LookingUp, Event::CacheMiss { .. }) => BlockMeta {
            misses: bump(meta.misses),
            ..meta
        },
        (Task::LookingUp, Event::LookupFailed { .. }) => BlockMeta {
            misses: bump(meta.misses),
            store_failures: bump(meta.store_failures),
            ..meta
        },
        (Task::Executing { failures }, Event::ExecutionFailed { kind, .. }) => {
            if is_retryable(*kind) && *failures < u32::MAX && *failures + 1 < policy.max_attempts {
                BlockMeta { retries: bump(meta.retries), ..meta }
            } else {
                meta
            }
        },
        _ => meta,
    }
}

/// An invocation after an event that is about it.
fn advance_task(task: &Task, event: Event, policy: &RetryPolicy) -> (after: Task)
    ensures
        after == after_event(*task, event, *policy),
{
    match task {
        Task::LookingUp => match event {
            Event::CacheHit { task: _, value } => Task::Done { value },
            Event::CacheMiss { .. } => Task::Missed { failures: 0 },
            Event::LookupFailed { .. } => Task::Missed { failures: 0 },
            _ => Task::LookingUp,
        },
        Task::Executing { failures } => match event {
            Event::Executed { task: _, value } => Task::Computed { value },
            Event::ExecutionFailed { task: _, kind } => {
                if is_retryable(kind) && *failures < u32::MAX && *failures + 1
                    < policy.max_attempts {
                    Task::Missed { failures: *failures + 1 }
                } else {
                    Task::Failed { kind }
                }
            },
            _ => Task::Executing { failures: *failures },
        },
        Task::Pending => Task::Pending,
        Task::Missed { failures } => Task::Missed { failures: *failures },
        Task::Computed { value } => Task::Computed { value: value.clone() },
        Task::Done { value } => Task::Done { value: value.clone() },
        Task::Failed { kind } => Task::Failed { kind: *kind },
    }
}

} // verus!
