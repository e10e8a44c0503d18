//! What holds of every run.

use crate::app::{block_fault, open_maps, BlockType};
use crate::run::Status;
use crate::json::json_array;
use crate::run_model::{
    all_done, completed, decided, first_without_items, handled, is_work, key_of,
    lemma_open_maps_bounds, lemma_spread_lengths, map_items, run_wf, settled, steady, stepped,
    ActionView, FrameView, RunView,
};
use crate::scope::{
    children_of, column, first_place, folded, gathered, lemma_members_of_spread,
    lemma_places_of_owners, lemma_spread_count, members, owners, places, spread,
};
use crate::task::{
    event_task, first_at, in_flight, lemma_count_positive, lemma_count_update, lemma_count_zero,
    lemma_first_from, Event, Stage, Task,
};
use serde_json::Value;
use vstd::prelude::*;

verus! {

/// A hit settles an invocation: once the cache has answered with a value,
/// that value is the result, and no later event changes it.
pub proof fn lemma_hit_is_final(s: RunView, i: int, value: Value, later: Event)
    requires
        run_wf(s),
        s.status == Status::Running,
        0 <= i < s.tasks.len() <= usize::MAX,
        s.tasks[i] == Task::LookingUp,
    ensures
        handled(s, Event::CacheHit { task: i as usize, value }).tasks[i] == (Task::Done { value }),
        handled(handled(s, Event::CacheHit { task: i as usize, value }), later).tasks[i] == (
        Task::Done { value }),
{
}

/// The invocation that an action is about, if it starts an attempt.
pub open spec fn attempt_of(action: ActionView) -> Option<int> {
    match action {
        ActionView::Execute { task, .. } => Some(task),
        _ => None,
    }
}

/// No attempt without a miss: while a block runs, an attempt is started
/// only for an invocation that the cache had no result for, or that
/// failed and is due again. An invocation that has its result from the
/// cache is never run.
pub proof fn lemma_attempt_only_after_miss(s: RunView)
    requires
        run_wf(s),
        s.status == Status::Running,
        !all_done(s.tasks),
        attempt_of(decided(s).1) is Some,
    ensures
        ({
            let i = attempt_of(decided(s).1)->0;
            &&& 0 <= i < s.tasks.len()
            &&& s.tasks[i].stage() == Stage::Missed
            &&& decided(s).0.tasks[i].stage() == Stage::Executing
        }),
{
    lemma_first_from(s.tasks, Stage::Computed, 0);
    lemma_first_from(s.tasks, Stage::Failed, 0);
    lemma_first_from(s.tasks, Stage::Missed, 0);
    lemma_first_from(s.tasks, Stage::Pending, 0);
}

/// Order of completion does not matter: two events about different
/// branches leave the same run behind, whichever comes first.
pub proof fn lemma_events_commute(s: RunView, first: Event, second: Event)
    requires
        run_wf(s),
        event_task(first) is Some,
        event_task(second) is Some,
        event_task(first) != event_task(second),
    ensures
        handled(handled(s, first), second) == handled(handled(s, second), first),
{
    let i = event_task(first)->0;
    let j = event_task(second)->0;
    let a = handled(handled(s, first), second);
    let b = handled(handled(s, second), first);
    assert(forall|k: int| key_of(handled(s, first), k) == key_of(s, k));
    assert(forall|k: int| key_of(handled(s, second), k) == key_of(s, k));
    if s.status == Status::Running {
        assert(a.tasks =~= b.tasks);
        assert(a.meta =~= b.meta);
    }
}

/// A block that needs no outside work leaves the run in order: either it
/// has run in every branch and the next block is due, or it is a `Map`
/// that found no items in some branch, and the run has failed there.
pub proof fn lemma_stepped(s: RunView)
    requires
        steady(s),
        s.status == Status::Running,
        s.pc < s.app.len(),
        !is_work(s.app[s.pc].variant),
    ensures
        steady(stepped(s)),
        stepped(s).app == s.app,
        stepped(s).workers == s.workers,
        stepped(s).status == Status::Running ==> stepped(s).pc == s.pc + 1,
        stepped(s).status != Status::Running ==> stepped(s).pc == s.pc && stepped(s).status
            is Failed,
{
    let t = stepped(s);
    lemma_open_maps_bounds(s.app, s.pc);
    match s.app[s.pc].variant {
        BlockType::MapEach => {
            if first_without_items(s, 0) is None {
                let items = Seq::new(s.branches.len(), |b: int| map_items(s, s.branches[b])->0);
                lemma_spread_lengths(s.branches, items, s.pc);
                assert(steady(t));
            }
        },
        BlockType::Reduce => {
            assert(block_fault(s.app, s.pc) is None);
            assert(steady(t));
        },
        _ => {},
    }
}

/// A run that is brought to where it needs the outside world is in order,
/// and no block was undone on the way.
pub proof fn lemma_settled(s: RunView)
    requires
        steady(s),
    ensures
        s.status == Status::Running ==> run_wf(settled(s)),
        settled(s).pc >= s.pc,
        settled(s).app == s.app,
        settled(s).workers == s.workers,
        s.status == Status::Running && settled(s).status == Status::Running ==> in_flight(
            settled(s).tasks,
        ) == 0,
        s.status == Status::Running && settled(s).status != Status::Running ==> settled(
            s,
        ).tasks.len() == 0,
    decreases s.app.len() - s.pc,
{
    if s.status == Status::Running && s.pc < s.app.len() {
        if is_work(s.app[s.pc].variant) {
            let tasks = settled(s).tasks;
            lemma_count_zero(tasks, Stage::LookingUp, tasks.len() as int);
            lemma_count_zero(tasks, Stage::Executing, tasks.len() as int);
        } else {
            lemma_stepped(s);
            let next = stepped(s);
            if next.pc > s.pc {
                lemma_settled(next);
            }
        }
    }
}

/// A block whose invocations all have their result can be left behind.
pub proof fn lemma_completed(s: RunView)
    requires
        run_wf(s),
        s.status == Status::Running,
        all_done(s.tasks),
    ensures
        steady(completed(s)),
        completed(s).status == Status::Running,
        completed(s).pc == s.pc + 1,
        completed(s).app == s.app,
        completed(s).workers == s.workers,
{
    assert(open_maps(s.app, s.pc + 1) == open_maps(s.app, s.pc));
}

/// The invariant is kept by every event.
pub proof fn lemma_handled_wf(s: RunView, event: Event)
    requires
        run_wf(s),
    ensures
        run_wf(handled(s, event)),
{
    assert(forall|i: int| key_of(handled(s, event), i) == key_of(s, i));
}

/// The invariant is kept by every decision.
pub proof fn lemma_decided_wf(s: RunView)
    requires
        run_wf(s),
    ensures
        run_wf(decided(s).0),
        decided(s).0.app == s.app,
        decided(s).0.workers == s.workers,
    decreases s.app.len() - s.pc,
{
    if s.status == Status::Running {
        if all_done(s.tasks) {
            lemma_completed(s);
            lemma_settled(completed(s));
            lemma_decided_wf(settled(completed(s)));
        } else {
            lemma_first_from(s.tasks, Stage::Computed, 0);
            lemma_first_from(s.tasks, Stage::Failed, 0);
            lemma_first_from(s.tasks, Stage::Missed, 0);
            lemma_first_from(s.tasks, Stage::Pending, 0);
            assert(forall|i: int| key_of(decided(s).0, i) == key_of(s, i));
        }
    }
}

/// No waiting for nothing: a run says `Wait` only while the outside world
/// owes it an event.
pub proof fn lemma_wait_has_cause(s: RunView)
    requires
        run_wf(s),
        decided(s).1 == ActionView::Wait,
    ensures
        in_flight(decided(s).0.tasks) > 0,
    decreases s.app.len() - s.pc,
{
    if s.status == Status::Running {
        if all_done(s.tasks) {
            lemma_completed(s);
            lemma_settled(completed(s));
            lemma_wait_has_cause(settled(completed(s)));
        } else {
            lemma_first_from(s.tasks, Stage::Computed, 0);
            lemma_first_from(s.tasks, Stage::Failed, 0);
            lemma_first_from(s.tasks, Stage::Missed, 0);
            lemma_first_from(s.tasks, Stage::Pending, 0);
            let i = choose|i: int| 0 <= i < s.tasks.len() && (#[trigger] s.tasks[i]).stage()
                != Stage::Done;
            if s.tasks[i].stage() == Stage::LookingUp {
                lemma_count_positive(s.tasks, Stage::LookingUp, i);
            } else if s.tasks[i].stage() == Stage::Executing {
                lemma_count_positive(s.tasks, Stage::Executing, i);
            }
        }
    }
}

/// Bounded concurrency, kept by decisions: a decision never puts more
/// invocations under way than the run has workers.
pub proof fn lemma_decided_within_workers(s: RunView)
    requires
        run_wf(s),
        in_flight(s.tasks) <= s.workers,
    ensures
        in_flight(decided(s).0.tasks) <= s.workers,
    decreases s.app.len() - s.pc,
{
    if s.status == Status::Running {
        if all_done(s.tasks) {
            lemma_completed(s);
            lemma_settled(completed(s));
            let next = settled(completed(s));
            if next.status == Status::Running {
                lemma_decided_within_workers(next);
            } else {
                assert(decided(next).0 == next);
                lemma_count_zero(next.tasks, Stage::LookingUp, next.tasks.len() as int);
                lemma_count_zero(next.tasks, Stage::Executing, next.tasks.len() as int);
            }
        } else {
            lemma_first_from(s.tasks, Stage::Computed, 0);
            lemma_first_from(s.tasks, Stage::Failed, 0);
            lemma_first_from(s.tasks, Stage::Missed, 0);
            lemma_first_from(s.tasks, Stage::Pending, 0);
            let t = decided(s).0;
            let changed = if first_at(s.tasks, Stage::Computed) is Some {
                first_at(s.tasks, Stage::Computed)
            } else if first_at(s.tasks, Stage::Failed) is Some || in_flight(s.tasks)
                >= s.workers {
                None
            } else if first_at(s.tasks, Stage::Missed) is Some {
                first_at(s.tasks, Stage::Missed)
            } else {
                first_at(s.tasks, Stage::Pending)
            };
            if changed is Some {
                let i = changed->0;
                assert(t.tasks == s.tasks.update(i, t.tasks[i]));
                lemma_count_update(
                    s.tasks,
                    Stage::LookingUp,
                    i,
                    t.tasks[i],
                    s.tasks.len() as int,
                );
                lemma_count_update(
                    s.tasks,
                    Stage::Executing,
                    i,
                    t.tasks[i],
                    s.tasks.len() as int,
                );
            }
        }
    }
}

/// Bounded concurrency, kept by events: an event never puts an
/// invocation under way.
pub proof fn lemma_handled_within_workers(s: RunView, event: Event)
    requires
        run_wf(s),
    ensures
        in_flight(handled(s, event).tasks) <= in_flight(s.tasks),
{
    let t = handled(s, event);
    if event_task(event) is Some {
        let i = event_task(event)->0;
        if s.status == Status::Running && 0 <= i < s.tasks.len() {
            lemma_count_update(s.tasks, Stage::LookingUp, i, t.tasks[i], s.tasks.len() as int);
            lemma_count_update(s.tasks, Stage::Executing, i, t.tasks[i], s.tasks.len() as int);
        }
    }
}

/// The run after the events, taken in one by one.
pub open spec fn handled_all(s: RunView, events: Seq<Event>) -> RunView
    decreases events.len(),
{
    if events.len() == 0 {
        s
    } else {
        handled(handled_all(s, events.drop_last()), events.last())
    }
}

/// Events change neither the pipeline, nor the current block, nor the
/// branches, nor how the run stands.
pub proof fn lemma_events_keep_place(s: RunView, events: Seq<Event>)
    requires
        run_wf(s),
    ensures
        run_wf(handled_all(s, events)),
        handled_all(s, events).status == s.status,
        handled_all(s, events).pc == s.pc,
        handled_all(s, events).branches == s.branches,
        handled_all(s, events).frames == s.frames,
        handled_all(s, events).tasks.len() == s.tasks.len(),
        forall|i: int| key_of(handled_all(s, events), i) == key_of(s, i),
    decreases events.len(),
{
    if events.len() > 0 {
        let before = handled_all(s, events.drop_last());
        lemma_events_keep_place(s, events.drop_last());
        lemma_handled_wf(before, events.last());
        assert(forall|i: int| key_of(handled(before, events.last()), i) == key_of(before, i));
    }
}

/// Events about other branches leave an invocation as it is.
pub proof fn lemma_others_do_not_touch(s: RunView, events: Seq<Event>, i: int)
    requires
        run_wf(s),
        0 <= i < s.tasks.len(),
        forall|m: int| 0 <= m < events.len() ==> event_task(#[trigger] events[m]) != Some(i),
    ensures
        handled_all(s, events).tasks[i] == s.tasks[i],
    decreases events.len(),
{
    if events.len() > 0 {
        let shorter = events.drop_last();
        assert forall|m: int| 0 <= m < shorter.len() implies event_task(#[trigger] shorter[m])
            != Some(i) by {
            assert(shorter[m] == events[m]);
        }
        lemma_others_do_not_touch(s, shorter, i);
        lemma_events_keep_place(s, shorter);
        assert(event_task(events[events.len() - 1]) != Some(i));
    }
}

/// Each branch has its own result: the result of an invocation is the
/// value that its own attempt gave, whatever is reported of other
/// branches before or after, in whatever order.
pub proof fn lemma_result_is_own(s: RunView, events: Seq<Event>, k: int, i: int, value: Value)
    requires
        run_wf(s),
        s.status == Status::Running,
        0 <= i < s.tasks.len() <= usize::MAX,
        s.tasks[i].stage() == Stage::Executing,
        0 <= k < events.len(),
        events[k] == (Event::Executed { task: i as usize, value }),
        forall|m: int|
            0 <= m < events.len() && m != k ==> event_task(#[trigger] events[m]) != Some(i),
    ensures
        handled_all(s, events).tasks[i] == (Task::Computed { value }),
    decreases events.len(),
{
    let shorter = events.drop_last();
    lemma_events_keep_place(s, shorter);
    if k == events.len() - 1 {
        assert forall|m: int| 0 <= m < shorter.len() implies event_task(#[trigger] shorter[m])
            != Some(i) by {
            assert(shorter[m] == events[m]);
        }
        lemma_others_do_not_touch(s, shorter, i);
    } else {
        assert(shorter[k] == events[k]);
        assert forall|m: int| 0 <= m < shorter.len() && m != k implies event_task(
            #[trigger] shorter[m],
        ) != Some(i) by {
            assert(shorter[m] == events[m]);
        }
        lemma_result_is_own(s, shorter, k, i, value);
        assert(event_task(events[events.len() - 1]) != Some(i));
    }
}

/// A failed run stays where it failed: it asks for nothing more, and no
/// event makes a later block run.
pub proof fn lemma_failed_is_final(s: RunView, event: Event)
    requires
        s.status is Failed,
    ensures
        decided(s) == (s, ActionView::Finished),
        handled(s, event).status == s.status,
        handled(s, event).pc == s.pc,
        handled(s, event).branches == s.branches,
        handled(s, event).tasks == s.tasks,
{
}

/// One step of a schedule: the driver asks what to do next, or reports an
/// event.
pub enum Step {
    Decide,
    Report { event: Event },
}

/// The run after a schedule, step by step.
pub open spec fn ran(s: RunView, steps: Seq<Step>) -> RunView
    decreases steps.len(),
{
    if steps.len() == 0 {
        s
    } else {
        let before = ran(s, steps.drop_last());
        match steps.last() {
            Step::Decide => decided(before).0,
            Step::Report { event } => handled(before, event),
        }
    }
}

/// A decision never goes back to an earlier block, and one that stays at
/// the current block leaves the branches and the scopes as they are.
pub proof fn lemma_decided_place(s: RunView)
    requires
        run_wf(s),
    ensures
        decided(s).0.pc >= s.pc,
        decided(s).0.pc == s.pc ==> {
            &&& decided(s).0.branches == s.branches
            &&& decided(s).0.frames == s.frames
            &&& decided(s).0.tasks.len() == s.tasks.len()
        },
    decreases s.app.len() - s.pc,
{
    if s.status == Status::Running {
        if all_done(s.tasks) {
            lemma_completed(s);
            lemma_settled(completed(s));
            lemma_decided_place(settled(completed(s)));
        } else {
            lemma_first_from(s.tasks, Stage::Computed, 0);
            lemma_first_from(s.tasks, Stage::Failed, 0);
            lemma_first_from(s.tasks, Stage::Missed, 0);
            lemma_first_from(s.tasks, Stage::Pending, 0);
        }
    }
}

/// No schedule goes back to an earlier block, and one that stays at the
/// current block leaves the branches and the scopes as they are.
pub proof fn lemma_ran_place(s: RunView, steps: Seq<Step>)
    requires
        run_wf(s),
    ensures
        run_wf(ran(s, steps)),
        ran(s, steps).app == s.app,
        ran(s, steps).pc >= s.pc,
        ran(s, steps).pc == s.pc ==> {
            &&& ran(s, steps).branches == s.branches
            &&& ran(s, steps).frames == s.frames
            &&& ran(s, steps).tasks.len() == s.tasks.len()
        },
    decreases steps.len(),
{
    if steps.len() > 0 {
        let before = ran(s, steps.drop_last());
        lemma_ran_place(s, steps.drop_last());
        match steps.last() {
            Step::Decide => {
                lemma_decided_wf(before);
                lemma_decided_place(before);
            },
            Step::Report { event } => {
                lemma_handled_wf(before, event);
            },
        }
    }
}

/// From `Map` to `Reduce`, for every schedule.
///
/// A `Map` at block `m` has opened a scope over `parents`, with `items[p]`
/// as the collection of parent `p`; one block that needs outside work
/// follows, and then the `Reduce`. Whatever the driver asked and reported
/// in between, and in whatever order the branches came to their results:
/// once every branch has its result, the `Reduce` gives parent `p` the
/// array of the results of the branches that were made for the items of
/// `p`, in the order of the items. Beside it, the `Map` block has the
/// items themselves, in the same order.
pub proof fn lemma_map_to_reduce(
    s: RunView,
    parents: Seq<Seq<Value>>,
    items: Seq<Seq<Value>>,
    steps: Seq<Step>,
    p: int,
)
    requires
        run_wf(s),
        s.status == Status::Running,
        s.pc >= 1,
        s.app[s.pc - 1].variant == BlockType::MapEach,
        s.pc + 1 < s.app.len(),
        s.app[s.pc + 1].variant == BlockType::Reduce,
        s.frames.len() > 0,
        s.frames.last() == (FrameView { parents, owner: owners(items), start: s.pc - 1 }),
        parents.len() == items.len(),
        s.branches == spread(parents, items),
        s.branches.len() <= usize::MAX,
        parents.len() <= usize::MAX,
        0 <= p < parents.len(),
        ran(s, steps).pc == s.pc,
        ran(s, steps).status == Status::Running,
        all_done(ran(s, steps).tasks),
    ensures
        ({
            let v = ran(s, steps);
            let w = stepped(completed(v));
            &&& settled(completed(v)) == settled(w)
            &&& w.pc == s.pc + 2
            &&& w.branches.len() == parents.len()
            &&& w.branches[p].len() == s.pc + 2
            &&& w.branches[p][s.pc + 1] == json_array(
                Seq::new(
                    items[p].len(),
                    |k: int| v.tasks[first_place(items, p) + k]->Done_value,
                ),
            )
            &&& w.branches[p][s.pc - 1] == json_array(items[p])
        }),
{
    let m = s.pc - 1;
    let v = ran(s, steps);
    lemma_ran_place(s, steps);
    let c = completed(v);
    lemma_completed(v);
    let w = stepped(c);
    lemma_stepped(c);
    let owner = owners(items);
    lemma_spread_count(parents, items);
    lemma_spread_lengths(parents, items, m);
    lemma_places_of_owners(items, p);
    lemma_members_of_spread(parents, items, p);
    let at = places(owner, p);
    let kids = members(c.branches, owner, p);
    let results = Seq::new(
        items[p].len(),
        |k: int| v.tasks[first_place(items, p) + k]->Done_value,
    );
    assert(w.branches == gathered(parents, c.branches, owner, m, s.pc + 1));
    assert(w.branches[p] == folded(parents[p], kids, m, s.pc + 1));
    assert(parents[p].len() == m);
    assert forall|k: int| 0 <= k < items[p].len() implies #[trigger] kids[k] == parents[p].push(
        items[p][k],
    ).push(results[k]) by {
        let t = first_place(items, p) + k;
        assert(at[k] == t);
        assert(kids[k] == c.branches[t]);
        assert(members(spread(parents, items), owner, p)[k] == spread(parents, items)[t]);
        assert(children_of(parents[p], items[p])[k] == parents[p].push(items[p][k]));
    }
    assert(column(kids, m) =~= items[p]);
    assert(column(kids, s.pc) =~= results);
}

} // verus!
