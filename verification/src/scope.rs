//! Branch scopes: what a `Map` block opens and a `Reduce` block closes.
//!
//! A branch is the list of the outputs that the blocks before the current
//! one have had in it, by block. A `Map` makes one branch for each item
//! of its collection; a `Reduce` folds the branches of each collection
//! back into the branch they came from, in the order in which they were
//! made.

use crate::json::{array_value, json_array};
use serde_json::Value;
use vstd::prelude::*;

verus! {

/// The branches as sequences.
pub open spec fn rows(branches: Seq<Vec<Value>>) -> Seq<Seq<Value>> {
    Seq::new(branches.len(), |i: int| branches[i]@)
}

/// The branches that one parent gets: one for each item, in the order of
/// the items, each the parent's outputs followed by the item.
pub open spec fn children_of(parent: Seq<Value>, items: Seq<Value>) -> Seq<Seq<Value>> {
    Seq::new(items.len(), |t: int| parent.push(items[t]))
}

/// The branches that a `Map` makes of the given parents, each with its own
/// items: those of the first parent first.
pub open spec fn spread(parents: Seq<Seq<Value>>, items: Seq<Seq<Value>>) -> Seq<Seq<Value>>
    decreases parents.len(),
{
    if parents.len() == 0 {
        Seq::<Seq<Value>>::empty()
    } else {
        spread(parents.drop_last(), items.drop_last()) + children_of(parents.last(), items.last())
    }
}

/// For each branch that a `Map` makes, the parent it belongs to.
pub open spec fn owners(items: Seq<Seq<Value>>) -> Seq<usize>
    decreases items.len(),
{
    if items.len() == 0 {
        Seq::<usize>::empty()
    } else {
        owners(items.drop_last()) + Seq::new(
            items.last().len(),
            |t: int| (items.len() - 1) as usize,
        )
    }
}

/// The places of the branches that belong to parent `p`, in rising order.
pub open spec fn places(owner: Seq<usize>, p: int) -> Seq<usize>
    decreases owner.len(),
{
    if owner.len() == 0 {
        Seq::<usize>::empty()
    } else {
        let rest = places(owner.drop_last(), p);
        if owner.last() == p {
            rest.push((owner.len() - 1) as usize)
        } else {
            rest
        }
    }
}

/// The branches at the given places.
pub open spec fn picked(children: Seq<Seq<Value>>, at: Seq<usize>) -> Seq<Seq<Value>> {
    Seq::new(at.len(), |k: int| children[at[k] as int])
}

/// The branches that belong to parent `p`, in the order in which they
/// stand among all branches, which is the order in which they were made.
pub open spec fn members(children: Seq<Seq<Value>>, owner: Seq<usize>, p: int) -> Seq<Seq<Value>> {
    picked(children, places(owner, p))
}

/// What block `b` has put out in each of the branches, branch by branch.
pub open spec fn column(branches: Seq<Seq<Value>>, b: int) -> Seq<Value> {
    Seq::new(branches.len(), |t: int| branches[t][b])
}

/// A parent after the `Reduce` at block `end` has closed the `Map` at
/// block `start`: behind its own outputs, each block of the scope has the
/// array of what it put out in the parent's branches, and the `Reduce`
/// has the array of what the last block before it put out in them.
pub open spec fn folded(parent: Seq<Value>, kids: Seq<Seq<Value>>, start: int, end: int) -> Seq<
    Value,
> {
    parent + Seq::new((end - start) as nat, |d: int| json_array(column(kids, start + d))).push(
        json_array(column(kids, end - 1)),
    )
}

/// The parents after the `Reduce`.
pub open spec fn gathered(
    parents: Seq<Seq<Value>>,
    children: Seq<Seq<Value>>,
    owner: Seq<usize>,
    start: int,
    end: int,
) -> Seq<Seq<Value>> {
    Seq::new(
        parents.len(),
        |p: int| folded(parents[p], members(children, owner, p), start, end),
    )
}

/// A copy of the values.
pub(crate) fn copy_values(values: &Vec<Value>) -> (copy: Vec<Value>)
    ensures
        copy@ == values@,
{
    let mut copy: Vec<Value> = Vec::new();
    let mut i: usize = 0;
    while i < values.len()
        invariant
            i <= values.len(),
            copy@ == values@.take(i as int),
        decreases values.len() - i,
    {
        copy.push(values[i].clone());
        assert(copy@ =~= values@.take(i + 1));
        i += 1;
    }
    assert(values@.take(i as int) =~= values@);
    copy
}

/// Opens a scope: makes the branches of every parent, and notes for each
/// the parent it belongs to.
pub(crate) fn fan_out(parents: &Vec<Vec<Value>>, items: &Vec<Vec<Value>>) -> (made: (
    Vec<Vec<Value>>,
    Vec<usize>,
))
    requires
        parents.len() == items.len(),
    ensures
        rows(made.0@) == spread(rows(parents@), rows(items@)),
        made.1@ == owners(rows(items@)),
        made.0@.len() == made.1@.len(),
{
    let mut children: Vec<Vec<Value>> = Vec::new();
    let mut owner: Vec<usize> = Vec::new();
    let mut p: usize = 0;
    while p < parents.len()
        invariant
            p <= parents.len(),
            parents.len() == items.len(),
            rows(children@) == spread(rows(parents@).take(p as int), rows(items@).take(p as int)),
            owner@ == owners(rows(items@).take(p as int)),
            children@.len() == owner@.len(),
        decreases parents.len() - p,
    {
        let ghost before = rows(children@);
        let ghost owner_before = owner@;
        let mut t: usize = 0;
        while t < items[p].len()
            invariant
                p < parents.len(),
                parents.len() == items.len(),
                t <= items[p as int].len(),
                rows(children@) == before + children_of(
                    parents[p as int]@,
                    items[p as int]@.take(t as int),
                ),
                owner@ == owner_before + Seq::new(t as nat, |k: int| p),
                children@.len() == owner@.len(),
            decreases items[p as int].len() - t,
        {
            let mut child = copy_values(&parents[p]);
            child.push(items[p][t].clone());
            let ghost rows_before = rows(children@);
            children.push(child);
            owner.push(p);
            proof {
                assert(rows(children@) =~= rows_before.push(child@));
                assert(rows(children@) =~= before + children_of(
                    parents[p as int]@,
                    items[p as int]@.take(t + 1),
                ));
                assert(owner@ =~= owner_before + Seq::new((t + 1) as nat, |k: int| p));
            }
            t += 1;
        }
        proof {
            assert(items[p as int]@.take(t as int) =~= items[p as int]@);
            let ps = rows(parents@).take(p + 1);
            let is = rows(items@).take(p + 1);
            assert(ps.drop_last() =~= rows(parents@).take(p as int));
            assert(is.drop_last() =~= rows(items@).take(p as int));
            assert(ps.last() == parents[p as int]@);
            assert(is.last() == items[p as int]@);
            assert(owner@ =~= owners(is));
        }
        p += 1;
    }
    proof {
        assert(rows(parents@).take(p as int) =~= rows(parents@));
        assert(rows(items@).take(p as int) =~= rows(items@));
    }
    (children, owner)
}

/// Every place is one of the first `n` branches.
pub open spec fn places_below(at: Seq<usize>, n: int) -> bool {
    forall|k: int| 0 <= k < at.len() ==> (#[trigger] at[k]) < n
}

/// The places of the branches of parent `p`.
fn places_of(owner: &Vec<usize>, p: usize) -> (at: Vec<usize>)
    ensures
        at@ == places(owner@, p as int),
        places_below(at@, owner@.len() as int),
{
    let mut at: Vec<usize> = Vec::new();
    let mut t: usize = 0;
    while t < owner.len()
        invariant
            t <= owner.len(),
            at@ == places(owner@.take(t as int), p as int),
            places_below(at@, t as int),
        decreases owner.len() - t,
    {
        assert(owner@.take(t + 1).drop_last() =~= owner@.take(t as int));
        if owner[t] == p {
            at.push(t);
        }
        t += 1;
    }
    assert(owner@.take(t as int) =~= owner@);
    at
}

/// What block `b` has put out in the branches at the given places.
fn column_of(children: &Vec<Vec<Value>>, at: &Vec<usize>, b: usize) -> (out: Vec<Value>)
    requires
        places_below(at@, children@.len() as int),
        forall|t: int| 0 <= t < children@.len() ==> b < (#[trigger] children@[t])@.len(),
    ensures
        out@ == column(picked(rows(children@), at@), b as int),
{
    let mut out: Vec<Value> = Vec::new();
    let mut k: usize = 0;
    while k < at.len()
        invariant
            k <= at.len(),
            places_below(at@, children@.len() as int),
            forall|t: int| 0 <= t < children@.len() ==> b < (#[trigger] children@[t])@.len(),
            out@.len() == k,
            forall|j: int| 0 <= j < k ==> out@[j] == children@[at@[j] as int]@[b as int],
        decreases at.len() - k,
    {
        let t = at[k];
        assert(t < children@.len());
        out.push(children[t][b].clone());
        k += 1;
    }
    assert(out@ =~= column(picked(rows(children@), at@), b as int));
    out
}

/// Closes a scope for one parent: puts behind its outputs what the blocks
/// from `start` up to `end` put out in its branches, and then what the
/// `Reduce` at `end` makes of them.
fn fold_branch(
    parent: Vec<Value>,
    children: &Vec<Vec<Value>>,
    at: &Vec<usize>,
    start: usize,
    end: usize,
) -> (out: Vec<Value>)
    requires
        start < end,
        places_below(at@, children@.len() as int),
        forall|t: int| 0 <= t < children@.len() ==> (#[trigger] children@[t])@.len() == end,
    ensures
        out@ == folded(parent@, picked(rows(children@), at@), start as int, end as int),
{
    let ghost kids = picked(rows(children@), at@);
    let mut out = parent;
    let mut b: usize = start;
    while b < end
        invariant
            start <= b <= end,
            kids == picked(rows(children@), at@),
            places_below(at@, children@.len() as int),
            forall|t: int| 0 <= t < children@.len() ==> (#[trigger] children@[t])@.len() == end,
            out@ == parent@ + Seq::new(
                (b - start) as nat,
                |d: int| json_array(column(kids, start + d)),
            ),
        decreases end - b,
    {
        out.push(array_value(column_of(children, at, b)));
        assert(out@ =~= parent@ + Seq::new(
            (b + 1 - start) as nat,
            |d: int| json_array(column(kids, start + d)),
        ));
        b += 1;
    }
    out.push(array_value(column_of(children, at, end - 1)));
    out
}

/// Closes the scope that the `Map` at block `start` opened, at the `Reduce`
/// at block `end`: every parent gets its branches back, folded, in the
/// order in which the `Map` made them.
pub(crate) fn gather(
    parents: Vec<Vec<Value>>,
    children: &Vec<Vec<Value>>,
    owner: &Vec<usize>,
    start: usize,
    end: usize,
) -> (out: Vec<Vec<Value>>)
    requires
        start < end,
        children@.len() == owner@.len(),
        forall|t: int| 0 <= t < children@.len() ==> (#[trigger] children@[t])@.len() == end,
    ensures
        rows(out@) == gathered(
            rows(parents@),
            rows(children@),
            owner@,
            start as int,
            end as int,
        ),
{
    let ghost before = rows(parents@);
    let mut parents = parents;
    let mut out: Vec<Vec<Value>> = Vec::new();
    let count = parents.len();
    let mut p: usize = count;
    // The parents are taken from the back, so none has to be copied.
    while p > 0
        invariant
            p <= count,
            count == before.len(),
            start < end,
            children@.len() == owner@.len(),
            forall|t: int| 0 <= t < children@.len() ==> (#[trigger] children@[t])@.len() == end,
            parents@.len() == p,
            rows(parents@) == before.take(p as int),
            out@.len() == count - p,
            forall|k: int|
                0 <= k < out@.len() ==> (#[trigger] out@[k])@ == folded(
                    before[count - 1 - k],
                    members(rows(children@), owner@, count - 1 - k),
                    start as int,
                    end as int,
                ),
        decreases p,
    {
        p -= 1;
        let ghost rows_before = rows(parents@);
        let parent = parents.pop().unwrap();
        assert(parent@ == rows_before[p as int]);
        assert(rows(parents@) =~= before.take(p as int));
        let at = places_of(owner, p);
        let folded_parent = fold_branch(parent, children, &at, start, end);
        out.push(folded_parent);
    }
    let mut ordered: Vec<Vec<Value>> = Vec::new();
    while out.len() > 0
        invariant
            out@.len() + ordered@.len() == count,
            count == before.len(),
            forall|k: int|
                0 <= k < out@.len() ==> (#[trigger] out@[k])@ == folded(
                    before[count - 1 - k],
                    members(rows(children@), owner@, count - 1 - k),
                    start as int,
                    end as int,
                ),
            forall|k: int|
                0 <= k < ordered@.len() ==> (#[trigger] ordered@[k])@ == folded(
                    before[k],
                    members(rows(children@), owner@, k),
                    start as int,
                    end as int,
                ),
        decreases out@.len(),
    {
        let next = out.pop().unwrap();
        ordered.push(next);
    }
    assert(rows(ordered@) =~= gathered(
        before,
        rows(children@),
        owner@,
        start as int,
        end as int,
    ));
    ordered
}

/// A `Map` notes an owner for each branch it makes.
pub proof fn lemma_spread_count(parents: Seq<Seq<Value>>, items: Seq<Seq<Value>>)
    requires
        parents.len() == items.len(),
    ensures
        spread(parents, items).len() == owners(items).len(),
    decreases parents.len(),
{
    if parents.len() > 0 {
        lemma_spread_count(parents.drop_last(), items.drop_last());
    }
}

/// Every owner that a `Map` notes is one of the parents.
pub proof fn lemma_owners_below(items: Seq<Seq<Value>>)
    requires
        items.len() <= usize::MAX,
    ensures
        forall|k: int| 0 <= k < owners(items).len() ==> (#[trigger] owners(items)[k]) < items.len(),
    decreases items.len(),
{
    if items.len() > 0 {
        lemma_owners_below(items.drop_last());
        let shorter = owners(items.drop_last());
        assert forall|k: int| 0 <= k < owners(items).len() implies (#[trigger] owners(items)[k])
            < items.len() by {
            if k < shorter.len() {
                assert(owners(items)[k] == shorter[k]);
            } else {
                assert(owners(items)[k] == (items.len() - 1) as usize);
            }
        }
    }
}

/// Every place is the place of a branch.
pub proof fn lemma_places_below(owner: Seq<usize>, p: int)
    requires
        owner.len() <= usize::MAX,
    ensures
        places_below(places(owner, p), owner.len() as int),
    decreases owner.len(),
{
    if owner.len() > 0 {
        lemma_places_below(owner.drop_last(), p);
    }
}

/// A parent that owns no branch has no places.
pub proof fn lemma_places_none(owner: Seq<usize>, p: int)
    requires
        forall|k: int| 0 <= k < owner.len() ==> (#[trigger] owner[k]) != p,
    ensures
        places(owner, p).len() == 0,
    decreases owner.len(),
{
    if owner.len() > 0 {
        lemma_places_none(owner.drop_last(), p);
    }
}

/// Branches of another parent, put behind, leave the places of `p` as
/// they are.
pub proof fn lemma_places_append_other(owner: Seq<usize>, count: nat, q: usize, p: int)
    requires
        q != p,
    ensures
        places(owner + Seq::new(count, |t: int| q), p) == places(owner, p),
    decreases count,
{
    let longer = owner + Seq::new(count, |t: int| q);
    if count == 0 {
        assert(longer =~= owner);
    } else {
        lemma_places_append_other(owner, (count - 1) as nat, q, p);
        assert(longer.drop_last() =~= owner + Seq::new((count - 1) as nat, |t: int| q));
    }
}

/// Branches of `p`, put behind branches of which `p` owns none, are at
/// the places behind those.
pub proof fn lemma_places_append_same(owner: Seq<usize>, count: nat, p: usize)
    requires
        forall|k: int| 0 <= k < owner.len() ==> (#[trigger] owner[k]) != p,
        owner.len() + count <= usize::MAX,
    ensures
        places(owner + Seq::new(count, |t: int| p), p as int) == Seq::new(
            count,
            |t: int| (owner.len() + t) as usize,
        ),
    decreases count,
{
    let longer = owner + Seq::new(count, |t: int| p);
    if count == 0 {
        assert(longer =~= owner);
        lemma_places_none(owner, p as int);
        assert(places(longer, p as int) =~= Seq::new(count, |t: int| (owner.len() + t) as usize));
    } else {
        lemma_places_append_same(owner, (count - 1) as nat, p);
        assert(longer.drop_last() =~= owner + Seq::new((count - 1) as nat, |t: int| p));
        assert(places(longer, p as int) =~= Seq::new(count, |t: int| (owner.len() + t) as usize));
    }
}

/// Order of creation: the branches that belong to a parent when a scope
/// is closed are those that the `Map` made for it, one for each item of
/// its collection, in the order of the items.
pub proof fn lemma_members_of_spread(parents: Seq<Seq<Value>>, items: Seq<Seq<Value>>, p: int)
    requires
        parents.len() == items.len(),
        0 <= p < parents.len(),
        spread(parents, items).len() <= usize::MAX,
        parents.len() <= usize::MAX,
    ensures
        members(spread(parents, items), owners(items), p) == children_of(parents[p], items[p]),
    decreases parents.len(),
{
    let n = parents.len() as int;
    let before = spread(parents.drop_last(), items.drop_last());
    let owned = owners(items.drop_last());
    let made = children_of(parents.last(), items.last());
    let count = items.last().len();
    lemma_spread_count(parents.drop_last(), items.drop_last());
    lemma_spread_count(parents, items);
    assert(owners(items) == owned + Seq::new(count, |t: int| (n - 1) as usize));
    if p == n - 1 {
        lemma_owners_below(items.drop_last());
        lemma_places_append_same(owned, count, (n - 1) as usize);
        assert(members(spread(parents, items), owners(items), p) =~= made);
    } else {
        lemma_places_append_other(owned, count, (n - 1) as usize, p);
        lemma_places_below(owned, p);
        lemma_members_of_spread(parents.drop_last(), items.drop_last(), p);
        assert(members(spread(parents, items), owners(items), p) =~= members(before, owned, p));
    }
}

/// Order of creation, as a `Reduce` sees it: while the blocks of a scope
/// run, every branch gets its outputs put behind those it had, so the
/// branch at place `t` is still the one that was made at place `t`. What
/// the `Reduce` puts out for a parent is then the array of the last
/// outputs of the parent's branches, in the order in which they were
/// made, whenever each of them got its output.
pub proof fn lemma_reduce_in_creation_order(
    parents: Seq<Seq<Value>>,
    children: Seq<Seq<Value>>,
    owner: Seq<usize>,
    start: int,
    end: int,
    p: int,
)
    requires
        0 <= p < parents.len(),
        0 <= start < end,
    ensures
        gathered(parents, children, owner, start, end)[p].last() == json_array(
            Seq::new(
                places(owner, p).len(),
                |k: int| children[places(owner, p)[k] as int][end - 1],
            ),
        ),
{
    let kids = members(children, owner, p);
    assert(column(kids, end - 1) =~= Seq::new(
        places(owner, p).len(),
        |k: int| children[places(owner, p)[k] as int][end - 1],
    ));
}

/// The place of the first branch that a `Map` makes for parent `p`: the
/// number of branches that it makes for the parents before.
pub open spec fn first_place(items: Seq<Seq<Value>>, p: int) -> nat {
    owners(items.take(p)).len()
}

/// The branches of a parent stand side by side: the `Map` makes them at
/// the places from `first_place` on, one for each item, in the order of
/// the items.
pub proof fn lemma_places_of_owners(items: Seq<Seq<Value>>, p: int)
    requires
        0 <= p < items.len(),
        owners(items).len() <= usize::MAX,
        items.len() <= usize::MAX,
    ensures
        places(owners(items), p) == Seq::new(
            items[p].len(),
            |k: int| (first_place(items, p) + k) as usize,
        ),
        first_place(items, p) + items[p].len() <= owners(items).len(),
    decreases items.len(),
{
    let n = items.len() as int;
    let owned = owners(items.drop_last());
    let count = items.last().len();
    assert(owners(items) == owned + Seq::new(count, |t: int| (n - 1) as usize));
    if p == n - 1 {
        assert(items.take(p) =~= items.drop_last());
        lemma_owners_below(items.drop_last());
        lemma_places_append_same(owned, count, (n - 1) as usize);
    } else {
        assert(items.take(p) =~= items.drop_last().take(p));
        lemma_places_append_other(owned, count, (n - 1) as usize, p);
        lemma_places_of_owners(items.drop_last(), p);
    }
}

} // verus!
