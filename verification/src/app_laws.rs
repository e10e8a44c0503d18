//! What holds of every list of blocks, accepted or refused.

use crate::app::{
    block_fault, check_outcome, declared_before, is_first_faulty_block, is_first_unresolved,
    is_resolution, open_maps, well_formed, BlockType, BlockView,
};
use vstd::prelude::*;

verus! {

/// Before any faulty block there is a first one.
pub proof fn lemma_least_faulty_block(blocks: Seq<BlockView>, i: int)
    requires
        0 <= i < blocks.len(),
        block_fault(blocks, i) is Some,
    ensures
        exists|k: int| 0 <= k <= i && is_first_faulty_block(blocks, k),
    decreases i,
{
    if exists|j: int| 0 <= j < i && block_fault(blocks, j) is Some {
        let j = choose|j: int| 0 <= j < i && block_fault(blocks, j) is Some;
        lemma_least_faulty_block(blocks, j);
    } else {
        assert(is_first_faulty_block(blocks, i));
    }
}

/// Before any dependency that no earlier block answers to there is a
/// first one.
pub proof fn lemma_least_unresolved(blocks: Seq<BlockView>, i: int, k: int)
    requires
        0 <= k < blocks[i].depends_on.len(),
        !declared_before(blocks, i, blocks[i].depends_on[k]),
    ensures
        exists|m: int| 0 <= m <= k && is_first_unresolved(blocks, i, m),
    decreases k,
{
    if exists|m: int|
        0 <= m < k && !declared_before(blocks, i, #[trigger] blocks[i].depends_on[m]) {
        let m = choose|m: int|
            0 <= m < k && !declared_before(blocks, i, #[trigger] blocks[i].depends_on[m]);
        lemma_least_unresolved(blocks, i, m);
    } else {
        assert(is_first_unresolved(blocks, i, k));
    }
}

/// A list of blocks is accepted if and only if every dependency names an
/// earlier block and every `Reduce` stands where a `Map` is open.
pub proof fn lemma_check_accepts(blocks: Seq<BlockView>)
    ensures
        check_outcome(blocks) is None <==> well_formed(blocks),
        well_formed(blocks) <==> {
            &&& forall|i: int, k: int|
                0 <= i < blocks.len() && 0 <= k < blocks[i].depends_on.len() ==> declared_before(
                    blocks,
                    i,
                    #[trigger] blocks[i].depends_on[k],
                )
            &&& forall|i: int|
                0 <= i < blocks.len() && (#[trigger] blocks[i]).variant == BlockType::Reduce
                    ==> open_maps(blocks, i).len() > 0
        },
{
    if exists|i: int| 0 <= i < blocks.len() && block_fault(blocks, i) is Some {
        let i = choose|i: int| 0 <= i < blocks.len() && block_fault(blocks, i) is Some;
        lemma_least_faulty_block(blocks, i);
        let f = choose|f: int| is_first_faulty_block(blocks, f);
        assert(block_fault(blocks, f) is Some);
    } else {
        assert(forall|c: int| !is_first_faulty_block(blocks, c));
    }
    if well_formed(blocks) {
        assert forall|i: int, k: int|
            0 <= i < blocks.len() && 0 <= k < blocks[i].depends_on.len() implies declared_before(
            blocks,
            i,
            #[trigger] blocks[i].depends_on[k],
        ) by {
            if !declared_before(blocks, i, blocks[i].depends_on[k]) {
                lemma_least_unresolved(blocks, i, k);
                assert(block_fault(blocks, i) is Some);
            }
        }
        assert forall|i: int|
            0 <= i < blocks.len() && (#[trigger] blocks[i]).variant == BlockType::Reduce implies open_maps(
            blocks,
            i,
        ).len() > 0 by {
            assert(block_fault(blocks, i) is None);
        }
    } else {
        let i = choose|i: int| 0 <= i < blocks.len() && block_fault(blocks, i) is Some;
        if exists|k: int| is_first_unresolved(blocks, i, k) {
            let k = choose|k: int| is_first_unresolved(blocks, i, k);
            assert(!declared_before(blocks, i, blocks[i].depends_on[k]));
        } else {
            assert(blocks[i].variant == BlockType::Reduce);
            assert(open_maps(blocks, i).len() == 0);
        }
    }
}

/// A block that depends on a name that is not declared before it refuses
/// the list, at that block or at an earlier faulty one.
pub proof fn lemma_undeclared_dependency_refused(blocks: Seq<BlockView>, i: int, k: int)
    requires
        0 <= i < blocks.len(),
        0 <= k < blocks[i].depends_on.len(),
        !declared_before(blocks, i, blocks[i].depends_on[k]),
    ensures
        check_outcome(blocks) is Some,
{
    lemma_check_accepts(blocks);
}

/// A `Reduce` with no `Map` open before it refuses the list.
pub proof fn lemma_unmatched_reduce_refused(blocks: Seq<BlockView>, i: int)
    requires
        0 <= i < blocks.len(),
        blocks[i].variant == BlockType::Reduce,
        open_maps(blocks, i).len() == 0,
    ensures
        check_outcome(blocks) is Some,
{
    lemma_check_accepts(blocks);
}

/// In an accepted list every dependency has a resolution, and it lies
/// before the block that depends on it: the order of declaration is an
/// order in which the blocks can run, and no chain of dependencies comes
/// back to where it began.
pub proof fn lemma_declaration_order_runs(blocks: Seq<BlockView>, i: int, k: int)
    requires
        well_formed(blocks),
        0 <= i < blocks.len(),
        0 <= k < blocks[i].depends_on.len(),
    ensures
        exists|j: int| 0 <= j < i && is_resolution(blocks, i, blocks[i].depends_on[k], j),
{
    lemma_check_accepts(blocks);
    let name = blocks[i].depends_on[k];
    assert(declared_before(blocks, i, name));
    let j0 = choose|j: int| 0 <= j < i && #[trigger] blocks[j].name == name;
    lemma_last_of_name(blocks, i, name, j0);
}

/// Among the blocks before `i` that have a name there is a last one.
pub proof fn lemma_last_of_name(blocks: Seq<BlockView>, i: int, name: Seq<char>, j: int)
    requires
        0 <= j < i,
        blocks[j].name == name,
    ensures
        exists|m: int| j <= m < i && is_resolution(blocks, i, name, m),
    decreases i - j,
{
    if exists|m: int| j < m < i && #[trigger] blocks[m].name == name {
        let m = choose|m: int| j < m < i && #[trigger] blocks[m].name == name;
        lemma_last_of_name(blocks, i, name, m);
    } else {
        assert(is_resolution(blocks, i, name, j));
    }
}

} // verus!
