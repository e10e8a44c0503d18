//! Pipelines: an ordered list of named blocks, checked when it is made.
//!
//! A block may depend only on blocks that are declared before it, so the
//! order of declaration is an order in which the blocks can run. `MapEach`
//! and `Reduce` blocks pair up like brackets.

use serde_json::Value;
use vstd::prelude::*;

verus! {

/// The kinds of block.
#[derive(Clone, Copy, Debug, PartialEq, Eq, Structural)]
pub enum BlockType {
    /// Puts out the input record of the run.
    Input,
    /// Puts out its configuration.
    Data,
    /// Evaluates code on its inputs.
    Code,
    /// Asks a language model.
    LLM,
    /// The `Map` block: opens a scope with one branch for each item of a
    /// collection. The collection is the output of the block's first
    /// dependency or, where the block's configuration is a string, the
    /// member of that name of the output.
    MapEach,
    /// Closes the innermost open scope and puts out the array of what the
    /// block before it put out in each branch.
    Reduce,
    /// Asks a search service.
    Search,
    /// Makes an HTTP request.
    Curl,
    /// Reads from a rendered page.
    Browser,
}

/// One step of a pipeline, as the parser hands it over.
#[derive(Clone, Debug)]
pub struct BlockSpec {
    /// The name under which later blocks depend on this one.
    pub name: String,
    pub variant: BlockType,
    /// What the block is configured with; its meaning is the block's own.
    pub config: Value,
    /// The names of the blocks whose outputs are the inputs of this one,
    /// in the order in which it gets them.
    pub depends_on: Vec<String>,
}

/// A block as a mathematical value.
pub struct BlockView {
    pub name: Seq<char>,
    pub variant: BlockType,
    pub config: Value,
    pub depends_on: Seq<Seq<char>>,
}

impl View for BlockSpec {
    type V = BlockView;

    open spec fn view(&self) -> BlockView {
        BlockView {
            name: self.name@,
            variant: self.variant,
            config: self.config,
            depends_on: self.depends_on.deep_view(),
        }
    }
}

impl DeepView for BlockSpec {
    type V = BlockView;

    open spec fn deep_view(&self) -> BlockView {
        self@
    }
}

/// Why a list of blocks is no pipeline.
pub enum AppFault {
    /// The block depends on a name that no block has.
    UnresolvedDependency { block: int, name: Seq<char>, dependency: Seq<char> },
    /// The block depends on itself or on a block that is declared after
    /// it: following the dependencies would never end.
    Cycle { block: int, name: Seq<char>, dependency: Seq<char> },
    /// The block is a `Reduce` and no `Map` is open where it stands.
    UnmatchedReduce { block: int, name: Seq<char> },
}

/// Some block before block `i` has the name.
pub open spec fn declared_before(blocks: Seq<BlockView>, i: int, name: Seq<char>) -> bool {
    exists|j: int| 0 <= j < i && #[trigger] blocks[j].name == name
}

/// Some block has the name.
pub open spec fn declared(blocks: Seq<BlockView>, name: Seq<char>) -> bool {
    exists|j: int| 0 <= j < blocks.len() && #[trigger] blocks[j].name == name
}

/// The block that a name stands for at block `i`: the last one before
/// `i` that has the name.
pub open spec fn is_resolution(blocks: Seq<BlockView>, i: int, name: Seq<char>, j: int) -> bool {
    &&& 0 <= j < i
    &&& blocks[j].name == name
    &&& forall|k: int| j < k < i ==> #[trigger] blocks[k].name != name
}

/// The `Map` blocks that are open before block `i`, the innermost last.
pub open spec fn open_maps(blocks: Seq<BlockView>, i: int) -> Seq<int>
    decreases i,
{
    if i <= 0 {
        Seq::<int>::empty()
    } else {
        let before = open_maps(blocks, i - 1);
        match blocks[i - 1].variant {
            BlockType::MapEach => before.push(i - 1),
            BlockType::Reduce => if before.len() > 0 {
                before.drop_last()
            } else {
                before
            },
            _ => before,
        }
    }
}

/// Dependency `k` of block `i` is the first one that no earlier block
/// answers to.
pub open spec fn is_first_unresolved(blocks: Seq<BlockView>, i: int, k: int) -> bool {
    &&& 0 <= k < blocks[i].depends_on.len()
    &&& !declared_before(blocks, i, blocks[i].depends_on[k])
    &&& forall|m: int| 0 <= m < k ==> declared_before(blocks, i, #[trigger] blocks[i].depends_on[m])
}

/// What is wrong with block `i`, if anything. Its dependencies are looked
/// at first, in their order, then its place among the `Map` blocks.
pub open spec fn block_fault(blocks: Seq<BlockView>, i: int) -> Option<AppFault> {
    if exists|k: int| is_first_unresolved(blocks, i, k) {
        let k = choose|k: int| is_first_unresolved(blocks, i, k);
        let dependency = blocks[i].depends_on[k];
        if declared(blocks, dependency) {
            Some(AppFault::Cycle { block: i, name: blocks[i].name, dependency })
        } else {
            Some(AppFault::UnresolvedDependency { block: i, name: blocks[i].name, dependency })
        }
    } else if blocks[i].variant == BlockType::Reduce && open_maps(blocks, i).len() == 0 {
        Some(AppFault::UnmatchedReduce { block: i, name: blocks[i].name })
    } else {
        None
    }
}

/// Block `i` is faulty and none before it is.
pub open spec fn is_first_faulty_block(blocks: Seq<BlockView>, i: int) -> bool {
    &&& 0 <= i < blocks.len()
    &&& block_fault(blocks, i) is Some
    &&& forall|j: int| 0 <= j < i ==> block_fault(blocks, j) is None
}

/// The blocks form a pipeline: none of them is faulty.
pub open spec fn well_formed(blocks: Seq<BlockView>) -> bool {
    forall|i: int| 0 <= i < blocks.len() ==> block_fault(blocks, i) is None
}

/// What checking the blocks yields: the fault of the first faulty block,
/// or nothing.
pub open spec fn check_outcome(blocks: Seq<BlockView>) -> Option<AppFault> {
    if exists|i: int| is_first_faulty_block(blocks, i) {
        block_fault(blocks, choose|i: int| is_first_faulty_block(blocks, i))
    } else {
        None
    }
}

/// Why a list of blocks was refused as a pipeline. `block` counts from
/// zero; `name` is the name of that block.
#[derive(Clone, Debug, PartialEq, Eq)]
pub enum AppError {
    /// The block depends on a name that no block has.
    UnresolvedDependency { block: usize, name: String, dependency: String },
    /// The block depends on itself or on a block that is declared after
    /// it.
    Cycle { block: usize, name: String, dependency: String },
    /// The block is a `Reduce` and no `Map` is open where it stands.
    UnmatchedReduce { block: usize, name: String },
}

impl View for AppError {
    type V = AppFault;

    open spec fn view(&self) -> AppFault {
        match self {
            AppError::UnresolvedDependency { block, name, dependency } => {
                AppFault::UnresolvedDependency {
                    block: *block as int,
                    name: name@,
                    dependency: dependency@,
                }
            },
            AppError::Cycle { block, name, dependency } => AppFault::Cycle {
                block: *block as int,
                name: name@,
                dependency: dependency@,
            },
            AppError::UnmatchedReduce { block, name } => AppFault::UnmatchedReduce {
                block: *block as int,
                name: name@,
            },
        }
    }
}

/// The last block before block `i` that has the name.
fn find_before(blocks: &Vec<BlockSpec>, i: usize, name: &String) -> (found: Option<usize>)
    requires
        i <= blocks.len(),
    ensures
        match found {
            Some(j) => is_resolution(blocks.deep_view(), i as int, name@, j as int),
            None => !declared_before(blocks.deep_view(), i as int, name@),
        },
{
    let mut j: usize = i;
    while j > 0
        invariant
            j <= i <= blocks.len(),
            forall|k: int| j <= k < i ==> #[trigger] blocks.deep_view()[k].name != name@,
        decreases j,
    {
        j -= 1;
        if blocks[j].name == *name {
            assert(blocks.deep_view()[j as int].name == name@);
            return Some(j);
        }
    }
    None
}

/// Whether some block has the name.
fn is_declared(blocks: &Vec<BlockSpec>, name: &String) -> (found: bool)
    ensures
        found == declared(blocks.deep_view(), name@),
{
    let mut j: usize = 0;
    while j < blocks.len()
        invariant
            j <= blocks.len(),
            forall|k: int| 0 <= k < j ==> #[trigger] blocks.deep_view()[k].name != name@,
        decreases blocks.len() - j,
    {
        if blocks[j].name == *name {
            assert(blocks.deep_view()[j as int].name == name@);
            return true;
        }
        j += 1;
    }
    false
}

/// Two first unresolved dependencies of one block are the same one.
pub proof fn lemma_first_unresolved_unique(blocks: Seq<BlockView>, i: int, k: int, m: int)
    requires
        is_first_unresolved(blocks, i, k),
        is_first_unresolved(blocks, i, m),
    ensures
        k == m,
{
    if k < m {
        assert(declared_before(blocks, i, blocks[i].depends_on[k]));
    } else if m < k {
        assert(declared_before(blocks, i, blocks[i].depends_on[m]));
    }
}

/// Two first faulty blocks of one list are the same block.
pub proof fn lemma_first_faulty_block_unique(blocks: Seq<BlockView>, i: int, k: int)
    requires
        is_first_faulty_block(blocks, i),
        is_first_faulty_block(blocks, k),
    ensures
        i == k,
{
    if i < k {
        assert(block_fault(blocks, i) is None);
    } else if k < i {
        assert(block_fault(blocks, k) is None);
    }
}

/// Checks block `i`, of which `depth` enclosing `Map` blocks are open, and
/// finds the block that each of its dependencies stands for.
fn check_block(blocks: &Vec<BlockSpec>, i: usize, depth: usize) -> (checked: Result<
    Vec<usize>,
    AppError,
>)
    requires
        i < blocks.len(),
        depth == open_maps(blocks.deep_view(), i as int).len(),
    ensures
        match checked {
            Ok(found) => {
                &&& block_fault(blocks.deep_view(), i as int) is None
                &&& found@.len() == blocks.deep_view()[i as int].depends_on.len()
                &&& forall|k: int|
                    0 <= k < found@.len() ==> is_resolution(
                        blocks.deep_view(),
                        i as int,
                        blocks.deep_view()[i as int].depends_on[k],
                        #[trigger] found@[k] as int,
                    )
            },
            Err(error) => block_fault(blocks.deep_view(), i as int) == Some(error@),
        },
{
    let ghost all = blocks.deep_view();
    let block = &blocks[i];
    assert(all[i as int] == block@);
    let mut found: Vec<usize> = Vec::new();
    let mut k: usize = 0;
    while k < block.depends_on.len()
        invariant
            i < blocks.len(),
            all == blocks.deep_view(),
            all[i as int] == block@,
            k <= block.depends_on.len(),
            found@.len() == k,
            forall|m: int|
                0 <= m < k ==> is_resolution(
                    all,
                    i as int,
                    all[i as int].depends_on[m],
                    #[trigger] found@[m] as int,
                ),
        decreases block.depends_on.len() - k,
    {
        assert(all[i as int].depends_on[k as int] == block.depends_on[k as int]@);
        match find_before(blocks, i, &block.depends_on[k]) {
            Some(j) => {
                found.push(j);
            },
            None => {
                proof {
                    assert forall|m: int| 0 <= m < k implies declared_before(
                        all,
                        i as int,
                        #[trigger] all[i as int].depends_on[m],
                    ) by {
                        assert(is_resolution(
                            all,
                            i as int,
                            all[i as int].depends_on[m],
                            found@[m] as int,
                        ));
                        assert(all[found@[m] as int].name == all[i as int].depends_on[m]);
                    }
                    assert(is_first_unresolved(all, i as int, k as int));
                    let c = choose|c: int| is_first_unresolved(all, i as int, c);
                    lemma_first_unresolved_unique(all, i as int, k as int, c);
                }
                let name = block.name.clone();
                let dependency = block.depends_on[k].clone();
                if is_declared(blocks, &block.depends_on[k]) {
                    return Err(AppError::Cycle { block: i, name, dependency });
                } else {
                    return Err(AppError::UnresolvedDependency { block: i, name, dependency });
                }
            },
        }
        k += 1;
    }
    proof {
        assert forall|c: int| !is_first_unresolved(all, i as int, c) by {
            if 0 <= c < all[i as int].depends_on.len() {
                assert(is_resolution(
                    all,
                    i as int,
                    all[i as int].depends_on[c],
                    found@[c] as int,
                ));
                assert(all[found@[c] as int].name == all[i as int].depends_on[c]);
            }
        }
    }
    if block.variant == BlockType::Reduce && depth == 0 {
        return Err(AppError::UnmatchedReduce { block: i, name: block.name.clone() });
    }
    Ok(found)
}

/// `found` holds, for each dependency of each block, the block that the
/// dependency stands for.
pub open spec fn resolved_by(blocks: Seq<BlockView>, found: Seq<Seq<usize>>) -> bool {
    &&& found.len() == blocks.len()
    &&& forall|i: int|
        0 <= i < blocks.len() ==> (#[trigger] found[i]).len() == blocks[i].depends_on.len()
    &&& forall|i: int, k: int|
        0 <= i < blocks.len() && 0 <= k < blocks[i].depends_on.len() ==> is_resolution(
            blocks,
            i,
            blocks[i].depends_on[k],
            #[trigger] found[i][k] as int,
        )
}

/// A checked pipeline: the blocks in the order of their declaration, and
/// for each dependency the block that it stands for.
#[derive(Clone, Debug)]
pub struct App {
    blocks: Vec<BlockSpec>,
    resolved: Vec<Vec<usize>>,
}

impl View for App {
    type V = Seq<BlockView>;

    closed spec fn view(&self) -> Seq<BlockView> {
        self.blocks.deep_view()
    }
}

impl App {
    /// For each block, the blocks that its dependencies stand for, in the
    /// order of `depends_on`.
    pub closed spec fn resolution(&self) -> Seq<Seq<usize>> {
        self.resolved.deep_view()
    }

    /// The invariant that `new` establishes: no block is faulty, and every
    /// dependency is resolved to the last earlier block of its name.
    pub open spec fn wf(&self) -> bool {
        &&& well_formed(self@)
        &&& resolved_by(self@, self.resolution())
    }

    /// Checks the blocks and makes a pipeline of them. The first faulty
    /// block refuses the list: one that depends on a name that no earlier
    /// block has, or a `Reduce` that closes no `Map`.
    pub fn new(blocks: Vec<BlockSpec>) -> (result: Result<App, AppError>)
        ensures
            match result {
                Ok(app) => {
                    &&& check_outcome(blocks.deep_view()) is None
                    &&& app@ == blocks.deep_view()
                    &&& app.wf()
                },
                Err(error) => check_outcome(blocks.deep_view()) == Some(error@),
            },
    {
        let ghost all = blocks.deep_view();
        let mut resolved: Vec<Vec<usize>> = Vec::new();
        let mut depth: usize = 0;
        let mut i: usize = 0;
        while i < blocks.len()
            invariant
                i <= blocks.len(),
                all == blocks.deep_view(),
                depth == open_maps(all, i as int).len(),
                depth <= i,
                resolved@.len() == i,
                forall|j: int| 0 <= j < i ==> block_fault(all, j) is None,
                forall|j: int|
                    0 <= j < i ==> (#[trigger] resolved@[j])@.len() == all[j].depends_on.len(),
                forall|j: int, k: int|
                    0 <= j < i && 0 <= k < all[j].depends_on.len() ==> is_resolution(
                        all,
                        j,
                        all[j].depends_on[k],
                        #[trigger] resolved@[j]@[k] as int,
                    ),
            decreases blocks.len() - i,
        {
            match check_block(&blocks, i, depth) {
                Ok(found) => {
                    resolved.push(found);
                },
                Err(error) => {
                    proof {
                        assert(is_first_faulty_block(all, i as int));
                        let c = choose|c: int| is_first_faulty_block(all, c);
                        lemma_first_faulty_block_unique(all, i as int, c);
                    }
                    return Err(error);
                },
            }
            assert(all[i as int] == blocks[i as int]@);
            match blocks[i].variant {
                BlockType::MapEach => {
                    depth += 1;
                },
                BlockType::Reduce => {
                    depth -= 1;
                },
                _ => {},
            }
            i += 1;
        }
        proof {
            assert(forall|c: int| !is_first_faulty_block(all, c));
        }
        let app = App { blocks, resolved };
        proof {
            assert(app.resolution().len() == all.len());
            assert forall|j: int| 0 <= j < all.len() implies (#[trigger] app.resolution()[j]).len()
                == all[j].depends_on.len() by {
                assert(app.resolution()[j] == resolved@[j]@);
            }
            assert forall|j: int, k: int|
                0 <= j < all.len() && 0 <= k < all[j].depends_on.len() implies is_resolution(
                all,
                j,
                all[j].depends_on[k],
                #[trigger] app.resolution()[j][k] as int,
            ) by {
                assert(app.resolution()[j] == resolved@[j]@);
                assert(is_resolution(all, j, all[j].depends_on[k], resolved@[j]@[k] as int));
            }
        }
        Ok(app)
    }

    /// The block that a name stands for when all blocks have run: the last
    /// one that has the name.
    pub fn find(&self, name: &str) -> (found: Option<usize>)
        ensures
            match found {
                Some(j) => is_resolution(self@, self@.len() as int, name@, j as int),
                None => !declared(self@, name@),
            },
    {
        let name = name.to_owned();
        let found = find_before(&self.blocks, self.blocks.len(), &name);
        proof {
            if found is None {
                assert forall|j: int| 0 <= j < self@.len() implies #[trigger] self@[j].name
                    != name@ by {
                    if self@[j].name == name@ {
                        assert(declared_before(self@, self@.len() as int, name@));
                    }
                }
            }
        }
        found
    }

    /// The number of blocks.
    pub fn len(&self) -> (len: usize)
        ensures
            len == self@.len(),
    {
        self.blocks.len()
    }

    /// Block `i`.
    pub fn block(&self, i: usize) -> (block: &BlockSpec)
        requires
            i < self@.len(),
        ensures
            block@ == self@[i as int],
    {
        &self.blocks[i]
    }

    /// The blocks that the dependencies of block `i` stand for.
    pub fn dependencies(&self, i: usize) -> (found: &Vec<usize>)
        requires
            self.wf(),
            i < self@.len(),
        ensures
            found@ == self.resolution()[i as int],
    {
        proof {
            assert(self.resolved.deep_view()[i as int] == self.resolved@[i as int].deep_view());
            assert(self.resolved@[i as int].deep_view() =~= self.resolved@[i as int]@);
        }
        &self.resolved[i]
    }
}

} // verus!
