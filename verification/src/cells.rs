//! The cells of a tree by their hash, each with its size: what a block of
//! code is held against to see that it ends within its cell.

use vstd::prelude::*;

use crate::checks::same_hash;
use crate::engine::{
    bits_at, cell_bits, cell_child, cell_hash, cell_refs, child_at, hash_of, refs_at,
};

verus! {

/// The size of a cell: how many bits and how many children it has.
pub struct Extent {
    pub bits: nat,
    pub refs: nat,
}

/// A cell's hash and size.
#[derive(Clone, Copy, Debug, PartialEq, Eq)]
pub struct CellSize {
    pub cell_hash: [u8; 32],
    pub bits: u16,
    pub refs: u8,
}

impl View for CellSize {
    type V = Extent;

    open spec fn view(&self) -> Extent {
        Extent { bits: self.bits as nat, refs: self.refs as nat }
    }
}

/// The sizes of cells by hash. No hash stands in it twice.
#[derive(Debug)]
pub struct CellTable {
    sizes: Vec<CellSize>,
}

/// The hash in the table at a position.
pub open spec fn hash_in(sizes: Seq<CellSize>, i: int) -> [u8; 32] {
    sizes[i].cell_hash
}

/// Whether a hash stands among the sizes.
pub open spec fn listed(sizes: Seq<CellSize>, cell_hash: [u8; 32]) -> bool {
    exists|i: int| 0 <= i < sizes.len() && #[trigger] hash_in(sizes, i) == cell_hash
}

/// A position at which a hash stands among the sizes.
pub open spec fn position(sizes: Seq<CellSize>, cell_hash: [u8; 32]) -> int {
    choose|i: int| 0 <= i < sizes.len() && #[trigger] hash_in(sizes, i) == cell_hash
}

/// No hash stands twice among the sizes.
pub open spec fn distinct(sizes: Seq<CellSize>) -> bool {
    forall|i: int, j: int|
        0 <= i < j < sizes.len() ==> #[trigger] hash_in(sizes, i) != #[trigger] hash_in(sizes, j)
}

/// The sizes as a map from hash to size.
pub open spec fn sizes_map(sizes: Seq<CellSize>) -> Map<[u8; 32], Extent> {
    Map::new(|h: [u8; 32]| listed(sizes, h), |h: [u8; 32]| sizes[position(sizes, h)]@)
}

/// Adding a size under a new hash adds one entry to the map.
pub proof fn lemma_push_size(sizes: Seq<CellSize>, size: CellSize)
    requires
        distinct(sizes),
        !listed(sizes, size.cell_hash),
    ensures
        distinct(sizes.push(size)),
        sizes_map(sizes.push(size)) == sizes_map(sizes).insert(size.cell_hash, size@),
{
    let more = sizes.push(size);
    assert forall|i: int, j: int| 0 <= i < j < more.len() implies #[trigger] hash_in(more, i)
        != #[trigger] hash_in(more, j) by {
        if j == sizes.len() {
            assert(hash_in(sizes, i) == hash_in(more, i));
        } else {
            assert(hash_in(sizes, i) == hash_in(more, i));
            assert(hash_in(sizes, j) == hash_in(more, j));
        }
    }
    let before = sizes_map(sizes);
    let after = sizes_map(more);
    assert forall|h: [u8; 32]| after.contains_key(h) <==> before.insert(
        size.cell_hash,
        size@,
    ).contains_key(h) by {
        if listed(more, h) {
            let i = position(more, h);
            if i < sizes.len() {
                assert(hash_in(sizes, i) == h);
            }
        }
        if listed(sizes, h) {
            let i = position(sizes, h);
            assert(hash_in(more, i) == h);
        }
        if h == size.cell_hash {
            assert(hash_in(more, sizes.len() as int) == h);
        }
    }
    assert forall|h: [u8; 32]| after.contains_key(h) implies after[h] == before.insert(
        size.cell_hash,
        size@,
    )[h] by {
        let i = position(more, h);
        if h == size.cell_hash {
            if i < sizes.len() {
                assert(hash_in(sizes, i) == h);
            }
        } else {
            assert(i < sizes.len());
            assert(hash_in(sizes, i) == h);
            let j = position(sizes, h);
            assert(hash_in(more, j) == h);
            if i < j {
                assert(hash_in(more, i) != hash_in(more, j));
            }
            if j < i {
                assert(hash_in(more, j) != hash_in(more, i));
            }
        }
    }
    assert(after =~= before.insert(size.cell_hash, size@));
}

impl View for CellTable {
    type V = Map<[u8; 32], Extent>;

    closed spec fn view(&self) -> Map<[u8; 32], Extent> {
        sizes_map(self.sizes@)
    }
}

impl CellTable {
    #[verifier::type_invariant]
    spec fn wf(self) -> bool {
        distinct(self.sizes@)
    }

    /// How many cells the table holds.
    pub closed spec fn count(&self) -> nat {
        self.sizes@.len()
    }

    /// A table without cells.
    pub fn new() -> (table: Self)
        ensures
            table@ == Map::<[u8; 32], Extent>::empty(),
            table.count() == 0,
    {
        let table = CellTable { sizes: Vec::new() };
        assert(table@ =~= Map::<[u8; 32], Extent>::empty());
        table
    }

    /// How many cells the table holds.
    pub fn len(&self) -> (n: usize)
        ensures
            n == self.count(),
    {
        self.sizes.len()
    }

    /// The size of the cell with a hash, if the table holds it.
    pub fn get(&self, cell_hash: &[u8; 32]) -> (found: Option<CellSize>)
        ensures
            found matches Some(size) ==> self@.contains_key(*cell_hash) && self@[*cell_hash]
                == size@ && size.cell_hash == *cell_hash,
            found is None ==> !self@.contains_key(*cell_hash),
    {
        proof {
            use_type_invariant(self);
        }
        let mut i: usize = 0;
        while i < self.sizes.len()
            invariant
                0 <= i <= self.sizes.len(),
                distinct(self.sizes@),
                forall|k: int| 0 <= k < i ==> #[trigger] hash_in(self.sizes@, k) != *cell_hash,
            decreases self.sizes.len() - i,
        {
            if same_hash(&self.sizes[i].cell_hash, cell_hash) {
                proof {
                    assert(hash_in(self.sizes@, i as int) == *cell_hash);
                    let j = position(self.sizes@, *cell_hash);
                    if j < i {
                        assert(hash_in(self.sizes@, j) != hash_in(self.sizes@, i as int));
                    }
                    if i < j {
                        assert(hash_in(self.sizes@, i as int) != hash_in(self.sizes@, j));
                    }
                }
                return Some(self.sizes[i]);
            }
            i = i + 1;
        }
        None
    }

    /// The table with the size of one more cell, unless it holds the cell
    /// already; and whether the cell was added.
    pub fn with(self, size: CellSize) -> (r: (Self, bool))
        ensures
            r.1 == !self@.contains_key(size.cell_hash),
            r.1 ==> r.0@ == self@.insert(size.cell_hash, size@),
            r.1 ==> r.0.count() == self.count() + 1,
            !r.1 ==> r.0 == self,
    {
        proof {
            use_type_invariant(&self);
        }
        if self.get(&size.cell_hash).is_some() {
            return (self, false);
        }
        proof {
            lemma_push_size(self.sizes@, size);
        }
        let mut sizes = self.sizes;
        sizes.push(size);
        (CellTable { sizes }, true)
    }
}

/// The hash of the cell at the end of a path of child indices, if the path
/// exists.
pub open spec fn descend(from: [u8; 32], path: Seq<nat>) -> Option<[u8; 32]>
    decreases path.len(),
{
    if path.len() == 0 {
        Some(from)
    } else {
        match descend(from, path.drop_last()) {
            Some(parent) => if path.last() < refs_at(parent) {
                Some(child_at(parent, path.last()))
            } else {
                None
            },
            None => None,
        }
    }
}

/// The cell with hash `cell_hash` is in the tree under `root`.
pub open spec fn reachable(root: [u8; 32], cell_hash: [u8; 32]) -> bool {
    exists|path: Seq<nat>| #[trigger] descend(root, path) == Some(cell_hash)
}

/// The size of the cell with a given hash.
pub open spec fn extent_at(cell_hash: [u8; 32]) -> Extent {
    Extent { bits: bits_at(cell_hash), refs: refs_at(cell_hash) }
}

/// The sizes of all cells of the tree under `root`.
pub open spec fn tree_sizes(root: [u8; 32]) -> Map<[u8; 32], Extent> {
    Map::new(|h: [u8; 32]| reachable(root, h), |h: [u8; 32]| extent_at(h))
}

/// The hash of a cell waits on the stack.
pub open spec fn pending(stack: Seq<tycho_types::cell::Cell>, cell_hash: [u8; 32]) -> bool {
    exists|k: int| 0 <= k < stack.len() && #[trigger] hash_of(stack[k]) == cell_hash
}

/// The cell is in the table, or waits on the stack.
pub open spec fn settled(
    known: Map<[u8; 32], Extent>,
    stack: Seq<tycho_types::cell::Cell>,
    cell_hash: [u8; 32],
) -> bool {
    known.contains_key(cell_hash) || pending(stack, cell_hash)
}

/// Every cell of the table is in the tree and has its size.
pub open spec fn sound(root: [u8; 32], known: Map<[u8; 32], Extent>) -> bool {
    forall|h: [u8; 32]| #[trigger]
        known.contains_key(h) ==> reachable(root, h) && known[h] == extent_at(h)
}

/// Every cell on the stack is in the tree.
pub open spec fn grounded(root: [u8; 32], stack: Seq<tycho_types::cell::Cell>) -> bool {
    forall|k: int| 0 <= k < stack.len() ==> reachable(root, #[trigger] hash_of(stack[k]))
}

/// Every child of a cell of the table is settled; of the cell `open`, the
/// children from `done` on need not be.
pub open spec fn closed_but(
    known: Map<[u8; 32], Extent>,
    stack: Seq<tycho_types::cell::Cell>,
    open: [u8; 32],
    done: nat,
) -> bool {
    forall|h: [u8; 32], i: nat|
        known.contains_key(h) && i < refs_at(h) && (h != open || i < done) ==> settled(
            known,
            stack,
            #[trigger] child_at(h, i),
        )
}

/// A child of a cell of the tree is in the tree.
pub proof fn lemma_child_reachable(root: [u8; 32], parent: [u8; 32], index: nat)
    requires
        reachable(root, parent),
        index < refs_at(parent),
    ensures
        reachable(root, child_at(parent, index)),
{
    let path = choose|path: Seq<nat>| #[trigger] descend(root, path) == Some(parent);
    let longer = path.push(index);
    assert(longer.drop_last() =~= path);
    assert(descend(root, longer) == Some(child_at(parent, index)));
}

/// A table that holds the root and, with each cell, its children holds every
/// cell at the end of a path.
pub proof fn lemma_closed_holds_all(
    root: [u8; 32],
    known: Map<[u8; 32], Extent>,
    path: Seq<nat>,
)
    requires
        known.contains_key(root),
        forall|h: [u8; 32], i: nat|
            known.contains_key(h) && i < refs_at(h) ==> known.contains_key(
                #[trigger] child_at(h, i),
            ),
        descend(root, path) is Some,
    ensures
        known.contains_key(descend(root, path)->0),
    decreases path.len(),
{
    if path.len() > 0 {
        lemma_closed_holds_all(root, known, path.drop_last());
    }
}

/// Lists the cells of the tree under `root`, each once, with their sizes.
pub fn index_cells(root: tycho_types::cell::Cell) -> (table: CellTable)
    ensures
        table@ == tree_sizes(hash_of(root)),
{
    let ghost top = hash_of(root);
    let mut table = CellTable::new();
    let mut stack: Vec<tycho_types::cell::Cell> = Vec::new();
    proof {
        assert(descend(top, Seq::<nat>::empty()) == Some(top));
    }
    stack.push(root);
    assert(hash_of(stack@[0]) == top);
    while stack.len() > 0
        invariant
            sound(top, table@),
            grounded(top, stack@),
            settled(table@, stack@, top),
            forall|h: [u8; 32], i: nat|
                table@.contains_key(h) && i < refs_at(h) ==> settled(
                    table@,
                    stack@,
                    #[trigger] child_at(h, i),
                ),
        decreases usize::MAX - table.count(), stack.len(),
    {
        let ghost known = table@;
        let ghost waiting = stack@;
        let held: usize = table.len();
        let cell = stack.pop().unwrap();
        let here = cell_hash(&cell);
        let bits = cell_bits(&cell);
        let refs = cell_refs(&cell);
        let ghost rest = stack@;
        proof {
            assert(hash_of(waiting[waiting.len() - 1]) == here);
            assert(reachable(top, here));
            assert forall|x: [u8; 32]| settled(known, waiting, x) implies x == here || settled(
                known,
                rest,
                x,
            ) by {
                if !known.contains_key(x) {
                    let k = choose|k: int|
                        0 <= k < waiting.len() && #[trigger] hash_of(waiting[k]) == x;
                    if k < rest.len() {
                        assert(hash_of(rest[k]) == x);
                    }
                }
            }
            assert forall|k: int| 0 <= k < rest.len() implies reachable(
                top,
                #[trigger] hash_of(rest[k]),
            ) by {
                assert(hash_of(waiting[k]) == hash_of(rest[k]));
            }
        }
        let (next, added) = table.with(CellSize { cell_hash: here, bits, refs });
        table = next;
        if added {
            proof {
                assert forall|h: [u8; 32], i: nat|
                    table@.contains_key(h) && i < refs_at(h) && h != here implies settled(
                    table@,
                    stack@,
                    #[trigger] child_at(h, i),
                ) by {
                    assert(settled(known, waiting, child_at(h, i)));
                }
                assert(settled(known, waiting, top));
            }
            let mut i: u8 = 0;
            while i < refs
                invariant
                    0 <= i <= refs,
                    refs == refs_at(here),
                    here == hash_of(cell),
                    reachable(top, here),
                    table@.contains_key(here),
                    table.count() == held + 1,
                    sound(top, table@),
                    grounded(top, stack@),
                    settled(table@, stack@, top),
                    closed_but(table@, stack@, here, i as nat),
                decreases refs - i,
            {
                let ghost below = stack@;
                match cell_child(&cell, i) {
                    Some(child) => {
                        proof {
                            lemma_child_reachable(top, here, i as nat);
                        }
                        stack.push(child);
                        proof {
                            let above = stack@;
                            assert(hash_of(above[below.len() as int]) == child_at(here, i as nat));
                            assert forall|x: [u8; 32]| settled(table@, below, x) implies settled(
                                table@,
                                above,
                                x,
                            ) by {
                                if !table@.contains_key(x) {
                                    let k = choose|k: int|
                                        0 <= k < below.len() && #[trigger] hash_of(below[k]) == x;
                                    assert(hash_of(above[k]) == x);
                                }
                            }
                            assert forall|k: int| 0 <= k < above.len() implies reachable(
                                top,
                                #[trigger] hash_of(above[k]),
                            ) by {
                                if k < below.len() {
                                    assert(hash_of(below[k]) == hash_of(above[k]));
                                }
                            }
                            assert forall|h: [u8; 32], j: nat|
                                table@.contains_key(h) && j < refs_at(h) && (h != here || j < i
                                    + 1) implies settled(
                                table@,
                                above,
                                #[trigger] child_at(h, j),
                            ) by {
                                if h == here && j == i {
                                    assert(pending(above, child_at(here, i as nat)));
                                } else {
                                    assert(settled(table@, below, child_at(h, j)));
                                }
                            }
                        }
                    },
                    None => {
                        assert(false);
                    },
                }
                i = i + 1;
            }
        } else {
            proof {
                assert(known.contains_key(here));
                assert forall|h: [u8; 32], i: nat|
                    table@.contains_key(h) && i < refs_at(h) implies settled(
                    table@,
                    stack@,
                    #[trigger] child_at(h, i),
                ) by {
                    assert(settled(known, waiting, child_at(h, i)));
                }
                assert(settled(known, waiting, top));
            }
        }
        let now: usize = table.len();
        assert(added ==> now == held + 1);
        assert(!added ==> now == held && stack.len() < waiting.len());
    }
    proof {
        let known = table@;
        assert(known.contains_key(top));
        assert forall|h: [u8; 32], i: nat|
            known.contains_key(h) && i < refs_at(h) implies known.contains_key(
            #[trigger] child_at(h, i),
        ) by {
            assert(settled(known, stack@, child_at(h, i)));
        }
        assert forall|h: [u8; 32]| known.contains_key(h) <==> reachable(top, h) by {
            if reachable(top, h) {
                let path = choose|path: Seq<nat>| #[trigger] descend(top, path) == Some(h);
                lemma_closed_holds_all(top, known, path);
            }
        }
        assert(known =~= tree_sizes(top));
    }
    table
}

} // verus!
