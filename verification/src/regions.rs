//! Discovery of the aquariums from the walls.
//!
//! Every cell starts as a region of its own. Each cell is then merged with
//! the cell above it and the cell to its left wherever no wall stands
//! between them. The resulting regions are exactly the aquariums: the sets of
//! cells that walks through the grid can reach without crossing a wall.

use crate::puzzle::{lemma_index_of, Grid, Puzzle};
use crate::union_find::{
    element_count, join, joined, representative, representatives, same_set, singletons, Forest,
};
use vstd::prelude::*;

verus! {

/// The assignment of every cell to its region.
pub struct Regions {
    forest: Forest,
}

impl View for Regions {
    type V = Seq<usize>;

    /// The representative cell of the region of every cell.
    closed spec fn view(&self) -> Seq<usize> {
        representatives(self.forest)
    }
}

/// Every representative is a cell, and represents itself.
pub open spec fn canonical(reps: Seq<usize>) -> bool {
    forall|i: int|
        0 <= i < reps.len() ==> (#[trigger] reps[i]) < reps.len() && reps[reps[i] as int]
            == reps[i]
}

/// Cells with the same representative lie in the same aquarium.
spec fn within_aquariums(grid: Grid, reps: Seq<usize>) -> bool {
    forall|a: int, b: int|
        0 <= a < reps.len() && 0 <= b < reps.len() && #[trigger] reps[a] == #[trigger] reps[b]
            ==> grid.connected(a, b)
}

/// Cell `idx` has the representative of the cell above it and of the cell to
/// its left, wherever no wall stands between them.
spec fn merged_with_neighbours(grid: Grid, reps: Seq<usize>, idx: int) -> bool {
    &&& grid.open_above(idx) ==> reps[idx] == reps[idx - grid.width]
    &&& grid.open_left(idx) ==> reps[idx] == reps[idx - 1]
}

/// The first `upto` cells have been merged with their neighbours.
spec fn merged_upto(grid: Grid, reps: Seq<usize>, upto: int) -> bool {
    forall|idx: int| 0 <= idx < upto ==> #[trigger] merged_with_neighbours(grid, reps, idx)
}

/// A cell is connected to itself.
pub proof fn lemma_connected_reflexive(grid: Grid, a: int)
    requires
        0 <= a < grid.cells(),
    ensures
        grid.connected(a, a),
{
    let path = seq![a];
    assert(grid.is_path(path));
    assert(path.first() == a && path.last() == a);
}

/// If `a` is connected to `b`, then `b` is connected to `a`.
pub proof fn lemma_connected_symmetric(grid: Grid, a: int, b: int)
    requires
        grid.connected(a, b),
    ensures
        grid.connected(b, a),
{
    let path = choose|path: Seq<int>| #[trigger]
        grid.is_path(path) && path.first() == a && path.last() == b;
    let n = path.len() as int;
    let back = Seq::new(path.len(), |k: int| path[n - 1 - k]);
    assert forall|k: int| 0 <= k < back.len() - 1 implies grid.adjoining(
        #[trigger] back[k],
        back[k + 1],
    ) by {
        assert(grid.adjoining(path[n - 2 - k], path[n - 2 - k + 1]));
    }
    assert(grid.is_path(back));
    assert(back.first() == b && back.last() == a);
}

/// If `a` is connected to `b` and `b` to `c`, then `a` is connected to `c`.
pub proof fn lemma_connected_transitive(grid: Grid, a: int, b: int, c: int)
    requires
        grid.connected(a, b),
        grid.connected(b, c),
    ensures
        grid.connected(a, c),
{
    let p = choose|path: Seq<int>| #[trigger]
        grid.is_path(path) && path.first() == a && path.last() == b;
    let q = choose|path: Seq<int>| #[trigger]
        grid.is_path(path) && path.first() == b && path.last() == c;
    let n = p.len() as int;
    let walk = Seq::new(
        (p.len() + q.len() - 1) as nat,
        |k: int|
            if k < n {
                p[k]
            } else {
                q[k - n + 1]
            },
    );
    assert forall|k: int| 0 <= k < walk.len() implies 0 <= #[trigger] walk[k] < grid.cells() by {
        if k < n {
            assert(0 <= p[k] < grid.cells());
        } else {
            assert(0 <= q[k - n + 1] < grid.cells());
        }
    }
    assert forall|k: int| 0 <= k < walk.len() - 1 implies grid.adjoining(
        #[trigger] walk[k],
        walk[k + 1],
    ) by {
        if k < n - 1 {
            assert(grid.adjoining(p[k], p[k + 1]));
        } else {
            assert(grid.adjoining(q[k - n + 1], q[k - n + 1 + 1]));
        }
    }
    assert(grid.is_path(walk));
    assert(walk.first() == a && walk.last() == c);
}

/// Two cells that adjoin are connected.
pub proof fn lemma_adjoining_connected(grid: Grid, a: int, b: int)
    requires
        0 <= a < grid.cells(),
        0 <= b < grid.cells(),
        grid.adjoining(a, b),
    ensures
        grid.connected(a, b),
{
    let path = seq![a, b];
    assert(grid.is_path(path));
    assert(path.first() == a && path.last() == b);
}

/// Once every cell has been merged with its neighbours, all cells of a walk
/// have the representative of its first cell.
proof fn lemma_walk_stays_in_region(grid: Grid, reps: Seq<usize>, path: Seq<int>, k: int)
    requires
        reps.len() == grid.cells(),
        merged_upto(grid, reps, grid.cells()),
        grid.is_path(path),
        0 <= k < path.len(),
    ensures
        reps[path[0]] == reps[path[k]],
    decreases k,
{
    if k > 0 {
        lemma_walk_stays_in_region(grid, reps, path, k - 1);
        let a = path[k - 1];
        let b = path[k - 1 + 1];
        assert(grid.adjoining(a, b));
        assert(0 <= a < grid.cells());
        assert(0 <= b < grid.cells());
        assert(merged_with_neighbours(grid, reps, a));
        assert(merged_with_neighbours(grid, reps, b));
    }
}

/// Joining two adjoining cells keeps the representatives canonical and
/// within the aquariums, separates no two cells that shared a representative,
/// and gives the two cells a common representative.
proof fn lemma_join_adjoining(grid: Grid, before: Seq<usize>, after: Seq<usize>, a: int, b: int)
    requires
        before.len() == grid.cells(),
        canonical(before),
        within_aquariums(grid, before),
        0 <= a < grid.cells(),
        0 <= b < grid.cells(),
        grid.adjoining(a, b),
        joined(before, after, a, b),
    ensures
        after.len() == grid.cells(),
        canonical(after),
        within_aquariums(grid, after),
        after[a] == after[b],
        forall|x: int, y: int|
            0 <= x < before.len() && 0 <= y < before.len() && #[trigger] before[x]
                == #[trigger] before[y] ==> after[x] == after[y],
{
    let root = after[a];
    assert(before[root as int] == root);
    assert(after[root as int] == root);
    assert forall|i: int| 0 <= i < after.len() implies (#[trigger] after[i]) < after.len()
        && after[after[i] as int] == after[i] by {
        if before[i] == before[a] || before[i] == before[b] {
        } else {
            let kept = before[i];
            assert(before[kept as int] == kept);
        }
    }
    lemma_adjoining_connected(grid, a, b);
    lemma_connected_symmetric(grid, a, b);
    assert forall|x: int, y: int|
        0 <= x < after.len() && 0 <= y < after.len() && #[trigger] after[x]
            == #[trigger] after[y] implies grid.connected(x, y) by {
        let moved_x = before[x] == before[a] || before[x] == before[b];
        let moved_y = before[y] == before[a] || before[y] == before[b];
        if moved_x && moved_y {
            // x reaches a or b, which adjoin, and the other of them reaches y
            let near_x = if before[x] == before[a] {
                a
            } else {
                b
            };
            let near_y = if before[y] == before[a] {
                a
            } else {
                b
            };
            assert(grid.connected(x, near_x));
            assert(grid.connected(near_y, y));
            lemma_connected_reflexive(grid, near_x);
            assert(grid.connected(near_x, near_y));
            lemma_connected_transitive(grid, x, near_x, near_y);
            lemma_connected_transitive(grid, x, near_y, y);
        } else if !moved_x && !moved_y {
            assert(before[x] == before[y]);
        } else {
            // one representative is new, the other is neither old one
            assert(false);
        }
    }
}

/// Regions that are exactly the aquariums of one grid form an equivalence
/// relation on its cells: every cell shares its region with itself, sharing
/// is symmetric, and it is transitive. They also coincide with connection by
/// walks that cross no wall, which is therefore an equivalence as well.
pub proof fn lemma_regions_are_equivalence_classes(regions: Regions, grid: Grid)
    requires
        regions.partitions(grid),
    ensures
        forall|a: int| 0 <= a < grid.cells() ==> #[trigger] regions.same_region(a, a),
        forall|a: int, b: int| #[trigger]
            regions.same_region(a, b) ==> regions.same_region(b, a),
        forall|a: int, b: int, c: int|
            #[trigger] regions.same_region(a, b) && #[trigger] regions.same_region(b, c)
                ==> regions.same_region(a, c),
        forall|a: int, b: int|
            0 <= a < grid.cells() && 0 <= b < grid.cells() ==> (#[trigger] regions.same_region(
                a,
                b,
            ) <==> grid.connected(a, b)),
{
}

/// Two region assignments computed for the same walls group the cells in the
/// same way, whatever representatives each of them chose.
pub proof fn lemma_same_grid_same_grouping(first: Regions, second: Regions, grid: Grid)
    requires
        first.partitions(grid),
        second.partitions(grid),
    ensures
        forall|a: int, b: int|
            0 <= a < grid.cells() && 0 <= b < grid.cells() ==> (#[trigger] first.same_region(a, b)
                <==> #[trigger] second.same_region(a, b)),
{
}

impl Regions {
    /// Cells `a` and `b` have the same representative.
    pub open spec fn same_region(&self, a: int, b: int) -> bool {
        self@[a] == self@[b]
    }

    /// The regions are exactly the aquariums of `grid`: there is one
    /// representative per cell, each representative is a cell of the region
    /// it stands for, and two cells share a representative if and only if a
    /// walk that crosses no wall connects them.
    pub open spec fn partitions(&self, grid: Grid) -> bool {
        &&& self@.len() == grid.cells()
        &&& canonical(self@)
        &&& forall|a: int, b: int|
            0 <= a < grid.cells() && 0 <= b < grid.cells() ==> (#[trigger] self.same_region(a, b)
                <==> grid.connected(a, b))
    }

    /// Computes the regions of a puzzle from its walls.
    pub fn build(puzzle: &Puzzle) -> (regions: Regions)
        requires
            puzzle@.wf(),
        ensures
            regions.partitions(puzzle@),
    {
        let ghost grid = puzzle@;
        let width = puzzle.width;
        let height = puzzle.height;
        let mut forest = singletons(puzzle.walls.len());
        proof {
            let reps = representatives(forest);
            assert forall|a: int, b: int|
                0 <= a < reps.len() && 0 <= b < reps.len() && #[trigger] reps[a]
                    == #[trigger] reps[b] implies grid.connected(a, b) by {
                lemma_connected_reflexive(grid, a);
            }
        }
        let mut i: usize = 0;
        while i < height
            invariant
                grid == puzzle@,
                grid.wf(),
                width == puzzle.width,
                height == puzzle.height,
                i <= height,
                representatives(forest).len() == grid.cells(),
                canonical(representatives(forest)),
                within_aquariums(grid, representatives(forest)),
                merged_upto(grid, representatives(forest), grid.index_of(i as int, 0)),
            decreases height - i,
        {
            let mut j: usize = 0;
            while j < width
                invariant
                    grid == puzzle@,
                    grid.wf(),
                    width == puzzle.width,
                    height == puzzle.height,
                    i < height,
                    j <= width,
                    representatives(forest).len() == grid.cells(),
                    canonical(representatives(forest)),
                    within_aquariums(grid, representatives(forest)),
                    merged_upto(grid, representatives(forest), grid.index_of(i as int, j as int)),
                decreases width - j,
            {
                proof {
                    lemma_index_of(grid, i as int, j as int);
                    assert(grid.cells() == puzzle.walls.len());
                    assert(0 <= width * i) by (nonlinear_arith);
                }
                let idx = width * i + j;
                let cell = &puzzle.walls[idx];
                let ghost start = representatives(forest);
                if i > 0 && !cell.top() {
                    proof {
                        lemma_index_of(grid, i - 1, j as int);
                        assert(grid.index_of(i - 1, j as int) == idx - width) by (nonlinear_arith)
                            requires
                                grid.index_of(i - 1, j as int) == width * (i - 1) + j,
                                idx == width * i + j,
                        ;
                    }
                    let ghost before = representatives(forest);
                    join(&mut forest, idx, idx - width);
                    proof {
                        lemma_join_adjoining(
                            grid,
                            before,
                            representatives(forest),
                            idx as int,
                            idx - width,
                        );
                    }
                }
                let ghost middle = representatives(forest);
                if j > 0 && !cell.left() {
                    let ghost before = representatives(forest);
                    join(&mut forest, idx, idx - 1);
                    proof {
                        lemma_join_adjoining(
                            grid,
                            before,
                            representatives(forest),
                            idx as int,
                            idx - 1,
                        );
                    }
                }
                proof {
                    let reps = representatives(forest);
                    assert forall|c: int| 0 <= c < idx + 1 implies #[trigger] merged_with_neighbours(
                        grid,
                        reps,
                        c,
                    ) by {
                        if c < idx {
                            assert(merged_with_neighbours(grid, start, c));
                            if grid.open_above(c) {
                                let up = c - grid.width;
                                assert(grid.row_of(c) > 0);
                                crate::puzzle::lemma_row_col_of(grid, c);
                                assert(0 <= up) by (nonlinear_arith)
                                    requires
                                        up == c - grid.width,
                                        grid.width > 0,
                                        c == grid.width * (c / grid.width) + (c % grid.width),
                                        c / grid.width > 0,
                                        0 <= c % grid.width,
                                ;
                                assert(start[c] == start[up]);
                                assert(middle[c] == middle[up]);
                                assert(reps[c] == reps[up]);
                            }
                            if grid.open_left(c) {
                                crate::puzzle::lemma_row_col_of(grid, c);
                                assert(c - 1 >= 0);
                                assert(start[c] == start[c - 1]);
                                assert(middle[c] == middle[c - 1]);
                                assert(reps[c] == reps[c - 1]);
                            }
                        } else {
                            if grid.open_above(c) {
                                assert(middle[c] == middle[c - grid.width]);
                                assert(reps[c] == reps[c - grid.width]);
                            }
                        }
                    }
                }
                j += 1;
            }
            proof {
                assert(grid.index_of(i as int, width as int) == grid.index_of(i + 1, 0))
                    by (nonlinear_arith)
                    requires
                        grid.index_of(i as int, width as int) == grid.width * i + width,
                        grid.index_of(i + 1, 0) == grid.width * (i + 1) + 0,
                        grid.width == width,
                ;
            }
            i += 1;
        }
        let regions = Regions { forest };
        proof {
            assert(grid.index_of(height as int, 0) == grid.cells());
            let reps = regions@;
            assert forall|a: int, b: int|
                0 <= a < grid.cells() && 0 <= b < grid.cells() implies (
            #[trigger] regions.same_region(a, b) <==> grid.connected(a, b)) by {
                if grid.connected(a, b) {
                    let path = choose|path: Seq<int>| #[trigger]
                        grid.is_path(path) && path.first() == a && path.last() == b;
                    lemma_walk_stays_in_region(grid, reps, path, path.len() - 1);
                }
            }
        }
        regions
    }

    /// The number of cells that the regions cover.
    pub fn len(&self) -> (count: usize)
        ensures
            count == self@.len(),
    {
        element_count(&self.forest)
    }

    /// The representative cell of the region of cell `idx`.
    pub fn region(&self, idx: usize) -> (rep: usize)
        requires
            idx < self@.len(),
        ensures
            rep == self@[idx as int],
    {
        representative(&self.forest, idx)
    }

    /// Whether cells `a` and `b` lie in the same region.
    pub fn equiv(&self, a: usize, b: usize) -> (same: bool)
        requires
            a < self@.len(),
            b < self@.len(),
        ensures
            same == self.same_region(a as int, b as int),
    {
        same_set(&self.forest, a, b)
    }
}

} // verus!
