use vstd::prelude::*;
use rand::rngs::StdRng;
use rand::{Rng, SeedableRng};
use crate::grid::{adjacent, spec_manhattan, CellType, GridPos, PathGrid};
use crate::pathfinding::{find_path, is_grid_path, is_shortest_path, path_exists};

verus! {

#[verifier::external_type_specification]
#[verifier::external_body]
pub struct ExStdRng(StdRng);

/// `StdRng::seed_from_u64`: a generator whose stream is fixed by `seed`.
/// Its state is opaque here, so nothing is claimed of it.
#[verifier::external_body]
fn seeded_rng(seed: u64) -> StdRng {
    StdRng::seed_from_u64(seed)
}

/// `Rng::random_range` on the `usize` range `lo..hi`: a draw in the range.
/// It panics on an empty range, which `requires` rules out.
#[verifier::external_body]
fn random_usize(rng: &mut StdRng, lo: usize, hi: usize) -> (r: usize)
    requires
        lo < hi,
    ensures
        lo <= r < hi,
{
    rng.random_range(lo..hi)
}

/// `Rng::random_range` on the `usize` range `lo..=hi`: a draw in the range.
/// It panics on an empty range, which `requires` rules out.
#[verifier::external_body]
fn random_usize_inclusive(rng: &mut StdRng, lo: usize, hi: usize) -> (r: usize)
    requires
        lo <= hi,
    ensures
        lo <= r <= hi,
{
    rng.random_range(lo..=hi)
}

/// `Rng::random_range` on the `i32` range `lo..hi`: a draw in the range.
/// It panics on an empty range, which `requires` rules out.
#[verifier::external_body]
fn random_i32(rng: &mut StdRng, lo: i32, hi: i32) -> (r: i32)
    requires
        lo < hi,
    ensures
        lo <= r < hi,
{
    rng.random_range(lo..hi)
}

/// `Rng::random_range` on the `i32` range `lo..=hi`: a draw in the range.
/// It panics on an empty range, which `requires` rules out.
#[verifier::external_body]
fn random_i32_inclusive(rng: &mut StdRng, lo: i32, hi: i32) -> (r: i32)
    requires
        lo <= hi,
    ensures
        lo <= r <= hi,
{
    rng.random_range(lo..=hi)
}

/// `Rng::random::<u32>`: 32 random bits; any value may come.
#[verifier::external_body]
fn random_bits(rng: &mut StdRng) -> u32 {
    rng.random::<u32>()
}

/// The four edges of the map.
#[derive(Debug, Clone, Copy, PartialEq, Eq, Structural)]
pub enum GridSide {
    /// Row 0.
    Top,
    /// The last row.
    Bottom,
    /// Column 0.
    Left,
    /// The last column.
    Right,
}

/// The edge across the map from `s`.
pub open spec fn opposite_side(s: GridSide) -> GridSide {
    match s {
        GridSide::Top => GridSide::Bottom,
        GridSide::Bottom => GridSide::Top,
        GridSide::Left => GridSide::Right,
        GridSide::Right => GridSide::Left,
    }
}

/// The distance kept from the corners along the top and bottom edges.
pub open spec fn horizontal_margin(width: nat) -> nat {
    let m = if width / 6 >= 2 { width / 6 } else { 2 };
    if m <= 4 { m } else { 4 }
}

/// The distance kept from the corners along the left and right edges.
pub open spec fn vertical_margin(height: nat) -> nat {
    let m = if height / 4 >= 2 { height / 4 } else { 2 };
    if m <= 3 { m } else { 3 }
}

/// `p` lies on edge `side` of a `width` by `height` map, away from the corners.
pub open spec fn on_side(p: GridPos, side: GridSide, width: nat, height: nat) -> bool {
    match side {
        GridSide::Top => p.y == 0 && horizontal_margin(width) <= p.x < width - horizontal_margin(width),
        GridSide::Bottom => p.y == height - 1 && horizontal_margin(width) <= p.x < width - horizontal_margin(width),
        GridSide::Left => p.x == 0 && vertical_margin(height) <= p.y < height - vertical_margin(height),
        GridSide::Right => p.x == width - 1 && vertical_margin(height) <= p.y < height - vertical_margin(height),
    }
}

/// A point drawn along edge `side`, away from the corners.
fn generate_point_on_side(rng: &mut StdRng, side: GridSide, width: usize, height: usize) -> (r: GridPos)
    requires
        9 <= width,
        7 <= height,
    ensures
        on_side(r, side, width as nat, height as nat),
{
    let mh0 = width / 6;
    let mh1 = if mh0 >= 2 { mh0 } else { 2 };
    let margin_horizontal = if mh1 <= 4 { mh1 } else { 4 };
    let mv0 = height / 4;
    let mv1 = if mv0 >= 2 { mv0 } else { 2 };
    let margin_vertical = if mv1 <= 3 { mv1 } else { 3 };
    match side {
        GridSide::Top => {
            let x = random_usize(rng, margin_horizontal, width - margin_horizontal);
            GridPos::new(x, 0)
        },
        GridSide::Bottom => {
            let x = random_usize(rng, margin_horizontal, width - margin_horizontal);
            GridPos::new(x, height - 1)
        },
        GridSide::Left => {
            let y = random_usize(rng, margin_vertical, height - margin_vertical);
            GridPos::new(0, y)
        },
        GridSide::Right => {
            let y = random_usize(rng, margin_vertical, height - margin_vertical);
            GridPos::new(width - 1, y)
        },
    }
}

/// An entry point on a random edge and an exit point on the opposite edge.
fn generate_random_opposite_points(rng: &mut StdRng, width: usize, height: usize) -> (r: (GridPos, GridPos))
    requires
        9 <= width,
        7 <= height,
    ensures
        exists|side: GridSide|
            on_side(r.0, side, width as nat, height as nat) && #[trigger] on_side(
                r.1,
                opposite_side(side),
                width as nat,
                height as nat,
            ),
{
    let i = random_usize(rng, 0, 4);
    let start_side = if i == 0 {
        GridSide::Top
    } else if i == 1 {
        GridSide::Bottom
    } else if i == 2 {
        GridSide::Left
    } else {
        GridSide::Right
    };
    let end_side = match start_side {
        GridSide::Top => GridSide::Bottom,
        GridSide::Bottom => GridSide::Top,
        GridSide::Left => GridSide::Right,
        GridSide::Right => GridSide::Left,
    };
    let entry_point = generate_point_on_side(rng, start_side, width, height);
    let exit_point = generate_point_on_side(rng, end_side, width, height);
    let r = (entry_point, exit_point);
    assert(on_side(r.0, start_side, width as nat, height as nat));
    assert(on_side(r.1, opposite_side(start_side), width as nat, height as nat));
    r
}

/// `p` is off the border of the map.
pub open spec fn interior(g: &PathGrid, p: GridPos) -> bool {
    1 <= p.x && p.x + 2 <= g.width && 1 <= p.y && p.y + 2 <= g.height
}

/// What map generation produces: every cell empty or an obstacle, and
/// obstacles only off the border.
pub open spec fn generated_layout(g: &PathGrid) -> bool {
    forall|p: GridPos|
        g.in_bounds(p) ==> #[trigger] g.cell(p) == CellType::Empty || (g.cell(p) == CellType::Blocked
            && interior(g, p))
}

/// The standard 32 by 18 map, well formed.
pub open spec fn unified_frame(g: &PathGrid) -> bool {
    g.wf() && g.width == 32 && g.height == 18
}

/// `new` differs from `old` only by obstacles placed on empty interior cells.
pub open spec fn only_blocks_added(old: &PathGrid, new: &PathGrid) -> bool {
    forall|p: GridPos|
        old.in_bounds(p) ==> #[trigger] new.cell(p) == old.cell(p) || (old.cell(p) == CellType::Empty
            && new.cell(p) == CellType::Blocked && interior(old, p))
}

/// A copy of `g`, cell for cell.
fn copy_grid(g: &PathGrid) -> (r: PathGrid)
    requires
        g.wf(),
    ensures
        r.wf(),
        r.same_cells(g),
{
    let mut cells: Vec<Vec<CellType>> = Vec::new();
    let mut y: usize = 0;
    while y < g.height
        invariant
            g.wf(),
            y <= g.height,
            cells@.len() == y,
            forall|j: int| 0 <= j < y ==> #[trigger] cells@[j]@ == g.cells@[j]@,
        decreases g.height - y,
    {
        let mut row: Vec<CellType> = Vec::new();
        let mut x: usize = 0;
        while x < g.width
            invariant
                g.wf(),
                y < g.height,
                x <= g.width,
                row@ == g.cells@[y as int]@.take(x as int),
            decreases g.width - x,
        {
            row.push(g.cells[y][x]);
            x += 1;
            assert(row@ =~= g.cells@[y as int]@.take(x as int));
        }
        assert(row@ =~= g.cells@[y as int]@);
        cells.push(row);
        y += 1;
    }
    PathGrid { width: g.width, height: g.height, cells, entry_point: g.entry_point, exit_point: g.exit_point }
}

/// One offset of a cluster cell from its centre, by pattern: a line (in one
/// of four directions, `i` cells out), a compact clump, or a wider scatter.
fn cluster_offset(rng: &mut StdRng, i: usize) -> (r: (i32, i32))
    requires
        i <= 2,
    ensures
        -2 <= r.0 <= 2,
        -2 <= r.1 <= 2,
{
    let pattern = random_i32(rng, 0, 3);
    if pattern == 0 {
        let direction = random_i32(rng, 0, 4);
        let k = i as i32;
        if direction == 0 {
            (k, 0)
        } else if direction == 1 {
            (0, k)
        } else if direction == 2 {
            (k, k)
        } else {
            (-k, k)
        }
    } else if pattern == 1 {
        let offset = random_i32_inclusive(rng, -1, 1);
        let dy = random_i32_inclusive(rng, -1, 1);
        (offset, dy)
    } else {
        let dx = random_i32_inclusive(rng, -2, 2);
        let dy = random_i32_inclusive(rng, -2, 2);
        (dx, dy)
    }
}

/// `v` kept within `lo..=hi` (the upper bound winning when they cross).
pub open spec fn clamp_to(v: int, lo: int, hi: int) -> int {
    let a = if v >= lo { v } else { lo };
    if a <= hi { a } else { hi }
}

/// `p` lies at most two cells from `center` in each direction.
pub open spec fn near_center(p: GridPos, center: GridPos) -> bool {
    p.x <= center.x + 2 && center.x <= p.x + 2 && p.y <= center.y + 2 && center.y <= p.y + 2
}

/// Places a cluster of one to `max_size` obstacles around `center`, each
/// cell drawn by `cluster_offset` and pulled off the border; cells that are
/// not empty are skipped. Reports whether any obstacle was placed.
fn place_strategic_obstacle_cluster(
    grid: &mut PathGrid,
    rng: &mut StdRng,
    center: GridPos,
    min_size: usize,
    max_size: usize,
) -> (r: bool)
    requires
        unified_frame(old(grid)),
        min_size <= max_size <= 3,
        center.x < 32,
        center.y < 18,
    ensures
        unified_frame(final(grid)),
        final(grid).same_frame(old(grid)),
        only_blocks_added(old(grid), final(grid)),
        forall|p: GridPos| #[trigger] old(grid).in_bounds(p) && final(grid).cell(p) != old(grid).cell(p)
            ==> near_center(p, center),
        r == exists|p: GridPos| #[trigger] old(grid).in_bounds(p) && final(grid).cell(p) != old(grid).cell(p),
{
    let cluster_size = random_usize_inclusive(rng, min_size, max_size);
    let mut positions: Vec<GridPos> = Vec::new();
    let mut i: usize = 0;
    while i < cluster_size
        invariant
            i <= cluster_size <= 3,
            center.x < 32,
            center.y < 18,
            unified_frame(grid),
            forall|k: int| 0 <= k < positions@.len() ==> #[trigger] interior(grid, positions@[k]),
            forall|k: int| 0 <= k < positions@.len() ==> #[trigger] near_center(positions@[k], center),
        decreases cluster_size - i,
    {
        let (offset_x, offset_y) = cluster_offset(rng, i);
        let cx = center.x as i32 + offset_x;
        let cy = center.y as i32 + offset_y;
        let hx = grid.width as i32 - 2;
        let hy = grid.height as i32 - 2;
        let x0 = if cx >= 1 { cx } else { 1 };
        let x = if x0 <= hx { x0 } else { hx };
        let y0 = if cy >= 1 { cy } else { 1 };
        let y = if y0 <= hy { y0 } else { hy };
        positions.push(GridPos::new(x as usize, y as usize));
        i += 1;
    }
    let ghost g0 = *grid;
    let mut placed_any = false;
    let mut k: usize = 0;
    while k < positions.len()
        invariant
            k <= positions.len(),
            unified_frame(grid),
            grid.same_frame(&g0),
            unified_frame(&g0),
            only_blocks_added(&g0, grid),
            forall|j: int| 0 <= j < positions@.len() ==> #[trigger] interior(&g0, positions@[j]),
            forall|j: int| 0 <= j < positions@.len() ==> #[trigger] near_center(positions@[j], center),
            forall|p: GridPos| #[trigger] g0.in_bounds(p) && grid.cell(p) != g0.cell(p) ==> near_center(p, center),
            placed_any == exists|p: GridPos| #[trigger] g0.in_bounds(p) && grid.cell(p) != g0.cell(p),
        decreases positions.len() - k,
    {
        let pos = positions[k];
        assert(near_center(positions@[k as int], center));
        if grid.get_cell(pos) == Some(CellType::Empty) {
            let ghost before = *grid;
            grid.set_cell(pos, CellType::Blocked);
            assert(g0.in_bounds(pos) && grid.cell(pos) != g0.cell(pos)) by {
                assert(grid.in_bounds(pos));
                assert(before.cell(pos) == CellType::Empty);
                assert(before.cell(pos) == g0.cell(pos) || before.cell(pos) == CellType::Blocked);
            }
            assert forall|p: GridPos| #[trigger] g0.in_bounds(p) && grid.cell(p) != g0.cell(p) implies near_center(p, center) by {
                assert(grid.in_bounds(p));
                assert(before.in_bounds(p));
            }
            assert forall|p: GridPos| g0.in_bounds(p) implies #[trigger] grid.cell(p) == g0.cell(p) || (g0.cell(p)
                == CellType::Empty && grid.cell(p) == CellType::Blocked && interior(&g0, p)) by {
                assert(grid.in_bounds(p));
                assert(before.in_bounds(p));
                assert(before.cell(p) == g0.cell(p) || (g0.cell(p) == CellType::Empty && before.cell(p)
                    == CellType::Blocked && interior(&g0, p)));
                if p == pos {
                    assert(before.cell(p) == CellType::Empty);
                }
            }
            placed_any = true;
        }
        k += 1;
    }
    placed_any
}

/// The top 24 bits of a draw below which an obstacle is cleared at a rate of
/// one in ten (the single-precision threshold 0.1 scaled by 2^24, rounded up).
pub const LIGHT_REDUCTION_LIMIT: u32 = 1677722;

/// The top 24 bits of a draw below which an obstacle is cleared at a rate of
/// one in five (the single-precision threshold 0.2 scaled by 2^24, rounded up).
pub const HEAVY_REDUCTION_LIMIT: u32 = 3355444;

/// `new` differs from `old` only by obstacles cleared.
pub open spec fn only_blocks_removed(old: &PathGrid, new: &PathGrid) -> bool {
    forall|p: GridPos|
        old.in_bounds(p) ==> #[trigger] new.cell(p) == old.cell(p) || (old.cell(p) == CellType::Blocked
            && new.cell(p) == CellType::Empty)
}

/// A cell after clearing: an obstacle becomes empty, anything else stays.
pub open spec fn cleared(c: CellType) -> CellType {
    if c == CellType::Blocked { CellType::Empty } else { c }
}

/// Visits the cells row by row and clears each obstacle whose draw falls
/// below `limit` (in the top 24 bits of the draw); only obstacles draw.
fn reduce_obstacles(grid: &mut PathGrid, rng: &mut StdRng, limit: u32)
    requires
        old(grid).wf(),
    ensures
        final(grid).wf(),
        final(grid).same_frame(old(grid)),
        only_blocks_removed(old(grid), final(grid)),
        limit == 0 ==> forall|p: GridPos| #[trigger] old(grid).in_bounds(p) ==> final(grid).cell(p) == old(grid).cell(p),
        limit >= 16777216 ==> forall|p: GridPos| #[trigger] old(grid).in_bounds(p) ==> final(grid).cell(p) == cleared(old(grid).cell(p)),
{
    let ghost g0 = *grid;
    let mut y: usize = 0;
    while y < grid.height
        invariant
            grid.wf(),
            grid.same_frame(&g0),
            only_blocks_removed(&g0, grid),
            y <= grid.height,
            forall|p: GridPos| #[trigger] g0.in_bounds(p) && p.y >= y ==> grid.cell(p) == g0.cell(p),
            limit == 0 ==> forall|p: GridPos| #[trigger] g0.in_bounds(p) ==> grid.cell(p) == g0.cell(p),
            limit >= 16777216 ==> forall|p: GridPos| #[trigger] g0.in_bounds(p) && p.y < y ==> grid.cell(p) == cleared(g0.cell(p)),
        decreases grid.height - y,
    {
        let mut x: usize = 0;
        while x < grid.width
            invariant
                grid.wf(),
                grid.same_frame(&g0),
                only_blocks_removed(&g0, grid),
                y < grid.height,
                x <= grid.width,
                forall|p: GridPos| #[trigger] g0.in_bounds(p) && (p.y > y || (p.y == y && p.x >= x)) ==> grid.cell(p) == g0.cell(p),
                limit == 0 ==> forall|p: GridPos| #[trigger] g0.in_bounds(p) ==> grid.cell(p) == g0.cell(p),
                limit >= 16777216 ==> forall|p: GridPos| #[trigger] g0.in_bounds(p) && (p.y < y || (p.y == y && p.x < x)) ==> grid.cell(p) == cleared(g0.cell(p)),
            decreases grid.width - x,
        {
            let pos = GridPos::new(x, y);
            assert(g0.in_bounds(pos));
            assert(grid.cell(pos) == g0.cell(pos));
            if grid.get_cell(pos) == Some(CellType::Blocked) {
                let draw = random_bits(rng);
                assert(draw >> 8u32 < 16777216u32) by (bit_vector);
                if (draw >> 8u32) < limit {
                    let ghost before = *grid;
                    grid.set_cell(pos, CellType::Empty);
                    assert forall|p: GridPos| #[trigger] g0.in_bounds(p) implies grid.cell(p) == (if p == pos {
                        CellType::Empty
                    } else {
                        before.cell(p)
                    }) by {
                        assert(grid.in_bounds(p));
                    }
                    assert forall|p: GridPos| g0.in_bounds(p) implies #[trigger] grid.cell(p) == g0.cell(p) || (g0.cell(
                        p,
                    ) == CellType::Blocked && grid.cell(p) == CellType::Empty) by {
                        assert(grid.in_bounds(p));
                        assert(before.in_bounds(p));
                        assert(before.cell(p) == g0.cell(p) || (g0.cell(p) == CellType::Blocked && before.cell(p)
                            == CellType::Empty));
                    }
                }
            }
            x += 1;
        }
        y += 1;
    }
}

/// `p` lies on the outer ring of cells of `g`.
pub open spec fn on_border(g: &PathGrid, p: GridPos) -> bool {
    g.in_bounds(p) && (p.x == 0 || p.y == 0 || p.x + 1 == g.width || p.y + 1 == g.height)
}

/// Every cell of the outer ring can be walked on.
pub open spec fn border_clear(g: &PathGrid) -> bool {
    forall|p: GridPos| on_border(g, p) ==> #[trigger] g.traversable(p)
}

proof fn lemma_layout_border_clear(g: &PathGrid)
    requires
        generated_layout(g),
    ensures
        border_clear(g),
{
    assert forall|p: GridPos| on_border(g, p) implies #[trigger] g.traversable(p) by {
        assert(g.cell(p) == CellType::Empty || (g.cell(p) == CellType::Blocked && interior(g, p)));
    }
}

proof fn lemma_walk_refl(g: &PathGrid, a: GridPos)
    requires
        g.traversable(a),
    ensures
        path_exists(g, a, a),
{
    let q = seq![a];
    assert(is_grid_path(g, q, a, a));
}

proof fn lemma_walk_extend(g: &PathGrid, a: GridPos, b: GridPos, c: GridPos)
    requires
        path_exists(g, a, b),
        adjacent(b, c),
        g.traversable(c),
    ensures
        path_exists(g, a, c),
{
    let q = choose|q: Seq<GridPos>| is_grid_path(g, q, a, b);
    let q2 = q.push(c);
    assert forall|i: int| 0 <= i < q2.len() implies #[trigger] g.traversable(q2[i]) by {
        if i < q.len() {
            assert(q2[i] == q[i]);
        }
    }
    assert forall|i: int| 0 <= i < q2.len() - 1 implies #[trigger] adjacent(q2[i], q2[i + 1]) by {
        if i < q.len() - 1 {
            assert(q2[i] == q[i] && q2[i + 1] == q[i + 1]);
            assert(adjacent(q[i], q[i + 1]));
        } else {
            assert(q2[i] == b && q2[i + 1] == c);
        }
    }
    assert(is_grid_path(g, q2, a, c));
}

proof fn lemma_walk_reverse(g: &PathGrid, a: GridPos, b: GridPos)
    requires
        path_exists(g, a, b),
    ensures
        path_exists(g, b, a),
{
    let q = choose|q: Seq<GridPos>| is_grid_path(g, q, a, b);
    let r = q.reverse();
    assert forall|i: int| 0 <= i < r.len() implies #[trigger] g.traversable(r[i]) by {
        assert(r[i] == q[q.len() - 1 - i]);
    }
    assert forall|i: int| 0 <= i < r.len() - 1 implies #[trigger] adjacent(r[i], r[i + 1]) by {
        let j = q.len() - 2 - i;
        assert(r[i] == q[j + 1] && r[i + 1] == q[j]);
        assert(adjacent(q[j], q[j + 1]));
    }
    assert(is_grid_path(g, r, b, a));
}

proof fn lemma_walk_join(g: &PathGrid, a: GridPos, b: GridPos, c: GridPos)
    requires
        path_exists(g, a, b),
        path_exists(g, b, c),
    ensures
        path_exists(g, a, c),
{
    let q1 = choose|q: Seq<GridPos>| is_grid_path(g, q, a, b);
    let q2 = choose|q: Seq<GridPos>| is_grid_path(g, q, b, c);
    let tail = q2.subrange(1, q2.len() as int);
    let r = q1 + tail;
    assert forall|i: int| 0 <= i < r.len() implies #[trigger] g.traversable(r[i]) by {
        if i < q1.len() {
            assert(r[i] == q1[i]);
        } else {
            assert(r[i] == q2[i - q1.len() + 1]);
        }
    }
    assert forall|i: int| 0 <= i < r.len() - 1 implies #[trigger] adjacent(r[i], r[i + 1]) by {
        if i < q1.len() - 1 {
            assert(r[i] == q1[i] && r[i + 1] == q1[i + 1]);
            assert(adjacent(q1[i], q1[i + 1]));
        } else if i == q1.len() - 1 {
            assert(r[i] == b && r[i + 1] == q2[1]);
            assert(adjacent(q2[0], q2[1]));
        } else {
            let j = i - q1.len() + 1;
            assert(r[i] == q2[j] && r[i + 1] == q2[j + 1]);
            assert(adjacent(q2[j], q2[j + 1]));
        }
    }
    if q2.len() == 1 {
        assert(r =~= q1);
    }
    assert(is_grid_path(g, r, a, c));
}

proof fn lemma_column_walk(g: &PathGrid, x: usize, y1: usize, y2: usize)
    requires
        y1 <= y2,
        forall|y: usize| y1 <= y <= y2 ==> #[trigger] g.traversable(GridPos { x, y }),
    ensures
        path_exists(g, GridPos { x, y: y1 }, GridPos { x, y: y2 }),
    decreases y2 - y1,
{
    if y1 == y2 {
        lemma_walk_refl(g, GridPos { x, y: y1 });
    } else {
        lemma_column_walk(g, x, y1, (y2 - 1) as usize);
        assert(g.traversable(GridPos { x, y: y2 }));
        lemma_walk_extend(g, GridPos { x, y: y1 }, GridPos { x, y: (y2 - 1) as usize }, GridPos { x, y: y2 });
    }
}

proof fn lemma_row_walk(g: &PathGrid, y: usize, x1: usize, x2: usize)
    requires
        x1 <= x2,
        forall|x: usize| x1 <= x <= x2 ==> #[trigger] g.traversable(GridPos { x, y }),
    ensures
        path_exists(g, GridPos { x: x1, y }, GridPos { x: x2, y }),
    decreases x2 - x1,
{
    if x1 == x2 {
        lemma_walk_refl(g, GridPos { x: x1, y });
    } else {
        lemma_row_walk(g, y, x1, (x2 - 1) as usize);
        assert(g.traversable(GridPos { x: x2, y }));
        lemma_walk_extend(g, GridPos { x: x1, y }, GridPos { x: (x2 - 1) as usize, y }, GridPos { x: x2, y });
    }
}

proof fn lemma_border_to_corner(g: &PathGrid, p: GridPos)
    requires
        border_clear(g),
        on_border(g, p),
    ensures
        path_exists(g, p, GridPos { x: 0, y: 0 }),
{
    let corner = GridPos { x: 0, y: 0 };
    let w = g.width;
    let h = g.height;
    assert forall|y: usize| 0 <= y <= (h - 1) as usize implies #[trigger] g.traversable(GridPos { x: 0, y }) by {
        assert(on_border(g, GridPos { x: 0, y }));
    }
    assert forall|x: usize| 0 <= x <= (w - 1) as usize implies #[trigger] g.traversable(GridPos { x, y: 0 }) by {
        assert(on_border(g, GridPos { x, y: 0 }));
    }
    assert forall|y: usize| 0 <= y <= (h - 1) as usize implies #[trigger] g.traversable(GridPos { x: (w - 1) as usize, y }) by {
        assert(on_border(g, GridPos { x: (w - 1) as usize, y }));
    }
    assert forall|x: usize| 0 <= x <= (w - 1) as usize implies #[trigger] g.traversable(GridPos { x, y: (h - 1) as usize }) by {
        assert(on_border(g, GridPos { x, y: (h - 1) as usize }));
    }
    if p.x == 0 {
        lemma_column_walk(g, 0, 0, p.y);
        lemma_walk_reverse(g, corner, p);
    } else if p.y == 0 {
        lemma_row_walk(g, 0, 0, p.x);
        lemma_walk_reverse(g, corner, p);
    } else if p.x + 1 == w {
        let top_right = GridPos { x: p.x, y: 0 };
        lemma_column_walk(g, p.x, 0, p.y);
        lemma_walk_reverse(g, top_right, p);
        lemma_row_walk(g, 0, 0, p.x);
        lemma_walk_reverse(g, corner, top_right);
        lemma_walk_join(g, p, top_right, corner);
    } else {
        let bottom_left = GridPos { x: 0, y: p.y };
        lemma_row_walk(g, p.y, 0, p.x);
        lemma_walk_reverse(g, bottom_left, p);
        lemma_column_walk(g, 0, 0, p.y);
        lemma_walk_reverse(g, corner, bottom_left);
        lemma_walk_join(g, p, bottom_left, corner);
    }
}

/// On a map whose outer ring is clear, any two ring cells are connected.
proof fn lemma_border_connected(g: &PathGrid, p: GridPos, q: GridPos)
    requires
        border_clear(g),
        on_border(g, p),
        on_border(g, q),
    ensures
        path_exists(g, p, q),
{
    let corner = GridPos { x: 0, y: 0 };
    lemma_border_to_corner(g, p);
    lemma_border_to_corner(g, q);
    lemma_walk_reverse(g, q, corner);
    lemma_walk_join(g, p, corner, q);
}

proof fn lemma_layout_after_adding(old: &PathGrid, new: &PathGrid)
    requires
        generated_layout(old),
        only_blocks_added(old, new),
        new.same_frame(old),
    ensures
        generated_layout(new),
{
    assert forall|p: GridPos| new.in_bounds(p) implies #[trigger] new.cell(p) == CellType::Empty || (new.cell(p)
        == CellType::Blocked && interior(new, p)) by {
        assert(old.in_bounds(p));
        assert(old.cell(p) == CellType::Empty || (old.cell(p) == CellType::Blocked && interior(old, p)));
    }
}

proof fn lemma_layout_after_removing(old: &PathGrid, new: &PathGrid)
    requires
        generated_layout(old),
        only_blocks_removed(old, new),
        new.same_frame(old),
    ensures
        generated_layout(new),
{
    assert forall|p: GridPos| new.in_bounds(p) implies #[trigger] new.cell(p) == CellType::Empty || (new.cell(p)
        == CellType::Blocked && interior(new, p)) by {
        assert(old.in_bounds(p));
        assert(old.cell(p) == CellType::Empty || (old.cell(p) == CellType::Blocked && interior(old, p)));
    }
}

proof fn lemma_layout_same_cells(a: &PathGrid, b: &PathGrid)
    requires
        generated_layout(b),
        a.same_cells(b),
    ensures
        generated_layout(a),
{
    assert forall|p: GridPos| a.in_bounds(p) implies #[trigger] a.cell(p) == CellType::Empty || (a.cell(p)
        == CellType::Blocked && interior(a, p)) by {
        assert(b.in_bounds(p));
        assert(b.cell(p) == CellType::Empty || (b.cell(p) == CellType::Blocked && interior(b, p)));
    }
}

proof fn lemma_blocks_added_trans(a: &PathGrid, b: &PathGrid, c: &PathGrid)
    requires
        only_blocks_added(a, b),
        only_blocks_added(b, c),
        b.same_frame(a),
    ensures
        only_blocks_added(a, c),
{
    assert forall|p: GridPos| a.in_bounds(p) implies #[trigger] c.cell(p) == a.cell(p) || (a.cell(p)
        == CellType::Empty && c.cell(p) == CellType::Blocked && interior(a, p)) by {
        assert(b.in_bounds(p));
        assert(b.cell(p) == a.cell(p) || (a.cell(p) == CellType::Empty && b.cell(p) == CellType::Blocked));
        assert(c.cell(p) == b.cell(p) || (b.cell(p) == CellType::Empty && c.cell(p) == CellType::Blocked));
    }
}

proof fn lemma_same_cells_trans(a: &PathGrid, b: &PathGrid, c: &PathGrid)
    requires
        a.same_cells(b),
        b.same_cells(c),
    ensures
        a.same_cells(c),
{
    assert forall|p: GridPos| a.in_bounds(p) implies #[trigger] a.cell(p) == c.cell(p) by {
        assert(b.in_bounds(p));
    }
}

proof fn lemma_path_on_same_cells(a: &PathGrid, b: &PathGrid)
    requires
        a.same_cells(b),
        path_exists(b, b.entry_point, b.exit_point),
    ensures
        path_exists(a, a.entry_point, a.exit_point),
{
    let w = choose|w: Seq<GridPos>| #[trigger] is_grid_path(b, w, b.entry_point, b.exit_point);
    assert forall|i: int| 0 <= i < w.len() implies #[trigger] a.traversable(w[i]) by {
        assert(b.traversable(w[i]));
        assert(a.in_bounds(w[i]));
    }
    assert(is_grid_path(a, w, a.entry_point, a.exit_point));
}

proof fn lemma_restored(g0: &PathGrid, before: &PathGrid, now: &PathGrid)
    requires
        before.same_frame(g0),
        only_blocks_added(g0, before),
        before.same_cells(g0) || path_exists(before, before.entry_point, before.exit_point),
        now.same_cells(before),
    ensures
        only_blocks_added(g0, now),
        now.same_cells(g0) || path_exists(now, now.entry_point, now.exit_point),
{
    assert forall|p: GridPos| g0.in_bounds(p) implies #[trigger] now.cell(p) == g0.cell(p) || (g0.cell(p)
        == CellType::Empty && now.cell(p) == CellType::Blocked && interior(g0, p)) by {
        assert(before.in_bounds(p));
        assert(now.in_bounds(p));
    }
    if before.same_cells(g0) {
        lemma_same_cells_trans(now, before, g0);
    } else {
        lemma_path_on_same_cells(now, before);
    }
}

/// Places up to `target_obstacles` obstacle clusters, the first third near
/// the centre, the next third wider, the rest almost anywhere; a cluster that
/// would cut the entry off from the exit is taken back. Gives up after three
/// attempts per target.
fn place_strategic_obstacles_with_validation(grid: &mut PathGrid, rng: &mut StdRng, target_obstacles: usize)
    requires
        unified_frame(old(grid)),
        generated_layout(old(grid)),
        target_obstacles <= usize::MAX / 3,
    ensures
        unified_frame(final(grid)),
        final(grid).same_frame(old(grid)),
        generated_layout(final(grid)),
        only_blocks_added(old(grid), final(grid)),
        target_obstacles == 0 ==> final(grid).same_cells(old(grid)),
        final(grid).same_cells(old(grid)) || path_exists(final(grid), final(grid).entry_point, final(grid).exit_point),
{
    let ghost g0 = *grid;
    assert(grid.same_cells(&g0));
    let mut placed: usize = 0;
    let mut placement_attempts: usize = 0;
    let max_placement_attempts = target_obstacles * 3;
    while placed < target_obstacles && placement_attempts < max_placement_attempts
        invariant
            unified_frame(grid),
            grid.same_frame(&g0),
            generated_layout(grid),
            target_obstacles <= usize::MAX / 3,
            max_placement_attempts == target_obstacles * 3,
            placement_attempts <= max_placement_attempts,
            unified_frame(&g0),
            only_blocks_added(&g0, grid),
            target_obstacles == 0 ==> grid.same_cells(&g0),
            grid.same_cells(&g0) || path_exists(grid, grid.entry_point, grid.exit_point),
        decreases max_placement_attempts - placement_attempts,
    {
        placement_attempts += 1;
        let center = if placed < target_obstacles / 3 {
            let cx = random_usize(rng, 10, 22);
            let cy = random_usize(rng, 6, 12);
            GridPos::new(cx, cy)
        } else if placed < (2 * target_obstacles) / 3 {
            let cx = random_usize(rng, 6, 26);
            let cy = random_usize(rng, 3, 15);
            GridPos::new(cx, cy)
        } else {
            let cx = random_usize(rng, 4, 28);
            let cy = random_usize(rng, 2, 16);
            GridPos::new(cx, cy)
        };
        let old_grid = copy_grid(grid);
        let ghost before = *grid;
        if place_strategic_obstacle_cluster(grid, rng, center, 1, 2) {
            proof {
                lemma_layout_after_adding(&before, grid);
                lemma_blocks_added_trans(&g0, &before, grid);
            }
            match find_path(grid, grid.entry_point, grid.exit_point) {
                Option::Some(path) => {
                    assert(is_grid_path(grid, path@, grid.entry_point, grid.exit_point));
                    placed += 1;
                },
                Option::None => {
                    *grid = old_grid;
                    proof {
                        lemma_layout_same_cells(grid, &before);
                        lemma_restored(&g0, &before, grid);
                    }
                },
            }
        } else {
            proof {
                lemma_layout_after_adding(&before, grid);
                assert forall|p: GridPos| grid.in_bounds(p) implies #[trigger] grid.cell(p) == before.cell(p) by {
                    assert(before.in_bounds(p));
                }
                lemma_restored(&g0, &before, grid);
            }
        }
    }
}

/// One of the five obstacles every fallback layout has.
pub open spec fn fixed_fallback_obstacle(p: GridPos) -> bool {
    ||| p == GridPos { x: 8, y: 3 }
    ||| p == GridPos { x: 12, y: 14 }
    ||| p == GridPos { x: 16, y: 6 }
    ||| p == GridPos { x: 20, y: 12 }
    ||| p == GridPos { x: 24, y: 8 }
}

/// Where the fallback layout may add random obstacles: columns 6 to 25,
/// rows 3 to 14.
pub open spec fn fallback_region(p: GridPos) -> bool {
    6 <= p.x < 26 && 3 <= p.y < 15
}

/// The obstacles of `g` are exactly the five fixed ones.
pub open spec fn only_fixed_obstacles(g: &PathGrid) -> bool {
    forall|p: GridPos| #[trigger] g.in_bounds(p) ==> (g.cell(p) == CellType::Blocked <==> fixed_fallback_obstacle(p))
}

/// `after` is `before` with the in-grid cell `p` blocked and every other cell
/// as it was.
pub open spec fn with_cell_blocked(before: &PathGrid, after: &PathGrid, p: GridPos) -> bool {
    &&& after.same_frame(before)
    &&& after.in_bounds(p)
    &&& after.cell(p) == CellType::Blocked
    &&& forall|q: GridPos| #[trigger] after.in_bounds(q) && q != p ==> after.cell(q) == before.cell(q)
}

/// One try of the fallback layout at `p`: `trial` is `before` with `p`
/// blocked; `after` keeps that obstacle when the entry still reaches the exit
/// on `trial`, and is `before` again otherwise.
pub open spec fn fallback_try(before: &PathGrid, trial: &PathGrid, after: &PathGrid, p: GridPos) -> bool {
    &&& with_cell_blocked(before, trial, p)
    &&& if path_exists(trial, trial.entry_point, trial.exit_point) {
        after.same_cells(trial)
    } else {
        after.same_cells(before)
    }
}

/// A run of the fallback layout's random tries that ends on `end`: five
/// draws in the fallback region, tried in turn on the layouts that hold the
/// five fixed obstacles and the draws kept so far.
pub open spec fn fallback_run(
    draws: Seq<GridPos>,
    layouts: Seq<PathGrid>,
    trials: Seq<PathGrid>,
    end: &PathGrid,
) -> bool {
    &&& draws.len() == 5
    &&& trials.len() == 5
    &&& layouts.len() == 6
    &&& only_fixed_obstacles(&layouts[0])
    &&& *end == layouts[5]
    &&& forall|i: int| #![trigger draws[i]] 0 <= i < 5 ==> fallback_region(draws[i]) && fallback_try(
        &layouts[i],
        &trials[i],
        &layouts[i + 1],
        draws[i],
    )
}

proof fn lemma_run_keeps_frame(draws: Seq<GridPos>, layouts: Seq<PathGrid>, trials: Seq<PathGrid>, j: int)
    requires
        draws.len() == 5,
        trials.len() == 5,
        layouts.len() == 6,
        forall|k: int| #![trigger draws[k]] 0 <= k < 5 ==> fallback_try(&layouts[k], &trials[k], &layouts[k + 1], draws[k]),
        0 <= j <= 5,
    ensures
        layouts[j].same_frame(&layouts[0]),
    decreases j,
{
    if j > 0 {
        lemma_run_keeps_frame(draws, layouts, trials, j - 1);
        assert(fallback_try(&layouts[j - 1], &trials[j - 1], &layouts[j], draws[j - 1]));
    }
}

proof fn lemma_blocked_persists(
    draws: Seq<GridPos>,
    layouts: Seq<PathGrid>,
    trials: Seq<PathGrid>,
    i: int,
    j: int,
    p: GridPos,
)
    requires
        draws.len() == 5,
        trials.len() == 5,
        layouts.len() == 6,
        forall|k: int| #![trigger draws[k]] 0 <= k < 5 ==> fallback_try(&layouts[k], &trials[k], &layouts[k + 1], draws[k]),
        0 <= i <= j <= 5,
        layouts[i].in_bounds(p),
        layouts[i].cell(p) == CellType::Blocked,
    ensures
        layouts[j].in_bounds(p),
        layouts[j].cell(p) == CellType::Blocked,
    decreases j - i,
{
    if i < j {
        let d = draws[i];
        let before = layouts[i];
        let trial = trials[i];
        let after = layouts[i + 1];
        assert(fallback_try(&before, &trial, &after, d));
        assert(trial.in_bounds(p));
        assert(trial.cell(p) == CellType::Blocked);
        assert(after.in_bounds(p));
        assert(after.cell(p) == CellType::Blocked);
        lemma_blocked_persists(draws, layouts, trials, i + 1, j, p);
    }
}

/// Every random draw of a fallback run whose obstacle still leaves a way from
/// the entry to the exit (on the layout of its turn) is blocked in the final
/// layout; each draw lies in the fallback region, and the five fixed
/// obstacles stay.
pub proof fn law_fallback_keeps_safe_draws(
    draws: Seq<GridPos>,
    layouts: Seq<PathGrid>,
    trials: Seq<PathGrid>,
    end: &PathGrid,
)
    requires
        fallback_run(draws, layouts, trials, end),
    ensures
        forall|i: int| 0 <= i < 5 ==> fallback_region(#[trigger] draws[i]),
        forall|i: int| 0 <= i < 5 && path_exists(&trials[i], trials[i].entry_point, trials[i].exit_point)
            ==> end.in_bounds(#[trigger] draws[i]) && end.cell(draws[i]) == CellType::Blocked,
        forall|p: GridPos| fixed_fallback_obstacle(p) && #[trigger] end.in_bounds(p) ==> end.cell(p) == CellType::Blocked,
{
    assert forall|i: int| 0 <= i < 5 && path_exists(&trials[i], trials[i].entry_point, trials[i].exit_point)
        implies end.in_bounds(#[trigger] draws[i]) && end.cell(draws[i]) == CellType::Blocked by {
        let d = draws[i];
        assert(fallback_try(&layouts[i], &trials[i], &layouts[i + 1], d));
        assert(layouts[i + 1].in_bounds(d));
        lemma_blocked_persists(draws, layouts, trials, i + 1, 5, d);
    }
    assert forall|p: GridPos| fixed_fallback_obstacle(p) && #[trigger] end.in_bounds(p) implies end.cell(p)
        == CellType::Blocked by {
        lemma_run_keeps_frame(draws, layouts, trials, 5);
        assert(layouts[0].in_bounds(p));
        lemma_blocked_persists(draws, layouts, trials, 0, 5, p);
    }
}

/// Clears every obstacle, puts five fixed obstacles back, then tries five
/// random ones, each taken back if it cuts the entry off from the exit.
fn create_fallback_obstacle_layout(grid: &mut PathGrid, rng: &mut StdRng)
    requires
        unified_frame(old(grid)),
        generated_layout(old(grid)),
    ensures
        unified_frame(final(grid)),
        final(grid).same_frame(old(grid)),
        generated_layout(final(grid)),
        forall|p: GridPos| #[trigger] fixed_fallback_obstacle(p) ==> final(grid).cell(p) == CellType::Blocked,
        forall|p: GridPos| #[trigger] final(grid).in_bounds(p) && final(grid).cell(p) == CellType::Blocked
            ==> fixed_fallback_obstacle(p) || fallback_region(p),
        only_fixed_obstacles(final(grid)) || path_exists(final(grid), final(grid).entry_point, final(grid).exit_point),
        exists|draws: Seq<GridPos>, layouts: Seq<PathGrid>, trials: Seq<PathGrid>|
            #[trigger] fallback_run(draws, layouts, trials, final(grid)),
{
    let ghost g0 = *grid;
    let mut y: usize = 0;
    while y < grid.height
        invariant
            unified_frame(grid),
            grid.same_frame(&g0),
            generated_layout(grid),
            y <= grid.height,
            forall|p: GridPos| #[trigger] grid.in_bounds(p) && p.y < y ==> grid.cell(p) == CellType::Empty,
        decreases grid.height - y,
    {
        let mut x: usize = 0;
        while x < grid.width
            invariant
                unified_frame(grid),
                grid.same_frame(&g0),
                generated_layout(grid),
                y < grid.height,
                x <= grid.width,
                forall|p: GridPos| #[trigger] grid.in_bounds(p) && (p.y < y || (p.y == y && p.x < x))
                    ==> grid.cell(p) == CellType::Empty,
            decreases grid.width - x,
        {
            let pos = GridPos::new(x, y);
            let ghost before = *grid;
            if grid.get_cell(pos) == Some(CellType::Blocked) {
                grid.set_cell(pos, CellType::Empty);
                proof {
                    assert forall|p: GridPos| before.in_bounds(p) implies #[trigger] grid.cell(p) == before.cell(p)
                        || (before.cell(p) == CellType::Blocked && grid.cell(p) == CellType::Empty) by {
                        assert(grid.in_bounds(p));
                    }
                    lemma_layout_after_removing(&before, grid);
                    assert forall|p: GridPos| #[trigger] grid.in_bounds(p) implies grid.cell(p) == (if p == pos {
                        CellType::Empty
                    } else {
                        before.cell(p)
                    }) by {
                        assert(before.in_bounds(p));
                    }
                }
            } else {
                assert(before.cell(pos) == CellType::Empty) by {
                    assert(grid.in_bounds(pos));
                }
            }
            proof {
                assert forall|p: GridPos| #[trigger] grid.in_bounds(p) && (p.y < y || (p.y == y && p.x < x + 1))
                    implies grid.cell(p) == CellType::Empty by {
                    assert(before.in_bounds(p));
                    if p != pos {
                        assert(grid.cell(p) == before.cell(p));
                    }
                }
            }
            x += 1;
        }
        y += 1;
    }
    let mut safe_obstacles: Vec<GridPos> = Vec::new();
    safe_obstacles.push(GridPos::new(8, 3));
    safe_obstacles.push(GridPos::new(12, 14));
    safe_obstacles.push(GridPos::new(16, 6));
    safe_obstacles.push(GridPos::new(20, 12));
    safe_obstacles.push(GridPos::new(24, 8));
    let ghost fixed = seq![
        GridPos { x: 8, y: 3 },
        GridPos { x: 12, y: 14 },
        GridPos { x: 16, y: 6 },
        GridPos { x: 20, y: 12 },
        GridPos { x: 24, y: 8 },
    ];
    assert(safe_obstacles@ =~= fixed);
    assert forall|p: GridPos| fixed_fallback_obstacle(p) <==> fixed.contains(p) by {
        if fixed_fallback_obstacle(p) {
            if p == fixed[0] {} else if p == fixed[1] {} else if p == fixed[2] {} else if p == fixed[3] {} else {
                assert(p == fixed[4]);
            }
        }
    }
    let mut k: usize = 0;
    while k < safe_obstacles.len()
        invariant
            unified_frame(grid),
            grid.same_frame(&g0),
            unified_frame(&g0),
            generated_layout(grid),
            safe_obstacles@ == fixed,
            fixed.len() == 5,
            k <= 5,
            forall|j: int| 0 <= j < fixed.len() ==> #[trigger] interior(&g0, fixed[j]),
            forall|p: GridPos| #[trigger] grid.in_bounds(p) ==> (grid.cell(p) == CellType::Blocked
                <==> fixed.take(k as int).contains(p)),
        decreases safe_obstacles.len() - k,
    {
        let pos = safe_obstacles[k];
        assert(interior(&g0, fixed[k as int]));
        assert(fixed.take(k as int + 1) =~= fixed.take(k as int).push(pos));
        if pos.x < grid.width && pos.y < grid.height {
            let ghost before = *grid;
            grid.set_cell(pos, CellType::Blocked);
            proof {
                assert forall|p: GridPos| grid.in_bounds(p) implies #[trigger] grid.cell(p) == CellType::Empty || (
                grid.cell(p) == CellType::Blocked && interior(grid, p)) by {
                    assert(before.in_bounds(p));
                    assert(before.cell(p) == CellType::Empty || (before.cell(p) == CellType::Blocked && interior(
                        &before,
                        p,
                    )));
                }
                assert forall|p: GridPos| #[trigger] grid.in_bounds(p) implies (grid.cell(p) == CellType::Blocked
                    <==> fixed.take(k as int + 1).contains(p)) by {
                    assert(before.in_bounds(p));
                    let t = fixed.take(k as int);
                    let t1 = fixed.take(k as int + 1);
                    if t.contains(p) {
                        let j = choose|j: int| 0 <= j < t.len() && t[j] == p;
                        assert(t1[j] == p);
                    }
                    if t1.contains(p) && p != pos {
                        let j = choose|j: int| 0 <= j < t1.len() && t1[j] == p;
                        assert(j < k);
                        assert(t[j] == p);
                    }
                    if p == pos {
                        assert(t1[k as int] == p);
                    } else {
                        assert(grid.cell(p) == before.cell(p));
                    }
                }
            }
        }
        k += 1;
    }
    assert(fixed.take(5) =~= fixed);
    assert(only_fixed_obstacles(grid));
    assert forall|p: GridPos| #[trigger] fixed_fallback_obstacle(p) implies grid.cell(p) == CellType::Blocked by {
        assert(grid.in_bounds(p));
    }
    let ghost mut draws: Seq<GridPos> = Seq::empty();
    let ghost mut trials: Seq<PathGrid> = Seq::empty();
    let ghost mut layouts: Seq<PathGrid> = seq![*grid];
    let mut n: usize = 0;
    while n < 5
        invariant
            unified_frame(grid),
            grid.same_frame(&g0),
            generated_layout(grid),
            n <= 5,
            draws.len() == n,
            trials.len() == n,
            layouts.len() == n + 1,
            layouts[0].same_frame(&g0),
            only_fixed_obstacles(&layouts[0]),
            *grid == layouts[n as int],
            forall|i: int| #![trigger draws[i]] 0 <= i < n ==> fallback_region(draws[i]) && fallback_try(
                &layouts[i],
                &trials[i],
                &layouts[i + 1],
                draws[i],
            ),
            forall|p: GridPos| #[trigger] fixed_fallback_obstacle(p) ==> grid.cell(p) == CellType::Blocked,
            forall|p: GridPos| #[trigger] grid.in_bounds(p) && grid.cell(p) == CellType::Blocked
                ==> fixed_fallback_obstacle(p) || fallback_region(p),
            only_fixed_obstacles(grid) || path_exists(grid, grid.entry_point, grid.exit_point),
        decreases 5 - n,
    {
        let px = random_usize(rng, 6, 26);
        let py = random_usize(rng, 3, 15);
        let pos = GridPos::new(px, py);
        let old_grid = copy_grid(grid);
        let ghost before = *grid;
        grid.set_cell(pos, CellType::Blocked);
        let ghost trial = *grid;
        proof {
            assert(before.in_bounds(pos));
            assert(trial.same_frame(&before));
            assert(trial.in_bounds(pos));
            assert(trial.cell(pos) == CellType::Blocked);
            assert forall|q: GridPos| #[trigger] trial.in_bounds(q) && q != pos implies trial.cell(q) == before.cell(q) by {
                assert(grid.in_bounds(q));
            }
            assert(with_cell_blocked(&before, &trial, pos));
            assert forall|p: GridPos| grid.in_bounds(p) implies #[trigger] grid.cell(p) == CellType::Empty || (grid.cell(
                p,
            ) == CellType::Blocked && interior(grid, p)) by {
                assert(before.in_bounds(p));
                assert(before.cell(p) == CellType::Empty || (before.cell(p) == CellType::Blocked && interior(&before, p)));
            }
            assert forall|p: GridPos| #[trigger] fixed_fallback_obstacle(p) implies grid.cell(p) == CellType::Blocked by {
                assert(grid.in_bounds(p));
                assert(before.cell(p) == CellType::Blocked);
            }
            assert forall|p: GridPos| #[trigger] grid.in_bounds(p) && grid.cell(p) == CellType::Blocked
                implies fixed_fallback_obstacle(p) || fallback_region(p) by {
                assert(before.in_bounds(p));
                if p != pos {
                    assert(before.cell(p) == CellType::Blocked);
                }
            }
        }
        match find_path(grid, grid.entry_point, grid.exit_point) {
            Option::Some(path) => {
                assert(is_grid_path(grid, path@, grid.entry_point, grid.exit_point));
            },
            Option::None => {
                *grid = old_grid;
                proof {
                    lemma_layout_same_cells(grid, &before);
                    assert forall|p: GridPos| #[trigger] fixed_fallback_obstacle(p) implies grid.cell(p) == CellType::Blocked by {
                        assert(grid.in_bounds(p));
                        assert(before.cell(p) == CellType::Blocked);
                    }
                    assert forall|p: GridPos| #[trigger] grid.in_bounds(p) && grid.cell(p) == CellType::Blocked
                        implies fixed_fallback_obstacle(p) || fallback_region(p) by {
                        assert(before.in_bounds(p));
                        assert(before.cell(p) == CellType::Blocked);
                    }
                    if only_fixed_obstacles(&before) {
                        assert forall|p: GridPos| #[trigger] grid.in_bounds(p) implies (grid.cell(p) == CellType::Blocked
                            <==> fixed_fallback_obstacle(p)) by {
                            assert(before.in_bounds(p));
                        }
                    } else {
                        lemma_path_on_same_cells(grid, &before);
                    }
                }
            },
        }
        proof {
            assert(fallback_try(&before, &trial, grid, pos));
            let ghost old_draws = draws;
            let ghost old_trials = trials;
            let ghost old_layouts = layouts;
            draws = draws.push(pos);
            trials = trials.push(trial);
            layouts = layouts.push(*grid);
            assert forall|i: int| #![trigger draws[i]] 0 <= i < n + 1 implies fallback_region(draws[i]) && fallback_try(
                &layouts[i],
                &trials[i],
                &layouts[i + 1],
                draws[i],
            ) by {
                if i < n {
                    assert(old_draws[i] == draws[i]);
                    assert(old_trials[i] == trials[i]);
                    assert(old_layouts[i] == layouts[i]);
                    assert(old_layouts[i + 1] == layouts[i + 1]);
                } else {
                    assert(layouts[i] == before);
                }
            }
        }
        n += 1;
    }
    proof {
        assert(fallback_run(draws, layouts, trials, grid));
    }
}

/// The length of a walk: the sum of the distances between consecutive cells.
pub open spec fn walk_length(p: Seq<GridPos>) -> nat
    decreases p.len(),
{
    if p.len() <= 1 {
        0
    } else {
        walk_length(p.drop_last()) + spec_manhattan(p[p.len() - 2], p[p.len() - 1])
    }
}

/// The walk is not empty and at least twice as long as the distance from
/// the map's entry to its exit.
pub open spec fn meets_length_requirement(p: Seq<GridPos>, g: &PathGrid) -> bool {
    p.len() > 0 && walk_length(p) >= 2 * spec_manhattan(g.entry_point, g.exit_point)
}

fn distance_u128(a: GridPos, b: GridPos) -> (r: u128)
    ensures
        r == spec_manhattan(a, b),
{
    let dx: u128 = if a.x >= b.x { (a.x - b.x) as u128 } else { (b.x - a.x) as u128 };
    let dy: u128 = if a.y >= b.y { (a.y - b.y) as u128 } else { (b.y - a.y) as u128 };
    dx + dy
}

/// How map generation ends: with a shortest route from entry to exit at
/// least twice as long as their distance, or on the fallback layout: its five
/// fixed obstacles, and what a run of five random tries kept of its draws.
pub open spec fn map_settled(g: &PathGrid) -> bool {
    ||| exists|p: Seq<GridPos>| #[trigger] is_shortest_path(g, p, g.entry_point, g.exit_point) && meets_length_requirement(p, g)
    ||| {
        &&& forall|p: GridPos| #[trigger] fixed_fallback_obstacle(p) ==> g.cell(p) == CellType::Blocked
        &&& exists|draws: Seq<GridPos>, layouts: Seq<PathGrid>, trials: Seq<PathGrid>|
            #[trigger] fallback_run(draws, layouts, trials, g)
    }
}

/// Whether `path` is at least twice as long as the way from the map's entry
/// straight to its exit.
pub fn validate_path_length_requirement(path: &[GridPos], grid: &PathGrid) -> (r: bool)
    ensures
        r == meets_length_requirement(path@, grid),
{
    if path.len() == 0 {
        return false;
    }
    let mut total: u128 = 0;
    let mut i: usize = 1;
    while i < path.len()
        invariant
            1 <= i <= path.len(),
            total == if walk_length(path@.take(i as int)) <= u128::MAX {
                walk_length(path@.take(i as int))
            } else {
                u128::MAX as nat
            },
        decreases path.len() - i,
    {
        let step = distance_u128(path[i - 1], path[i]);
        proof {
            let t = path@.take(i + 1);
            assert(t.drop_last() =~= path@.take(i as int));
            assert(t[t.len() - 2] == path@[i - 1] && t[t.len() - 1] == path@[i as int]);
        }
        total = total.saturating_add(step);
        i += 1;
    }
    assert(path@.take(path.len() as int) =~= path@);
    let direct = distance_u128(grid.entry_point, grid.exit_point);
    total >= 2 * direct
}

/// The standard map with obstacles: entry on the left edge and exit on the
/// right edge (rows 6 to 11), up to `target_obstacles` obstacle clusters;
/// while the shortest way through is shorter than twice the direct distance,
/// obstacles are thinned out (lightly for ten rounds, then more), and after
/// twenty rounds a simple fallback layout is used. The outer ring of the map
/// always stays clear, so the entry always reaches the exit.
pub fn generate_procedural_map(seed: u64, target_obstacles: usize) -> (r: PathGrid)
    requires
        target_obstacles <= usize::MAX / 3,
    ensures
        unified_frame(&r),
        r.entry_point.x == 0 && 6 <= r.entry_point.y < 12,
        r.exit_point.x == 31 && 6 <= r.exit_point.y < 12,
        generated_layout(&r),
        path_exists(&r, r.entry_point, r.exit_point),
        map_settled(&r),
{
    let mut rng = seeded_rng(seed);
    let mut grid = PathGrid::new_unified();
    let ghost fresh = grid;
    let ey = random_usize(&mut rng, 6, 12);
    grid.entry_point = GridPos::new(0, ey);
    let xy = random_usize(&mut rng, 6, 12);
    grid.exit_point = GridPos::new(31, xy);
    assert(generated_layout(&grid)) by {
        assert forall|p: GridPos| grid.in_bounds(p) implies #[trigger] grid.cell(p) == CellType::Empty || (grid.cell(p)
            == CellType::Blocked && interior(&grid, p)) by {
            assert(fresh.in_bounds(p));
            assert(grid.cell(p) == fresh.cell(p));
        }
    }
    place_strategic_obstacles_with_validation(&mut grid, &mut rng, target_obstacles);
    let mut attempts: u32 = 0;
    let max_attempts: u32 = 20;
    loop
        invariant_except_break
            attempts < max_attempts,
        invariant
            unified_frame(&grid),
            generated_layout(&grid),
            grid.entry_point.x == 0 && 6 <= grid.entry_point.y < 12,
            grid.exit_point.x == 31 && 6 <= grid.exit_point.y < 12,
            max_attempts == 20,
        ensures
            map_settled(&grid),
        decreases max_attempts - attempts,
    {
        match find_path(&grid, grid.entry_point, grid.exit_point) {
            Option::Some(path) => {
                if validate_path_length_requirement(&path, &grid) {
                    assert(is_shortest_path(&grid, path@, grid.entry_point, grid.exit_point));
                    break;
                }
            },
            Option::None => {},
        }
        attempts += 1;
        if attempts >= max_attempts {
            create_fallback_obstacle_layout(&mut grid, &mut rng);
            break;
        }
        let ghost before = grid;
        if attempts < max_attempts / 2 {
            reduce_obstacles(&mut grid, &mut rng, LIGHT_REDUCTION_LIMIT);
        } else {
            reduce_obstacles(&mut grid, &mut rng, HEAVY_REDUCTION_LIMIT);
        }
        proof {
            lemma_layout_after_removing(&before, &grid);
        }
    }
    proof {
        lemma_layout_border_clear(&grid);
        lemma_border_connected(&grid, grid.entry_point, grid.exit_point);
    }
    grid
}

/// Like `generate_procedural_map`, but the entry lies on a random edge and
/// the exit on the opposite edge, both away from the corners.
pub fn generate_procedural_map_with_random_sides(seed: u64, target_obstacles: usize) -> (r: PathGrid)
    requires
        target_obstacles <= usize::MAX / 3,
    ensures
        unified_frame(&r),
        exists|side: GridSide|
            on_side(r.entry_point, side, 32, 18) && #[trigger] on_side(r.exit_point, opposite_side(side), 32, 18),
        generated_layout(&r),
        path_exists(&r, r.entry_point, r.exit_point),
        map_settled(&r),
{
    let mut rng = seeded_rng(seed);
    let mut grid = PathGrid::new_unified();
    let ghost fresh = grid;
    let (entry_point, exit_point) = generate_random_opposite_points(&mut rng, grid.width, grid.height);
    grid.entry_point = entry_point;
    grid.exit_point = exit_point;
    assert(generated_layout(&grid)) by {
        assert forall|p: GridPos| grid.in_bounds(p) implies #[trigger] grid.cell(p) == CellType::Empty || (grid.cell(p)
            == CellType::Blocked && interior(&grid, p)) by {
            assert(fresh.in_bounds(p));
            assert(grid.cell(p) == fresh.cell(p));
        }
    }
    place_strategic_obstacles_with_validation(&mut grid, &mut rng, target_obstacles);
    let mut attempts: u32 = 0;
    let max_attempts: u32 = 20;
    loop
        invariant_except_break
            attempts < max_attempts,
        invariant
            unified_frame(&grid),
            generated_layout(&grid),
            grid.entry_point == entry_point,
            grid.exit_point == exit_point,
            max_attempts == 20,
        ensures
            map_settled(&grid),
        decreases max_attempts - attempts,
    {
        match find_path(&grid, grid.entry_point, grid.exit_point) {
            Option::Some(path) => {
                if validate_path_length_requirement(&path, &grid) {
                    assert(is_shortest_path(&grid, path@, grid.entry_point, grid.exit_point));
                    break;
                }
            },
            Option::None => {},
        }
        attempts += 1;
        if attempts >= max_attempts {
            create_fallback_obstacle_layout(&mut grid, &mut rng);
            break;
        }
        let ghost before = grid;
        if attempts < max_attempts / 2 {
            reduce_obstacles(&mut grid, &mut rng, LIGHT_REDUCTION_LIMIT);
        } else {
            reduce_obstacles(&mut grid, &mut rng, HEAVY_REDUCTION_LIMIT);
        }
        proof {
            lemma_layout_after_removing(&before, &grid);
        }
    }
    proof {
        let side = choose|side: GridSide|
            on_side(entry_point, side, 32, 18) && #[trigger] on_side(exit_point, opposite_side(side), 32, 18);
        assert(on_border(&grid, entry_point));
        assert(on_border(&grid, exit_point));
        lemma_layout_border_clear(&grid);
        lemma_border_connected(&grid, grid.entry_point, grid.exit_point);
    }
    grid
}

/// The standard map with up to `target_obstacles` obstacle clusters, entry on
/// the left edge and exit on the right edge (rows 4 to 13); obstacles are
/// thinned out lightly, up to ten times, while no way leads through.
pub fn generate_procedural_map_with_density(seed: u64, target_obstacles: usize) -> (r: PathGrid)
    requires
        target_obstacles <= usize::MAX / 3,
    ensures
        unified_frame(&r),
        r.entry_point.x == 0 && 4 <= r.entry_point.y < 14,
        r.exit_point.x == 31 && 4 <= r.exit_point.y < 14,
        generated_layout(&r),
        path_exists(&r, r.entry_point, r.exit_point),
        target_obstacles == 0 ==> forall|p: GridPos| #[trigger] r.in_bounds(p) ==> r.cell(p) == CellType::Empty,
{
    let mut rng = seeded_rng(seed);
    let mut grid = PathGrid::new_unified();
    let ghost fresh = grid;
    let ey = random_usize(&mut rng, 4, 14);
    grid.entry_point = GridPos::new(0, ey);
    let xy = random_usize(&mut rng, 4, 14);
    grid.exit_point = GridPos::new(31, xy);
    assert(generated_layout(&grid)) by {
        assert forall|p: GridPos| grid.in_bounds(p) implies #[trigger] grid.cell(p) == CellType::Empty || (grid.cell(p)
            == CellType::Blocked && interior(&grid, p)) by {
            assert(fresh.in_bounds(p));
            assert(grid.cell(p) == fresh.cell(p));
        }
    }
    let ghost placed_from = grid;
    place_strategic_obstacles_with_validation(&mut grid, &mut rng, target_obstacles);
    assert(target_obstacles == 0 ==> forall|p: GridPos| #[trigger] grid.in_bounds(p) ==> grid.cell(p) == CellType::Empty) by {
        if target_obstacles == 0 {
            assert forall|p: GridPos| #[trigger] grid.in_bounds(p) implies grid.cell(p) == CellType::Empty by {
                assert(placed_from.in_bounds(p));
                assert(fresh.in_bounds(p));
                assert(placed_from.cell(p) == fresh.cell(p));
            }
        }
    }
    let mut attempts: u32 = 0;
    while find_path(&grid, grid.entry_point, grid.exit_point).is_none() && attempts < 10
        invariant
            unified_frame(&grid),
            generated_layout(&grid),
            grid.entry_point.x == 0 && 4 <= grid.entry_point.y < 14,
            grid.exit_point.x == 31 && 4 <= grid.exit_point.y < 14,
            attempts <= 10,
            target_obstacles == 0 ==> forall|p: GridPos| #[trigger] grid.in_bounds(p) ==> grid.cell(p) == CellType::Empty,
        decreases 10 - attempts,
    {
        let ghost before = grid;
        reduce_obstacles(&mut grid, &mut rng, LIGHT_REDUCTION_LIMIT);
        proof {
            lemma_layout_after_removing(&before, &grid);
            if target_obstacles == 0 {
                assert forall|p: GridPos| #[trigger] grid.in_bounds(p) implies grid.cell(p) == CellType::Empty by {
                    assert(before.in_bounds(p));
                }
            }
        }
        attempts += 1;
    }
    proof {
        lemma_layout_border_clear(&grid);
        lemma_border_connected(&grid, grid.entry_point, grid.exit_point);
    }
    grid
}

proof fn lemma_grid_walk_length(g: &PathGrid, p: Seq<GridPos>, s: GridPos, t: GridPos)
    requires
        is_grid_path(g, p, s, t),
    ensures
        walk_length(p) == p.len() - 1,
    decreases p.len(),
{
    if p.len() > 1 {
        let q = p.drop_last();
        let u = p[p.len() - 2];
        assert forall|i: int| 0 <= i < q.len() implies #[trigger] g.traversable(q[i]) by {
            assert(q[i] == p[i]);
        }
        assert forall|i: int| 0 <= i < q.len() - 1 implies #[trigger] adjacent(q[i], q[i + 1]) by {
            assert(q[i] == p[i] && q[i + 1] == p[i + 1]);
            assert(adjacent(p[i], p[i + 1]));
        }
        assert(is_grid_path(g, q, s, u));
        lemma_grid_walk_length(g, q, s, u);
        let i = p.len() - 2;
        assert(adjacent(p[i], p[i + 1]));
    }
}

/// All shortest ways between two cells are equally long, so they all meet the
/// length requirement or none does.
proof fn lemma_shortest_same_requirement(g: &PathGrid, p: Seq<GridPos>, q: Seq<GridPos>, s: GridPos, t: GridPos)
    requires
        is_shortest_path(g, p, s, t),
        is_shortest_path(g, q, s, t),
    ensures
        meets_length_requirement(p, g) == meets_length_requirement(q, g),
{
    assert(p.len() <= q.len());
    assert(q.len() <= p.len());
    lemma_grid_walk_length(g, p, s, t);
    lemma_grid_walk_length(g, q, s, t);
}

/// Appends `seg[from..]` to `path`.
fn append_from(path: &mut Vec<GridPos>, seg: &Vec<GridPos>, from: usize)
    requires
        from <= seg@.len(),
    ensures
        final(path)@ == old(path)@ + seg@.subrange(from as int, seg@.len() as int),
{
    let ghost p0 = path@;
    let mut i = from;
    while i < seg.len()
        invariant
            from <= i <= seg@.len(),
            path@ == p0 + seg@.subrange(from as int, i as int),
        decreases seg.len() - i,
    {
        path.push(seg[i]);
        i += 1;
        assert(path@ =~= p0 + seg@.subrange(from as int, i as int));
    }
}

/// Detours for a mostly horizontal trip: a quarter of the way across at one
/// vertical extreme, half way at mid height, three quarters at the other
/// extreme, then the destination.
pub open spec fn horizontal_waypoints(start: GridPos, end: GridPos, width: nat, height: nat) -> Seq<GridPos> {
    let mid_x = (start.x + end.x) / 2;
    let quarter_x = (start.x + mid_x) / 2;
    let three_quarter_x = (mid_x + end.x) / 2;
    let detour_y1 = if start.y > height / 2 { 3 } else { height - 4 };
    let detour_y2 = if end.y > height / 2 { 3 } else { height - 4 };
    seq![
        GridPos { x: quarter_x as usize, y: detour_y1 as usize },
        GridPos { x: mid_x as usize, y: (height / 2) as usize },
        GridPos { x: three_quarter_x as usize, y: detour_y2 as usize },
        end,
    ]
}

/// Detours for a mostly vertical trip, with the roles of the axes swapped.
pub open spec fn vertical_waypoints(start: GridPos, end: GridPos, width: nat, height: nat) -> Seq<GridPos> {
    let mid_y = (start.y + end.y) / 2;
    let quarter_y = (start.y + mid_y) / 2;
    let three_quarter_y = (mid_y + end.y) / 2;
    let detour_x1 = if start.x > width / 2 { 3 } else { width - 4 };
    let detour_x2 = if end.x > width / 2 { 3 } else { width - 4 };
    seq![
        GridPos { x: detour_x1 as usize, y: quarter_y as usize },
        GridPos { x: (width / 2) as usize, y: mid_y as usize },
        GridPos { x: detour_x2 as usize, y: three_quarter_y as usize },
        end,
    ]
}

fn generate_horizontal_waypoints(start: GridPos, end: GridPos, grid: &PathGrid) -> (r: Vec<GridPos>)
    requires
        unified_frame(grid),
        grid.in_bounds(start),
        grid.in_bounds(end),
    ensures
        r@ == horizontal_waypoints(start, end, grid.width as nat, grid.height as nat),
{
    let mid_x = (start.x + end.x) / 2;
    let quarter_x = (start.x + mid_x) / 2;
    let three_quarter_x = (mid_x + end.x) / 2;
    let detour_y1 = if start.y > grid.height / 2 { 3 } else { grid.height - 4 };
    let detour_y2 = if end.y > grid.height / 2 { 3 } else { grid.height - 4 };
    let mut r: Vec<GridPos> = Vec::new();
    r.push(GridPos::new(quarter_x, detour_y1));
    r.push(GridPos::new(mid_x, grid.height / 2));
    r.push(GridPos::new(three_quarter_x, detour_y2));
    r.push(end);
    assert(r@ =~= horizontal_waypoints(start, end, grid.width as nat, grid.height as nat));
    r
}

fn generate_vertical_waypoints(start: GridPos, end: GridPos, grid: &PathGrid) -> (r: Vec<GridPos>)
    requires
        unified_frame(grid),
        grid.in_bounds(start),
        grid.in_bounds(end),
    ensures
        r@ == vertical_waypoints(start, end, grid.width as nat, grid.height as nat),
{
    let mid_y = (start.y + end.y) / 2;
    let quarter_y = (start.y + mid_y) / 2;
    let three_quarter_y = (mid_y + end.y) / 2;
    let detour_x1 = if start.x > grid.width / 2 { 3 } else { grid.width - 4 };
    let detour_x2 = if end.x > grid.width / 2 { 3 } else { grid.width - 4 };
    let mut r: Vec<GridPos> = Vec::new();
    r.push(GridPos::new(detour_x1, quarter_y));
    r.push(GridPos::new(grid.width / 2, mid_y));
    r.push(GridPos::new(detour_x2, three_quarter_y));
    r.push(end);
    assert(r@ =~= vertical_waypoints(start, end, grid.width as nat, grid.height as nat));
    r
}

/// A leg between `a` and `b` as the route builder found it: a shortest way,
/// or nothing when no way exists.
pub open spec fn leg_valid(g: &PathGrid, a: GridPos, b: GridPos, seg: Seq<GridPos>) -> bool {
    is_shortest_path(g, seg, a, b) || (seg.len() == 0 && !path_exists(g, a, b))
}

/// What a leg adds to a route: `missing` when no way was found; the whole
/// leg when it is the first; otherwise the leg without its first cell.
pub open spec fn leg_piece(seg: Seq<GridPos>, first: bool, missing: Seq<GridPos>) -> Seq<GridPos> {
    if seg.len() == 0 {
        missing
    } else if first {
        seg
    } else {
        seg.subrange(1, seg.len() as int)
    }
}

/// Where leg `i` of the zigzag starts: at `start`, then at each waypoint in turn.
pub open spec fn zigzag_from(start: GridPos, wps: Seq<GridPos>, i: int) -> GridPos {
    if i == 0 { start } else { wps[i - 1] }
}

/// The zigzag after `k` legs: `start`, then each leg's piece, a missing leg
/// replaced by its waypoint.
pub open spec fn zigzag_route(start: GridPos, wps: Seq<GridPos>, segs: Seq<Seq<GridPos>>, k: int) -> Seq<GridPos>
    decreases k,
{
    if k <= 0 {
        seq![start]
    } else {
        zigzag_route(start, wps, segs, k - 1) + leg_piece(segs[k - 1], k - 1 == 0, seq![wps[k - 1]])
    }
}

/// The first `k` zigzag legs are as found.
pub open spec fn zigzag_legs(g: &PathGrid, start: GridPos, wps: Seq<GridPos>, segs: Seq<Seq<GridPos>>, k: int) -> bool {
    &&& segs.len() == k
    &&& forall|i: int| 0 <= i < k ==> leg_valid(g, zigzag_from(start, wps, i), wps[i], #[trigger] segs[i])
}

/// The detour waypoints of the fallback route: horizontal ones when the trip
/// is wider than tall, vertical ones otherwise.
pub open spec fn fallback_waypoints(start: GridPos, end: GridPos, width: nat, height: nat) -> Seq<GridPos> {
    let dx = if end.x >= start.x { end.x - start.x } else { start.x - end.x };
    let dy = if end.y >= start.y { end.y - start.y } else { start.y - end.y };
    if dx > dy { horizontal_waypoints(start, end, width, height) } else { vertical_waypoints(start, end, width, height) }
}

/// The fallback route from `s` to `e`: the shortest way when it has at least
/// eight cells; otherwise the zigzag through the fallback waypoints.
pub open spec fn is_fallback_route(g: &PathGrid, s: GridPos, e: GridPos, r: Seq<GridPos>) -> bool {
    if shortest_at_least(g, s, e, 8) {
        is_shortest_path(g, r, s, e)
    } else {
        exists|segs: Seq<Seq<GridPos>>|
            #[trigger] zigzag_legs(g, s, fallback_waypoints(s, e, g.width as nat, g.height as nat), segs, 4)
                && r == zigzag_route(s, fallback_waypoints(s, e, g.width as nat, g.height as nat), segs, 4)
    }
}

/// The route through `wps` after `k` legs: each leg's piece, a missing leg
/// adding its end waypoint, except a missing first leg, which adds nothing.
pub open spec fn joined_route(wps: Seq<GridPos>, segs: Seq<Seq<GridPos>>, k: int) -> Seq<GridPos>
    decreases k,
{
    if k <= 0 {
        Seq::empty()
    } else {
        joined_route(wps, segs, k - 1) + leg_piece(
            segs[k - 1],
            k - 1 == 0,
            if k - 1 == 0 { Seq::empty() } else { seq![wps[k]] },
        )
    }
}

/// The first `k` legs between consecutive waypoints are as found.
pub open spec fn joined_legs(g: &PathGrid, wps: Seq<GridPos>, segs: Seq<Seq<GridPos>>, k: int) -> bool {
    &&& segs.len() == k
    &&& forall|i: int| 0 <= i < k ==> leg_valid(g, wps[i], wps[i + 1], #[trigger] segs[i])
}

/// Some shortest way from `s` to `t` has at least `n` cells.
pub open spec fn shortest_at_least(g: &PathGrid, s: GridPos, t: GridPos, n: nat) -> bool {
    exists|q: Seq<GridPos>| #[trigger] is_shortest_path(g, q, s, t) && q.len() >= n
}

proof fn lemma_zigzag_prefix(start: GridPos, wps: Seq<GridPos>, a: Seq<Seq<GridPos>>, b: Seq<Seq<GridPos>>, k: int)
    requires
        0 <= k <= a.len(),
        k <= b.len(),
        forall|i: int| 0 <= i < k ==> a[i] == b[i],
    ensures
        zigzag_route(start, wps, a, k) == zigzag_route(start, wps, b, k),
    decreases k,
{
    if k > 0 {
        lemma_zigzag_prefix(start, wps, a, b, k - 1);
        assert(a[k - 1] == b[k - 1]);
    }
}

proof fn lemma_joined_prefix(wps: Seq<GridPos>, a: Seq<Seq<GridPos>>, b: Seq<Seq<GridPos>>, k: int)
    requires
        0 <= k <= a.len(),
        k <= b.len(),
        forall|i: int| 0 <= i < k ==> a[i] == b[i],
    ensures
        joined_route(wps, a, k) == joined_route(wps, b, k),
    decreases k,
{
    if k > 0 {
        lemma_joined_prefix(wps, a, b, k - 1);
        assert(a[k - 1] == b[k - 1]);
    }
}

/// A way from `start` to `end` when nothing better is found: the shortest
/// way if it has at least eight cells; otherwise a zigzag through detour
/// waypoints (see `horizontal_waypoints` and `vertical_waypoints`), each leg
/// a shortest way where one exists and a jump where none does. The first
/// leg repeats the start cell.
pub fn generate_fallback_path(start: GridPos, end: GridPos, grid: &PathGrid) -> (r: Vec<GridPos>)
    requires
        unified_frame(grid),
        grid.in_bounds(start),
        grid.in_bounds(end),
    ensures
        r@.len() >= 1,
        r@[0] == start,
        r@[r@.len() - 1] == end,
        shortest_at_least(grid, start, end, 8) ==> is_shortest_path(grid, r@, start, end),
        is_fallback_route(grid, start, end, r@),
{
    match find_path(grid, start, end) {
        Option::Some(direct_path) => {
            if direct_path.len() >= 8 {
                assert(shortest_at_least(grid, start, end, 8));
                return direct_path;
            }
            proof {
                if shortest_at_least(grid, start, end, 8) {
                    let q = choose|q: Seq<GridPos>| #[trigger] is_shortest_path(grid, q, start, end) && q.len() >= 8;
                    assert(direct_path@.len() >= q.len());
                }
            }
        },
        Option::None => {},
    }
    let mut path: Vec<GridPos> = Vec::new();
    path.push(start);
    let dx0 = end.x as i32 - start.x as i32;
    let dy0 = end.y as i32 - start.y as i32;
    let dx = if dx0 < 0 { -dx0 } else { dx0 };
    let dy = if dy0 < 0 { -dy0 } else { dy0 };
    let waypoints = if dx > dy {
        generate_horizontal_waypoints(start, end, grid)
    } else {
        generate_vertical_waypoints(start, end, grid)
    };
    let ghost wps = fallback_waypoints(start, end, grid.width as nat, grid.height as nat);
    assert(waypoints@ == wps);
    let ghost mut segs: Seq<Seq<GridPos>> = Seq::empty();
    let mut current = start;
    let mut i: usize = 0;
    while i < waypoints.len()
        invariant
            unified_frame(grid),
            i <= waypoints@.len(),
            waypoints@.len() == 4,
            waypoints@[3] == end,
            waypoints@ == wps,
            path@.len() >= 1,
            path@[0] == start,
            path@[path@.len() - 1] == current,
            i > 0 ==> current == waypoints@[i - 1],
            current == zigzag_from(start, wps, i as int),
            i > 0 ==> path@.len() >= 2,
            i == 0 ==> path@.len() == 1,
            zigzag_legs(grid, start, wps, segs, i as int),
            path@ == zigzag_route(start, wps, segs, i as int),
        decreases waypoints.len() - i,
    {
        let waypoint = waypoints[i];
        let ghost before = path@;
        let ghost old_segs = segs;
        match find_path(grid, current, waypoint) {
            Option::Some(segment) => {
                if path.len() == 1 {
                    append_from(&mut path, &segment, 0);
                } else {
                    append_from(&mut path, &segment, 1);
                }
                proof {
                    assert(segment@[segment@.len() - 1] == waypoint);
                    assert(segment@[0] == current);
                    if before.len() != 1 && segment@.len() == 1 {
                        assert(path@ =~= before);
                    }
                    segs = segs.push(segment@);
                    if i == 0 {
                        assert(segment@.subrange(0, segment@.len() as int) =~= segment@);
                    }
                }
                current = waypoint;
            },
            Option::None => {
                path.push(waypoint);
                current = waypoint;
                proof {
                    segs = segs.push(Seq::empty());
                }
            },
        }
        proof {
            assert forall|j: int| 0 <= j < i + 1 implies leg_valid(grid, zigzag_from(start, wps, j), wps[j], #[trigger] segs[j]) by {
                if j < i {
                    assert(segs[j] == old_segs[j]);
                }
            }
            assert(zigzag_route(start, wps, segs, i as int) == zigzag_route(start, wps, old_segs, i as int)) by {
                lemma_zigzag_prefix(start, wps, old_segs, segs, i as int);
            }
        }
        i += 1;
    }
    proof {
        if !shortest_at_least(grid, start, end, 8) {
            assert(zigzag_legs(grid, start, wps, segs, 4));
        }
    }
    if current != end {
        match find_path(grid, current, end) {
            Option::Some(final_segment) => {
                append_from(&mut path, &final_segment, 1);
            },
            Option::None => {
                path.push(end);
            },
        }
    }
    proof {
        if shortest_at_least(grid, start, end, 8) {
            let q = choose|q: Seq<GridPos>| #[trigger] is_shortest_path(grid, q, start, end) && q.len() >= 8;
            assert(path_exists(grid, start, end));
        }
    }
    path
}

proof fn lemma_walk_triangle(p: Seq<GridPos>)
    requires
        p.len() >= 1,
    ensures
        walk_length(p) >= spec_manhattan(p[0], p[p.len() - 1]),
    decreases p.len(),
{
    if p.len() > 1 {
        let t = p.drop_last();
        lemma_walk_triangle(t);
        assert(t[0] == p[0] && t[t.len() - 1] == p[p.len() - 2]);
    }
}

proof fn lemma_walk_concat(a: Seq<GridPos>, b: Seq<GridPos>)
    requires
        a.len() >= 1,
        b.len() >= 1,
    ensures
        walk_length(a + b) == walk_length(a) + spec_manhattan(a[a.len() - 1], b[0]) + walk_length(b),
    decreases b.len(),
{
    if b.len() == 1 {
        assert((a + b).drop_last() =~= a);
    } else {
        let bt = b.drop_last();
        lemma_walk_concat(a, bt);
        assert((a + b).drop_last() =~= a + bt);
        assert((a + b)[(a + b).len() - 2] == b[b.len() - 2]);
    }
}

/// The length of the polyline from `start` through the first `k` waypoints.
pub open spec fn waypoint_length(start: GridPos, wps: Seq<GridPos>, k: int) -> nat
    decreases k,
{
    if k <= 0 {
        0
    } else {
        waypoint_length(start, wps, k - 1) + spec_manhattan(zigzag_from(start, wps, k - 1), wps[k - 1])
    }
}

proof fn lemma_zigzag_walk(g: &PathGrid, start: GridPos, wps: Seq<GridPos>, segs: Seq<Seq<GridPos>>, k: int)
    requires
        0 <= k <= wps.len(),
        segs.len() >= k,
        forall|i: int| 0 <= i < k ==> leg_valid(g, zigzag_from(start, wps, i), wps[i], #[trigger] segs[i]),
    ensures
        zigzag_route(start, wps, segs, k).len() >= 1,
        zigzag_route(start, wps, segs, k)[0] == start,
        zigzag_route(start, wps, segs, k)[zigzag_route(start, wps, segs, k).len() - 1] == zigzag_from(start, wps, k),
        walk_length(zigzag_route(start, wps, segs, k)) >= waypoint_length(start, wps, k),
    decreases k,
{
    if k > 0 {
        lemma_zigzag_walk(g, start, wps, segs, k - 1);
        let prev = zigzag_route(start, wps, segs, k - 1);
        let seg = segs[k - 1];
        let from = zigzag_from(start, wps, k - 1);
        let wp = wps[k - 1];
        assert(leg_valid(g, from, wp, seg));
        if seg.len() == 0 {
            lemma_walk_concat(prev, seq![wp]);
        } else {
            lemma_walk_triangle(seg);
            if k - 1 == 0 {
                lemma_walk_concat(prev, seg);
                assert(prev =~= seq![start]);
            } else if seg.len() == 1 {
                assert(seg.subrange(1, 1) =~= Seq::<GridPos>::empty());
                assert(prev + seg.subrange(1, 1) =~= prev);
            } else {
                let rest = seg.subrange(1, seg.len() as int);
                lemma_walk_concat(prev, rest);
                lemma_walk_concat(seq![seg[0]], rest);
                assert(seq![seg[0]] + rest =~= seg);
                assert((prev + rest)[(prev + rest).len() - 1] == seg[seg.len() - 1]);
            }
        }
    }
}

/// A route from `start` through `waypoints`: each leg a shortest way where
/// one exists and a jump where none does, the first leg repeating the start
/// cell (see `zigzag_route`).
fn route_through(start: GridPos, waypoints: &Vec<GridPos>, grid: &PathGrid) -> (r: Vec<GridPos>)
    requires
        grid.wf(),
    ensures
        exists|segs: Seq<Seq<GridPos>>|
            #[trigger] zigzag_legs(grid, start, waypoints@, segs, waypoints@.len() as int) && r@ == zigzag_route(
                start,
                waypoints@,
                segs,
                waypoints@.len() as int,
            ),
{
    let ghost wps = waypoints@;
    let ghost mut segs: Seq<Seq<GridPos>> = Seq::empty();
    let mut path: Vec<GridPos> = Vec::new();
    path.push(start);
    let mut current = start;
    let mut i: usize = 0;
    while i < waypoints.len()
        invariant
            grid.wf(),
            i <= waypoints@.len(),
            waypoints@ == wps,
            path@.len() >= 1,
            path@[path@.len() - 1] == current,
            current == zigzag_from(start, wps, i as int),
            i > 0 ==> path@.len() >= 2,
            i == 0 ==> path@.len() == 1,
            zigzag_legs(grid, start, wps, segs, i as int),
            path@ == zigzag_route(start, wps, segs, i as int),
        decreases waypoints.len() - i,
    {
        let waypoint = waypoints[i];
        let ghost before = path@;
        let ghost old_segs = segs;
        match find_path(grid, current, waypoint) {
            Option::Some(segment) => {
                if path.len() == 1 {
                    append_from(&mut path, &segment, 0);
                } else {
                    append_from(&mut path, &segment, 1);
                }
                proof {
                    assert(segment@[segment@.len() - 1] == waypoint);
                    assert(segment@[0] == current);
                    if before.len() != 1 && segment@.len() == 1 {
                        assert(path@ =~= before);
                    }
                    segs = segs.push(segment@);
                    if i == 0 {
                        assert(segment@.subrange(0, segment@.len() as int) =~= segment@);
                    }
                }
                current = waypoint;
            },
            Option::None => {
                path.push(waypoint);
                current = waypoint;
                proof {
                    segs = segs.push(Seq::empty());
                }
            },
        }
        proof {
            assert forall|j: int| 0 <= j < i + 1 implies leg_valid(grid, zigzag_from(start, wps, j), wps[j], #[trigger] segs[j]) by {
                if j < i {
                    assert(segs[j] == old_segs[j]);
                }
            }
            lemma_zigzag_prefix(start, wps, old_segs, segs, i as int);
        }
        i += 1;
    }
    path
}

/// The two opposite corners a corner route visits: first the one nearer to
/// `start` along the main diagonal, then the other, then `end`.
pub open spec fn corner_waypoints(start: GridPos, end: GridPos, width: nat, height: nat) -> Seq<GridPos> {
    let near = GridPos { x: 0, y: 0 };
    let far = GridPos { x: (width - 1) as usize, y: (height - 1) as usize };
    if start.x + start.y >= end.x + end.y { seq![near, far, end] } else { seq![far, near, end] }
}

/// A corner route from `s` to `e`: through the corner waypoints, legs as in
/// `zigzag_route`.
pub open spec fn is_corner_route(g: &PathGrid, s: GridPos, e: GridPos, r: Seq<GridPos>) -> bool {
    exists|segs: Seq<Seq<GridPos>>|
        #[trigger] zigzag_legs(g, s, corner_waypoints(s, e, g.width as nat, g.height as nat), segs, 3)
            && r == zigzag_route(s, corner_waypoints(s, e, g.width as nat, g.height as nat), segs, 3)
}

/// A route from `start` to `end` through two opposite corners of the map,
/// long enough for the length requirement: its walk is at least twice the
/// distance from `start` to `end`.
fn generate_corner_route(start: GridPos, end: GridPos, grid: &PathGrid) -> (r: Vec<GridPos>)
    requires
        unified_frame(grid),
        grid.in_bounds(start),
        grid.in_bounds(end),
    ensures
        is_corner_route(grid, start, end, r@),
        r@.len() >= 1,
        r@[0] == start,
        r@[r@.len() - 1] == end,
        walk_length(r@) >= 2 * spec_manhattan(start, end),
{
    let near = GridPos::new(0, 0);
    let far = GridPos::new(grid.width - 1, grid.height - 1);
    let mut waypoints: Vec<GridPos> = Vec::new();
    if start.x + start.y >= end.x + end.y {
        waypoints.push(near);
        waypoints.push(far);
    } else {
        waypoints.push(far);
        waypoints.push(near);
    }
    waypoints.push(end);
    let ghost wps = corner_waypoints(start, end, grid.width as nat, grid.height as nat);
    assert(waypoints@ =~= wps);
    let r = route_through(start, &waypoints, grid);
    proof {
        let segs = choose|segs: Seq<Seq<GridPos>>|
            #[trigger] zigzag_legs(grid, start, wps, segs, 3) && r@ == zigzag_route(start, wps, segs, 3);
        lemma_zigzag_walk(grid, start, wps, segs, 3);
        assert(waypoint_length(start, wps, 0) == 0);
        assert(zigzag_from(start, wps, 0) == start);
        assert(waypoint_length(start, wps, 1) == spec_manhattan(start, wps[0]));
        assert(zigzag_from(start, wps, 1) == wps[0]);
        assert(zigzag_from(start, wps, 2) == wps[1]);
        assert(waypoint_length(start, wps, 2) == spec_manhattan(start, wps[0]) + spec_manhattan(wps[0], wps[1]));
        assert(waypoint_length(start, wps, 3) == spec_manhattan(start, wps[0]) + spec_manhattan(wps[0], wps[1])
            + spec_manhattan(wps[1], wps[2]));
    }
    r
}

/// A way from the map's entry to its exit that takes detours: the shortest
/// way when it is at least twice as long as the direct distance; otherwise
/// the shortest legs between consecutive `waypoints` (the first leg whole,
/// later legs without their first cell; a later leg with no way is replaced
/// by its end cell, a first leg with no way is left out), kept when the
/// result meets the same length requirement; otherwise the fallback path
/// from entry to exit when it meets the requirement, and failing that a route
/// through two opposite corners of the map, which always does. So every
/// result meets the length requirement.
pub fn generate_random_strategic_path(grid: &PathGrid, waypoints: &[GridPos]) -> (r: Vec<GridPos>)
    requires
        unified_frame(grid),
        grid.in_bounds(grid.entry_point),
        grid.in_bounds(grid.exit_point),
        waypoints@.len() >= 1,
    ensures
        r@.len() >= 1,
        meets_length_requirement(r@, grid) || (r@[0] == grid.entry_point && r@[r@.len() - 1] == grid.exit_point),
        (exists|q: Seq<GridPos>|
            #[trigger] is_shortest_path(grid, q, grid.entry_point, grid.exit_point) && meets_length_requirement(
                q,
                grid,
            )) ==> is_shortest_path(grid, r@, grid.entry_point, grid.exit_point) && meets_length_requirement(r@, grid),
        !(exists|q: Seq<GridPos>|
            #[trigger] is_shortest_path(grid, q, grid.entry_point, grid.exit_point) && meets_length_requirement(
                q,
                grid,
            )) ==> exists|segs: Seq<Seq<GridPos>>|
            #[trigger] joined_legs(grid, waypoints@, segs, waypoints@.len() - 1) && (if joined_route(
                waypoints@,
                segs,
                waypoints@.len() - 1,
            ).len() > 0 && meets_length_requirement(joined_route(waypoints@, segs, waypoints@.len() - 1), grid) {
                r@ == joined_route(waypoints@, segs, waypoints@.len() - 1)
            } else {
                exists|f: Seq<GridPos>|
                    #[trigger] is_fallback_route(grid, grid.entry_point, grid.exit_point, f) && (if meets_length_requirement(
                        f,
                        grid,
                    ) {
                        r@ == f
                    } else {
                        is_corner_route(grid, grid.entry_point, grid.exit_point, r@)
                    })
            }),
        meets_length_requirement(r@, grid),
{
    match find_path(grid, grid.entry_point, grid.exit_point) {
        Option::Some(path) => {
            if validate_path_length_requirement(&path, grid) {
                return path;
            }
            proof {
                if exists|q: Seq<GridPos>|
                    #[trigger] is_shortest_path(grid, q, grid.entry_point, grid.exit_point) && meets_length_requirement(
                        q,
                        grid,
                    ) {
                    let q = choose|q: Seq<GridPos>|
                        #[trigger] is_shortest_path(grid, q, grid.entry_point, grid.exit_point)
                            && meets_length_requirement(q, grid);
                    lemma_shortest_same_requirement(grid, path@, q, grid.entry_point, grid.exit_point);
                }
            }
        },
        Option::None => {},
    }
    let mut final_path: Vec<GridPos> = Vec::new();
    let ghost mut segs: Seq<Seq<GridPos>> = Seq::empty();
    let mut i: usize = 0;
    while i < waypoints.len() - 1
        invariant
            unified_frame(grid),
            waypoints@.len() >= 1,
            i <= waypoints@.len() - 1,
            joined_legs(grid, waypoints@, segs, i as int),
            final_path@ == joined_route(waypoints@, segs, i as int),
        decreases waypoints.len() - 1 - i,
    {
        let start = waypoints[i];
        let end = waypoints[i + 1];
        let ghost old_segs = segs;
        match find_path(grid, start, end) {
            Option::Some(segment) => {
                if i == 0 {
                    append_from(&mut final_path, &segment, 0);
                    assert(segment@.subrange(0, segment@.len() as int) =~= segment@);
                } else {
                    if segment.len() >= 1 {
                        append_from(&mut final_path, &segment, 1);
                    }
                }
                proof {
                    segs = segs.push(segment@);
                }
            },
            Option::None => {
                if i > 0 {
                    final_path.push(end);
                }
                proof {
                    segs = segs.push(Seq::empty());
                }
            },
        }
        proof {
            assert forall|j: int| 0 <= j < i + 1 implies leg_valid(grid, waypoints@[j], waypoints@[j + 1], #[trigger] segs[j]) by {
                if j < i {
                    assert(segs[j] == old_segs[j]);
                }
            }
            lemma_joined_prefix(waypoints@, old_segs, segs, i as int);
            if i == 0 {
                assert(final_path@ =~= joined_route(waypoints@, segs, 1));
            } else {
                assert(final_path@ =~= joined_route(waypoints@, segs, i + 1));
            }
        }
        i += 1;
    }
    assert(joined_legs(grid, waypoints@, segs, waypoints@.len() - 1));
    if final_path.len() > 0 && validate_path_length_requirement(&final_path, grid) {
        final_path
    } else {
        let fallback = generate_fallback_path(grid.entry_point, grid.exit_point, grid);
        if validate_path_length_requirement(&fallback, grid) {
            fallback
        } else {
            let r = generate_corner_route(grid.entry_point, grid.exit_point, grid);
            assert(is_fallback_route(grid, grid.entry_point, grid.exit_point, fallback@));
            r
        }
    }
}

/// What an obstacle looks like.
#[derive(Debug, Clone, Copy, PartialEq, Eq, Structural)]
pub enum ObstacleType {
    Rock,
    Building,
    Debris,
    Crystal,
}

/// An obstacle on the map and its look.
#[derive(Debug, Clone, Copy, PartialEq, Eq, Structural)]
pub struct Obstacle {
    pub position: GridPos,
    pub obstacle_type: ObstacleType,
}

/// `a` comes before `b` when the map is read row by row.
pub open spec fn row_major_before(a: GridPos, b: GridPos) -> bool {
    a.y < b.y || (a.y == b.y && a.x < b.x)
}

/// One obstacle per blocked cell of `grid`, read row by row, each given a
/// look drawn from a generator seeded with `obstacle_type_seed`.
pub fn obstacle_layout(grid: &PathGrid, obstacle_type_seed: u64) -> (r: Vec<Obstacle>)
    requires
        grid.wf(),
    ensures
        forall|k: int|
            0 <= k < r@.len() ==> grid.in_bounds(#[trigger] r@[k].position) && grid.cell(r@[k].position)
                == CellType::Blocked,
        forall|k: int, l: int| 0 <= k < l < r@.len() ==> row_major_before(#[trigger] r@[k].position, #[trigger] r@[l].position),
        forall|p: GridPos|
            grid.in_bounds(p) && #[trigger] grid.cell(p) == CellType::Blocked ==> exists|k: int|
                0 <= k < r@.len() && r@[k].position == p,
{
    let mut rng = seeded_rng(obstacle_type_seed);
    let mut r: Vec<Obstacle> = Vec::new();
    let mut y: usize = 0;
    while y < grid.height
        invariant
            grid.wf(),
            y <= grid.height,
            forall|k: int|
                0 <= k < r@.len() ==> grid.in_bounds(#[trigger] r@[k].position) && grid.cell(r@[k].position)
                    == CellType::Blocked && r@[k].position.y < y,
            forall|k: int, l: int| 0 <= k < l < r@.len() ==> row_major_before(#[trigger] r@[k].position, #[trigger] r@[l].position),
            forall|p: GridPos|
                grid.in_bounds(p) && p.y < y && #[trigger] grid.cell(p) == CellType::Blocked ==> exists|k: int|
                    0 <= k < r@.len() && r@[k].position == p,
        decreases grid.height - y,
    {
        let mut x: usize = 0;
        while x < grid.width
            invariant
                grid.wf(),
                y < grid.height,
                x <= grid.width,
                forall|k: int|
                    0 <= k < r@.len() ==> grid.in_bounds(#[trigger] r@[k].position) && grid.cell(r@[k].position)
                        == CellType::Blocked && row_major_before(r@[k].position, GridPos { x, y }),
                forall|k: int, l: int| 0 <= k < l < r@.len() ==> row_major_before(#[trigger] r@[k].position, #[trigger] r@[l].position),
                forall|p: GridPos|
                    grid.in_bounds(p) && row_major_before(p, GridPos { x, y }) && #[trigger] grid.cell(p)
                        == CellType::Blocked ==> exists|k: int| 0 <= k < r@.len() && r@[k].position == p,
            decreases grid.width - x,
        {
            let pos = GridPos::new(x, y);
            if grid.get_cell(pos) == Some(CellType::Blocked) {
                let kind = random_i32(&mut rng, 0, 4);
                let obstacle_type = if kind == 0 {
                    ObstacleType::Rock
                } else if kind == 1 {
                    ObstacleType::Building
                } else if kind == 2 {
                    ObstacleType::Debris
                } else {
                    ObstacleType::Crystal
                };
                let ghost before = r@;
                r.push(Obstacle { position: pos, obstacle_type });
                proof {
                    assert forall|p: GridPos|
                        grid.in_bounds(p) && row_major_before(p, GridPos { x: (x + 1) as usize, y }) && #[trigger] grid.cell(p)
                            == CellType::Blocked implies exists|k: int| 0 <= k < r@.len() && r@[k].position == p by {
                        if p == pos {
                            assert(r@[before.len() as int].position == p);
                        } else {
                            assert(row_major_before(p, GridPos { x, y }));
                            let k = choose|k: int| 0 <= k < before.len() && before[k].position == p;
                            assert(r@[k].position == p);
                        }
                    }
                }
            } else {
                proof {
                    assert forall|p: GridPos|
                        grid.in_bounds(p) && row_major_before(p, GridPos { x: (x + 1) as usize, y }) && #[trigger] grid.cell(p)
                            == CellType::Blocked implies exists|k: int| 0 <= k < r@.len() && r@[k].position == p by {
                        if p != pos {
                            assert(row_major_before(p, GridPos { x, y }));
                        }
                    }
                }
            }
            x += 1;
        }
        proof {
            assert forall|p: GridPos|
                grid.in_bounds(p) && p.y < y + 1 && #[trigger] grid.cell(p) == CellType::Blocked implies exists|k: int|
                    0 <= k < r@.len() && r@[k].position == p by {
                assert(row_major_before(p, GridPos { x, y }));
            }
        }
        y += 1;
    }
    r
}


/// Number of blocked cells in a row.
pub open spec fn blocked_in_row(row: Seq<CellType>) -> nat
    decreases row.len(),
{
    if row.len() == 0 {
        0
    } else {
        blocked_in_row(row.drop_last()) + (if row.last() == CellType::Blocked { 1nat } else { 0nat })
    }
}

/// Number of blocked cells in a list of rows.
pub open spec fn blocked_in_rows(rows: Seq<Vec<CellType>>) -> nat
    decreases rows.len(),
{
    if rows.len() == 0 {
        0
    } else {
        blocked_in_rows(rows.drop_last()) + blocked_in_row(rows.last()@)
    }
}

/// Number of obstacles (blocked cells) on the grid.
pub open spec fn obstacle_count(g: &PathGrid) -> nat {
    blocked_in_rows(g.cells@)
}

proof fn lemma_blocked_in_row_bounded(row: Seq<CellType>)
    ensures
        blocked_in_row(row) <= row.len(),
    decreases row.len(),
{
    if row.len() > 0 {
        lemma_blocked_in_row_bounded(row.drop_last());
    }
}

/// Counts the obstacles on the grid, row by row.
pub fn count_obstacles(grid: &PathGrid) -> (r: usize)
    requires
        grid.wf(),
        grid.width * grid.height <= usize::MAX,
    ensures
        r == obstacle_count(grid),
{
    let mut count: usize = 0;
    let mut y: usize = 0;
    while y < grid.height
        invariant
            grid.wf(),
            grid.width * grid.height <= usize::MAX,
            y <= grid.height,
            count == blocked_in_rows(grid.cells@.take(y as int)),
            count <= y * grid.width,
        decreases grid.height - y,
    {
        let ghost row = grid.cells@[y as int]@;
        let ghost before = count as int;
        let mut x: usize = 0;
        while x < grid.width
            invariant
                grid.wf(),
                grid.width * grid.height <= usize::MAX,
                y < grid.height,
                x <= grid.width,
                row == grid.cells@[y as int]@,
                row.len() == grid.width,
                before == blocked_in_rows(grid.cells@.take(y as int)),
                before <= y * grid.width,
                count == before + blocked_in_row(row.take(x as int)),
                blocked_in_row(row.take(x as int)) <= x,
            decreases grid.width - x,
        {
            assert(row.take(x as int + 1).drop_last() =~= row.take(x as int));
            proof {
                assert((y + 1) * grid.width <= grid.height * grid.width) by (nonlinear_arith)
                    requires
                        y < grid.height,
                ;
                assert(y * grid.width + grid.width == (y + 1) * grid.width) by (nonlinear_arith);
                assert(grid.width * grid.height == grid.height * grid.width) by (nonlinear_arith);
            }
            if let Some(CellType::Blocked) = grid.get_cell(GridPos::new(x, y)) {
                count += 1;
            }
            x += 1;
        }
        assert(row.take(grid.width as int) =~= row);
        assert(grid.cells@.take(y as int + 1).drop_last() =~= grid.cells@.take(y as int));
        proof {
            assert(y * grid.width + grid.width == (y + 1) * grid.width) by (nonlinear_arith);
        }
        y += 1;
    }
    assert(grid.cells@.take(grid.height as int) =~= grid.cells@);
    count
}

} // verus!
