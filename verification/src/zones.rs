use vstd::prelude::*;
use crate::grid::{count_empty_cells, spec_neighbors, CellType, GridPos, PathGrid};
use crate::pathfinding::step_vector;

verus! {

/// Number of empty cells among the in-grid neighbours of `p`.
pub open spec fn empty_neighbors(g: &PathGrid, p: GridPos) -> nat {
    count_empty_cells(g, spec_neighbors(p, g.width as nat, g.height as nat))
}

/// `v` held within `lo..=hi` by raising it to `lo`, then lowering it to `hi`.
pub open spec fn clamp_int(v: int, lo: int, hi: int) -> int {
    let raised = if v < lo { lo } else { v };
    if raised > hi { hi } else { raised }
}

/// The cell at offset (`dx`, `dy`) from `p`, each coordinate held on the grid.
pub open spec fn clamped_offset(g: &PathGrid, p: GridPos, dx: int, dy: int) -> GridPos {
    GridPos {
        x: clamp_int(p.x + dx, 0, g.width - 1) as usize,
        y: clamp_int(p.y + dy, 0, g.height - 1) as usize,
    }
}

/// 1 when the cell at offset (`dx`, `dy`) around `p` (not `p` itself) bars
/// enemies, else 0.
pub open spec fn barred_at(g: &PathGrid, p: GridPos, dx: int, dy: int) -> nat {
    if (dx == 0 && dy == 0) || g.traversable(clamped_offset(g, p, dx, dy)) { 0 } else { 1 }
}

/// Barred cells at offsets `-2 .. -2 + n` along the row at offset `dy`.
pub open spec fn barred_in_row(g: &PathGrid, p: GridPos, dy: int, n: int) -> nat
    decreases n,
{
    if n <= 0 { 0 } else { barred_in_row(g, p, dy, n - 1) + barred_at(g, p, n - 3, dy) }
}

/// Barred cells in the rows at offsets `-2 .. -2 + m` of the five by five
/// square around `p`.
pub open spec fn barred_in_rows(g: &PathGrid, p: GridPos, m: int) -> nat
    decreases m,
{
    if m <= 0 { 0 } else { barred_in_rows(g, p, m - 1) + barred_in_row(g, p, m - 3, 5) }
}

/// Barred cells in the five by five square around `p` (offsets clamped to the grid).
pub open spec fn barred_around(g: &PathGrid, p: GridPos) -> nat {
    barred_in_rows(g, p, 5)
}

/// The path changes direction at its `i`-th cell, `pos`.
pub open spec fn turns_at(path: Seq<GridPos>, pos: GridPos, i: int) -> bool {
    &&& path.len() >= 3
    &&& 0 < i < path.len() - 1
    &&& step_vector(path[i - 1], pos) != step_vector(pos, path[i + 1])
}

/// A choke point for zone placement: at most three empty neighbours; or, on
/// a turn of the path, at most five; or eight or more cells around it that
/// enemies cannot enter.
pub open spec fn enhanced_chokepoint(g: &PathGrid, pos: GridPos, path: Seq<GridPos>, i: int) -> bool {
    let e = empty_neighbors(g, pos);
    if e <= 3 {
        true
    } else if turns_at(path, pos, i) {
        e <= 5
    } else {
        barred_around(g, pos) >= 8
    }
}

/// Every cell with at most three empty in-grid neighbours is a choke point for
/// zone placement, wherever it stands on the path: the enhanced choke points
/// include all the plain ones.
pub proof fn law_plain_chokepoints_are_enhanced(g: &PathGrid, pos: GridPos, path: Seq<GridPos>, i: int)
    requires
        empty_neighbors(g, pos) <= 3,
    ensures
        enhanced_chokepoint(g, pos, path, i),
{
}

/// Grid size and coordinates on which the neighbourhood arithmetic is defined.
pub open spec fn offsets_defined(g: &PathGrid, pos: GridPos) -> bool {
    &&& 1 <= g.width <= i32::MAX
    &&& 1 <= g.height <= i32::MAX
    &&& pos.x + 2 <= i32::MAX
    &&& pos.y + 2 <= i32::MAX
}

/// A position with few empty neighbours (at most three).
pub fn is_chokepoint(grid: &PathGrid, pos: GridPos) -> (r: bool)
    requires
        grid.wf(),
        pos.x < usize::MAX,
        pos.y < usize::MAX,
    ensures
        r == (empty_neighbors(grid, pos) <= 3),
{
    let empty = grid.count_empty_neighbors(pos);
    empty <= 3
}

fn count_barred_around(grid: &PathGrid, pos: GridPos) -> (r: u32)
    requires
        grid.wf(),
        offsets_defined(grid, pos),
    ensures
        r == barred_around(grid, pos),
{
    let w: i32 = grid.width as i32;
    let h: i32 = grid.height as i32;
    let px: i32 = pos.x as i32;
    let py: i32 = pos.y as i32;
    let mut count: u32 = 0;
    let mut dy: i32 = -2;
    while dy <= 2
        invariant
            grid.wf(),
            offsets_defined(grid, pos),
            w == grid.width,
            h == grid.height,
            px == pos.x,
            py == pos.y,
            -2 <= dy <= 3,
            count == barred_in_rows(grid, pos, dy + 2),
            count <= (dy + 2) * 5,
        decreases 3 - dy,
    {
        let mut dx: i32 = -2;
        let ghost before = count as int;
        while dx <= 2
            invariant
                grid.wf(),
                offsets_defined(grid, pos),
                w == grid.width,
                h == grid.height,
                px == pos.x,
                py == pos.y,
                -2 <= dy <= 2,
                -2 <= dx <= 3,
                before == barred_in_rows(grid, pos, dy + 2),
                before <= (dy + 2) * 5,
                count == before + barred_in_row(grid, pos, dy as int, dx + 2),
                barred_in_row(grid, pos, dy as int, dx + 2) <= dx + 2,
            decreases 3 - dx,
        {
            if !(dx == 0 && dy == 0) {
                let raised_x = if px + dx < 0 { 0 } else { px + dx };
                let check_x = if raised_x > w - 1 { w - 1 } else { raised_x };
                let raised_y = if py + dy < 0 { 0 } else { py + dy };
                let check_y = if raised_y > h - 1 { h - 1 } else { raised_y };
                let check = GridPos::new(check_x as usize, check_y as usize);
                assert(check == clamped_offset(grid, pos, dx as int, dy as int));
                if !grid.is_traversable(check) {
                    count += 1;
                }
            }
            dx += 1;
        }
        dy += 1;
    }
    count
}

/// Whether the `path_index`-th cell of `path`, `pos`, is a choke point worth
/// a tower zone (see `enhanced_chokepoint`).
pub fn is_enhanced_chokepoint(grid: &PathGrid, pos: GridPos, path: &[GridPos], path_index: usize) -> (r: bool)
    requires
        grid.wf(),
        offsets_defined(grid, pos),
        forall|i: int| 0 <= i < path@.len() ==> #[trigger] path@[i].x <= i32::MAX && path@[i].y <= i32::MAX,
    ensures
        r == enhanced_chokepoint(grid, pos, path@, path_index as int),
        empty_neighbors(grid, pos) <= 3 ==> r,
        empty_neighbors(grid, pos) > 3 && turns_at(path@, pos, path_index as int)
            ==> (r <==> empty_neighbors(grid, pos) <= 5),
        empty_neighbors(grid, pos) > 3 && !turns_at(path@, pos, path_index as int)
            ==> (r <==> barred_around(grid, pos) >= 8),
{
    let empty_neighbors = grid.count_empty_neighbors(pos);
    if empty_neighbors <= 3 {
        return true;
    }
    if path.len() >= 3 && path_index > 0 && path_index < path.len() - 1 {
        let prev = path[path_index - 1];
        let next = path[path_index + 1];
        let dir1 = (pos.x as i32 - prev.x as i32, pos.y as i32 - prev.y as i32);
        let dir2 = (next.x as i32 - pos.x as i32, next.y as i32 - pos.y as i32);
        let is_curve = dir1.0 != dir2.0 || dir1.1 != dir2.1;
        if is_curve {
            return empty_neighbors <= 5;
        }
    }
    let narrow_directions = count_barred_around(grid, pos);
    narrow_directions >= 8
}

/// Number of empty cells in the row `y`, columns `x0 .. x0 + n`.
pub open spec fn empty_in_row(g: &PathGrid, x0: int, y: int, n: int) -> nat
    decreases n,
{
    if n <= 0 {
        0
    } else {
        empty_in_row(g, x0, y, n - 1) + (if g.empty_at(x0 + n - 1, y) { 1nat } else { 0nat })
    }
}

/// Number of empty cells in rows `y0 .. y0 + m`, columns `x0 .. x0 + n`.
pub open spec fn empty_in_rect(g: &PathGrid, x0: int, y0: int, n: int, m: int) -> nat
    decreases m,
{
    if m <= 0 { 0 } else { empty_in_rect(g, x0, y0, n, m - 1) + empty_in_row(g, x0, y0 + m - 1, n) }
}

/// A cell that towers can never use: on the path or blocked.
pub open spec fn unusable(c: CellType) -> bool {
    c == CellType::Path || c == CellType::Blocked
}

/// Whether the rectangle from `tl` to `br` (corners included) can be a tower
/// zone: it is not empty, lies on the grid, holds no path or obstacle cell,
/// and the share of empty cells (the rest are already zone cells) reaches
/// seven tenths in single precision: the quotient rounds to 0.7 or above,
/// which is to say it exceeds 23488101 / 2^25, the point halfway between
/// 0.7 in single precision and the value just below it.
pub open spec fn suitable_for_zone(g: &PathGrid, tl: GridPos, br: GridPos) -> bool {
    let n = br.x - tl.x + 1;
    let m = br.y - tl.y + 1;
    &&& tl.x <= br.x
    &&& tl.y <= br.y
    &&& br.x < g.width
    &&& br.y < g.height
    &&& forall|p: GridPos| tl.x <= p.x <= br.x && tl.y <= p.y <= br.y ==> !unusable(#[trigger] g.cell(p))
    &&& 33554432 * empty_in_rect(g, tl.x as int, tl.y as int, n, m) > 23488101 * (n * m)
}

proof fn lemma_empty_in_row_bounded(g: &PathGrid, x0: int, y: int, n: int)
    ensures
        empty_in_row(g, x0, y, n) <= (if n < 0 { 0 } else { n }),
    decreases n,
{
    if n > 0 {
        lemma_empty_in_row_bounded(g, x0, y, n - 1);
    }
}

/// Whether the rectangle from `top_left` to `bottom_right` can be a tower
/// zone (see `suitable_for_zone`). Maps have at most 2^24 cells, so every
/// count is exact in single precision.
pub fn is_area_suitable_for_zone(grid: &PathGrid, top_left: GridPos, bottom_right: GridPos) -> (r: bool)
    requires
        grid.wf(),
        grid.width * grid.height <= 16777216,
    ensures
        r == suitable_for_zone(grid, top_left, bottom_right),
{
    if top_left.x > bottom_right.x || top_left.y > bottom_right.y {
        return false;
    }
    if bottom_right.x >= grid.width || bottom_right.y >= grid.height {
        return false;
    }
    let ghost n = bottom_right.x - top_left.x + 1;
    let ghost m = bottom_right.y - top_left.y + 1;
    proof {
        assert(n * m <= grid.width * grid.height) by (nonlinear_arith)
            requires
                1 <= n <= grid.width,
                1 <= m <= grid.height,
        ;
    }
    let mut empty_count: usize = 0;
    let mut total_count: usize = 0;
    let mut y = top_left.y;
    while y <= bottom_right.y
        invariant
            grid.wf(),
            top_left.x <= bottom_right.x < grid.width,
            top_left.y <= y <= bottom_right.y + 1,
            bottom_right.y < grid.height,
            n == bottom_right.x - top_left.x + 1,
            m == bottom_right.y - top_left.y + 1,
            n * m <= 16777216,
            total_count == n * (y - top_left.y),
            empty_count == empty_in_rect(grid, top_left.x as int, top_left.y as int, n, y - top_left.y),
            empty_count <= total_count,
            forall|p: GridPos| top_left.x <= p.x <= bottom_right.x && top_left.y <= p.y < y ==> !unusable(#[trigger] grid.cell(p)),
        decreases bottom_right.y + 1 - y,
    {
        proof {
            assert(n * (y - top_left.y) + n == n * (y - top_left.y + 1)) by (nonlinear_arith);
            assert(n * (y - top_left.y + 1) <= n * m) by (nonlinear_arith)
                requires
                    y - top_left.y + 1 <= m,
                    n >= 0,
            ;
        }
        let ghost row_start = empty_count as int;
        let ghost total_start = total_count as int;
        let mut x = top_left.x;
        while x <= bottom_right.x
            invariant
                grid.wf(),
                top_left.x <= x <= bottom_right.x + 1,
                bottom_right.x < grid.width,
                top_left.y <= y <= bottom_right.y,
                bottom_right.y < grid.height,
                n == bottom_right.x - top_left.x + 1,
                total_start + n <= 16777216,
                total_count == total_start + (x - top_left.x),
                row_start == empty_in_rect(grid, top_left.x as int, top_left.y as int, n, y - top_left.y),
                row_start <= total_start,
                empty_count == row_start + empty_in_row(grid, top_left.x as int, y as int, x - top_left.x),
                empty_in_row(grid, top_left.x as int, y as int, x - top_left.x) <= x - top_left.x,
                forall|p: GridPos| top_left.x <= p.x <= bottom_right.x && top_left.y <= p.y < y ==> !unusable(#[trigger] grid.cell(p)),
                forall|p: GridPos| top_left.x <= p.x < x && p.y == y ==> !unusable(#[trigger] grid.cell(p)),
            decreases bottom_right.x + 1 - x,
        {
            let pos = GridPos::new(x, y);
            match grid.get_cell(pos) {
                Some(CellType::Empty) => {
                    empty_count += 1;
                },
                Some(CellType::Path) => {
                    return false;
                },
                Some(CellType::Blocked) => {
                    return false;
                },
                Some(CellType::TowerZone) => {},
                None => {
                    return false;
                },
            }
            total_count += 1;
            x += 1;
        }
        y += 1;
    }
    proof {
        assert(n * (y - top_left.y) == n * m);
        assert(total_count == n * m);
    }
    (empty_count as u64) * 33554432 > (total_count as u64) * 23488101
}

/// The zone tried from `start` with `size` cells split into rows of
/// `height`: `size / height` columns wide, `height` rows tall, cut off at the
/// grid's far edges.
pub open spec fn zone_candidate(g: &PathGrid, start: GridPos, size: int, height: int) -> (GridPos, GridPos) {
    let width = size / height;
    let end_x = if start.x + width - 1 < g.width - 1 { start.x + width - 1 } else { g.width - 1 };
    let end_y = if start.y + height - 1 < g.height - 1 { start.y + height - 1 } else { g.height - 1 };
    (start, GridPos { x: end_x as usize, y: end_y as usize })
}

/// The candidate is at least `min_size` columns wide and suitable.
pub open spec fn candidate_fits(g: &PathGrid, start: GridPos, min_size: int, size: int, height: int) -> bool {
    let z = zone_candidate(g, start, size, height);
    size / height >= min_size && suitable_for_zone(g, z.0, z.1)
}

/// The first fitting candidate for `size` with row counts from `height` up to `size`.
pub open spec fn first_fit_from_height(g: &PathGrid, start: GridPos, min_size: int, size: int, height: int) -> Option<(GridPos, GridPos)>
    decreases size + 1 - height,
{
    if height > size || height <= 0 {
        None
    } else if candidate_fits(g, start, min_size, size, height) {
        Some(zone_candidate(g, start, size, height))
    } else {
        first_fit_from_height(g, start, min_size, size, height + 1)
    }
}

/// The first fitting candidate trying sizes from `size` down to `min_size`,
/// and for each size the row counts from `min_size` up.
pub open spec fn first_fit_from_size(g: &PathGrid, start: GridPos, min_size: int, size: int) -> Option<(GridPos, GridPos)>
    decreases size - min_size + 1,
{
    if size < min_size || min_size <= 0 {
        None
    } else {
        match first_fit_from_height(g, start, min_size, size, min_size) {
            Some(z) => Some(z),
            None => first_fit_from_size(g, start, min_size, size - 1),
        }
    }
}

/// The bounds of a tower zone with its top-left corner at `start`: the first
/// suitable rectangle, largest cell count first (from `max_size` down to
/// `min_size`), and for each count the fewest rows first (from `min_size`),
/// each rectangle `size / rows` columns wide and at least `min_size` wide;
/// `None` when none fits.
pub fn find_zone_bounds_from_position(grid: &PathGrid, start: GridPos, min_size: usize, max_size: usize) -> (r: Option<(GridPos, GridPos)>)
    requires
        grid.wf(),
        grid.width >= 1,
        grid.height >= 1,
        grid.width * grid.height <= 16777216,
        min_size >= 1,
        start.x + max_size <= usize::MAX,
        start.y + max_size <= usize::MAX,
        max_size < usize::MAX,
    ensures
        r == first_fit_from_size(grid, start, min_size as int, max_size as int),
{
    let mut size = max_size;
    while size >= min_size
        invariant
            grid.wf(),
            grid.width >= 1,
            grid.height >= 1,
            grid.width * grid.height <= 16777216,
            min_size >= 1,
            start.x + max_size <= usize::MAX,
            start.y + max_size <= usize::MAX,
            size <= max_size,
            max_size < usize::MAX,
            first_fit_from_size(grid, start, min_size as int, max_size as int)
                == first_fit_from_size(grid, start, min_size as int, size as int),
        decreases size,
    {
        let mut height = min_size;
        while height <= size
            invariant
                grid.wf(),
                grid.width >= 1,
                grid.height >= 1,
                grid.width * grid.height <= 16777216,
                min_size >= 1,
                start.x + max_size <= usize::MAX,
                start.y + max_size <= usize::MAX,
                min_size <= size <= max_size,
                max_size < usize::MAX,
                min_size <= height <= size + 1,
                first_fit_from_height(grid, start, min_size as int, size as int, min_size as int)
                    == first_fit_from_height(grid, start, min_size as int, size as int, height as int),
                first_fit_from_size(grid, start, min_size as int, max_size as int)
                    == first_fit_from_size(grid, start, min_size as int, size as int),
            decreases size + 1 - height,
        {
            let width = size / height;
            if width >= min_size {
                proof {
                    assert(width <= size) by (nonlinear_arith)
                        requires
                            width == size / height,
                            height >= 1,
                    ;
                }
                let far_x = start.x + width - 1;
                let far_y = start.y + height - 1;
                let end_x = if far_x < grid.width - 1 { far_x } else { grid.width - 1 };
                let end_y = if far_y < grid.height - 1 { far_y } else { grid.height - 1 };
                let end = GridPos::new(end_x, end_y);
                assert((start, end) == zone_candidate(grid, start, size as int, height as int));
                if is_area_suitable_for_zone(grid, start, end) {
                    return Some((start, end));
                }
            }
            height += 1;
        }
        assert(first_fit_from_height(grid, start, min_size as int, size as int, height as int) is None);
        size -= 1;
    }
    None
}

/// The largest `k` from `k0` on with `k * k <= n` (the integer square root
/// of `n` when started at 0).
pub open spec fn floor_sqrt_from(n: int, k: int) -> int
    decreases n - k,
{
    if k >= n || (k + 1) * (k + 1) > n { k } else { floor_sqrt_from(n, k + 1) }
}

/// Integer square root: the largest `k` with `k * k <= n`.
pub open spec fn floor_sqrt(n: int) -> int {
    floor_sqrt_from(n, 0)
}

/// `a / m` rounded toward zero.
pub open spec fn div_toward_zero(a: int, m: int) -> int {
    if a >= 0 { a / m } else { -((-a) / m) }
}

/// The unit-ish direction toward the inside of the turn at `curr`: the sum
/// of the two steps turned a quarter toward the side the path bends to (by
/// the sign of their cross product), divided by the integer length of that
/// vector; (0, 0) on a straight stretch.
pub open spec fn curve_inside_direction(prev: GridPos, curr: GridPos, next: GridPos) -> (int, int) {
    let (a, b) = step_vector(prev, curr);
    let (c, d) = step_vector(curr, next);
    let cross = a * d - b * c;
    let sx = a + c;
    let sy = b + d;
    let (px, py) = if cross > 0 { (-sy, sx) } else if cross < 0 { (sy, -sx) } else { (0, 0) };
    if px == 0 && py == 0 {
        (0, 0)
    } else {
        let m = floor_sqrt(px * px + py * py);
        if m > 0 { (div_toward_zero(px, m), div_toward_zero(py, m)) } else { (0, 0) }
    }
}

/// The turn arithmetic stays within 32-bit integers, and the squared length
/// of the summed steps stays below 2^24, where lengths are exact.
pub open spec fn curve_direction_defined(prev: GridPos, curr: GridPos, next: GridPos) -> bool {
    let (a, b) = step_vector(prev, curr);
    let (c, d) = step_vector(curr, next);
    &&& prev.x <= i32::MAX && prev.y <= i32::MAX
    &&& curr.x <= i32::MAX && curr.y <= i32::MAX
    &&& next.x <= i32::MAX && next.y <= i32::MAX
    &&& i32::MIN <= a * d <= i32::MAX
    &&& i32::MIN <= b * c <= i32::MAX
    &&& i32::MIN <= a * d - b * c <= i32::MAX
    &&& -16777215 <= a + c <= 16777215
    &&& -16777215 <= b + d <= 16777215
    &&& (a + c) * (a + c) + (b + d) * (b + d) < 16777216
}

proof fn lemma_floor_sqrt_from(n: int, k: int)
    requires
        0 <= k,
        k * k <= n,
    ensures
        k <= floor_sqrt_from(n, k),
        floor_sqrt_from(n, k) * floor_sqrt_from(n, k) <= n,
        floor_sqrt_from(n, k) >= n || (floor_sqrt_from(n, k) + 1) * (floor_sqrt_from(n, k) + 1) > n,
    decreases n - k,
{
    if !(k >= n || (k + 1) * (k + 1) > n) {
        lemma_floor_sqrt_from(n, k + 1);
    }
}

/// Each coordinate of the inside direction of a turn is -1, 0 or 1.
pub proof fn lemma_curve_direction_is_unit(prev: GridPos, curr: GridPos, next: GridPos)
    requires
        curve_direction_defined(prev, curr, next),
    ensures
        -1 <= curve_inside_direction(prev, curr, next).0 <= 1,
        -1 <= curve_inside_direction(prev, curr, next).1 <= 1,
{
    let (a, b) = step_vector(prev, curr);
    let (c, d) = step_vector(curr, next);
    let cross = a * d - b * c;
    let sx = a + c;
    let sy = b + d;
    let (px, py) = if cross > 0 { (-sy, sx) } else if cross < 0 { (sy, -sx) } else { (0, 0) };
    if !(px == 0 && py == 0) {
        let n = px * px + py * py;
        assert(px * px >= 0 && py * py >= 0) by (nonlinear_arith);
        lemma_floor_sqrt_from(n, 0);
        let m = floor_sqrt(n);
        if m > 0 {
            assert forall|v: int| v * v <= n implies div_toward_zero(v, m) >= -1 && div_toward_zero(v, m) <= 1 by {
                if m >= n {
                    assert(v * v <= m * m) by (nonlinear_arith)
                        requires
                            v * v <= n,
                            n <= m,
                            m >= 1,
                    ;
                } else {
                    assert(v * v < (m + 1) * (m + 1));
                }
                assert(-2 * m < v < 2 * m) by (nonlinear_arith)
                    requires
                        m >= 1,
                        v * v < (m + 1) * (m + 1) || v * v <= m * m,
                ;
                if v >= 0 {
                    assert(v / m <= 1) by (nonlinear_arith)
                        requires
                            0 <= v < 2 * m,
                            m >= 1,
                    ;
                } else {
                    assert((-v) / m <= 1) by (nonlinear_arith)
                        requires
                            0 < -v < 2 * m,
                            m >= 1,
                    ;
                }
            }
            assert(px * px <= n && py * py <= n);
        }
    }
}

/// Integer square root by counting up.
fn integer_sqrt(n: u32) -> (r: u32)
    requires
        n < 16777216,
    ensures
        r == floor_sqrt(n as int),
        r * r <= n,
{
    let mut k: u32 = 0;
    loop
        invariant
            n < 16777216,
            k * k <= n,
            k <= n,
            floor_sqrt_from(n as int, k as int) == floor_sqrt(n as int),
        ensures
            k * k <= n,
            floor_sqrt_from(n as int, k as int) == floor_sqrt(n as int),
            k >= n || (k + 1) * (k + 1) > n,
        decreases n - k,
    {
        if k >= n {
            break;
        }
        let next: u64 = k as u64 + 1;
        proof {
            assert(next * next <= 16777216 * 16777216) by (nonlinear_arith)
                requires
                    1 <= next <= 16777216,
            ;
        }
        if next * next > n as u64 {
            break;
        }
        k = k + 1;
    }
    k
}

/// The direction toward the inside of the turn at `curr` (see
/// `curve_inside_direction`).
pub fn calculate_curve_inside_direction(prev: GridPos, curr: GridPos, next: GridPos) -> (r: (i32, i32))
    requires
        curve_direction_defined(prev, curr, next),
    ensures
        (r.0 as int, r.1 as int) == curve_inside_direction(prev, curr, next),
{
    let a = curr.x as i32 - prev.x as i32;
    let b = curr.y as i32 - prev.y as i32;
    let c = next.x as i32 - curr.x as i32;
    let d = next.y as i32 - curr.y as i32;
    let cross = a * d - b * c;
    let sx = a + c;
    let sy = b + d;
    let (px, py): (i32, i32) = if cross > 0 {
        (-sy, sx)
    } else if cross < 0 {
        (sy, -sx)
    } else {
        (0, 0)
    };
    if px == 0 && py == 0 {
        return (0, 0);
    }
    proof {
        assert(px * px + py * py == sx * sx + sy * sy) by (nonlinear_arith)
            requires
                (px == -sy && py == sx) || (px == sy && py == -sx),
        ;
        assert(px * px >= 0 && py * py >= 0) by (nonlinear_arith);
    }
    let ux: u32 = if px >= 0 { px as u32 } else { (-px) as u32 };
    let uy: u32 = if py >= 0 { py as u32 } else { (-py) as u32 };
    proof {
        assert(ux * ux == px * px && uy * uy == py * py) by (nonlinear_arith)
            requires
                ux == (if px >= 0 { px as int } else { -px }),
                uy == (if py >= 0 { py as int } else { -py }),
        ;
    }
    let magnitude = integer_sqrt(ux * ux + uy * uy);
    if magnitude == 0 {
        return (0, 0);
    }
    let qx = (ux / magnitude) as i32;
    let qy = (uy / magnitude) as i32;
    let rx = if px >= 0 { qx } else { -qx };
    let ry = if py >= 0 { qy } else { -qy };
    (rx, ry)
}

/// Where a zone on the inside of the turn at `curr` is tried: two cells
/// toward the inside, kept one cell away from the grid's edges.
pub open spec fn inside_zone_center(g: &PathGrid, curr: GridPos, dir: (int, int)) -> GridPos {
    GridPos {
        x: clamp_int(curr.x + dir.0 * 2, 1, g.width - 2) as usize,
        y: clamp_int(curr.y + dir.1 * 2, 1, g.height - 2) as usize,
    }
}

/// Where a zone on the outside of the turn at `curr` is tried: three cells
/// away from the inside, kept two cells away from the grid's edges.
pub open spec fn outside_zone_center(g: &PathGrid, curr: GridPos, dir: (int, int)) -> GridPos {
    GridPos {
        x: clamp_int(curr.x - dir.0 * 3, 2, g.width - 3) as usize,
        y: clamp_int(curr.y - dir.1 * 3, 2, g.height - 3) as usize,
    }
}

/// The grid is at least three cells each way and its size fits in 32 bits.
pub open spec fn zone_grid_defined(g: &PathGrid) -> bool {
    3 <= g.width <= i32::MAX && 3 <= g.height <= i32::MAX
}

/// `v` held within `lo..=hi` in 32-bit arithmetic, as `clamp_int` says.
fn clamp_i32(v: i32, lo: i32, hi: i32) -> (r: i32)
    ensures
        r == clamp_int(v as int, lo as int, hi as int),
{
    let raised = if v < lo { lo } else { v };
    if raised > hi { hi } else { raised }
}

/// The cells where zones are tried around the turn at `curr`, with `dir` the
/// inside direction of the turn: first the inside one, then the outside one.
pub fn curve_zone_centers(grid: &PathGrid, curr: GridPos, dir: (i32, i32)) -> (r: (GridPos, GridPos))
    requires
        zone_grid_defined(grid),
        curr.x <= i32::MAX,
        curr.y <= i32::MAX,
        i32::MIN <= dir.0 * 3 <= i32::MAX,
        i32::MIN <= dir.1 * 3 <= i32::MAX,
        i32::MIN <= curr.x + dir.0 * 2 <= i32::MAX,
        i32::MIN <= curr.y + dir.1 * 2 <= i32::MAX,
        i32::MIN <= curr.x - dir.0 * 3 <= i32::MAX,
        i32::MIN <= curr.y - dir.1 * 3 <= i32::MAX,
    ensures
        r.0 == inside_zone_center(grid, curr, (dir.0 as int, dir.1 as int)),
        r.1 == outside_zone_center(grid, curr, (dir.0 as int, dir.1 as int)),
{
    let w = grid.width as i32;
    let h = grid.height as i32;
    let cx = curr.x as i32;
    let cy = curr.y as i32;
    let inside_x = clamp_i32(cx + dir.0 * 2, 1, w - 2);
    let inside_y = clamp_i32(cy + dir.1 * 2, 1, h - 2);
    let outside_x = clamp_i32(cx - dir.0 * 3, 2, w - 3);
    let outside_y = clamp_i32(cy - dir.1 * 3, 2, h - 3);
    (GridPos::new(inside_x as usize, inside_y as usize), GridPos::new(outside_x as usize, outside_y as usize))
}

/// The indices of the cells where `path` turns, in path order.
pub open spec fn turn_sites_upto(path: Seq<GridPos>, n: int) -> Seq<usize>
    decreases n,
{
    if n <= 1 {
        Seq::empty()
    } else {
        let before = turn_sites_upto(path, n - 1);
        let i = n - 1;
        if i < path.len() - 1 && step_vector(path[i - 1], path[i]) != step_vector(path[i], path[i + 1]) {
            before.push(i as usize)
        } else {
            before
        }
    }
}

/// The indices of the inner cells of `path` where it changes direction, in
/// order; none for paths shorter than three cells.
pub fn curve_sites(path: &[GridPos]) -> (r: Vec<usize>)
    requires
        forall|i: int| 0 <= i < path@.len() ==> #[trigger] path@[i].x <= i32::MAX && path@[i].y <= i32::MAX,
    ensures
        r@ == (if path@.len() < 3 { Seq::empty() } else { turn_sites_upto(path@, path@.len() - 1) }),
{
    let mut sites: Vec<usize> = Vec::new();
    if path.len() < 3 {
        return sites;
    }
    let mut i: usize = 1;
    while i < path.len() - 1
        invariant
            forall|k: int| 0 <= k < path@.len() ==> #[trigger] path@[k].x <= i32::MAX && path@[k].y <= i32::MAX,
            path@.len() >= 3,
            1 <= i <= path@.len() - 1,
            sites@ == turn_sites_upto(path@, i as int),
        decreases path@.len() - 1 - i,
    {
        let prev = path[i - 1];
        let curr = path[i];
        let next = path[i + 1];
        let dir1 = (curr.x as i32 - prev.x as i32, curr.y as i32 - prev.y as i32);
        let dir2 = (next.x as i32 - curr.x as i32, next.y as i32 - curr.y as i32);
        if dir1.0 != dir2.0 || dir1.1 != dir2.1 {
            sites.push(i);
        }
        i += 1;
    }
    sites
}

/// Where fallback zones are tried when too few were found: near the four
/// corners, one cell in from the top and left edges and three cells in from
/// the bottom and right edges.
pub fn minimum_zone_positions(grid: &PathGrid) -> (r: Vec<GridPos>)
    requires
        zone_grid_defined(grid),
    ensures
        r@ == seq![
            GridPos { x: 1, y: 1 },
            GridPos { x: (grid.width - 3) as usize, y: 1 },
            GridPos { x: 1, y: (grid.height - 3) as usize },
            GridPos { x: (grid.width - 3) as usize, y: (grid.height - 3) as usize },
        ],
{
    let positions = vec![
        GridPos::new(1, 1),
        GridPos::new(grid.width - 3, 1),
        GridPos::new(1, grid.height - 3),
        GridPos::new(grid.width - 3, grid.height - 3),
    ];
    assert(positions@ =~= seq![
        GridPos { x: 1, y: 1 },
        GridPos { x: (grid.width - 3) as usize, y: 1 },
        GridPos { x: 1, y: (grid.height - 3) as usize },
        GridPos { x: (grid.width - 3) as usize, y: (grid.height - 3) as usize },
    ]);
    positions
}

} // verus!
