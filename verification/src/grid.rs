use vstd::prelude::*;

verus! {

/// What a cell of the map holds.
#[derive(Debug, Clone, Copy, PartialEq, Eq, Structural)]
pub enum CellType {
    /// Free cell: enemies may walk here and towers may be built here.
    Empty,
    /// Cell on the enemy route.
    Path,
    /// Cell reserved for towers.
    TowerZone,
    /// Impassable obstacle.
    Blocked,
}

impl Default for CellType {
    fn default() -> (r: Self)
        ensures
            r == CellType::Empty,
    {
        CellType::Empty
    }
}

/// A cell position in grid coordinates (column `x`, row `y`).
#[derive(Debug, Clone, Copy, PartialEq, Eq, Structural, Hash)]
pub struct GridPos {
    pub x: usize,
    pub y: usize,
}

/// `a` and `b` share an edge (four-neighbourhood, no diagonals).
pub open spec fn adjacent(a: GridPos, b: GridPos) -> bool {
    ||| a.x == b.x && (a.y + 1 == b.y || b.y + 1 == a.y)
    ||| a.y == b.y && (a.x + 1 == b.x || b.x + 1 == a.x)
}

/// The neighbours that `GridPos::neighbors` lists, in its order: north, south, west, east.
pub open spec fn spec_neighbors(p: GridPos, width: nat, height: nat) -> Seq<GridPos> {
    let north = if p.y > 0 { seq![GridPos { x: p.x, y: (p.y - 1) as usize }] } else { seq![] };
    let south = if p.y + 1 < height { seq![GridPos { x: p.x, y: (p.y + 1) as usize }] } else { seq![] };
    let west = if p.x > 0 { seq![GridPos { x: (p.x - 1) as usize, y: p.y }] } else { seq![] };
    let east = if p.x + 1 < width { seq![GridPos { x: (p.x + 1) as usize, y: p.y }] } else { seq![] };
    north + south + west + east
}

/// Manhattan distance between two positions.
pub open spec fn spec_manhattan(a: GridPos, b: GridPos) -> nat {
    let dx = if a.x >= b.x { a.x - b.x } else { b.x - a.x };
    let dy = if a.y >= b.y { a.y - b.y } else { b.y - a.y };
    (dx + dy) as nat
}

impl GridPos {
    pub fn new(x: usize, y: usize) -> (r: Self)
        ensures
            r.x == x,
            r.y == y,
    {
        GridPos { x, y }
    }

    /// The in-grid neighbours in the four directions, north, south, west, east.
    pub fn neighbors(&self, width: usize, height: usize) -> (r: Vec<GridPos>)
        requires
            self.x < usize::MAX,
            self.y < usize::MAX,
        ensures
            r@ == spec_neighbors(*self, width as nat, height as nat),
    {
        let mut neighbors: Vec<GridPos> = Vec::new();
        if self.y > 0 {
            neighbors.push(GridPos::new(self.x, self.y - 1));
        }
        if self.y + 1 < height {
            neighbors.push(GridPos::new(self.x, self.y + 1));
        }
        if self.x > 0 {
            neighbors.push(GridPos::new(self.x - 1, self.y));
        }
        if self.x + 1 < width {
            neighbors.push(GridPos::new(self.x + 1, self.y));
        }
        proof {
            let p = *self;
            let north = if p.y > 0 { seq![GridPos { x: p.x, y: (p.y - 1) as usize }] } else { seq![] };
            let south = if p.y + 1 < height { seq![GridPos { x: p.x, y: (p.y + 1) as usize }] } else { seq![] };
            let west = if p.x > 0 { seq![GridPos { x: (p.x - 1) as usize, y: p.y }] } else { seq![] };
            let east = if p.x + 1 < width { seq![GridPos { x: (p.x + 1) as usize, y: p.y }] } else { seq![] };
            assert(neighbors@ =~= north + south + west + east);
        }
        neighbors
    }

    /// Manhattan distance to `other`.
    pub fn manhattan_distance(&self, other: &GridPos) -> (r: usize)
        requires
            spec_manhattan(*self, *other) <= usize::MAX,
        ensures
            r == spec_manhattan(*self, *other),
    {
        let dx = if self.x >= other.x { self.x - other.x } else { other.x - self.x };
        let dy = if self.y >= other.y { self.y - other.y } else { other.y - self.y };
        dx + dy
    }
}

/// Every in-grid neighbour listed by `spec_neighbors` is adjacent, and every
/// in-grid cell adjacent to an in-grid cell is listed.
pub proof fn lemma_neighbors_exact(p: GridPos, q: GridPos, width: nat, height: nat)
    requires
        p.x < width,
        p.y < height,
        width <= usize::MAX,
        height <= usize::MAX,
    ensures
        spec_neighbors(p, width, height).contains(q) <==> (q.x < width && q.y < height && adjacent(p, q)),
{
    let s = spec_neighbors(p, width, height);
    if q.x < width && q.y < height && adjacent(p, q) {
        if q.x == p.x && q.y + 1 == p.y {
            assert(s[0] == q);
        } else if q.x == p.x && p.y + 1 == q.y {
            let k: int = if p.y > 0 { 1 } else { 0 };
            assert(s[k] == q);
        } else if q.y == p.y && q.x + 1 == p.x {
            let k: int = (if p.y > 0 { 1int } else { 0int }) + (if p.y + 1 < height { 1int } else { 0int });
            assert(s[k] == q);
        } else {
            let k: int = (if p.y > 0 { 1int } else { 0int }) + (if p.y + 1 < height { 1int } else { 0int })
                + (if p.x > 0 { 1int } else { 0int });
            assert(s[k] == q);
        }
    }
    let north = if p.y > 0 { seq![GridPos { x: p.x, y: (p.y - 1) as usize }] } else { seq![] };
    let south = if p.y + 1 < height { seq![GridPos { x: p.x, y: (p.y + 1) as usize }] } else { seq![] };
    let west = if p.x > 0 { seq![GridPos { x: (p.x - 1) as usize, y: p.y }] } else { seq![] };
    let east = if p.x + 1 < width { seq![GridPos { x: (p.x + 1) as usize, y: p.y }] } else { seq![] };
    assert forall|k: int| 0 <= k < s.len() implies (s[k].x < width && s[k].y < height && adjacent(p, s[k])) by {
        let a = north + south;
        let b = a + west;
        assert(s == b + east);
        if k < a.len() {
            assert(s[k] == a[k]);
        } else if k < b.len() {
            assert(s[k] == b[k]);
            assert(b[k] == west[k - a.len()]);
        } else {
            assert(s[k] == east[k - b.len()]);
        }
    }
    if s.contains(q) {
        let i = choose|i: int| 0 <= i < s.len() && s[i] == q;
        assert(s[i] == q);
    }
}

/// A rectangular grid of cells, indexed `cells[y][x]`, with the enemies'
/// entry and exit points.
#[derive(Debug)]
pub struct PathGrid {
    pub width: usize,
    pub height: usize,
    pub cells: Vec<Vec<CellType>>,
    pub entry_point: GridPos,
    pub exit_point: GridPos,
}

impl PathGrid {
    /// The cell rows match the grid's dimensions.
    pub open spec fn wf(&self) -> bool {
        &&& self.cells@.len() == self.height
        &&& forall|y: int| 0 <= y < self.height ==> #[trigger] self.cells@[y]@.len() == self.width
    }

    pub open spec fn in_bounds(&self, p: GridPos) -> bool {
        p.x < self.width && p.y < self.height
    }

    /// The content of an in-grid cell.
    pub open spec fn cell(&self, p: GridPos) -> CellType {
        self.cells@[p.y as int]@[p.x as int]
    }

    pub open spec fn spec_get_cell(&self, p: GridPos) -> Option<CellType> {
        if self.in_bounds(p) { Some(self.cell(p)) } else { None }
    }

    /// Enemies may stand on the cell: in the grid, and empty or on the path.
    pub open spec fn traversable(&self, p: GridPos) -> bool {
        self.in_bounds(p) && (self.cell(p) == CellType::Empty || self.cell(p) == CellType::Path)
    }

    /// The two grids have the same dimensions, entry and exit.
    pub open spec fn same_frame(&self, other: &PathGrid) -> bool {
        &&& self.width == other.width
        &&& self.height == other.height
        &&& self.entry_point == other.entry_point
        &&& self.exit_point == other.exit_point
    }

    /// Same frame and the same cell everywhere.
    pub open spec fn same_cells(&self, other: &PathGrid) -> bool {
        &&& self.same_frame(other)
        &&& forall|p: GridPos| self.in_bounds(p) ==> #[trigger] self.cell(p) == other.cell(p)
    }

    /// A new grid of the given size, all cells empty, entering at the middle
    /// of the left edge and leaving at the middle of the right edge.
    pub fn new(width: usize, height: usize) -> (r: Self)
        requires
            width >= 1,
        ensures
            r.wf(),
            r.width == width,
            r.height == height,
            r.entry_point == (GridPos { x: 0, y: height / 2 }),
            r.exit_point == (GridPos { x: (width - 1) as usize, y: height / 2 }),
            forall|p: GridPos| r.in_bounds(p) ==> #[trigger] r.cell(p) == CellType::Empty,
    {
        let mut cells: Vec<Vec<CellType>> = Vec::new();
        let mut y: usize = 0;
        while y < height
            invariant
                y <= height,
                cells@.len() == y,
                forall|j: int| 0 <= j < y ==> #[trigger] cells@[j]@.len() == width,
                forall|j: int, i: int| 0 <= j < y && 0 <= i < width ==> #[trigger] cells@[j]@[i] == CellType::Empty,
            decreases height - y,
        {
            let mut row: Vec<CellType> = Vec::new();
            let mut x: usize = 0;
            while x < width
                invariant
                    x <= width,
                    row@.len() == x,
                    forall|i: int| 0 <= i < x ==> #[trigger] row@[i] == CellType::Empty,
                decreases width - x,
            {
                row.push(CellType::Empty);
                x += 1;
            }
            cells.push(row);
            y += 1;
        }
        PathGrid {
            width,
            height,
            cells,
            entry_point: GridPos::new(0, height / 2),
            exit_point: GridPos::new(width - 1, height / 2),
        }
    }

    /// The standard 32 by 18 map.
    pub fn new_unified() -> (r: Self)
        ensures
            r.wf(),
            r.width == 32,
            r.height == 18,
            r.entry_point == (GridPos { x: 0, y: 9 }),
            r.exit_point == (GridPos { x: 31, y: 9 }),
            forall|p: GridPos| r.in_bounds(p) ==> #[trigger] r.cell(p) == CellType::Empty,
    {
        Self::new(32, 18)
    }

    /// The cell at `pos`, or `None` outside the grid.
    pub fn get_cell(&self, pos: GridPos) -> (r: Option<CellType>)
        requires
            self.wf(),
        ensures
            r == self.spec_get_cell(pos),
    {
        if pos.x < self.width && pos.y < self.height {
            Some(self.cells[pos.y][pos.x])
        } else {
            None
        }
    }

    /// Writes `cell_type` at `pos` when it is inside the grid; reports whether it was.
    pub fn set_cell(&mut self, pos: GridPos, cell_type: CellType) -> (r: bool)
        requires
            old(self).wf(),
        ensures
            final(self).wf(),
            final(self).same_frame(old(self)),
            r == old(self).in_bounds(pos),
            forall|p: GridPos| #[trigger] final(self).in_bounds(p) ==>
                final(self).cell(p) == (if r && p == pos { cell_type } else { old(self).cell(p) }),
    {
        if pos.x < self.width && pos.y < self.height {
            let mut row = self.cells.remove(pos.y);
            row.set(pos.x, cell_type);
            self.cells.insert(pos.y, row);
            proof {
                assert forall|y: int| 0 <= y < self.height implies #[trigger] self.cells@[y]@.len() == self.width by {
                    if y != pos.y as int {
                        assert(self.cells@[y] == old(self).cells@[y]);
                    }
                }
                assert forall|p: GridPos| #[trigger] self.in_bounds(p) implies
                    self.cell(p) == (if p == pos { cell_type } else { old(self).cell(p) }) by {
                    if p.y != pos.y {
                        assert(self.cells@[p.y as int] == old(self).cells@[p.y as int]);
                    }
                }
            }
            true
        } else {
            false
        }
    }

    /// Whether enemies may stand at `pos`.
    pub fn is_traversable(&self, pos: GridPos) -> (r: bool)
        requires
            self.wf(),
        ensures
            r == self.traversable(pos),
    {
        match self.get_cell(pos) {
            Some(CellType::Empty) | Some(CellType::Path) => true,
            Some(CellType::Blocked) | Some(CellType::TowerZone) => false,
            None => false,
        }
    }
}


/// How many of the positions in `s` hold an empty in-grid cell.
pub open spec fn count_empty_cells(g: &PathGrid, s: Seq<GridPos>) -> nat
    decreases s.len(),
{
    if s.len() == 0 {
        0
    } else {
        count_empty_cells(g, s.drop_last()) + (if g.spec_get_cell(s.last()) == Some(CellType::Empty) { 1nat } else { 0nat })
    }
}

impl PathGrid {
    /// The cell at column `x`, row `y` exists and is empty.
    pub open spec fn empty_at(&self, x: int, y: int) -> bool {
        &&& 0 <= x < self.width
        &&& 0 <= y < self.height
        &&& self.cells@[y]@[x] == CellType::Empty
    }

    /// The `w` by `h` rectangle whose top-left cell is (`x`, `y`) lies in the grid and is all empty.
    pub open spec fn rect_empty(&self, x: int, y: int, w: int, h: int) -> bool {
        forall|dx: int, dy: int| 0 <= dx < w && 0 <= dy < h ==> #[trigger] self.empty_at(x + dx, y + dy)
    }

    /// Marks every in-grid position of `path` as a path cell.
    pub fn apply_path(&mut self, path: &[GridPos])
        requires
            old(self).wf(),
        ensures
            final(self).wf(),
            final(self).same_frame(old(self)),
            forall|p: GridPos| #[trigger] final(self).in_bounds(p) ==>
                final(self).cell(p) == (if path@.contains(p) { CellType::Path } else { old(self).cell(p) }),
    {
        let mut i: usize = 0;
        while i < path.len()
            invariant
                i <= path@.len(),
                self.wf(),
                self.same_frame(old(self)),
                forall|p: GridPos| #[trigger] self.in_bounds(p) ==>
                    self.cell(p) == (if path@.take(i as int).contains(p) { CellType::Path } else { old(self).cell(p) }),
            decreases path@.len() - i,
        {
            let pos = path[i];
            let ghost prev = *self;
            self.set_cell(pos, CellType::Path);
            proof {
                assert forall|p: GridPos| #[trigger] self.in_bounds(p) implies
                    self.cell(p) == (if path@.take(i + 1).contains(p) { CellType::Path } else { old(self).cell(p) }) by {
                    assert(path@.take(i + 1) =~= path@.take(i as int).push(pos));
                    assert(prev.in_bounds(p));
                    if p == pos {
                        assert(path@.take(i + 1)[i as int] == pos);
                    } else if path@.take(i as int).contains(p) {
                        let k = choose|k: int| 0 <= k < i && path@.take(i as int)[k] == p;
                        assert(path@.take(i + 1)[k] == p);
                    } else if path@.take(i + 1).contains(p) {
                        let t = path@.take(i + 1);
                        let k = choose|k: int| 0 <= k < t.len() && t[k] == p;
                        assert(path@.take(i as int)[k] == p);
                    }
                }
            }
            i += 1;
        }
        assert(path@.take(path@.len() as int) =~= path@);
    }

    /// How many of the in-grid neighbours of `pos` are empty.
    pub fn count_empty_neighbors(&self, pos: GridPos) -> (r: usize)
        requires
            self.wf(),
            pos.x < usize::MAX,
            pos.y < usize::MAX,
        ensures
            r == count_empty_cells(self, spec_neighbors(pos, self.width as nat, self.height as nat)),
            r <= 4,
    {
        let neighbors = pos.neighbors(self.width, self.height);
        let mut count: usize = 0;
        let mut i: usize = 0;
        while i < neighbors.len()
            invariant
                i <= neighbors@.len(),
                neighbors@.len() <= 4,
                self.wf(),
                count == count_empty_cells(self, neighbors@.take(i as int)),
                count <= i,
            decreases neighbors@.len() - i,
        {
            assert(neighbors@.take(i + 1).drop_last() =~= neighbors@.take(i as int));
            if self.get_cell(neighbors[i]) == Some(CellType::Empty) {
                count += 1;
            }
            i += 1;
        }
        assert(neighbors@.take(neighbors@.len() as int) =~= neighbors@);
        count
    }

    /// Whether the `width` by `height` rectangle at `top_left` lies in the grid and is all empty.
    fn is_rect_empty(&self, top_left: GridPos, width: usize, height: usize) -> (r: bool)
        requires
            self.wf(),
            top_left.x + width <= usize::MAX,
            top_left.y + height <= usize::MAX,
        ensures
            r == self.rect_empty(top_left.x as int, top_left.y as int, width as int, height as int),
    {
        let mut dy: usize = 0;
        while dy < height
            invariant
                self.wf(),
                dy <= height,
                top_left.x + width <= usize::MAX,
                top_left.y + height <= usize::MAX,
                forall|ex: int, ey: int| 0 <= ex < width && 0 <= ey < dy ==>
                    #[trigger] self.empty_at(top_left.x + ex, top_left.y + ey),
            decreases height - dy,
        {
            let mut dx: usize = 0;
            while dx < width
                invariant
                    self.wf(),
                    dy < height,
                    dx <= width,
                    top_left.x + width <= usize::MAX,
                    top_left.y + height <= usize::MAX,
                    forall|ex: int, ey: int| 0 <= ex < width && 0 <= ey < dy ==>
                        #[trigger] self.empty_at(top_left.x + ex, top_left.y + ey),
                    forall|ex: int| 0 <= ex < dx ==> #[trigger] self.empty_at(top_left.x + ex, top_left.y + dy),
                decreases width - dx,
            {
                let pos = GridPos::new(top_left.x + dx, top_left.y + dy);
                if pos.x >= self.width || pos.y >= self.height || self.cells[pos.y][pos.x] != CellType::Empty {
                    assert(!self.empty_at(top_left.x + dx, top_left.y + dy));
                    return false;
                }
                dx += 1;
            }
            assert forall|ex: int, ey: int| 0 <= ex < width && 0 <= ey < dy + 1 implies
                #[trigger] self.empty_at(top_left.x + ex, top_left.y + ey) by {
                if ey == dy {
                    assert(self.empty_at(top_left.x + ex, top_left.y + dy));
                }
            }
            dy += 1;
        }
        true
    }
}

/// (`y2`, `x2`, `h2`, `w2`) comes before (`y`, `x`, `h`, `w`) in the order in
/// which `find_largest_empty_rect` visits rectangles.
pub open spec fn scan_before(y2: int, x2: int, h2: int, w2: int, y: int, x: int, h: int, w: int) -> bool {
    ||| y2 < y
    ||| y2 == y && x2 < x
    ||| y2 == y && x2 == x && h2 < h
    ||| y2 == y && x2 == x && h2 == h && w2 < w
}

impl PathGrid {
    /// `tl`..`br` is an all-empty rectangle and no all-empty rectangle of the grid is larger.
    pub open spec fn is_largest_empty_rect(&self, tl: GridPos, br: GridPos) -> bool {
        &&& tl.x <= br.x
        &&& tl.y <= br.y
        &&& self.rect_empty(tl.x as int, tl.y as int, br.x - tl.x + 1, br.y - tl.y + 1)
        &&& forall|x: int, y: int, w: int, h: int| w >= 1 && h >= 1 && #[trigger] self.rect_empty(x, y, w, h)
            ==> w * h <= (br.x - tl.x + 1) * (br.y - tl.y + 1)
    }

    /// Every all-empty rectangle visited before (`y`, `x`, `h`, `w`) has area at most `bound`.
    pub open spec fn rects_seen(&self, y: int, x: int, h: int, w: int, bound: int) -> bool {
        forall|x2: int, y2: int, w2: int, h2: int|
            w2 >= 1 && h2 >= 1 && #[trigger] self.rect_empty(x2, y2, w2, h2) && scan_before(y2, x2, h2, w2, y, x, h, w)
            ==> w2 * h2 <= bound
    }

    /// The best rectangle found so far matches the best area found so far.
    pub open spec fn best_matches(&self, best: Option<(GridPos, GridPos)>, area: int) -> bool {
        match best {
            None => area == 0,
            Some((tl, br)) => {
                &&& tl.x <= br.x
                &&& tl.y <= br.y
                &&& self.rect_empty(tl.x as int, tl.y as int, br.x - tl.x + 1, br.y - tl.y + 1)
                &&& area == (br.x - tl.x + 1) * (br.y - tl.y + 1)
                &&& area >= 1
            },
        }
    }

    /// The largest all-empty rectangle, as (top-left, bottom-right), or `None` when no cell is empty.
    pub fn find_largest_empty_rect(&self) -> (r: Option<(GridPos, GridPos)>)
        requires
            self.wf(),
            self.width * self.height <= usize::MAX,
            self.height > 0 ==> self.width < usize::MAX,
        ensures
            match r {
                None => forall|x: int, y: int| !#[trigger] self.empty_at(x, y),
                Some((tl, br)) => self.is_largest_empty_rect(tl, br),
            },
    {
        let mut max_area: usize = 0;
        let mut best_rect: Option<(GridPos, GridPos)> = None;
        proof {
            assert forall|x2: int, y2: int, w2: int, h2: int|
                w2 >= 1 && h2 >= 1 && #[trigger] self.rect_empty(x2, y2, w2, h2)
                    && scan_before(y2, x2, h2, w2, 0, 0, 0, 0)
                implies w2 * h2 <= 0 by {
                assert(self.empty_at(x2 + 0, y2 + 0));
            }
        }
        let mut y: usize = 0;
        while y < self.height
            invariant
                self.wf(),
                self.width * self.height <= usize::MAX,
                self.height > 0 ==> self.width < usize::MAX,
                y <= self.height,
                self.best_matches(best_rect, max_area as int),
                self.rects_seen(y as int, 0, 0, 0, max_area as int),
            decreases self.height - y,
        {
            let mut x: usize = 0;
            while x < self.width
                invariant
                    self.wf(),
                    self.width * self.height <= usize::MAX,
                    self.width < usize::MAX,
                    y < self.height,
                    x <= self.width,
                    self.best_matches(best_rect, max_area as int),
                    self.rects_seen(y as int, x as int, 0, 0, max_area as int),
                decreases self.width - x,
            {
                if self.cells[y][x] == CellType::Empty {
                    let mut h: usize = 1;
                    loop
                        invariant
                            self.wf(),
                            self.width * self.height <= usize::MAX,
                            self.width < usize::MAX,
                            y < self.height,
                            x < self.width,
                            1 <= h <= self.height - y,
                            self.best_matches(best_rect, max_area as int),
                            self.rects_seen(y as int, x as int, h as int, 0, max_area as int),
                        ensures
                            self.best_matches(best_rect, max_area as int),
                            self.rects_seen(y as int, x as int + 1, 0, 0, max_area as int),
                        decreases self.height - y - h,
                    {
                        let mut w: usize = 1;
                        loop
                            invariant
                                self.wf(),
                                self.width * self.height <= usize::MAX,
                                self.width < usize::MAX,
                                y < self.height,
                                x < self.width,
                                1 <= h <= self.height - y,
                                1 <= w <= self.width - x,
                                self.best_matches(best_rect, max_area as int),
                                self.rects_seen(y as int, x as int, h as int, w as int, max_area as int),
                            ensures
                                self.best_matches(best_rect, max_area as int),
                                self.rects_seen(y as int, x as int, h + 1, 0, max_area as int),
                            decreases self.width - x - w,
                        {
                            if self.is_rect_empty(GridPos::new(x, y), w, h) {
                                proof {
                                    let (wd, ht, ww, hh) = (self.width as int, self.height as int, w as int, h as int);
                                    assert(ww * hh <= wd * ht) by (nonlinear_arith)
                                        requires 1 <= ww <= wd, 1 <= hh <= ht;
                                }
                                let area = w * h;
                                if area > max_area {
                                    max_area = area;
                                    best_rect = Some((GridPos::new(x, y), GridPos::new(x + w - 1, y + h - 1)));
                                }
                                proof {
                                    assert(w * h >= 1) by (nonlinear_arith) requires w >= 1, h >= 1;
                                }
                                if w == self.width - x {
                                    proof {
                                        assert forall|x2: int, y2: int, w2: int, h2: int|
                                            w2 >= 1 && h2 >= 1 && #[trigger] self.rect_empty(x2, y2, w2, h2)
                                                && scan_before(y2, x2, h2, w2, y as int, x as int, h + 1, 0)
                                            implies w2 * h2 <= max_area by {
                                            if y2 == y && x2 == x && h2 == h && w2 > w {
                                                assert(self.empty_at(x2 + (self.width - x), y2 + 0));
                                            }
                                        }
                                    }
                                    break;
                                }
                            } else {
                                proof {
                                    assert forall|x2: int, y2: int, w2: int, h2: int|
                                        w2 >= 1 && h2 >= 1 && #[trigger] self.rect_empty(x2, y2, w2, h2)
                                            && scan_before(y2, x2, h2, w2, y as int, x as int, h + 1, 0)
                                        implies w2 * h2 <= max_area by {
                                        if y2 == y && x2 == x && h2 == h && w2 >= w {
                                            assert forall|dx: int, dy: int| 0 <= dx < w && 0 <= dy < h implies
                                                #[trigger] self.empty_at(x + dx, y + dy) by {
                                                assert(self.empty_at(x2 + dx, y2 + dy));
                                            }
                                            assert(false);
                                        }
                                    }
                                }
                                break;
                            }
                            w += 1;
                        }
                        if h == self.height - y {
                            proof {
                                assert forall|x2: int, y2: int, w2: int, h2: int|
                                    w2 >= 1 && h2 >= 1 && #[trigger] self.rect_empty(x2, y2, w2, h2)
                                        && scan_before(y2, x2, h2, w2, y as int, x + 1, 0, 0)
                                    implies w2 * h2 <= max_area by {
                                    if y2 == y && x2 == x && h2 > h {
                                        assert(self.empty_at(x2 + 0, y2 + (self.height - y)));
                                    }
                                }
                            }
                            break;
                        }
                        h += 1;
                    }
                } else {
                    proof {
                        assert forall|x2: int, y2: int, w2: int, h2: int|
                            w2 >= 1 && h2 >= 1 && #[trigger] self.rect_empty(x2, y2, w2, h2)
                                && scan_before(y2, x2, h2, w2, y as int, x + 1, 0, 0)
                            implies w2 * h2 <= max_area by {
                            if y2 == y && x2 == x {
                                assert(self.empty_at(x2 + 0, y2 + 0));
                            }
                        }
                    }
                }
                x += 1;
            }
            proof {
                assert forall|x2: int, y2: int, w2: int, h2: int|
                    w2 >= 1 && h2 >= 1 && #[trigger] self.rect_empty(x2, y2, w2, h2)
                        && scan_before(y2, x2, h2, w2, y + 1, 0, 0, 0)
                    implies w2 * h2 <= max_area by {
                    assert(self.empty_at(x2 + 0, y2 + 0));
                }
            }
            y += 1;
        }
        proof {
            assert forall|x2: int, y2: int, w2: int, h2: int|
                w2 >= 1 && h2 >= 1 && #[trigger] self.rect_empty(x2, y2, w2, h2)
                implies w2 * h2 <= max_area by {
                assert(self.empty_at(x2 + 0, y2 + 0));
                assert(scan_before(y2, x2, h2, w2, self.height as int, 0, 0, 0));
            }
            if best_rect is None {
                assert forall|x: int, y: int| !#[trigger] self.empty_at(x, y) by {
                    if self.empty_at(x, y) {
                        assert forall|dx: int, dy: int| 0 <= dx < 1 && 0 <= dy < 1 implies
                            #[trigger] self.empty_at(x + dx, y + dy) by {
                            assert(dx == 0 && dy == 0);
                        }
                        assert(self.rect_empty(x, y, 1, 1));
                    }
                }
            }
        }
        best_rect
    }
}

/// A `height` by `width` table with every entry `value`.
pub(crate) fn filled_table<T: Copy>(width: usize, height: usize, value: T) -> (r: Vec<Vec<T>>)
    ensures
        r@.len() == height,
        forall|y: int| 0 <= y < height ==> #[trigger] r@[y]@.len() == width,
        forall|y: int, x: int| 0 <= y < height && 0 <= x < width ==> #[trigger] r@[y]@[x] == value,
{
    let mut table: Vec<Vec<T>> = Vec::new();
    let mut y: usize = 0;
    while y < height
        invariant
            y <= height,
            table@.len() == y,
            forall|j: int| 0 <= j < y ==> #[trigger] table@[j]@.len() == width,
            forall|j: int, i: int| 0 <= j < y && 0 <= i < width ==> #[trigger] table@[j]@[i] == value,
        decreases height - y,
    {
        let mut row: Vec<T> = Vec::new();
        let mut x: usize = 0;
        while x < width
            invariant
                x <= width,
                row@.len() == x,
                forall|i: int| 0 <= i < x ==> #[trigger] row@[i] == value,
            decreases width - x,
        {
            row.push(value);
            x += 1;
        }
        table.push(row);
        y += 1;
    }
    table
}

/// Writes `value` at row `y`, column `x` of a table of rows.
pub(crate) fn set_table<T>(table: &mut Vec<Vec<T>>, y: usize, x: usize, value: T)
    requires
        y < old(table)@.len(),
        x < old(table)@[y as int]@.len(),
    ensures
        final(table)@.len() == old(table)@.len(),
        forall|j: int| 0 <= j < final(table)@.len() && j != y ==> #[trigger] final(table)@[j] == old(table)@[j],
        final(table)@[y as int]@ == old(table)@[y as int]@.update(x as int, value),
{
    let mut row = table.remove(y);
    row.set(x, value);
    table.insert(y, row);
}

} // verus!
