use vstd::prelude::*;
use vstd::arithmetic::div_mod::{lemma_fundamental_div_mod, lemma_mod_pos_bound, lemma_multiply_divide_lt, lemma_div_pos_is_pos};

use crate::components::Entity;
use crate::geometry::{in_interior, rect_center, rects_overlap, Rect};
use crate::random::{new_rng, rng_range, roll_die};

verus! {

pub const MAP_WIDTH: i32 = 80;
pub const MAP_HEIGHT: i32 = 43;
pub const MAP_COUNT: usize = 3440;

/// How many rooms map generation tries to place.
pub const MAX_ROOMS: usize = 30;

pub const MIN_SIZE: i32 = 6;
pub const MAX_SIZE: i32 = 10;

#[derive(Clone, Copy, Debug, PartialEq, Eq, Structural)]
pub enum CellType {
    Wall,
    Floor,
    DownStairs,
}

/// The dungeon level: cell kinds, fog of war, blocking and occupants per cell.
pub struct GameMap {
    pub cells: Vec<CellType>,
    pub revealed_cells: Vec<bool>,
    pub visible_cells: Vec<bool>,
    pub rooms: Vec<Rect>,
    pub width: i32,
    pub height: i32,
    /// Whether a cell is a wall or holds a blocking entity.
    pub blocked: Vec<bool>,
    /// How deep this level lies; the first level is 1.
    pub depth: i32,
    /// The entities standing on each cell, rebuilt every turn.
    pub cell_content: Vec<Vec<Entity>>,
}

pub open spec fn cell_count(width: int, height: int) -> int {
    width * height
}

/// The index of a cell that lies on the grid.
pub open spec fn idx_of(width: int, x: int, y: int) -> int {
    y * width + x
}

/// One room placement drawn for map generation: the corner, the size and
/// which leg of the corridor to the previous room comes first.
#[derive(Clone, Copy, Debug, PartialEq, Eq, Structural)]
pub struct RoomRoll {
    pub x: i32,
    pub y: i32,
    pub w: i32,
    pub h: i32,
    pub horizontal_first: bool,
}

impl GameMap {
    /// All per-cell vectors have one entry per cell of a non-empty grid.
    pub open spec fn wf(&self) -> bool {
        &&& 0 < self.width
        &&& 0 < self.height
        &&& self.width * self.height <= i32::MAX
        &&& self.cells@.len() == self.width * self.height
        &&& self.revealed_cells@.len() == self.width * self.height
        &&& self.visible_cells@.len() == self.width * self.height
        &&& self.blocked@.len() == self.width * self.height
        &&& self.cell_content@.len() == self.width * self.height
    }

    pub open spec fn in_bounds(&self, x: int, y: int) -> bool {
        0 <= x < self.width && 0 <= y < self.height
    }

    pub open spec fn idx(&self, x: int, y: int) -> int {
        idx_of(self.width as int, x, y)
    }

    /// A cell that is not a wall.
    pub open spec fn walkable(&self, x: int, y: int) -> bool {
        self.in_bounds(x, y) && self.cells@[self.idx(x, y)] != CellType::Wall
    }

    /// Whether the per-cell vectors match a non-empty grid, as `wf` asks.
    pub fn is_well_formed(&self) -> (r: bool)
        ensures
            r == self.wf(),
    {
        if self.width <= 0 || self.height <= 0 {
            return false;
        }
        assert(self.width * self.height <= 2147483647 * 2147483647) by (nonlinear_arith)
            requires
                0 < self.width <= 2147483647,
                0 < self.height <= 2147483647,
        ;
        let n: i64 = self.width as i64 * self.height as i64;
        if n > i32::MAX as i64 {
            return false;
        }
        let n = n as usize;
        self.cells.len() == n && self.revealed_cells.len() == n && self.visible_cells.len() == n
            && self.blocked.len() == n && self.cell_content.len() == n
    }

    pub fn xy_idx(&self, x: i32, y: i32) -> (r: usize)
        requires
            self.wf(),
            self.in_bounds(x as int, y as int),
        ensures
            r == self.idx(x as int, y as int),
            r < self.cells@.len(),
    {
        proof {
            assert(y * self.width + x < self.width * self.height) by (nonlinear_arith)
                requires
                    0 <= x < self.width,
                    0 <= y < self.height,
            ;
            assert(0 <= y * self.width) by (nonlinear_arith)
                requires
                    0 <= y,
                    0 < self.width,
            ;
        }
        (y as usize * self.width as usize) + x as usize
    }

    /// Empties the occupant list of every cell.
    pub fn clear_content_idx(&mut self)
        ensures
            final(self).cell_content@.len() == old(self).cell_content@.len(),
            forall|i: int|
                0 <= i < final(self).cell_content@.len() ==> (
                #[trigger] final(self).cell_content@[i])@.len() == 0,
            final(self).cells == old(self).cells,
            final(self).revealed_cells == old(self).revealed_cells,
            final(self).visible_cells == old(self).visible_cells,
            final(self).blocked == old(self).blocked,
            final(self).rooms == old(self).rooms,
            final(self).width == old(self).width,
            final(self).height == old(self).height,
            final(self).depth == old(self).depth,
    {
        let n = self.cell_content.len();
        let mut i: usize = 0;
        while i < n
            invariant
                i <= n,
                n == self.cell_content@.len(),
                forall|j: int| 0 <= j < i ==> (#[trigger] self.cell_content@[j])@.len() == 0,
                self.cells == old(self).cells,
                self.revealed_cells == old(self).revealed_cells,
                self.visible_cells == old(self).visible_cells,
                self.blocked == old(self).blocked,
                self.rooms == old(self).rooms,
                self.width == old(self).width,
                self.height == old(self).height,
                self.depth == old(self).depth,
            decreases n - i,
        {
            self.cell_content.set(i, Vec::new());
            i = i + 1;
        }
    }

    /// The grid's width and height.
    pub fn dimensions(&self) -> (r: crate::geometry::Point)
        ensures
            r.x == self.width,
            r.y == self.height,
    {
        crate::geometry::Point { x: self.width, y: self.height }
    }

    /// Walls block sight; nothing else does.
    pub fn is_opaque(&self, idx: usize) -> (r: bool)
        requires
            idx < self.cells@.len(),
        ensures
            r == (self.cells@[idx as int] == CellType::Wall),
    {
        self.cells[idx] == CellType::Wall
    }

    /// The exit to (x, y) with `cost` when that cell is a valid exit.
    pub open spec fn exit_if(&self, x: int, y: int, cost: u32) -> Seq<(usize, u32)> {
        if 1 <= x <= self.width - 2 && 1 <= y <= self.height - 2 && self.in_bounds(x, y)
            && !self.blocked@[self.idx(x, y)] {
            seq![(self.idx(x, y) as usize, cost)]
        } else {
            seq![]
        }
    }

    /// The moves out of the cell with index `idx`, in hundredths of a step:
    /// the four cardinal neighbours at 100, then the four diagonal ones at 145,
    /// each only when it lies inside the border and is not blocked.
    pub open spec fn exits_of(&self, idx: int) -> Seq<(usize, u32)> {
        let x = idx % (self.width as int);
        let y = idx / (self.width as int);
        self.exit_if(x - 1, y, 100) + self.exit_if(x + 1, y, 100) + self.exit_if(x, y - 1, 100)
            + self.exit_if(x, y + 1, 100) + self.exit_if(x - 1, y - 1, 145) + self.exit_if(
            x + 1,
            y - 1,
            145,
        ) + self.exit_if(x - 1, y + 1, 145) + self.exit_if(x + 1, y + 1, 145)
    }

    fn push_exit(&self, exits: &mut Vec<(usize, u32)>, x: i32, y: i32, cost: u32)
        requires
            self.wf(),
        ensures
            final(exits)@ == old(exits)@ + self.exit_if(x as int, y as int, cost),
    {
        if self.is_exit_valid(x, y) {
            let idx = self.xy_idx(x, y);
            exits.push((idx, cost));
            proof {
                assert(final(exits)@ =~= old(exits)@ + self.exit_if(x as int, y as int, cost));
            }
        } else {
            proof {
                assert(old(exits)@ + self.exit_if(x as int, y as int, cost) =~= old(exits)@);
            }
        }
    }

    /// The moves out of the cell with index `idx`, as `exits_of` lists them.
    pub fn get_available_exits(&self, idx: usize) -> (r: Vec<(usize, u32)>)
        requires
            self.wf(),
            idx < self.cells@.len(),
        ensures
            r@ == self.exits_of(idx as int),
    {
        proof {
            lemma_cell_of_index(self.width as int, self.height as int, idx as int);
        }
        let w = self.width as usize;
        let x = (idx % w) as i32;
        let y = (idx / w) as i32;
        let mut exits: Vec<(usize, u32)> = Vec::new();
        self.push_exit(&mut exits, x - 1, y, 100);
        self.push_exit(&mut exits, x + 1, y, 100);
        self.push_exit(&mut exits, x, y - 1, 100);
        self.push_exit(&mut exits, x, y + 1, 100);
        self.push_exit(&mut exits, x - 1, y - 1, 145);
        self.push_exit(&mut exits, x + 1, y - 1, 145);
        self.push_exit(&mut exits, x - 1, y + 1, 145);
        self.push_exit(&mut exits, x + 1, y + 1, 145);
        proof {
            assert(exits@ =~= self.exits_of(idx as int));
        }
        exits
    }

    /// Whether (x, y) is an unblocked cell strictly inside the grid's one-cell border.
    fn is_exit_valid(&self, x: i32, y: i32) -> (r: bool)
        requires
            self.wf(),
        ensures
            r == (1 <= x <= self.width - 2 && 1 <= y <= self.height - 2 && self.in_bounds(
                x as int,
                y as int,
            ) && !self.blocked@[self.idx(x as int, y as int)]),
    {
        if x < 1 || x as i64 > self.width as i64 - 2 || y < 1 || y as i64 > self.height as i64 - 2 {
            return false;
        }
        if x >= self.width || y >= self.height {
            return false;
        }
        let idx = self.xy_idx(x, y);
        !self.blocked[idx]
    }

    /// Marks exactly the walls as blocked.
    pub fn populate_blocked(&mut self)
        requires
            old(self).wf(),
        ensures
            final(self).wf(),
            forall|i: int|
                0 <= i < final(self).blocked@.len() ==> #[trigger] final(self).blocked@[i] == (
                final(self).cells@[i] == CellType::Wall),
            final(self).cells == old(self).cells,
            final(self).revealed_cells == old(self).revealed_cells,
            final(self).visible_cells == old(self).visible_cells,
            final(self).cell_content == old(self).cell_content,
            final(self).rooms == old(self).rooms,
            final(self).width == old(self).width,
            final(self).height == old(self).height,
            final(self).depth == old(self).depth,
    {
        let n = self.cells.len();
        let mut i: usize = 0;
        while i < n
            invariant
                i <= n,
                n == self.cells@.len(),
                self.wf(),
                forall|j: int|
                    0 <= j < i ==> #[trigger] self.blocked@[j] == (self.cells@[j] == CellType::Wall),
                self.cells == old(self).cells,
                self.revealed_cells == old(self).revealed_cells,
                self.visible_cells == old(self).visible_cells,
                self.cell_content == old(self).cell_content,
                self.rooms == old(self).rooms,
                self.width == old(self).width,
                self.height == old(self).height,
                self.depth == old(self).depth,
            decreases n - i,
        {
            let wall = self.cells[i] == CellType::Wall;
            self.blocked.set(i, wall);
            i = i + 1;
        }
    }

    /// Carves row `y` from column `x1` to `x2` to floor, skipping any cell whose
    /// index falls outside the grid.
    fn apply_horizontal_tunnel(&mut self, x1: i32, x2: i32, y: i32)
        requires
            old(self).wf(),
        ensures
            final(self).cells@.len() == old(self).cells@.len(),
            forall|i: int|
                0 <= i < old(self).cells@.len() ==> #[trigger] final(self).cells@[i] == if on_h_tunnel(
                    old(self).width as int,
                    imin(x1 as int, x2 as int),
                    imax(x1 as int, x2 as int),
                    y as int,
                    i,
                ) {
                    CellType::Floor
                } else {
                    old(self).cells@[i]
                },
            final(self).revealed_cells == old(self).revealed_cells,
            final(self).visible_cells == old(self).visible_cells,
            final(self).blocked == old(self).blocked,
            final(self).cell_content == old(self).cell_content,
            final(self).rooms == old(self).rooms,
            final(self).width == old(self).width,
            final(self).height == old(self).height,
            final(self).depth == old(self).depth,
    {
        let lo: i64 = if x1 <= x2 { x1 as i64 } else { x2 as i64 };
        let hi: i64 = if x1 <= x2 { x2 as i64 } else { x1 as i64 };
        let n = self.cells.len();
        assert(-2147483648 * 2147483647 <= y * self.width <= 2147483647 * 2147483647)
            by (nonlinear_arith)
            requires
                -2147483648 <= y <= 2147483647,
                0 < self.width <= 2147483647,
        ;
        let row: i64 = y as i64 * self.width as i64;
        let mut x: i64 = lo;
        while x <= hi
            invariant
                self.wf(),
                lo <= x <= hi + 1,
                lo == imin(x1 as int, x2 as int),
                hi == imax(x1 as int, x2 as int),
                row == y * self.width,
                -2147483648 * 2147483647 <= row <= 2147483647 * 2147483647,
                n == self.cells@.len(),
                self.width == old(self).width,
                self.cells@.len() == old(self).cells@.len(),
                forall|i: int|
                    0 <= i < n ==> #[trigger] self.cells@[i] == if on_h_tunnel(
                        self.width as int,
                        lo as int,
                        x - 1,
                        y as int,
                        i,
                    ) {
                        CellType::Floor
                    } else {
                        old(self).cells@[i]
                    },
                self.revealed_cells == old(self).revealed_cells,
                self.visible_cells == old(self).visible_cells,
                self.blocked == old(self).blocked,
                self.cell_content == old(self).cell_content,
                self.rooms == old(self).rooms,
                self.height == old(self).height,
                self.depth == old(self).depth,
            decreases hi + 1 - x,
        {
            let idx: i64 = row + x;
            if 0 <= idx && idx < n as i64 {
                self.cells.set(idx as usize, CellType::Floor);
            }
            x = x + 1;
        }
    }

    /// Carves column `x` from row `y1` to `y2` to floor, skipping any cell whose
    /// index falls outside the grid.
    fn apply_vertical_tunnel(&mut self, y1: i32, y2: i32, x: i32)
        requires
            old(self).wf(),
        ensures
            final(self).cells@.len() == old(self).cells@.len(),
            forall|i: int|
                0 <= i < old(self).cells@.len() ==> #[trigger] final(self).cells@[i] == if on_v_tunnel(
                    old(self).width as int,
                    imin(y1 as int, y2 as int),
                    imax(y1 as int, y2 as int),
                    x as int,
                    i,
                ) {
                    CellType::Floor
                } else {
                    old(self).cells@[i]
                },
            final(self).revealed_cells == old(self).revealed_cells,
            final(self).visible_cells == old(self).visible_cells,
            final(self).blocked == old(self).blocked,
            final(self).cell_content == old(self).cell_content,
            final(self).rooms == old(self).rooms,
            final(self).width == old(self).width,
            final(self).height == old(self).height,
            final(self).depth == old(self).depth,
    {
        let lo: i64 = if y1 <= y2 { y1 as i64 } else { y2 as i64 };
        let hi: i64 = if y1 <= y2 { y2 as i64 } else { y1 as i64 };
        let n = self.cells.len();
        let w: i64 = self.width as i64;
        let mut y: i64 = lo;
        while y <= hi
            invariant
                self.wf(),
                lo <= y <= hi + 1,
                lo == imin(y1 as int, y2 as int),
                hi == imax(y1 as int, y2 as int),
                w == self.width,
                n == self.cells@.len(),
                self.width == old(self).width,
                self.cells@.len() == old(self).cells@.len(),
                forall|i: int|
                    0 <= i < n ==> #[trigger] self.cells@[i] == if on_v_tunnel(
                        w as int,
                        lo as int,
                        y - 1,
                        x as int,
                        i,
                    ) {
                        CellType::Floor
                    } else {
                        old(self).cells@[i]
                    },
                self.revealed_cells == old(self).revealed_cells,
                self.visible_cells == old(self).visible_cells,
                self.blocked == old(self).blocked,
                self.cell_content == old(self).cell_content,
                self.rooms == old(self).rooms,
                self.height == old(self).height,
                self.depth == old(self).depth,
            decreases hi + 1 - y,
        {
            assert(-2147483648 * 2147483648 <= y * w <= 2147483648 * 2147483648) by (nonlinear_arith)
                requires
                    -2147483648 <= y <= 2147483648,
                    0 < w <= 2147483647,
            ;
            let idx: i64 = y * w + x as i64;
            let ghost prev = self.cells@;
            if 0 <= idx && idx < n as i64 {
                self.cells.set(idx as usize, CellType::Floor);
            }
            proof {
                assert forall|i: int| 0 <= i < n implies #[trigger] self.cells@[i] == if on_v_tunnel(
                    w as int,
                    lo as int,
                    y as int,
                    x as int,
                    i,
                ) {
                    CellType::Floor
                } else {
                    old(self).cells@[i]
                } by {
                    if i == idx {
                        assert(lo <= y <= y && y * w + x == i);
                    } else if on_v_tunnel(w as int, lo as int, y as int, x as int, i) {
                        let yy = choose|yy: int| lo <= yy <= y && #[trigger] (yy * w) + x == i;
                        assert(yy != y);
                        assert(lo <= yy <= y - 1 && yy * w + x == i);
                    } else {
                        assert(!on_v_tunnel(w as int, lo as int, y - 1, x as int, i));
                        assert(self.cells@[i] == prev[i]);
                    }
                }
            }
            y = y + 1;
        }
    }

    /// An all-wall grid of the standard size, with nothing revealed, visible,
    /// blocked or standing anywhere, and no rooms.
    pub fn blank(depth: i32) -> (m: GameMap)
        ensures
            m.wf(),
            m.width == MAP_WIDTH,
            m.height == MAP_HEIGHT,
            m.depth == depth,
            m.rooms@.len() == 0,
            forall|i: int| 0 <= i < MAP_COUNT ==> #[trigger] m.cells@[i] == CellType::Wall,
            forall|i: int| 0 <= i < MAP_COUNT ==> !#[trigger] m.revealed_cells@[i],
            forall|i: int| 0 <= i < MAP_COUNT ==> !#[trigger] m.visible_cells@[i],
            forall|i: int| 0 <= i < MAP_COUNT ==> !#[trigger] m.blocked@[i],
            forall|i: int| 0 <= i < MAP_COUNT ==> (#[trigger] m.cell_content@[i])@.len() == 0,
    {
        let mut cells: Vec<CellType> = Vec::new();
        let mut revealed_cells: Vec<bool> = Vec::new();
        let mut visible_cells: Vec<bool> = Vec::new();
        let mut blocked: Vec<bool> = Vec::new();
        let mut cell_content: Vec<Vec<Entity>> = Vec::new();
        let mut i: usize = 0;
        while i < MAP_COUNT
            invariant
                i <= MAP_COUNT,
                cells@.len() == i,
                revealed_cells@.len() == i,
                visible_cells@.len() == i,
                blocked@.len() == i,
                cell_content@.len() == i,
                forall|j: int| 0 <= j < i ==> #[trigger] cells@[j] == CellType::Wall,
                forall|j: int| 0 <= j < i ==> !#[trigger] revealed_cells@[j],
                forall|j: int| 0 <= j < i ==> !#[trigger] visible_cells@[j],
                forall|j: int| 0 <= j < i ==> !#[trigger] blocked@[j],
                forall|j: int| 0 <= j < i ==> (#[trigger] cell_content@[j])@.len() == 0,
            decreases MAP_COUNT - i,
        {
            cells.push(CellType::Wall);
            revealed_cells.push(false);
            visible_cells.push(false);
            blocked.push(false);
            cell_content.push(Vec::new());
            i = i + 1;
        }
        GameMap {
            cells,
            revealed_cells,
            visible_cells,
            rooms: Vec::new(),
            width: MAP_WIDTH,
            height: MAP_HEIGHT,
            blocked,
            depth,
            cell_content,
        }
    }

    /// Generates a level at `depth`: `MAX_ROOMS` random placements with sides
    /// from `MIN_SIZE` to `MAX_SIZE`, each built as `from_room_rolls` says.
    pub fn generate_map_rooms_and_tunnels(depth: i32) -> (m: GameMap)
        ensures
            generated_layout(m),
            m.depth == depth,
            0 < m.rooms@.len() <= MAX_ROOMS,
            forall|i: int| 0 <= i < MAP_COUNT ==> !#[trigger] m.revealed_cells@[i],
            forall|i: int| 0 <= i < MAP_COUNT ==> !#[trigger] m.visible_cells@[i],
            forall|i: int| 0 <= i < MAP_COUNT ==> (#[trigger] m.cell_content@[i])@.len() == 0,
    {
        let mut rng = new_rng();
        let mut rolls: Vec<RoomRoll> = Vec::new();
        let mut n: usize = 0;
        while n < MAX_ROOMS
            invariant
                n <= MAX_ROOMS,
                rolls@.len() == n,
                forall|k: int| 0 <= k < n ==> roll_fits(#[trigger] rolls@[k]),
            decreases MAX_ROOMS - n,
        {
            let w = rng_range(&mut rng, MIN_SIZE, MAX_SIZE + 1);
            let h = rng_range(&mut rng, MIN_SIZE, MAX_SIZE + 1);
            let x = roll_die(&mut rng, MAP_WIDTH - w - 1) - 1;
            let y = roll_die(&mut rng, MAP_HEIGHT - h - 1) - 1;
            let horizontal_first = rng_range(&mut rng, 0, 2) == 1;
            rolls.push(RoomRoll { x, y, w, h, horizontal_first });
            n = n + 1;
        }
        proof {
            lemma_first_fit_kept(rolls@);
            lemma_accepted_at_most_rolls(rolls@);
        }
        GameMap::from_room_rolls(depth, &rolls)
    }

    /// Builds a level from drawn room placements, in order: a placement that
    /// fits and overlaps no kept room is carved, joined to the previous kept
    /// room by an L-shaped corridor, and kept. The center of the last kept
    /// room becomes the down stairs.
    #[verifier::spinoff_prover]
    #[verifier::rlimit(100)]
    pub fn from_room_rolls(depth: i32, rolls: &Vec<RoomRoll>) -> (m: GameMap)
        ensures
            generated_layout(m),
            m.depth == depth,
            m.rooms@ == accepted_rooms(rolls@),
            forall|i: int| 0 <= i < MAP_COUNT ==> !#[trigger] m.revealed_cells@[i],
            forall|i: int| 0 <= i < MAP_COUNT ==> !#[trigger] m.visible_cells@[i],
            forall|i: int| 0 <= i < MAP_COUNT ==> !#[trigger] m.blocked@[i],
            forall|i: int| 0 <= i < MAP_COUNT ==> (#[trigger] m.cell_content@[i])@.len() == 0,
    {
        let mut map = GameMap::blank(depth);
        let ghost start = map;
        assert(map.width * map.height == 3440) by (nonlinear_arith)
            requires
                map.width == 80,
                map.height == 43,
        ;
        assert(map.cells@.len() == MAP_COUNT);
        assert(no_stairs(map.cells@));
        assert forall|x: int, y: int|
            0 <= x < MAP_WIDTH && 0 <= y < MAP_HEIGHT && #[trigger] map.cells@[idx_of(MAP_WIDTH as int, x, y)]
                != CellType::Wall implies carved_cell(map.rooms@, x, y) by {
            lemma_idx_in_range(MAP_WIDTH as int, MAP_HEIGHT as int, x, y);
        }
        assert forall|x: int, y: int| on_border(x, y) implies #[trigger] map.cells@[idx_of(MAP_WIDTH as int, x, y)]
            == CellType::Wall by {
            lemma_idx_in_range(MAP_WIDTH as int, MAP_HEIGHT as int, x, y);
        }
        let mut i: usize = 0;
        while i < rolls.len()
            invariant
                i <= rolls@.len(),
                map.wf(),
                map.width == MAP_WIDTH,
                map.height == MAP_HEIGHT,
                map.depth == depth,
                map.rooms@ == accepted_rooms(rolls@.take(i as int)),
                rooms_fit(map.rooms@),
                rooms_disjoint(map.rooms@),
                rooms_carved(map.cells@, map.rooms@),
                rooms_linked(map.cells@, map.rooms@),
                no_stairs(map.cells@),
                border_walls(map.cells@),
                only_carved(map.cells@, map.rooms@),
                map.revealed_cells == start.revealed_cells,
                map.visible_cells == start.visible_cells,
                map.blocked == start.blocked,
                map.cell_content == start.cell_content,
            decreases rolls@.len() - i,
        {
            let roll = rolls[i];
            proof {
                assert(rolls@.take(i as int + 1).drop_last() =~= rolls@.take(i as int));
                assert(rolls@.take(i as int + 1).last() == roll);
            }
            let fits = MIN_SIZE <= roll.w && roll.w <= MAX_SIZE && MIN_SIZE <= roll.h && roll.h
                <= MAX_SIZE && 0 <= roll.x && roll.x as i64 + roll.w as i64 <= (MAP_WIDTH - 2) as i64
                && 0 <= roll.y && roll.y as i64 + roll.h as i64 <= (MAP_HEIGHT - 2) as i64;
            if fits {
                let new_room = Rect::new(roll.x, roll.y, roll.w, roll.h);
                let mut overlap = false;
                let mut j: usize = 0;
                while j < map.rooms.len()
                    invariant
                        j <= map.rooms@.len(),
                        overlap == exists|k: int|
                            0 <= k < j && rects_overlap(new_room, #[trigger] map.rooms@[k]),
                    decreases map.rooms@.len() - j,
                {
                    if new_room.intersects(&map.rooms[j]) {
                        overlap = true;
                    }
                    j = j + 1;
                }
                if !overlap {
                    let ghost before = map.cells@;
                    let ghost old_rooms = map.rooms@;
                    map.apply_room_to_map(&new_room);
                    let ghost after_room = map.cells@;
                    proof {
                        let nr = map.rooms@.push(new_room);
                        assert(nr[nr.len() - 1] == new_room);
                        assert forall|x: int, y: int|
                            0 <= x < MAP_WIDTH && 0 <= y < MAP_HEIGHT && #[trigger] after_room[idx_of(
                                MAP_WIDTH as int,
                                x,
                                y,
                            )] != CellType::Wall implies carved_cell(nr, x, y) by {
                            if before[idx_of(MAP_WIDTH as int, x, y)] != CellType::Wall {
                                lemma_carved_grows(map.rooms@, new_room, x, y);
                            } else {
                                assert(in_interior(new_room, x, y));
                                assert(in_interior(nr[nr.len() - 1], x, y));
                            }
                        }
                        assert(only_carved(after_room, nr));
                    }
                    proof {
                        assert forall|i: int| 0 <= i < before.len() implies (before[i] == CellType::Floor
                            ==> #[trigger] map.cells@[i] == CellType::Floor) && (before[i]
                            != CellType::Wall ==> map.cells@[i] != CellType::Wall) by {
                            lemma_cell_of_index(MAP_WIDTH as int, MAP_HEIGHT as int, i);
                            assert(map.cells@[idx_of(MAP_WIDTH as int, i % MAP_WIDTH as int, i / MAP_WIDTH as int)]
                                == map.cells@[i]);
                        }
                        lemma_carving_keeps(before, map.cells@, map.rooms@);
                        assert forall|i: int| 0 <= i < map.cells@.len() implies #[trigger] map.cells@[i] != CellType::DownStairs by {
                            lemma_cell_of_index(MAP_WIDTH as int, MAP_HEIGHT as int, i);
                            assert(map.cells@[idx_of(MAP_WIDTH as int, i % MAP_WIDTH as int, i / MAP_WIDTH as int)]
                                == map.cells@[i]);
                            assert(before[i] != CellType::DownStairs);
                        }
                        assert forall|x: int, y: int| in_interior(new_room, x, y) implies #[trigger] floor_at(
                            after_room,
                            x,
                            y,
                        ) by {
                            assert(map.in_bounds(x, y));
                        }
                    }
                    if map.rooms.len() > 0 {
                        let (new_x, new_y) = new_room.center();
                        let (prev_x, prev_y) = map.rooms[map.rooms.len() - 1].center();
                        let ghost prev_room = map.rooms@.last();
                        proof {
                            lemma_center_in_room(new_room);
                            lemma_center_in_room(prev_room);
                        }
                        let ghost mid = map.cells@;
                        if roll.horizontal_first {
                            self::GameMap::carve_l(&mut map, prev_x, prev_y, new_x, new_y, true);
                        } else {
                            self::GameMap::carve_l(&mut map, prev_x, prev_y, new_x, new_y, false);
                        }
                        proof {
                            lemma_carving_keeps(mid, map.cells@, map.rooms@);
                            let nr = map.rooms@.push(new_room);
                            assert forall|x: int, y: int|
                                0 <= x < MAP_WIDTH && 0 <= y < MAP_HEIGHT && #[trigger] map.cells@[idx_of(
                                    MAP_WIDTH as int,
                                    x,
                                    y,
                                )] != CellType::Wall implies carved_cell(nr, x, y) by {
                                if mid[idx_of(MAP_WIDTH as int, x, y)] == CellType::Wall {
                                    assert(nr[nr.len() - 1] == new_room);
                                    assert(nr[nr.len() - 2] == map.rooms@.last());
                                    assert(corridor_at(nr, nr.len() - 1, x, y));
                                }
                            }
                            assert(only_carved(map.cells@, nr));
                            assert forall|x: int, y: int| in_interior(new_room, x, y) implies #[trigger] floor_at(
                                map.cells@,
                                x,
                                y,
                            ) by {
                                lemma_idx_in_range(MAP_WIDTH as int, MAP_HEIGHT as int, x, y);
                                assert(floor_at(after_room, x, y));
                            }
                            assert(l_path_open(map.cells@, rect_center(old_rooms.last()), rect_center(new_room)));
                        }
                    }
                    proof {
                        let nr = map.rooms@.push(new_room);
                        assert forall|k: int, x: int, y: int|
                            0 <= k < nr.len() && in_interior(#[trigger] nr[k], x, y) implies #[trigger] floor_at(
                            map.cells@,
                            x,
                            y,
                        ) by {
                            if k < map.rooms@.len() {
                                assert(nr[k] == map.rooms@[k]);
                            }
                        }
                        assert forall|k: int| 1 <= k < nr.len() implies l_path_open(
                            map.cells@,
                            rect_center(nr[k - 1]),
                            rect_center(#[trigger] nr[k]),
                        ) by {
                            assert(nr[k - 1] == map.rooms@[k - 1]);
                            if k < map.rooms@.len() {
                                assert(nr[k] == map.rooms@[k]);
                            }
                        }
                        assert forall|a: int, b: int| 0 <= a < b < nr.len() implies !rects_overlap(
                            #[trigger] nr[a],
                            #[trigger] nr[b],
                        ) by {
                            assert(nr[a] == map.rooms@[a]);
                            if b < map.rooms@.len() {
                                assert(nr[b] == map.rooms@[b]);
                            } else {
                                assert(!rects_overlap(new_room, map.rooms@[a]));
                            }
                        }
                    }
                    map.rooms.push(new_room);
                }
            }
            i = i + 1;
        }
        proof {
            assert(rolls@.take(rolls@.len() as int) =~= rolls@);
        }
        if map.rooms.len() > 0 {
            let (sx, sy) = map.rooms[map.rooms.len() - 1].center();
            let ghost last = map.rooms@.last();
            proof {
                lemma_center_in_room(last);
            }
            let ghost before = map.cells@;
            let sidx = map.xy_idx(sx, sy);
            map.cells.set(sidx, CellType::DownStairs);
            proof {
                lemma_links_kept(before, map.cells@, map.rooms@);
                assert forall|x: int, y: int|
                    0 <= x < MAP_WIDTH && 0 <= y < MAP_HEIGHT && #[trigger] map.cells@[idx_of(MAP_WIDTH as int, x, y)]
                        != CellType::Wall implies carved_cell(map.rooms@, x, y) by {
                    if idx_of(MAP_WIDTH as int, x, y) == sidx {
                        lemma_idx_injective(MAP_WIDTH as int, x, y, sx as int, sy as int);
                        assert(in_interior(map.rooms@[map.rooms@.len() - 1], x, y));
                    } else {
                        assert(before[idx_of(MAP_WIDTH as int, x, y)] != CellType::Wall);
                    }
                }
                assert forall|k: int, x: int, y: int|
                    0 <= k < map.rooms@.len() && in_interior(#[trigger] map.rooms@[k], x, y) implies #[trigger] floor_at(
                    map.cells@,
                    x,
                    y,
                ) || (x == sx && y == sy) by {
                    assert(room_fits(map.rooms@[k]));
                    assert(floor_at(before, x, y));
                    if idx_of(MAP_WIDTH as int, x, y) == sidx {
                        lemma_idx_injective(MAP_WIDTH as int, x, y, sx as int, sy as int);
                    }
                }
            }
        }
        map
    }

    /// Carves the two legs of the corridor from (x1, y1) to (x2, y2), the
    /// horizontal one first when `horizontal_first` holds, and links the
    /// last kept room to the room about to be kept.
    #[verifier::rlimit(60)]
    fn carve_l(&mut self, x1: i32, y1: i32, x2: i32, y2: i32, horizontal_first: bool)
        requires
            old(self).wf(),
            old(self).width == MAP_WIDTH,
            old(self).height == MAP_HEIGHT,
            1 <= x1 <= MAP_WIDTH - 2,
            1 <= x2 <= MAP_WIDTH - 2,
            1 <= y1 <= MAP_HEIGHT - 2,
            1 <= y2 <= MAP_HEIGHT - 2,
            rooms_fit(old(self).rooms@),
            old(self).rooms@.len() > 0,
            rect_center(old(self).rooms@.last()) == (x1 as int, y1 as int),
        ensures
            final(self).wf(),
            carved_from(old(self).cells@, final(self).cells@),
            no_stairs(old(self).cells@) ==> no_stairs(final(self).cells@),
            border_walls(old(self).cells@) ==> border_walls(final(self).cells@),
            forall|x: int, y: int|
                0 <= x < MAP_WIDTH && 0 <= y < MAP_HEIGHT && #[trigger] final(self).cells@[idx_of(
                    MAP_WIDTH as int,
                    x,
                    y,
                )] != old(self).cells@[idx_of(MAP_WIDTH as int, x, y)] ==> on_l(
                    (x1 as int, y1 as int),
                    (x2 as int, y2 as int),
                    x,
                    y,
                ),
            l_path_open(final(self).cells@, (x1 as int, y1 as int), (x2 as int, y2 as int)),
            final(self).revealed_cells == old(self).revealed_cells,
            final(self).visible_cells == old(self).visible_cells,
            final(self).blocked == old(self).blocked,
            final(self).cell_content == old(self).cell_content,
            final(self).rooms == old(self).rooms,
            final(self).width == old(self).width,
            final(self).height == old(self).height,
            final(self).depth == old(self).depth,
    {
        let ghost c0 = self.cells@;
        let ghost w = MAP_WIDTH as int;
        if horizontal_first {
            self.apply_horizontal_tunnel(x1, x2, y1);
            let ghost c1 = self.cells@;
            self.apply_vertical_tunnel(y1, y2, x2);
            proof {
                assert forall|x: int, y: int|
                    0 <= x < MAP_WIDTH && 0 <= y < MAP_HEIGHT && #[trigger] self.cells@[idx_of(w, x, y)]
                        != c0[idx_of(w, x, y)] implies on_l((x1 as int, y1 as int), (x2 as int, y2 as int), x, y) by {
                    lemma_idx_in_range(w, MAP_HEIGHT as int, x, y);
                    let i = idx_of(w, x, y);
                    if c1[i] != c0[i] {
                        lemma_h_tunnel_cell(x, y, imin(x1 as int, x2 as int), imax(x1 as int, x2 as int), y1 as int);
                    } else {
                        lemma_v_tunnel_cell(x, y, imin(y1 as int, y2 as int), imax(y1 as int, y2 as int), x2 as int);
                    }
                }
                assert forall|x: int| imin(x1 as int, x2 as int) <= x <= imax(x1 as int, x2 as int) implies #[trigger] open_at(
                    self.cells@,
                    x,
                    y1 as int,
                ) by {
                    lemma_idx_in_range(w, MAP_HEIGHT as int, x, y1 as int);
                    assert(c1[idx_of(w, x, y1 as int)] == CellType::Floor);
                }
                assert forall|y: int| imin(y1 as int, y2 as int) <= y <= imax(y1 as int, y2 as int) implies #[trigger] open_at(
                    self.cells@,
                    x2 as int,
                    y,
                ) by {
                    lemma_idx_in_range(w, MAP_HEIGHT as int, x2 as int, y);
                    assert(on_v_tunnel(w, imin(y1 as int, y2 as int), imax(y1 as int, y2 as int), x2 as int, idx_of(w, x2 as int, y)));
                }
            }
        } else {
            self.apply_vertical_tunnel(y1, y2, x1);
            let ghost c1 = self.cells@;
            self.apply_horizontal_tunnel(x1, x2, y2);
            proof {
                assert forall|x: int, y: int|
                    0 <= x < MAP_WIDTH && 0 <= y < MAP_HEIGHT && #[trigger] self.cells@[idx_of(w, x, y)]
                        != c0[idx_of(w, x, y)] implies on_l((x1 as int, y1 as int), (x2 as int, y2 as int), x, y) by {
                    lemma_idx_in_range(w, MAP_HEIGHT as int, x, y);
                    let i = idx_of(w, x, y);
                    if c1[i] != c0[i] {
                        lemma_v_tunnel_cell(x, y, imin(y1 as int, y2 as int), imax(y1 as int, y2 as int), x1 as int);
                    } else {
                        lemma_h_tunnel_cell(x, y, imin(x1 as int, x2 as int), imax(x1 as int, x2 as int), y2 as int);
                    }
                }
                assert forall|y: int| imin(y1 as int, y2 as int) <= y <= imax(y1 as int, y2 as int) implies #[trigger] open_at(
                    self.cells@,
                    x1 as int,
                    y,
                ) by {
                    lemma_idx_in_range(w, MAP_HEIGHT as int, x1 as int, y);
                    assert(on_v_tunnel(w, imin(y1 as int, y2 as int), imax(y1 as int, y2 as int), x1 as int, idx_of(w, x1 as int, y)));
                    assert(c1[idx_of(w, x1 as int, y)] == CellType::Floor);
                }
                assert forall|x: int| imin(x1 as int, x2 as int) <= x <= imax(x1 as int, x2 as int) implies #[trigger] open_at(
                    self.cells@,
                    x,
                    y2 as int,
                ) by {
                    lemma_idx_in_range(w, MAP_HEIGHT as int, x, y2 as int);
                }
            }
        }
    }

    /// Carves the interior of `room` to floor.
    fn apply_room_to_map(&mut self, room: &Rect)
        requires
            old(self).wf(),
            0 <= room.x1 <= room.x2 < old(self).width,
            0 <= room.y1 <= room.y2 < old(self).height,
        ensures
            final(self).cells@.len() == old(self).cells@.len(),
            forall|x: int, y: int|
                #![trigger final(self).cells@[idx_of(old(self).width as int, x, y)]]
                old(self).in_bounds(x, y) ==> final(self).cells@[old(self).idx(x, y)] == if in_interior(
                    *room,
                    x,
                    y,
                ) {
                    CellType::Floor
                } else {
                    old(self).cells@[old(self).idx(x, y)]
                },
            final(self).revealed_cells == old(self).revealed_cells,
            final(self).visible_cells == old(self).visible_cells,
            final(self).blocked == old(self).blocked,
            final(self).cell_content == old(self).cell_content,
            final(self).rooms == old(self).rooms,
            final(self).width == old(self).width,
            final(self).height == old(self).height,
            final(self).depth == old(self).depth,
    {
        let ghost w = self.width as int;
        let mut y: i32 = room.y1 + 1;
        while y <= room.y2
            invariant
                self.wf(),
                room.y1 + 1 <= y <= room.y2 + 1,
                0 <= room.x1 <= room.x2 < self.width,
                0 <= room.y1 <= room.y2 < self.height,
                w == self.width,
                self.cells@.len() == old(self).cells@.len(),
                forall|x: int, yy: int|
                    #![trigger self.cells@[idx_of(w, x, yy)]]
                    self.in_bounds(x, yy) ==> self.cells@[self.idx(x, yy)] == if in_interior(
                        *room,
                        x,
                        yy,
                    ) && yy < y {
                        CellType::Floor
                    } else {
                        old(self).cells@[self.idx(x, yy)]
                    },
                self.revealed_cells == old(self).revealed_cells,
                self.visible_cells == old(self).visible_cells,
                self.blocked == old(self).blocked,
                self.cell_content == old(self).cell_content,
                self.rooms == old(self).rooms,
                self.width == old(self).width,
                self.height == old(self).height,
                self.depth == old(self).depth,
            decreases room.y2 + 1 - y,
        {
            let mut x: i32 = room.x1 + 1;
            while x <= room.x2
                invariant
                    self.wf(),
                    room.y1 + 1 <= y <= room.y2,
                    room.x1 + 1 <= x <= room.x2 + 1,
                    0 <= room.x1 <= room.x2 < self.width,
                    0 <= room.y1 <= room.y2 < self.height,
                    w == self.width,
                    self.cells@.len() == old(self).cells@.len(),
                    forall|xx: int, yy: int|
                        #![trigger self.cells@[idx_of(w, xx, yy)]]
                        self.in_bounds(xx, yy) ==> self.cells@[self.idx(xx, yy)] == if in_interior(
                            *room,
                            xx,
                            yy,
                        ) && (yy < y || (yy == y && xx < x)) {
                            CellType::Floor
                        } else {
                            old(self).cells@[self.idx(xx, yy)]
                        },
                    self.revealed_cells == old(self).revealed_cells,
                    self.visible_cells == old(self).visible_cells,
                    self.blocked == old(self).blocked,
                    self.cell_content == old(self).cell_content,
                    self.rooms == old(self).rooms,
                    self.width == old(self).width,
                    self.height == old(self).height,
                    self.depth == old(self).depth,
                decreases room.x2 + 1 - x,
            {
                let idx = self.xy_idx(x, y);
                let ghost prev = self.cells@;
                self.cells.set(idx, CellType::Floor);
                proof {
                    assert forall|xx: int, yy: int|
                        #![trigger self.cells@[idx_of(w, xx, yy)]]
                        self.in_bounds(xx, yy) implies self.cells@[self.idx(xx, yy)] == if in_interior(
                            *room,
                            xx,
                            yy,
                        ) && (yy < y || (yy == y && xx < x + 1)) {
                            CellType::Floor
                        } else {
                            old(self).cells@[self.idx(xx, yy)]
                        } by {
                        lemma_idx_in_range(w, self.height as int, xx, yy);
                        if self.idx(xx, yy) == idx {
                            lemma_idx_injective(w, xx, yy, x as int, y as int);
                        } else {
                            assert(self.cells@[self.idx(xx, yy)] == prev[self.idx(xx, yy)]);
                        }
                    }
                }
                x = x + 1;
            }
            y = y + 1;
        }
    }
}

/// Two cells with in-bounds coordinates share an index only if they are the same cell.
pub proof fn lemma_idx_injective(w: int, x1: int, y1: int, x2: int, y2: int)
    requires
        0 <= x1 < w,
        0 <= x2 < w,
        0 <= y1,
        0 <= y2,
        idx_of(w, x1, y1) == idx_of(w, x2, y2),
    ensures
        x1 == x2,
        y1 == y2,
{
    if y1 < y2 {
        assert(y1 * w + w <= y2 * w) by (nonlinear_arith)
            requires
                y1 < y2,
                0 < w,
        ;
    } else if y2 < y1 {
        assert(y2 * w + w <= y1 * w) by (nonlinear_arith)
            requires
                y2 < y1,
                0 < w,
        ;
    }
}

/// An in-bounds cell has an index inside the grid.
pub proof fn lemma_idx_in_range(w: int, h: int, x: int, y: int)
    requires
        0 <= x < w,
        0 <= y < h,
    ensures
        0 <= idx_of(w, x, y) < w * h,
{
    assert(0 <= y * w + x < w * h) by (nonlinear_arith)
        requires
            0 <= x < w,
            0 <= y < h,
    ;
}

/// The cell with index `i` lies on the horizontal corridor from `lo` to `hi` in row `y`.
pub open spec fn on_h_tunnel(w: int, lo: int, hi: int, y: int, i: int) -> bool {
    lo <= i - y * w <= hi
}

/// The cell with index `i` lies on the vertical corridor from `lo` to `hi` in column `x`.
pub open spec fn on_v_tunnel(w: int, lo: int, hi: int, x: int, i: int) -> bool {
    exists|y: int| lo <= y <= hi && #[trigger] (y * w) + x == i
}

pub open spec fn imin(a: int, b: int) -> int {
    if a <= b { a } else { b }
}

pub open spec fn imax(a: int, b: int) -> int {
    if a <= b { b } else { a }
}

/// Every index of a grid is the index of one in-bounds cell.
pub proof fn lemma_cell_of_index(w: int, h: int, i: int)
    requires
        0 < w,
        0 <= i < w * h,
    ensures
        0 <= i % w < w,
        0 <= i / w < h,
        idx_of(w, i % w, i / w) == i,
{
    lemma_fundamental_div_mod(i, w);
    lemma_mod_pos_bound(i, w);
    lemma_div_pos_is_pos(i, w);
    lemma_multiply_divide_lt(i, w, h);
    assert(w * (i / w) == (i / w) * w) by (nonlinear_arith);
}

/// A drawn placement lies inside the grid's one-cell border with a side of
/// `MIN_SIZE` to `MAX_SIZE`.
pub open spec fn roll_fits(r: RoomRoll) -> bool {
    &&& MIN_SIZE <= r.w <= MAX_SIZE
    &&& MIN_SIZE <= r.h <= MAX_SIZE
    &&& 0 <= r.x
    &&& r.x + r.w <= MAP_WIDTH - 2
    &&& 0 <= r.y
    &&& r.y + r.h <= MAP_HEIGHT - 2
}

pub open spec fn roll_rect(r: RoomRoll) -> Rect {
    Rect { x1: r.x, y1: r.y, x2: (r.x + r.w) as i32, y2: (r.y + r.h) as i32 }
}

pub open spec fn overlaps_any(rooms: Seq<Rect>, r: Rect) -> bool {
    exists|k: int| 0 <= k < rooms.len() && rects_overlap(r, #[trigger] rooms[k])
}

/// The rooms that generation keeps from a sequence of drawn placements: each
/// that fits and overlaps no room kept before it.
pub open spec fn accepted_rooms(rolls: Seq<RoomRoll>) -> Seq<Rect>
    decreases rolls.len(),
{
    if rolls.len() == 0 {
        seq![]
    } else {
        let prev = accepted_rooms(rolls.drop_last());
        let r = roll_rect(rolls.last());
        if roll_fits(rolls.last()) && !overlaps_any(prev, r) {
            prev.push(r)
        } else {
            prev
        }
    }
}

/// A first placement that fits is always kept.
pub proof fn lemma_first_fit_kept(rolls: Seq<RoomRoll>)
    requires
        rolls.len() > 0,
        roll_fits(rolls[0]),
    ensures
        accepted_rooms(rolls).len() > 0,
    decreases rolls.len(),
{
    if rolls.len() > 1 {
        assert(rolls.drop_last()[0] == rolls[0]);
        lemma_first_fit_kept(rolls.drop_last());
    } else {
        assert(accepted_rooms(rolls.drop_last()) =~= seq![]);
    }
}

/// A room lies inside the grid's one-cell border.
pub open spec fn room_fits(r: Rect) -> bool {
    &&& 0 <= r.x1
    &&& r.x1 + MIN_SIZE <= r.x2 <= MAP_WIDTH - 2
    &&& r.x2 <= r.x1 + MAX_SIZE
    &&& 0 <= r.y1
    &&& r.y1 + MIN_SIZE <= r.y2 <= MAP_HEIGHT - 2
    &&& r.y2 <= r.y1 + MAX_SIZE
}

/// The cell lies on the grid's outer border.
pub open spec fn on_border(x: int, y: int) -> bool {
    0 <= x < MAP_WIDTH && 0 <= y < MAP_HEIGHT && (x == 0 || x == MAP_WIDTH - 1 || y == 0 || y == MAP_HEIGHT
        - 1)
}

/// Every cell of the grid's outer border is a wall.
pub open spec fn border_walls(c: Seq<CellType>) -> bool {
    forall|x: int, y: int| on_border(x, y) ==> #[trigger] c[idx_of(MAP_WIDTH as int, x, y)] == CellType::Wall
}

/// `v` lies between `a` and `b`, both included.
pub open spec fn between(v: int, a: int, b: int) -> bool {
    imin(a, b) <= v <= imax(a, b)
}

/// (x, y) lies on one of the two L-shaped runs from `a` to `b`.
pub open spec fn on_l(a: (int, int), b: (int, int), x: int, y: int) -> bool {
    ||| (y == a.1 && between(x, a.0, b.0))
    ||| (x == b.0 && between(y, a.1, b.1))
    ||| (x == a.0 && between(y, a.1, b.1))
    ||| (y == b.1 && between(x, a.0, b.0))
}

/// (x, y) lies on an L-shaped run joining room `k - 1` to room `k`.
pub open spec fn corridor_at(rooms: Seq<Rect>, k: int, x: int, y: int) -> bool {
    1 <= k < rooms.len() && on_l(rect_center(rooms[k - 1]), rect_center(rooms[k]), x, y)
}

/// (x, y) lies inside a room or on a corridor joining consecutive rooms.
pub open spec fn carved_cell(rooms: Seq<Rect>, x: int, y: int) -> bool {
    (exists|k: int| 0 <= k < rooms.len() && in_interior(#[trigger] rooms[k], x, y)) || (exists|k: int|
        #[trigger] corridor_at(rooms, k, x, y))
}

/// Every cell that is not a wall was carved for a room or a corridor.
pub open spec fn only_carved(c: Seq<CellType>, rooms: Seq<Rect>) -> bool {
    forall|x: int, y: int|
        0 <= x < MAP_WIDTH && 0 <= y < MAP_HEIGHT && #[trigger] c[idx_of(MAP_WIDTH as int, x, y)]
            != CellType::Wall ==> carved_cell(rooms, x, y)
}

/// A cell on a horizontal corridor inside the border lies in its row and span.
proof fn lemma_h_tunnel_cell(x: int, y: int, lo: int, hi: int, t: int)
    requires
        0 <= x < MAP_WIDTH,
        0 <= y < MAP_HEIGHT,
        1 <= lo,
        hi <= MAP_WIDTH - 2,
        1 <= t <= MAP_HEIGHT - 2,
        on_h_tunnel(MAP_WIDTH as int, lo, hi, t, idx_of(MAP_WIDTH as int, x, y)),
    ensures
        y == t,
        lo <= x <= hi,
{
    let w = MAP_WIDTH as int;
    let x2 = idx_of(w, x, y) - t * w;
    assert(idx_of(w, x2, t) == idx_of(w, x, y));
    lemma_idx_injective(w, x, y, x2, t);
}

/// A cell on a vertical corridor inside the border lies in its column and span.
proof fn lemma_v_tunnel_cell(x: int, y: int, lo: int, hi: int, t: int)
    requires
        0 <= x < MAP_WIDTH,
        0 <= y < MAP_HEIGHT,
        1 <= lo,
        hi <= MAP_HEIGHT - 2,
        1 <= t <= MAP_WIDTH - 2,
        on_v_tunnel(MAP_WIDTH as int, lo, hi, t, idx_of(MAP_WIDTH as int, x, y)),
    ensures
        x == t,
        lo <= y <= hi,
{
    let w = MAP_WIDTH as int;
    let y2 = choose|y2: int| lo <= y2 <= hi && #[trigger] (y2 * w) + t == idx_of(w, x, y);
    assert(idx_of(w, t, y2) == idx_of(w, x, y));
    lemma_idx_injective(w, x, y, t, y2);
}

/// Carved cells stay carved when a room is added.
proof fn lemma_carved_grows(rooms: Seq<Rect>, r: Rect, x: int, y: int)
    requires
        carved_cell(rooms, x, y),
    ensures
        carved_cell(rooms.push(r), x, y),
{
    let rs = rooms.push(r);
    if exists|k: int| 0 <= k < rooms.len() && in_interior(#[trigger] rooms[k], x, y) {
        let k = choose|k: int| 0 <= k < rooms.len() && in_interior(#[trigger] rooms[k], x, y);
        assert(rs[k] == rooms[k]);
    } else {
        let k = choose|k: int| #[trigger] corridor_at(rooms, k, x, y);
        assert(rs[k] == rooms[k] && rs[k - 1] == rooms[k - 1]);
        assert(corridor_at(rs, k, x, y));
    }
}

/// No cell is the down stairs.
pub open spec fn no_stairs(c: Seq<CellType>) -> bool {
    forall|i: int| 0 <= i < c.len() ==> #[trigger] c[i] != CellType::DownStairs
}

/// Generation keeps at most one room per drawn placement.
pub proof fn lemma_accepted_at_most_rolls(rolls: Seq<RoomRoll>)
    ensures
        accepted_rooms(rolls).len() <= rolls.len(),
    decreases rolls.len(),
{
    if rolls.len() > 0 {
        lemma_accepted_at_most_rolls(rolls.drop_last());
    }
}

pub open spec fn rooms_fit(rooms: Seq<Rect>) -> bool {
    forall|k: int| 0 <= k < rooms.len() ==> room_fits(#[trigger] rooms[k])
}

pub open spec fn rooms_disjoint(rooms: Seq<Rect>) -> bool {
    forall|i: int, j: int|
        0 <= i < j < rooms.len() ==> !rects_overlap(#[trigger] rooms[i], #[trigger] rooms[j])
}

pub open spec fn floor_at(c: Seq<CellType>, x: int, y: int) -> bool {
    c[idx_of(MAP_WIDTH as int, x, y)] == CellType::Floor
}

pub open spec fn open_at(c: Seq<CellType>, x: int, y: int) -> bool {
    c[idx_of(MAP_WIDTH as int, x, y)] != CellType::Wall
}

pub open spec fn h_leg_open(c: Seq<CellType>, x1: int, x2: int, y: int) -> bool {
    forall|x: int| imin(x1, x2) <= x <= imax(x1, x2) ==> #[trigger] open_at(c, x, y)
}

pub open spec fn v_leg_open(c: Seq<CellType>, y1: int, y2: int, x: int) -> bool {
    forall|y: int| imin(y1, y2) <= y <= imax(y1, y2) ==> #[trigger] open_at(c, x, y)
}

/// An L-shaped run of open cells joins `a` to `b`, along either corner.
pub open spec fn l_path_open(c: Seq<CellType>, a: (int, int), b: (int, int)) -> bool {
    (h_leg_open(c, a.0, b.0, a.1) && v_leg_open(c, a.1, b.1, b.0)) || (v_leg_open(c, a.1, b.1, a.0)
        && h_leg_open(c, a.0, b.0, b.1))
}

/// Every room after the first is joined to the one before it by open cells.
pub open spec fn rooms_linked(c: Seq<CellType>, rooms: Seq<Rect>) -> bool {
    forall|k: int|
        1 <= k < rooms.len() ==> l_path_open(c, rect_center(rooms[k - 1]), rect_center(#[trigger] rooms[k]))
}

pub open spec fn rooms_carved(c: Seq<CellType>, rooms: Seq<Rect>) -> bool {
    forall|k: int, x: int, y: int|
        0 <= k < rooms.len() && in_interior(#[trigger] rooms[k], x, y) ==> #[trigger] floor_at(c, x, y)
}

/// `b` keeps every open cell of `a`.
pub open spec fn open_kept(a: Seq<CellType>, b: Seq<CellType>) -> bool {
    &&& a.len() == b.len()
    &&& forall|i: int| 0 <= i < a.len() ==> (a[i] != CellType::Wall ==> #[trigger] b[i] != CellType::Wall)
}

/// `b` keeps every floor and every open cell of `a`.
pub open spec fn carved_from(a: Seq<CellType>, b: Seq<CellType>) -> bool {
    &&& open_kept(a, b)
    &&& forall|i: int| 0 <= i < a.len() ==> (a[i] == CellType::Floor ==> #[trigger] b[i] == CellType::Floor)
}

/// What map generation guarantees of a level.
pub open spec fn generated_layout(m: GameMap) -> bool {
    &&& m.wf()
    &&& m.width == MAP_WIDTH
    &&& m.height == MAP_HEIGHT
    &&& rooms_fit(m.rooms@)
    &&& rooms_disjoint(m.rooms@)
    &&& rooms_linked(m.cells@, m.rooms@)
    &&& border_walls(m.cells@)
    &&& only_carved(m.cells@, m.rooms@)
    &&& forall|i: int|
        0 <= i < m.cells@.len() && #[trigger] m.cells@[i] == CellType::DownStairs ==> m.rooms@.len() > 0
            && i == idx_of(MAP_WIDTH as int, rect_center(m.rooms@.last()).0, rect_center(m.rooms@.last()).1)
    &&& m.rooms@.len() > 0 ==> {
        let s = rect_center(m.rooms@.last());
        &&& m.cells@[idx_of(MAP_WIDTH as int, s.0, s.1)] == CellType::DownStairs
        &&& forall|k: int, x: int, y: int|
            0 <= k < m.rooms@.len() && in_interior(#[trigger] m.rooms@[k], x, y) ==> #[trigger] floor_at(
                m.cells@,
                x,
                y,
            ) || (x == s.0 && y == s.1)
    }
}

proof fn lemma_center_in_room(r: Rect)
    requires
        room_fits(r),
    ensures
        in_interior(r, rect_center(r).0, rect_center(r).1),
        1 <= rect_center(r).0 <= MAP_WIDTH - 2,
        1 <= rect_center(r).1 <= MAP_HEIGHT - 2,
{
}

/// Carving keeps rooms carved and linked.
proof fn lemma_carving_keeps(a: Seq<CellType>, b: Seq<CellType>, rooms: Seq<Rect>)
    requires
        a.len() == MAP_COUNT,
        carved_from(a, b),
        rooms_fit(rooms),
    ensures
        rooms_carved(a, rooms) ==> rooms_carved(b, rooms),
        rooms_linked(a, rooms) ==> rooms_linked(b, rooms),
{
    assert forall|x: int, y: int|
        1 <= x <= MAP_WIDTH - 2 && 1 <= y <= MAP_HEIGHT - 2 && floor_at(a, x, y) implies floor_at(
        b,
        x,
        y,
    ) by {
        lemma_idx_in_range(MAP_WIDTH as int, MAP_HEIGHT as int, x, y);
    }
    if rooms_carved(a, rooms) {
        assert forall|k: int, x: int, y: int|
            0 <= k < rooms.len() && in_interior(#[trigger] rooms[k], x, y) implies #[trigger] floor_at(
            b,
            x,
            y,
        ) by {
            assert(room_fits(rooms[k]));
            assert(floor_at(a, x, y));
        }
    }
    lemma_links_kept(a, b, rooms);
}

/// Opening more cells keeps rooms linked.
proof fn lemma_links_kept(a: Seq<CellType>, b: Seq<CellType>, rooms: Seq<Rect>)
    requires
        a.len() == MAP_COUNT,
        open_kept(a, b),
        rooms_fit(rooms),
    ensures
        rooms_linked(a, rooms) ==> rooms_linked(b, rooms),
{
    assert forall|x: int, y: int|
        1 <= x <= MAP_WIDTH - 2 && 1 <= y <= MAP_HEIGHT - 2 && open_at(a, x, y) implies open_at(
        b,
        x,
        y,
    ) by {
        lemma_idx_in_range(MAP_WIDTH as int, MAP_HEIGHT as int, x, y);
    }
    if rooms_linked(a, rooms) {
        assert forall|k: int| 1 <= k < rooms.len() implies l_path_open(
            b,
            rect_center(rooms[k - 1]),
            rect_center(#[trigger] rooms[k]),
        ) by {
            let p = rect_center(rooms[k - 1]);
            let q = rect_center(rooms[k]);
            lemma_center_in_room(rooms[k - 1]);
            lemma_center_in_room(rooms[k]);
            assert(l_path_open(a, p, q));
            if h_leg_open(a, p.0, q.0, p.1) && v_leg_open(a, p.1, q.1, q.0) {
                assert forall|x: int| imin(p.0, q.0) <= x <= imax(p.0, q.0) implies #[trigger] open_at(
                    b,
                    x,
                    p.1,
                ) by {
                    assert(open_at(a, x, p.1));
                }
                assert forall|y: int| imin(p.1, q.1) <= y <= imax(p.1, q.1) implies #[trigger] open_at(
                    b,
                    q.0,
                    y,
                ) by {
                    assert(open_at(a, q.0, y));
                }
            } else {
                assert forall|y: int| imin(p.1, q.1) <= y <= imax(p.1, q.1) implies #[trigger] open_at(
                    b,
                    p.0,
                    y,
                ) by {
                    assert(open_at(a, p.0, y));
                }
                assert forall|x: int| imin(p.0, q.0) <= x <= imax(p.0, q.0) implies #[trigger] open_at(
                    b,
                    x,
                    q.1,
                ) by {
                    assert(open_at(a, x, q.1));
                }
            }
        }
    }
}

} // verus!
