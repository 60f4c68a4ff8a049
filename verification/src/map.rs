//! The spatial map: a fixed-size grid of tiles with parallel bitsets for
//! revealed / visible / blocked state and a per-tile occupancy index.

use vstd::prelude::*;

verus! {

pub const MAPWIDTH: usize = 80;
pub const MAPHEIGHT: usize = 43;
pub const MAPCOUNT: usize = MAPWIDTH * MAPHEIGHT;

/// Movement cost of a cardinal step, in hundredths of a step.
pub const STEP_COST: u32 = 100;
/// Movement cost of a diagonal step, in hundredths of a step: the fixed
/// approximation of sqrt(2) the path search uses, not recomputed per call.
pub const DIAG_COST: u32 = 145;

#[derive(PartialEq, Eq, Structural, Copy, Clone, Debug)]
pub enum TileType {
    Wall,
    Floor,
    DownStairs,
}

/// The dungeon level: a row-major grid of tiles plus parallel per-tile state.
/// `tile_content` is the per-turn occupancy index (entity handles standing on
/// each tile); it is rebuilt every turn and never persisted.
pub struct GameMap {
    pub tiles: Vec<TileType>,
    pub width: i32,
    pub height: i32,
    pub revealed_tiles: Vec<bool>,
    pub visible_tiles: Vec<bool>,
    pub blocked: Vec<bool>,
    pub depth: i32,
    pub bloodstains: Vec<usize>,
    pub tile_content: Vec<Vec<usize>>,
}

/// The canonical linear index of cell (x, y): row-major order.
pub open spec fn spec_idx(x: int, y: int) -> int {
    y * (MAPWIDTH as int) + x
}

/// The column a linear index falls in.
pub open spec fn x_of(idx: int) -> int {
    idx % (MAPWIDTH as int)
}

/// The row a linear index falls in.
pub open spec fn y_of(idx: int) -> int {
    idx / (MAPWIDTH as int)
}

/// `index(x, y)` is a bijection between in-bounds coordinates and linear
/// indices: both round trips are exact.
pub proof fn lemma_index_bijection(x: int, y: int, idx: int)
    requires
        0 <= x < MAPWIDTH,
        0 <= y < MAPHEIGHT,
        0 <= idx < MAPCOUNT,
    ensures
        x_of(spec_idx(x, y)) == x,
        y_of(spec_idx(x, y)) == y,
        0 <= spec_idx(x, y) < MAPCOUNT,
        spec_idx(x_of(idx), y_of(idx)) == idx,
        0 <= x_of(idx) < MAPWIDTH,
        0 <= y_of(idx) < MAPHEIGHT,
{
    assert((y * 80 + x) % 80 == x && (y * 80 + x) / 80 == y) by (nonlinear_arith)
        requires
            0 <= x < 80,
            0 <= y,
    ;
    assert(y * 80 + x < 3440) by (nonlinear_arith)
        requires
            x < 80,
            y < 43,
    ;
    assert(0 <= y * 80 + x) by (nonlinear_arith)
        requires
            0 <= x,
            0 <= y,
    ;
    assert((idx / 80) * 80 + idx % 80 == idx) by (nonlinear_arith)
        requires
            0 <= idx,
    ;
    assert(idx / 80 < 43) by (nonlinear_arith)
        requires
            idx < 3440,
    ;
}

impl GameMap {
    /// Structural well-formedness: every parallel per-tile store covers the
    /// whole grid, and the dimensions are the canonical ones.
    pub open spec fn wf(self) -> bool {
        &&& self.width == MAPWIDTH as int
        &&& self.height == MAPHEIGHT as int
        &&& self.tiles@.len() == MAPCOUNT
        &&& self.revealed_tiles@.len() == MAPCOUNT
        &&& self.visible_tiles@.len() == MAPCOUNT
        &&& self.blocked@.len() == MAPCOUNT
        &&& self.tile_content@.len() == MAPCOUNT
    }

    pub open spec fn in_bounds(self, x: int, y: int) -> bool {
        0 <= x < self.width && 0 <= y < self.height
    }

    /// Canonical linear index; every consumer of the grid goes through this.
    pub fn xy_idx(&self, x: i32, y: i32) -> (idx: usize)
        requires
            self.wf(),
            self.in_bounds(x as int, y as int),
        ensures
            idx == spec_idx(x as int, y as int),
            idx < MAPCOUNT,
    {
        proof {
            lemma_index_bijection(x as int, y as int, 0);
        }
        (y as usize) * MAPWIDTH + (x as usize)
    }

    /// Create an empty level of the given depth: all walls, nothing revealed,
    /// visible or blocked, no bloodstains, an empty occupancy index.
    pub fn new(new_depth: i32) -> (map: GameMap)
        ensures
            map.wf(),
            map.depth == new_depth,
            forall|i: int| 0 <= i < MAPCOUNT ==> map.tiles@[i] == TileType::Wall,
            forall|i: int| 0 <= i < MAPCOUNT ==> map.revealed_tiles@[i] == false,
            forall|i: int| 0 <= i < MAPCOUNT ==> map.visible_tiles@[i] == false,
            forall|i: int| 0 <= i < MAPCOUNT ==> map.blocked@[i] == false,
            forall|i: int| 0 <= i < MAPCOUNT ==> map.tile_content@[i]@.len() == 0,
            map.bloodstains@.len() == 0,
    {
        let mut tile_content: Vec<Vec<usize>> = Vec::new();
        let mut i: usize = 0;
        while i < MAPCOUNT
            invariant
                i <= MAPCOUNT,
                tile_content@.len() == i,
                forall|j: int| 0 <= j < i ==> tile_content@[j]@.len() == 0,
            decreases MAPCOUNT - i,
        {
            tile_content.push(Vec::new());
            i = i + 1;
        }
        GameMap {
            tiles: vec![TileType::Wall; MAPCOUNT],
            width: MAPWIDTH as i32,
            height: MAPHEIGHT as i32,
            revealed_tiles: vec![false; MAPCOUNT],
            visible_tiles: vec![false; MAPCOUNT],
            blocked: vec![false; MAPCOUNT],
            depth: new_depth,
            bloodstains: Vec::new(),
            tile_content,
        }
    }

    /// Reset the blocked bitset from the tile grid alone: a tile is blocked
    /// iff it is a wall. Callers then OR in entity-blocking flags.
    pub fn populate_blocked(&mut self)
        requires
            old(self).wf(),
        ensures
            final(self).wf(),
            forall|i: int|
                0 <= i < MAPCOUNT ==> final(self).blocked@[i] == (final(self).tiles@[i]
                    == TileType::Wall),
            final(self).tiles@ == old(self).tiles@,
            final(self).revealed_tiles@ == old(self).revealed_tiles@,
            final(self).visible_tiles@ == old(self).visible_tiles@,
            final(self).tile_content@ == old(self).tile_content@,
            final(self).bloodstains@ == old(self).bloodstains@,
            final(self).depth == old(self).depth,
    {
        let mut i: usize = 0;
        while i < MAPCOUNT
            invariant
                old(self).wf(),
                self.wf(),
                i <= MAPCOUNT,
                forall|j: int| 0 <= j < i ==> self.blocked@[j] == (self.tiles@[j] == TileType::Wall),
                self.tiles@ == old(self).tiles@,
                self.revealed_tiles@ == old(self).revealed_tiles@,
                self.visible_tiles@ == old(self).visible_tiles@,
                self.tile_content@ == old(self).tile_content@,
                self.bloodstains@ == old(self).bloodstains@,
                self.depth == old(self).depth,
            decreases MAPCOUNT - i,
        {
            let is_wall = matches!(self.tiles[i], TileType::Wall);
            self.blocked[i] = is_wall;
            i = i + 1;
        }
    }

    /// A neighbouring cell may be stepped into iff it lies inside the
    /// interior of the grid and is not blocked.
    pub open spec fn spec_exit_valid(self, x: int, y: int) -> bool {
        &&& 1 <= x < self.width
        &&& 1 <= y < self.height
        &&& !self.blocked@[spec_idx(x, y)]
    }

    /// The exits from cell (x, y), in the fixed order west, east, north,
    /// south, then the four diagonals; cardinal steps cost [`STEP_COST`],
    /// diagonal steps [`DIAG_COST`] (costs in hundredths of a step).
    pub open spec fn spec_exits(self, x: int, y: int) -> Seq<(usize, u32)> {
        let s = Seq::<(usize, u32)>::empty();
        let s = if self.spec_exit_valid(x - 1, y) {
            s.push((spec_idx(x - 1, y) as usize, STEP_COST))
        } else {
            s
        };
        let s = if self.spec_exit_valid(x + 1, y) {
            s.push((spec_idx(x + 1, y) as usize, STEP_COST))
        } else {
            s
        };
        let s = if self.spec_exit_valid(x, y - 1) {
            s.push((spec_idx(x, y - 1) as usize, STEP_COST))
        } else {
            s
        };
        let s = if self.spec_exit_valid(x, y + 1) {
            s.push((spec_idx(x, y + 1) as usize, STEP_COST))
        } else {
            s
        };
        let s = if self.spec_exit_valid(x - 1, y - 1) {
            s.push((spec_idx(x - 1, y - 1) as usize, DIAG_COST))
        } else {
            s
        };
        let s = if self.spec_exit_valid(x + 1, y - 1) {
            s.push((spec_idx(x + 1, y - 1) as usize, DIAG_COST))
        } else {
            s
        };
        let s = if self.spec_exit_valid(x - 1, y + 1) {
            s.push((spec_idx(x - 1, y + 1) as usize, DIAG_COST))
        } else {
            s
        };
        let s = if self.spec_exit_valid(x + 1, y + 1) {
            s.push((spec_idx(x + 1, y + 1) as usize, DIAG_COST))
        } else {
            s
        };
        s
    }

    fn is_exit_valid(&self, x: i32, y: i32) -> (r: bool)
        requires
            self.wf(),
        ensures
            r == self.spec_exit_valid(x as int, y as int),
    {
        if x < 1 || x > self.width - 1 || y < 1 || y > self.height - 1 {
            return false;
        }
        let idx = self.xy_idx(x, y);
        !self.blocked[idx]
    }

    /// The blocked-aware adjacency consumed by path search and chase
    /// behaviour: up to eight neighbours of the cell at `idx`, each with its
    /// step cost in hundredths (cardinal 100, diagonal 145).
    pub fn get_available_exits(&self, idx: usize) -> (exits: Vec<(usize, u32)>)
        requires
            self.wf(),
            idx < MAPCOUNT,
        ensures
            exits@ == self.spec_exits(x_of(idx as int), y_of(idx as int)),
    {
        proof {
            lemma_index_bijection(0, 0, idx as int);
        }
        let mut exits: Vec<(usize, u32)> = Vec::new();
        let x: i32 = (idx as i32) % self.width;
        let y: i32 = (idx as i32) / self.width;
        let w: usize = MAPWIDTH;

        if self.is_exit_valid(x - 1, y) {
            exits.push((idx - 1, STEP_COST));
        }
        if self.is_exit_valid(x + 1, y) {
            exits.push((idx + 1, STEP_COST));
        }
        if self.is_exit_valid(x, y - 1) {
            exits.push((idx - w, STEP_COST));
        }
        if self.is_exit_valid(x, y + 1) {
            exits.push((idx + w, STEP_COST));
        }

        if self.is_exit_valid(x - 1, y - 1) {
            exits.push(((idx - w) - 1, DIAG_COST));
        }
        if self.is_exit_valid(x + 1, y - 1) {
            exits.push(((idx - w) + 1, DIAG_COST));
        }
        if self.is_exit_valid(x - 1, y + 1) {
            exits.push(((idx + w) - 1, DIAG_COST));
        }
        if self.is_exit_valid(x + 1, y + 1) {
            exits.push(((idx + w) + 1, DIAG_COST));
        }

        exits
    }

    /// True iff the tile grid is a wall at `idx`: the sole occlusion
    /// predicate of the field-of-view computation. Entities never block
    /// sight, only tiles do.
    pub fn is_opaque(&self, idx: usize) -> (r: bool)
        requires
            self.wf(),
            idx < MAPCOUNT,
        ensures
            r == (self.tiles@[idx as int] == TileType::Wall),
    {
        matches!(self.tiles[idx], TileType::Wall)
    }

    pub open spec fn spec_revealed_wall(self, x: int, y: int) -> bool {
        &&& self.tiles@[spec_idx(x, y)] == TileType::Wall
        &&& self.revealed_tiles@[spec_idx(x, y)]
    }

    /// Empty every tile's occupant list, keeping everything else as it is.
    pub fn clear_content_index(&mut self)
        requires
            old(self).wf(),
        ensures
            final(self).wf(),
            forall|i: int| 0 <= i < MAPCOUNT ==> final(self).tile_content@[i]@.len() == 0,
            final(self).tiles@ == old(self).tiles@,
            final(self).revealed_tiles@ == old(self).revealed_tiles@,
            final(self).visible_tiles@ == old(self).visible_tiles@,
            final(self).blocked@ == old(self).blocked@,
            final(self).bloodstains@ == old(self).bloodstains@,
            final(self).depth == old(self).depth,
    {
        let mut i: usize = 0;
        while i < MAPCOUNT
            invariant
                old(self).wf(),
                self.wf(),
                i <= MAPCOUNT,
                forall|j: int| 0 <= j < i ==> self.tile_content@[j]@.len() == 0,
                self.tiles@ == old(self).tiles@,
                self.revealed_tiles@ == old(self).revealed_tiles@,
                self.visible_tiles@ == old(self).visible_tiles@,
                self.blocked@ == old(self).blocked@,
                self.bloodstains@ == old(self).bloodstains@,
                self.depth == old(self).depth,
            decreases MAPCOUNT - i,
        {
            let content = &mut self.tile_content[i];
            content.clear();
            i = i + 1;
        }
    }
}

/// A fresh vector holding the same elements as `v`.
pub fn copy_vec<T: Copy>(v: &Vec<T>) -> (r: Vec<T>)
    ensures
        r@ == v@,
{
    let mut r: Vec<T> = Vec::new();
    let mut i: usize = 0;
    while i < v.len()
        invariant
            i <= v@.len(),
            r@ == v@.subrange(0, i as int),
        decreases v@.len() - i,
    {
        r.push(v[i]);
        proof {
            assert(r@ =~= v@.subrange(0, i + 1 as int));
        }
        i = i + 1;
    }
    proof {
        assert(v@.subrange(0, v@.len() as int) =~= v@);
    }
    r
}

impl GameMap {
    /// A copy of the level, the occupancy index included.
    pub fn duplicate(&self) -> (m: GameMap)
        requires
            self.wf(),
        ensures
            m.wf(),
            m.depth == self.depth,
            m.tiles@ == self.tiles@,
            m.revealed_tiles@ == self.revealed_tiles@,
            m.visible_tiles@ == self.visible_tiles@,
            m.blocked@ == self.blocked@,
            m.bloodstains@ == self.bloodstains@,
            forall|i: int| 0 <= i < MAPCOUNT ==> m.tile_content@[i]@ == self.tile_content@[i]@,
    {
        let mut tile_content: Vec<Vec<usize>> = Vec::new();
        let mut i: usize = 0;
        while i < MAPCOUNT
            invariant
                self.wf(),
                i <= MAPCOUNT,
                tile_content@.len() == i,
                forall|j: int| 0 <= j < i ==> tile_content@[j]@ == self.tile_content@[j]@,
            decreases MAPCOUNT - i,
        {
            tile_content.push(copy_vec(&self.tile_content[i]));
            i = i + 1;
        }
        GameMap {
            tiles: copy_vec(&self.tiles),
            width: self.width,
            height: self.height,
            revealed_tiles: copy_vec(&self.revealed_tiles),
            visible_tiles: copy_vec(&self.visible_tiles),
            blocked: copy_vec(&self.blocked),
            depth: self.depth,
            bloodstains: copy_vec(&self.bloodstains),
            tile_content,
        }
    }

    /// A copy of the level for the generation history, every tile marked
    /// revealed so the replay can draw the whole grid; the transient
    /// occupancy index is not copied.
    pub fn snapshot_revealed(&self) -> (m: GameMap)
        requires
            self.wf(),
        ensures
            m.wf(),
            m.depth == self.depth,
            m.tiles@ == self.tiles@,
            forall|i: int| 0 <= i < MAPCOUNT ==> m.revealed_tiles@[i],
            m.visible_tiles@ == self.visible_tiles@,
            m.blocked@ == self.blocked@,
            m.bloodstains@ == self.bloodstains@,
    {
        let mut tile_content: Vec<Vec<usize>> = Vec::new();
        let mut i: usize = 0;
        while i < MAPCOUNT
            invariant
                i <= MAPCOUNT,
                tile_content@.len() == i,
            decreases MAPCOUNT - i,
        {
            tile_content.push(Vec::new());
            i = i + 1;
        }
        GameMap {
            tiles: copy_vec(&self.tiles),
            width: self.width,
            height: self.height,
            revealed_tiles: vec![true; MAPCOUNT],
            visible_tiles: copy_vec(&self.visible_tiles),
            blocked: copy_vec(&self.blocked),
            depth: self.depth,
            bloodstains: copy_vec(&self.bloodstains),
            tile_content,
        }
    }
}

/// The codepage-437 glyph the renderer uses for the wall at (x, y), chosen
/// from the revealed wall neighbours so that adjacent walls join up.
pub open spec fn glyph_for_mask(mask: int) -> u16 {
    if mask == 0 {
        9
    } else if mask == 1 {
        186
    } else if mask == 2 {
        186
    } else if mask == 3 {
        186
    } else if mask == 4 {
        205
    } else if mask == 5 {
        188
    } else if mask == 6 {
        187
    } else if mask == 7 {
        185
    } else if mask == 8 {
        205
    } else if mask == 9 {
        200
    } else if mask == 10 {
        201
    } else if mask == 11 {
        204
    } else if mask == 12 {
        205
    } else if mask == 13 {
        202
    } else if mask == 14 {
        203
    } else if mask == 15 {
        206
    } else {
        35
    }
}

/// The neighbour bitmask of the wall at (x, y): north = 1, south = 2,
/// west = 4, east = 8, a bit set iff that neighbour is a revealed wall.
pub open spec fn spec_wall_mask(map: GameMap, x: int, y: int) -> int {
    (if map.spec_revealed_wall(x, y - 1) {
        1int
    } else {
        0int
    }) + (if map.spec_revealed_wall(x, y + 1) {
        2int
    } else {
        0int
    }) + (if map.spec_revealed_wall(x - 1, y) {
        4int
    } else {
        0int
    }) + (if map.spec_revealed_wall(x + 1, y) {
        8int
    } else {
        0int
    })
}

pub open spec fn spec_wall_glyph(map: GameMap, x: int, y: int) -> u16 {
    if x < 1 || x > map.width - 2 {
        186
    } else if y < 1 || y > map.height - 2 {
        205
    } else {
        glyph_for_mask(spec_wall_mask(map, x, y))
    }
}

pub fn is_revealed_and_wall(map: &GameMap, x: i32, y: i32) -> (r: bool)
    requires
        map.wf(),
        map.in_bounds(x as int, y as int),
    ensures
        r == map.spec_revealed_wall(x as int, y as int),
{
    let idx = map.xy_idx(x, y);
    matches!(map.tiles[idx], TileType::Wall) && map.revealed_tiles[idx]
}

/// Pick the box-drawing glyph for a wall tile from its revealed wall
/// neighbours; border tiles fall back to a plain vertical or horizontal bar.
pub fn wall_glyph(map: &GameMap, x: i32, y: i32) -> (glyph: u16)
    requires
        map.wf(),
        map.in_bounds(x as int, y as int),
    ensures
        glyph == spec_wall_glyph(*map, x as int, y as int),
{
    if x < 1 || x > map.width - 2 {
        return 186;
    }

    if y < 1 || y > map.height - 2 {
        return 205;
    }

    let mut mask: u8 = 0;
    if is_revealed_and_wall(map, x, y - 1) {
        mask += 1;
    }
    if is_revealed_and_wall(map, x, y + 1) {
        mask += 2;
    }
    if is_revealed_and_wall(map, x - 1, y) {
        mask += 4;
    }
    if is_revealed_and_wall(map, x + 1, y) {
        mask += 8;
    }

    match mask {
        0 => 9,
        1 => 186,
        2 => 186,
        3 => 186,
        4 => 205,
        5 => 188,
        6 => 187,
        7 => 185,
        8 => 205,
        9 => 200,
        10 => 201,
        11 => 204,
        12 => 205,
        13 => 202,
        14 => 203,
        15 => 206,
        _ => 35,
    }
}

} // verus!
