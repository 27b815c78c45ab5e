//! The dense 3D occupancy grid and the lifecycle of the falling pieces.
//!
//! A `Grid` owns a flat occupancy array (one `GridBlock` per cell) and a
//! growing list of pieces (`Tetris`). The occupancy array and the per-piece
//! block lists are kept in exact agreement: every block of piece `i` sits on a
//! cell marked `Occupied(i)`, and every occupied cell holds exactly the index
//! of the piece whose block is there. All mutating operations preserve this
//! invariant, `Grid::wf`, and move a piece atomically: either every block of
//! the piece moves by the same offset or none does.

use rand::Rng;
use vstd::prelude::*;

verus! {

/// Grid extent along X.
pub const GRID_X_MAX: i32 = 8;
/// Grid extent along Y (the vertical axis pieces fall along).
pub const GRID_Y_MAX: i32 = 16;
/// Grid extent along Z.
pub const GRID_Z_MAX: i32 = 8;
/// Number of cells in the occupancy array: `GRID_X_MAX * GRID_Y_MAX * GRID_Z_MAX`.
pub const GRID_LEN: usize = 8 * 16 * 8;
/// Number of cells in one horizontal plane: `GRID_X_MAX * GRID_Z_MAX`.
pub const PLANE_LEN: usize = 8 * 8;
/// Number of piece templates a spawn chooses from.
pub const TEMPLATE_COUNT: usize = 6;

/// An integer cell address. Doubles as an integer offset (the grid `origin`,
/// deltas of moves), in which case the bounds below do not apply.
#[derive(Copy, Clone, PartialEq, Eq, Structural, Debug)]
pub struct GridCoord {
    pub x: i32,
    pub y: i32,
    pub z: i32,
}

impl GridCoord {
    pub fn new(x: i32, y: i32, z: i32) -> (c: GridCoord)
        ensures
            c == (GridCoord { x, y, z }),
    {
        GridCoord { x, y, z }
    }
}

/// Does a coordinate address a cell of the grid?
pub open spec fn in_bounds(c: GridCoord) -> bool {
    0 <= c.x < 8 && 0 <= c.y < 16 && 0 <= c.z < 8
}

/// Flattened index of a cell: planes are stored bottom to top, rows along X,
/// cells along Z.
pub open spec fn index_of(c: GridCoord) -> int {
    c.z + c.x * 8 + c.y * 64
}

/// Equal indices of in-bounds coordinates come from equal coordinates.
pub proof fn lemma_index_of_injective(a: GridCoord, b: GridCoord)
    requires
        in_bounds(a),
        in_bounds(b),
        index_of(a) == index_of(b),
    ensures
        a == b,
{
}

/// A unit cube of a piece: a cell address plus a color label.
#[derive(Copy, Clone, PartialEq, Eq, Structural, Debug)]
pub struct Block {
    pub c: GridCoord,
    pub color: TetrisColor,
}

/// Palette of the piece templates, plus `Mix`, the terminal color every block
/// takes when the game ends.
#[derive(Copy, Clone, PartialEq, Eq, Structural, Debug)]
pub enum TetrisColor {
    Red,
    Green,
    Blue,
    Cyan,
    Magenta,
    Yellow,
    Mix,
}

/// A piece: blocks that move and fall together, and a flag saying whether the
/// piece is still falling. Pieces are never removed from the grid's list, only
/// emptied or halted, so piece indices stay stable.
#[derive(Clone, Debug)]
pub struct Tetris {
    pub blocks: Vec<Block>,
    pub falling: bool,
}

/// Occupancy state of one cell: free, or held by the piece with the given
/// index in the grid's piece list.
#[derive(Copy, Clone, PartialEq, Eq, Structural, Debug)]
pub enum GridBlock {
    Vacant,
    Occupied(usize),
}

impl GridBlock {
    pub fn is_vacant(&self) -> (r: bool)
        ensures
            r == (*self == GridBlock::Vacant),
    {
        match *self {
            GridBlock::Vacant => true,
            _ => false,
        }
    }
}

/// Computes the flattened occupancy-array index of the cell `(x, y, z)`.
/// Out-of-range coordinates are a caller bug, excluded by contract.
pub fn xyz_to_index(x: i32, y: i32, z: i32) -> (i: usize)
    requires
        in_bounds(GridCoord { x, y, z }),
    ensures
        i == index_of(GridCoord { x, y, z }),
        i < GRID_LEN,
{
    (z + x * GRID_Z_MAX + y * GRID_Z_MAX * GRID_X_MAX) as usize
}

/// Recovers the cell coordinates from a flattened occupancy-array index.
pub fn index_to_xyz(i: usize) -> (r: (i32, i32, i32))
    requires
        i < GRID_LEN,
    ensures
        in_bounds(GridCoord { x: r.0, y: r.1, z: r.2 }),
        index_of(GridCoord { x: r.0, y: r.1, z: r.2 }) == i,
{
    let i = i as i32;
    let z = i % GRID_Z_MAX;
    let tmp = i / GRID_Z_MAX;
    let x = tmp % GRID_X_MAX;
    let y = tmp / GRID_X_MAX;
    (x, y, z)
}

/// Cell coordinates of a flattened index, as a spec-level inverse of `index_of`.
pub open spec fn coord_of(k: int) -> GridCoord {
    GridCoord { x: ((k / 8) % 8) as i32, y: ((k / 8) / 8) as i32, z: (k % 8) as i32 }
}

/// `coord_of` inverts `index_of` on the occupancy array's index range.
pub proof fn lemma_coord_of(k: int)
    requires
        0 <= k < GRID_LEN,
    ensures
        in_bounds(coord_of(k)),
        index_of(coord_of(k)) == k,
{
}

/// The grid aggregate: the piece list, the index of the piece under player
/// control, a world-space placement offset, the game-over flag, and the flat
/// occupancy array (`GRID_LEN` cells, indexed by `index_of`).
pub struct Grid {
    pub tetris: Vec<Tetris>,
    pub current: usize,
    pub origin: GridCoord,
    pub end: bool,
    pub grid: Vec<GridBlock>,
}

/// Does piece `t` have a block on cell `c`?
pub open spec fn piece_covers(t: Tetris, c: GridCoord) -> bool {
    exists|j: int| 0 <= j < t.blocks@.len() && t.blocks@[j].c == c
}

/// Does a piece other than `i` have a block on cell `c`?
pub open spec fn covered_by_other(g: Grid, i: int, c: GridCoord) -> bool {
    exists|s: int| 0 <= s < g.tetris@.len() && s != i && piece_covers(g.tetris@[s], c)
}

impl Grid {
    /// Every block of every piece sits on an in-bounds cell that the
    /// occupancy array marks with that piece's index.
    pub open spec fn marks_match(self) -> bool {
        forall|i: int, j: int|
            0 <= i < self.tetris@.len() && 0 <= j < self.tetris@[i].blocks@.len()
                ==> in_bounds((#[trigger] self.tetris@[i].blocks@[j]).c)
                && self.grid@[index_of(self.tetris@[i].blocks@[j].c)] == GridBlock::Occupied(
                    i as usize,
                )
    }

    /// Every occupied cell names an existing piece that really has a block
    /// there: the occupancy array holds no stale marks.
    pub open spec fn marks_tight(self) -> bool {
        forall|k: int|
            0 <= k < GRID_LEN ==> ((#[trigger] self.grid@[k]) matches GridBlock::Occupied(t)
                ==> 0 <= t < self.tetris@.len() && piece_covers(self.tetris@[t as int], coord_of(k)))
    }

    /// No two blocks of one piece share a cell.
    pub open spec fn blocks_distinct(self) -> bool {
        forall|i: int, j1: int, j2: int|
            0 <= i < self.tetris@.len() && 0 <= j1 < self.tetris@[i].blocks@.len() && 0 <= j2
                < self.tetris@[i].blocks@.len() && j1 != j2
                ==> (#[trigger] self.tetris@[i].blocks@[j1]).c
                != (#[trigger] self.tetris@[i].blocks@[j2]).c
    }

    /// Well-formedness of a grid: the occupancy array has its fixed size, the
    /// controlled-piece index is valid, and the occupancy array agrees exactly
    /// with the per-piece block lists.
    pub open spec fn wf(self) -> bool {
        &&& self.grid@.len() == GRID_LEN
        &&& self.tetris@.len() == 0 || self.current < self.tetris@.len()
        &&& self.marks_match()
        &&& self.marks_tight()
        &&& self.blocks_distinct()
    }
}

/// Occupancy consistency: in a well-formed grid a cell is vacant exactly when
/// no piece claims it, and a cell claimed by piece `i` is marked `Occupied(i)`.
pub proof fn lemma_occupancy_consistent(g: Grid, c: GridCoord)
    requires
        g.wf(),
        in_bounds(c),
    ensures
        g.grid@[index_of(c)] == GridBlock::Vacant <==> (forall|i: int|
            0 <= i < g.tetris@.len() ==> !piece_covers(#[trigger] g.tetris@[i], c)),
        forall|i: int|
            0 <= i < g.tetris@.len() && piece_covers(#[trigger] g.tetris@[i], c)
                ==> g.grid@[index_of(c)] == GridBlock::Occupied(i as usize),
{
    lemma_coord_of(index_of(c));
    lemma_index_of_injective(coord_of(index_of(c)), c);
    if g.grid@[index_of(c)] != GridBlock::Vacant {
        assert(0 <= index_of(c) < GRID_LEN);
        assert(g.grid@[index_of(c)] matches GridBlock::Occupied(t) ==> 0 <= t < g.tetris@.len()
            && piece_covers(g.tetris@[t as int], c));
    }
}

/// A cell is free for piece `i` when the occupancy array holds `Vacant` or
/// `Occupied(i)` there; piece `i` may move onto such a cell.
pub open spec fn free_for(g: Grid, i: int, c: GridCoord) -> bool {
    g.grid@[index_of(c)] == GridBlock::Vacant || g.grid@[index_of(c)] == GridBlock::Occupied(
        i as usize,
    )
}

/// Shorthand for a block literal in template specifications.
pub open spec fn blk(x: int, y: int, z: int, color: TetrisColor) -> Block {
    Block { c: GridCoord { x: x as i32, y: y as i32, z: z as i32 }, color }
}

/// The fixed set of piece templates, already placed at the spawn region near
/// the top of the grid. A spawn draws one of these at random.
pub open spec fn spec_template(shape: int) -> Seq<Block> {
    if shape == 0 {
        // 2x2x2 cube
        seq![
            blk(5, 15, 5, TetrisColor::Red),
            blk(4, 15, 4, TetrisColor::Red),
            blk(5, 15, 4, TetrisColor::Red),
            blk(4, 15, 5, TetrisColor::Red),
            blk(5, 14, 5, TetrisColor::Red),
            blk(4, 14, 4, TetrisColor::Red),
            blk(5, 14, 4, TetrisColor::Red),
            blk(4, 14, 5, TetrisColor::Red),
        ]
    } else if shape == 1 {
        // 4x1x1 line
        seq![
            blk(4, 12, 4, TetrisColor::Green),
            blk(4, 13, 4, TetrisColor::Green),
            blk(4, 14, 4, TetrisColor::Green),
            blk(4, 15, 4, TetrisColor::Green),
        ]
    } else if shape == 2 {
        // upside-down T
        seq![
            blk(5, 14, 4, TetrisColor::Blue),
            blk(5, 15, 4, TetrisColor::Blue),
            blk(4, 14, 4, TetrisColor::Blue),
            blk(6, 15, 4, TetrisColor::Blue),
        ]
    } else if shape == 3 {
        // corner
        seq![
            blk(4, 14, 4, TetrisColor::Cyan),
            blk(4, 15, 4, TetrisColor::Cyan),
            blk(3, 14, 4, TetrisColor::Cyan),
            blk(4, 14, 5, TetrisColor::Cyan),
        ]
    } else if shape == 4 {
        // Z
        seq![
            blk(4, 13, 4, TetrisColor::Magenta),
            blk(4, 14, 4, TetrisColor::Magenta),
            blk(5, 14, 4, TetrisColor::Magenta),
            blk(5, 15, 4, TetrisColor::Magenta),
        ]
    } else {
        // L
        seq![
            blk(4, 13, 4, TetrisColor::Yellow),
            blk(5, 13, 4, TetrisColor::Yellow),
            blk(4, 14, 4, TetrisColor::Yellow),
            blk(4, 15, 4, TetrisColor::Yellow),
        ]
    }
}

/// A block list is placeable as a new piece: all cells in bounds, no two
/// blocks on one cell.
pub open spec fn placeable(bs: Seq<Block>) -> bool {
    &&& forall|j: int| 0 <= j < bs.len() ==> in_bounds((#[trigger] bs[j]).c)
    &&& forall|j1: int, j2: int|
        0 <= j1 < bs.len() && 0 <= j2 < bs.len() && j1 != j2 ==> (#[trigger] bs[j1]).c
            != (#[trigger] bs[j2]).c
}

/// Every template is placeable and sits in the spawn region (`y >= 12`).
pub proof fn lemma_template_placeable(shape: int)
    requires
        0 <= shape < 6,
    ensures
        placeable(spec_template(shape)),
        forall|j: int|
            0 <= j < spec_template(shape).len() ==> (#[trigger] spec_template(shape)[j]).c.y >= 12,
{
}

impl Tetris {
    /// Builds the piece template with the given shape index, placed at the
    /// spawn region and falling.
    pub fn template(shape: usize) -> (t: Tetris)
        requires
            shape < TEMPLATE_COUNT,
        ensures
            t.blocks@ == spec_template(shape as int),
            t.falling,
    {
        let blocks: Vec<Block> = match shape {
            0 => vec![
                Block { c: GridCoord { x: 5, y: 15, z: 5 }, color: TetrisColor::Red },
                Block { c: GridCoord { x: 4, y: 15, z: 4 }, color: TetrisColor::Red },
                Block { c: GridCoord { x: 5, y: 15, z: 4 }, color: TetrisColor::Red },
                Block { c: GridCoord { x: 4, y: 15, z: 5 }, color: TetrisColor::Red },
                Block { c: GridCoord { x: 5, y: 14, z: 5 }, color: TetrisColor::Red },
                Block { c: GridCoord { x: 4, y: 14, z: 4 }, color: TetrisColor::Red },
                Block { c: GridCoord { x: 5, y: 14, z: 4 }, color: TetrisColor::Red },
                Block { c: GridCoord { x: 4, y: 14, z: 5 }, color: TetrisColor::Red },
            ],
            1 => vec![
                Block { c: GridCoord { x: 4, y: 12, z: 4 }, color: TetrisColor::Green },
                Block { c: GridCoord { x: 4, y: 13, z: 4 }, color: TetrisColor::Green },
                Block { c: GridCoord { x: 4, y: 14, z: 4 }, color: TetrisColor::Green },
                Block { c: GridCoord { x: 4, y: 15, z: 4 }, color: TetrisColor::Green },
            ],
            2 => vec![
                Block { c: GridCoord { x: 5, y: 14, z: 4 }, color: TetrisColor::Blue },
                Block { c: GridCoord { x: 5, y: 15, z: 4 }, color: TetrisColor::Blue },
                Block { c: GridCoord { x: 4, y: 14, z: 4 }, color: TetrisColor::Blue },
                Block { c: GridCoord { x: 6, y: 15, z: 4 }, color: TetrisColor::Blue },
            ],
            3 => vec![
                Block { c: GridCoord { x: 4, y: 14, z: 4 }, color: TetrisColor::Cyan },
                Block { c: GridCoord { x: 4, y: 15, z: 4 }, color: TetrisColor::Cyan },
                Block { c: GridCoord { x: 3, y: 14, z: 4 }, color: TetrisColor::Cyan },
                Block { c: GridCoord { x: 4, y: 14, z: 5 }, color: TetrisColor::Cyan },
            ],
            4 => vec![
                Block { c: GridCoord { x: 4, y: 13, z: 4 }, color: TetrisColor::Magenta },
                Block { c: GridCoord { x: 4, y: 14, z: 4 }, color: TetrisColor::Magenta },
                Block { c: GridCoord { x: 5, y: 14, z: 4 }, color: TetrisColor::Magenta },
                Block { c: GridCoord { x: 5, y: 15, z: 4 }, color: TetrisColor::Magenta },
            ],
            _ => vec![
                Block { c: GridCoord { x: 4, y: 13, z: 4 }, color: TetrisColor::Yellow },
                Block { c: GridCoord { x: 5, y: 13, z: 4 }, color: TetrisColor::Yellow },
                Block { c: GridCoord { x: 4, y: 14, z: 4 }, color: TetrisColor::Yellow },
                Block { c: GridCoord { x: 4, y: 15, z: 4 }, color: TetrisColor::Yellow },
            ],
        };
        proof {
            assert(blocks@ =~= spec_template(shape as int));
        }
        Tetris { blocks, falling: true }
    }

    /// Draws a random shape index and builds its template.
    fn gen_random_tetris() -> (t: Tetris)
        ensures
            exists|s: int| 0 <= s < 6 && t.blocks@ == spec_template(s),
            t.falling,
    {
        let shape = random_shape_index();
        let t = Tetris::template(shape);
        proof {
            assert(0 <= (shape as int) && (shape as int) < 6 && t.blocks@ == spec_template(
                shape as int,
            ));
        }
        t
    }
}

/// Relies on `rand::Rng::gen_range` on the thread-local generator
/// (`rand::thread_rng`): the result is drawn from the given non-empty range,
/// so it is always below `TEMPLATE_COUNT`.
#[verifier::external_body]
fn random_shape_index() -> (r: usize)
    ensures
        r < TEMPLATE_COUNT,
{
    rand::thread_rng().gen_range(0..TEMPLATE_COUNT)
}

/// In a well-formed grid, a cell is free for piece `i` exactly when no other
/// piece has a block there.
pub proof fn lemma_free_for(g: Grid, i: int, c: GridCoord)
    requires
        g.wf(),
        in_bounds(c),
        0 <= i < g.tetris@.len(),
    ensures
        free_for(g, i, c) <==> !covered_by_other(g, i, c),
{
    lemma_coord_of(index_of(c));
    lemma_index_of_injective(coord_of(index_of(c)), c);
    match g.grid@[index_of(c)] {
        GridBlock::Occupied(t) => {
            assert(0 <= index_of(c) < GRID_LEN);
            assert(piece_covers(g.tetris@[t as int], c));
        },
        GridBlock::Vacant => {},
    }
    if covered_by_other(g, i, c) {
        let s = choose|s: int|
            0 <= s < g.tetris@.len() && s != i && piece_covers(g.tetris@[s], c);
        assert(g.tetris@.len() == g.tetris.len());
        assert(g.grid@[index_of(c)] == GridBlock::Occupied(s as usize));
    }
}

/// A coordinate translated by an integer offset.
pub open spec fn offset_coord(c: GridCoord, dx: int, dy: int, dz: int) -> GridCoord {
    GridCoord { x: (c.x + dx) as i32, y: (c.y + dy) as i32, z: (c.z + dz) as i32 }
}

/// May piece `i` move as a whole by the given offset: every destination cell
/// lies inside the grid and no other piece has a block there. Cells the piece
/// itself occupies do not block the move.
pub open spec fn can_shift_spec(g: Grid, i: int, dx: int, dy: int, dz: int) -> bool {
    forall|j: int|
        0 <= j < g.tetris@[i].blocks@.len() ==> {
            let c2 = offset_coord((#[trigger] g.tetris@[i].blocks@[j]).c, dx, dy, dz);
            in_bounds(c2) && !covered_by_other(g, i, c2)
        }
}

/// `t2` is `t1` moved as a whole by the given offset: same number of blocks,
/// every block translated by the same offset with its color kept, the falling
/// flag unchanged.
pub open spec fn piece_shifted(t1: Tetris, t2: Tetris, dx: int, dy: int, dz: int) -> bool {
    &&& t2.blocks@.len() == t1.blocks@.len()
    &&& forall|j: int|
        0 <= j < t1.blocks@.len() ==> #[trigger] t2.blocks@[j] == (Block {
            c: offset_coord(t1.blocks@[j].c, dx, dy, dz),
            color: t1.blocks@[j].color,
        })
    &&& t2.falling == t1.falling
}

/// Does any piece have a block on cell `c`?
pub open spec fn covered_by_any(g: Grid, c: GridCoord) -> bool {
    exists|s: int| 0 <= s < g.tetris@.len() && piece_covers(g.tetris@[s], c)
}

/// May a new piece with these blocks be placed: no existing piece claims any
/// of its cells.
pub open spec fn can_place(g: Grid, bs: Seq<Block>) -> bool {
    forall|j: int| 0 <= j < bs.len() ==> !covered_by_any(g, (#[trigger] bs[j]).c)
}

/// `g2` is `g1` with every block recolored to the terminal color and nothing
/// else changed about the pieces.
pub open spec fn recolored(g1: Grid, g2: Grid) -> bool {
    &&& g2.tetris@.len() == g1.tetris@.len()
    &&& forall|i: int|
        0 <= i < g1.tetris@.len() ==> (#[trigger] g2.tetris@[i]).falling == g1.tetris@[i].falling
            && g2.tetris@[i].blocks@.len() == g1.tetris@[i].blocks@.len()
    &&& forall|i: int, j: int|
        0 <= i < g1.tetris@.len() && 0 <= j < g1.tetris@[i].blocks@.len()
            ==> (#[trigger] g2.tetris@[i].blocks@[j]) == (Block {
            c: g1.tetris@[i].blocks@[j].c,
            color: TetrisColor::Mix,
        })
}

/// Outcome of spawning template `s` on grid `g1`: if no piece claims any of
/// the template's cells the template is appended as a new falling piece,
/// otherwise nothing is placed and the game ends with every block recolored.
pub open spec fn add_outcome(g1: Grid, g2: Grid, s: int) -> bool {
    if can_place(g1, spec_template(s)) {
        spawned(g1, g2, spec_template(s), true)
    } else {
        &&& g2.end
        &&& g2.grid@ == g1.grid@
        &&& g2.current == g1.current
        &&& g2.origin == g1.origin
        &&& recolored(g1, g2)
    }
}

/// `g2` is `g1` with a new piece appended whose blocks are `bs`, falling as
/// given, the new piece under control, and all else untouched.
pub open spec fn spawned(g1: Grid, g2: Grid, bs: Seq<Block>, falling: bool) -> bool {
    &&& g2.tetris@.len() == g1.tetris@.len() + 1
    &&& forall|i: int| 0 <= i < g1.tetris@.len() ==> #[trigger] g2.tetris@[i] == g1.tetris@[i]
    &&& g2.tetris@[g1.tetris@.len() as int].blocks@ == bs
    &&& g2.tetris@[g1.tetris@.len() as int].falling == falling
    &&& g2.current == g1.tetris@.len()
    &&& g2.end == g1.end
    &&& g2.origin == g1.origin
}

/// Two grids with the same occupancy array and the same block layout (piece
/// count, list lengths, block cells) are equally well-formed: colors and
/// falling flags play no role in `wf`.
proof fn lemma_wf_same_cells(g1: Grid, g2: Grid)
    requires
        g1.wf(),
        g2.grid@ == g1.grid@,
        g2.tetris@.len() == g1.tetris@.len(),
        g2.tetris@.len() == 0 || g2.current < g2.tetris@.len(),
        forall|i: int|
            0 <= i < g1.tetris@.len() ==> (#[trigger] g2.tetris@[i]).blocks@.len()
                == g1.tetris@[i].blocks@.len(),
        forall|i: int, j: int|
            0 <= i < g1.tetris@.len() && 0 <= j < g1.tetris@[i].blocks@.len()
                ==> (#[trigger] g2.tetris@[i].blocks@[j]).c == g1.tetris@[i].blocks@[j].c,
    ensures
        g2.wf(),
{
    assert forall|k: int|
        0 <= k < GRID_LEN implies ((#[trigger] g2.grid@[k]) matches GridBlock::Occupied(t) ==> 0
        <= t < g2.tetris@.len() && piece_covers(g2.tetris@[t as int], coord_of(k))) by {
        match g2.grid@[k] {
            GridBlock::Occupied(t) => {
                assert(g1.grid@[k] == GridBlock::Occupied(t));
                let j = choose|j: int|
                    0 <= j < g1.tetris@[t as int].blocks@.len() && g1.tetris@[t as int].blocks@[j].c
                        == coord_of(k);
                assert(g2.tetris@[t as int].blocks@[j].c == coord_of(k));
            },
            GridBlock::Vacant => {},
        }
    }
}

/// After a whole-piece move whose destinations were in bounds and not covered
/// by another piece, and whose occupancy updates vacated the old cells and
/// marked the new ones, the grid is well-formed again.
proof fn lemma_shift_piece_wf(g1: Grid, g2: Grid, i: int, dx: int, dy: int, dz: int)
    requires
        g1.wf(),
        0 <= i < g1.tetris@.len(),
        -1 <= dx <= 1,
        -1 <= dy <= 1,
        -1 <= dz <= 1,
        can_shift_spec(g1, i, dx, dy, dz),
        g2.tetris@.len() == g1.tetris@.len(),
        forall|s: int|
            0 <= s < g1.tetris@.len() && s != i ==> #[trigger] g2.tetris@[s] == g1.tetris@[s],
        piece_shifted(g1.tetris@[i], g2.tetris@[i], dx, dy, dz),
        g2.current == g1.current,
        g2.grid@.len() == GRID_LEN,
        forall|c2: GridCoord|
            in_bounds(c2) ==> #[trigger] g2.grid@[index_of(c2)] == (if piece_covers(
                g2.tetris@[i],
                c2,
            ) {
                GridBlock::Occupied(i as usize)
            } else if piece_covers(g1.tetris@[i], c2) {
                GridBlock::Vacant
            } else {
                g1.grid@[index_of(c2)]
            }),
    ensures
        g2.wf(),
{
    assert(g1.tetris@.len() == g1.tetris.len());
    // every new cell of piece `i` is in bounds
    assert forall|b: int| 0 <= b < g2.tetris@[i].blocks@.len() implies in_bounds(
        (#[trigger] g2.tetris@[i].blocks@[b]).c,
    ) && !covered_by_other(g1, i, g2.tetris@[i].blocks@[b].c) by {
        assert(g2.tetris@[i].blocks@[b] == (Block {
            c: offset_coord(g1.tetris@[i].blocks@[b].c, dx, dy, dz),
            color: g1.tetris@[i].blocks@[b].color,
        }));
    }
    assert forall|a: int, b: int|
        0 <= a < g2.tetris@.len() && 0 <= b < g2.tetris@[a].blocks@.len() implies in_bounds(
        (#[trigger] g2.tetris@[a].blocks@[b]).c,
    ) && g2.grid@[index_of(g2.tetris@[a].blocks@[b].c)] == GridBlock::Occupied(a as usize) by {
        if a == i {
            let c2 = g2.tetris@[i].blocks@[b].c;
            assert(piece_covers(g2.tetris@[i], c2));
        } else {
            let c2 = g1.tetris@[a].blocks@[b].c;
            assert(g2.tetris@[a].blocks@[b] == g1.tetris@[a].blocks@[b]);
            assert(in_bounds(c2));
            if piece_covers(g2.tetris@[i], c2) {
                // the move's destinations avoid other pieces' cells
                assert(covered_by_other(g1, i, c2));
                let jj = choose|jj: int|
                    0 <= jj < g2.tetris@[i].blocks@.len() && g2.tetris@[i].blocks@[jj].c == c2;
                assert(!covered_by_other(g1, i, g2.tetris@[i].blocks@[jj].c));
                assert(false);
            }
            if piece_covers(g1.tetris@[i], c2) {
                // two pieces cannot both have marked the same cell
                assert(g1.grid@[index_of(c2)] == GridBlock::Occupied(i as usize));
                assert(g1.grid@[index_of(c2)] == GridBlock::Occupied(a as usize));
                assert(false);
            }
            assert(g2.grid@[index_of(c2)] == g1.grid@[index_of(c2)]);
        }
    }
    assert(g2.marks_match());
    assert forall|k: int|
        0 <= k < GRID_LEN implies ((#[trigger] g2.grid@[k]) matches GridBlock::Occupied(t) ==> 0
        <= t < g2.tetris@.len() && piece_covers(g2.tetris@[t as int], coord_of(k))) by {
        lemma_coord_of(k);
        let c2 = coord_of(k);
        match g2.grid@[k] {
            GridBlock::Occupied(t) => {
                if piece_covers(g2.tetris@[i], c2) {
                    assert(t == i);
                } else if piece_covers(g1.tetris@[i], c2) {
                    assert(g2.grid@[k] == GridBlock::Vacant);
                    assert(false);
                } else {
                    assert(g1.grid@[k] == GridBlock::Occupied(t));
                    assert(piece_covers(g1.tetris@[t as int], c2));
                    assert(t != i);
                    assert(g2.tetris@[t as int] == g1.tetris@[t as int]);
                }
            },
            GridBlock::Vacant => {},
        }
    }
    assert(g2.marks_tight());
    assert forall|a: int, j1: int, j2: int|
        0 <= a < g2.tetris@.len() && 0 <= j1 < g2.tetris@[a].blocks@.len() && 0 <= j2
            < g2.tetris@[a].blocks@.len() && j1 != j2 implies (#[trigger] g2.tetris@[a].blocks@[j1]).c
        != (#[trigger] g2.tetris@[a].blocks@[j2]).c by {
        if a == i {
            assert(g2.tetris@[i].blocks@[j1] == (Block {
                c: offset_coord(g1.tetris@[i].blocks@[j1].c, dx, dy, dz),
                color: g1.tetris@[i].blocks@[j1].color,
            }));
            assert(g2.tetris@[i].blocks@[j2] == (Block {
                c: offset_coord(g1.tetris@[i].blocks@[j2].c, dx, dy, dz),
                color: g1.tetris@[i].blocks@[j2].color,
            }));
            assert(g1.tetris@[i].blocks@[j1].c != g1.tetris@[i].blocks@[j2].c);
        } else {
            assert(g2.tetris@[a] == g1.tetris@[a]);
        }
    }
    assert(g2.blocks_distinct());
}

/// After revisiting piece `i` for a clear of plane `y` — its cells on or
/// above the plane vacated, its blocks above the plane lowered with their new
/// cells marked, its blocks on the plane deleted — the grid is well-formed
/// again, provided no lowered block landed on another piece's block.
proof fn lemma_split_wf(g0: Grid, g1: Grid, g2: Grid, i: int, y: int)
    requires
        g0.wf(),
        0 <= i < g0.tetris@.len(),
        0 <= y < 16,
        forall|j: int|
            0 <= j < g0.tetris@[i].blocks@.len() && (#[trigger] g0.tetris@[i].blocks@[j]).c.y > y
                ==> !covered_by_other(g0, i, offset_coord(g0.tetris@[i].blocks@[j].c, 0, -1, 0)),
        g1.tetris@ == g0.tetris@,
        g1.current == g0.current,
        g1.grid@.len() == GRID_LEN,
        forall|c: GridCoord|
            in_bounds(c) ==> #[trigger] g1.grid@[index_of(c)] == (if piece_covers(
                g0.tetris@[i],
                c,
            ) && c.y >= y {
                GridBlock::Vacant
            } else {
                g0.grid@[index_of(c)]
            }),
        g2.tetris@.len() == g1.tetris@.len(),
        forall|s: int| 0 <= s < g1.tetris@.len() && s != i ==> #[trigger] g2.tetris@[s] == g1.tetris@[s],
        g2.tetris@[i].blocks@ == split_blocks(g1.tetris@[i].blocks@, y),
        g2.tetris@[i].falling == g1.tetris@[i].falling,
        g2.current == g1.current,
        g2.grid@.len() == GRID_LEN,
        forall|c: GridCoord|
            in_bounds(c) ==> #[trigger] g2.grid@[index_of(c)] == (if (exists|j: int|
                0 <= j < g1.tetris@[i].blocks@.len() && (#[trigger] g1.tetris@[i].blocks@[j]).c.y
                    > y && offset_coord(g1.tetris@[i].blocks@[j].c, 0, -1, 0) == c) {
                GridBlock::Occupied(i as usize)
            } else {
                g1.grid@[index_of(c)]
            }),
    ensures
        g2.wf(),
{
    let bs = g0.tetris@[i].blocks@;
    let nb = g2.tetris@[i].blocks@;
    assert(g0.tetris@.len() == g0.tetris.len());
    assert forall|j: int| 0 <= j < bs.len() implies in_bounds((#[trigger] bs[j]).c) by {
        assert(g0.tetris@[i].blocks@[j] == bs[j]);
    }
    lemma_split_blocks(bs, y);
    lemma_split_blocks_distinct(bs, y);
    assert forall|a: int, b: int|
        0 <= a < g2.tetris@.len() && 0 <= b < g2.tetris@[a].blocks@.len() implies in_bounds(
        (#[trigger] g2.tetris@[a].blocks@[b]).c,
    ) && g2.grid@[index_of(g2.tetris@[a].blocks@[b].c)] == GridBlock::Occupied(a as usize) by {
        if a == i {
            let e = nb[b];
            let j = choose|j: int|
                0 <= j < bs.len() && ((bs[j].c.y > y && nb[b] == lowered(bs[j])) || (bs[j].c.y < y
                    && nb[b] == bs[j]));
            if bs[j].c.y > y {
                assert(e == lowered(bs[j]));
                assert(in_bounds(e.c));
                assert(g1.tetris@[i].blocks@[j] == bs[j]);
                assert(offset_coord(g1.tetris@[i].blocks@[j].c, 0, -1, 0) == e.c);
                assert(g2.grid@[index_of(e.c)] == GridBlock::Occupied(i as usize));
            } else {
                assert(e == bs[j]);
                assert(in_bounds(e.c));
                assert(e.c.y < y);
                if exists|jj: int|
                    0 <= jj < g1.tetris@[i].blocks@.len() && (#[trigger] g1.tetris@[i].blocks@[jj]).c.y > y && offset_coord(g1.tetris@[i].blocks@[jj].c, 0, -1, 0)
                        == e.c {
                    let jj = choose|jj: int|
                        0 <= jj < g1.tetris@[i].blocks@.len() && (#[trigger] g1.tetris@[i].blocks@[jj]).c.y > y && offset_coord(g1.tetris@[i].blocks@[jj].c, 0, -1, 0)
                            == e.c;
                    assert(bs[jj].c.y - 1 >= y);
                    assert(false);
                }
                assert(piece_covers(g0.tetris@[i], e.c));
                assert(g1.grid@[index_of(e.c)] == g0.grid@[index_of(e.c)]);
                assert(g0.grid@[index_of(e.c)] == GridBlock::Occupied(i as usize));
            }
        } else {
            let e = g0.tetris@[a].blocks@[b];
            assert(g2.tetris@[a] == g0.tetris@[a]);
            assert(in_bounds(e.c));
            assert(g0.grid@[index_of(e.c)] == GridBlock::Occupied(a as usize));
            if exists|jj: int|
                0 <= jj < g1.tetris@[i].blocks@.len() && (#[trigger] g1.tetris@[i].blocks@[jj]).c.y
                    > y && offset_coord(g1.tetris@[i].blocks@[jj].c, 0, -1, 0) == e.c {
                let jj = choose|jj: int|
                    0 <= jj < g1.tetris@[i].blocks@.len() && (#[trigger] g1.tetris@[i].blocks@[jj]).c.y > y && offset_coord(g1.tetris@[i].blocks@[jj].c, 0, -1, 0)
                        == e.c;
                assert(piece_covers(g0.tetris@[a], e.c));
                assert(covered_by_other(g0, i, offset_coord(g0.tetris@[i].blocks@[jj].c, 0, -1, 0)));
                assert(false);
            }
            if piece_covers(g0.tetris@[i], e.c) {
                assert(g0.grid@[index_of(e.c)] == GridBlock::Occupied(i as usize));
                assert(false);
            }
            assert(g2.grid@[index_of(e.c)] == g0.grid@[index_of(e.c)]);
        }
    }
    assert(g2.marks_match());
    assert forall|k: int|
        0 <= k < GRID_LEN implies ((#[trigger] g2.grid@[k]) matches GridBlock::Occupied(t) ==> 0
        <= t < g2.tetris@.len() && piece_covers(g2.tetris@[t as int], coord_of(k))) by {
        lemma_coord_of(k);
        let c = coord_of(k);
        match g2.grid@[k] {
            GridBlock::Occupied(t) => {
                if exists|jj: int|
                    0 <= jj < g1.tetris@[i].blocks@.len() && (#[trigger] g1.tetris@[i].blocks@[jj]).c.y > y && offset_coord(g1.tetris@[i].blocks@[jj].c, 0, -1, 0)
                        == c {
                    let jj = choose|jj: int|
                        0 <= jj < g1.tetris@[i].blocks@.len() && (#[trigger] g1.tetris@[i].blocks@[jj]).c.y > y && offset_coord(g1.tetris@[i].blocks@[jj].c, 0, -1, 0)
                            == c;
                    assert(t == i);
                    assert(bs[jj].c.y > y);
                    assert(nb.contains(lowered(bs[jj])));
                    assert(piece_covers(g2.tetris@[i], c));
                } else if piece_covers(g0.tetris@[i], c) && c.y >= y {
                    assert(g2.grid@[k] == GridBlock::Vacant);
                    assert(false);
                } else {
                    assert(g2.grid@[k] == g0.grid@[k]);
                    assert(piece_covers(g0.tetris@[t as int], c));
                    if t == i {
                        let j0 = choose|j0: int| 0 <= j0 < bs.len() && bs[j0].c == c;
                        assert(c.y < y);
                        assert(nb.contains(bs[j0]));
                        assert(piece_covers(g2.tetris@[i], c));
                    } else {
                        assert(g2.tetris@[t as int] == g0.tetris@[t as int]);
                    }
                }
            },
            GridBlock::Vacant => {},
        }
    }
    assert(g2.marks_tight());
    assert forall|a: int, j1: int, j2: int|
        0 <= a < g2.tetris@.len() && 0 <= j1 < g2.tetris@[a].blocks@.len() && 0 <= j2
            < g2.tetris@[a].blocks@.len() && j1 != j2 implies (#[trigger] g2.tetris@[a].blocks@[j1]).c
        != (#[trigger] g2.tetris@[a].blocks@[j2]).c by {
        if a != i {
            assert(g2.tetris@[a] == g0.tetris@[a]);
        }
    }
    assert(g2.blocks_distinct());
}

/// Does one of the first `tmax` pieces of `g` both sit on plane `y` (so that
/// a clear of that plane revisits it) and have a block on cell `c`?
pub open spec fn covered_by_moved_below(g: Grid, y: int, tmax: int, c: GridCoord) -> bool {
    exists|s: int|
        0 <= s < tmax && piece_on_plane(g.tetris@[s], y) && piece_covers(g.tetris@[s], c)
}

/// Does one of the first `tmax` pieces, revisited by a clear of plane `y` of
/// `g0`, have a block on cell `c` in its rebuilt list (read from `g`)?
pub open spec fn reoccupied_below(g0: Grid, g: Grid, y: int, tmax: int, c: GridCoord) -> bool {
    exists|s: int|
        0 <= s < tmax && piece_on_plane(g0.tetris@[s], y) && piece_covers(g.tetris@[s], c)
}

/// A cell covered by a revisited piece's rebuilt list is either the landing
/// cell of one of its blocks from above the plane (on or above the plane), or
/// the unchanged cell of one of its blocks from below the plane.
proof fn lemma_rebuilt_cover(bs: Seq<Block>, y: int, c: GridCoord)
    requires
        0 <= y < 16,
        forall|j: int| 0 <= j < bs.len() ==> in_bounds((#[trigger] bs[j]).c),
        exists|k: int| 0 <= k < split_blocks(bs, y).len() && split_blocks(bs, y)[k].c == c,
    ensures
        (c.y >= y && exists|j: int|
            0 <= j < bs.len() && (#[trigger] bs[j]).c.y > y && offset_coord(bs[j].c, 0, -1, 0)
                == c) || (c.y < y && exists|j: int|
            0 <= j < bs.len() && (#[trigger] bs[j]).c == c && bs[j].c.y < y),
{
    lemma_split_blocks(bs, y);
    let k = choose|k: int| 0 <= k < split_blocks(bs, y).len() && split_blocks(bs, y)[k].c == c;
    let j = choose|j: int|
        0 <= j < bs.len() && ((bs[j].c.y > y && split_blocks(bs, y)[k] == lowered(bs[j])) || (
        bs[j].c.y < y && split_blocks(bs, y)[k] == bs[j]));
    if bs[j].c.y > y {
        assert(offset_coord(bs[j].c, 0, -1, 0) == c);
        assert(c.y >= y);
    } else {
        assert(bs[j].c == c);
    }
}

/// After a clear of plane `y` — every revisited piece's cells on or above the
/// plane vacated, then every revisited piece rebuilt with its lowered cells
/// marked — the grid is well-formed again.
#[verifier::rlimit(100)]
#[verifier::spinoff_prover]
proof fn lemma_clear_wf(g0: Grid, g2: Grid, y: int)
    requires
        g0.wf(),
        0 <= y < 16,
        clear_unobstructed(g0, y),
        g2.tetris@.len() == g0.tetris@.len(),
        g2.current == g0.current,
        g2.grid@.len() == GRID_LEN,
        forall|t: int|
            0 <= t < g0.tetris@.len() && !piece_on_plane(g0.tetris@[t], y)
                ==> #[trigger] g2.tetris@[t] == g0.tetris@[t],
        forall|t: int|
            0 <= t < g0.tetris@.len() && piece_on_plane(g0.tetris@[t], y)
                ==> (#[trigger] g2.tetris@[t]).blocks@ == split_blocks(g0.tetris@[t].blocks@, y),
        forall|s: int, b: int|
            0 <= s < g0.tetris@.len() && piece_on_plane(g0.tetris@[s], y) && 0 <= b
                < g2.tetris@[s].blocks@.len() && (#[trigger] g2.tetris@[s].blocks@[b]).c.y >= y
                ==> g2.grid@[index_of(g2.tetris@[s].blocks@[b].c)] == GridBlock::Occupied(
                s as usize,
            ),
        forall|c: GridCoord|
            in_bounds(c) && !(c.y >= y && reoccupied_below(g0, g2, y, g0.tetris@.len() as int, c))
                ==> #[trigger] g2.grid@[index_of(c)] == (if c.y >= y && covered_by_moved_below(
                g0,
                y,
                g0.tetris@.len() as int,
                c,
            ) {
                GridBlock::Vacant
            } else {
                g0.grid@[index_of(c)]
            }),
    ensures
        g2.wf(),
{
    let n = g0.tetris@.len() as int;
    assert(g0.tetris@.len() == g0.tetris.len());
    assert forall|a: int, b: int|
        0 <= a < g2.tetris@.len() && 0 <= b < g2.tetris@[a].blocks@.len() implies in_bounds(
        (#[trigger] g2.tetris@[a].blocks@[b]).c,
    ) && g2.grid@[index_of(g2.tetris@[a].blocks@[b].c)] == GridBlock::Occupied(a as usize) by {
        let bs = g0.tetris@[a].blocks@;
        assert forall|j: int| 0 <= j < bs.len() implies in_bounds((#[trigger] bs[j]).c) by {}
        let e = g2.tetris@[a].blocks@[b];
        if piece_on_plane(g0.tetris@[a], y) {
            lemma_split_blocks(bs, y);
            let j = choose|j: int|
                0 <= j < bs.len() && ((bs[j].c.y > y && e == lowered(bs[j])) || (bs[j].c.y < y && e
                    == bs[j]));
            assert(in_bounds(e.c));
            if e.c.y >= y {
                // the rebuilt prefix's marks cover it directly
            } else {
                // a kept block: its cell lies below the plane and keeps its mark
                assert(g2.grid@[index_of(e.c)] == g0.grid@[index_of(e.c)]);
                assert(piece_covers(g0.tetris@[a], e.c));
            }
        } else {
            assert(g2.tetris@[a] == g0.tetris@[a]);
            assert(in_bounds(e.c));
            assert(piece_covers(g0.tetris@[a], e.c));
            if e.c.y >= y && reoccupied_below(g0, g2, y, n, e.c) {
                // a lowered block would have landed on this unmoved block
                let s2 = choose|s2: int|
                    0 <= s2 < n && piece_on_plane(g0.tetris@[s2], y) && piece_covers(
                        g2.tetris@[s2],
                        e.c,
                    );
                assert forall|j: int|
                    0 <= j < g0.tetris@[s2].blocks@.len() implies in_bounds(
                    (#[trigger] g0.tetris@[s2].blocks@[j]).c,
                ) by {}
                lemma_rebuilt_cover(g0.tetris@[s2].blocks@, y, e.c);
                let j2 = choose|j2: int|
                    0 <= j2 < g0.tetris@[s2].blocks@.len() && (#[trigger] g0.tetris@[s2].blocks@[j2]).c.y
                        > y && offset_coord(g0.tetris@[s2].blocks@[j2].c, 0, -1, 0) == e.c;
                assert(covered_by_unmoved(g0, y, e.c));
                assert(false);
            }
            if e.c.y >= y && covered_by_moved_below(g0, y, n, e.c) {
                let s2 = choose|s2: int|
                    0 <= s2 < n && piece_on_plane(g0.tetris@[s2], y) && piece_covers(
                        g0.tetris@[s2],
                        e.c,
                    );
                assert(g0.grid@[index_of(e.c)] == GridBlock::Occupied(s2 as usize));
                assert(s2 == a);
                assert(false);
            }
            assert(g2.grid@[index_of(e.c)] == g0.grid@[index_of(e.c)]);
        }
    }
    assert(g2.marks_match());
    assert forall|k: int|
        0 <= k < GRID_LEN implies ((#[trigger] g2.grid@[k]) matches GridBlock::Occupied(t) ==> 0
        <= t < g2.tetris@.len() && piece_covers(g2.tetris@[t as int], coord_of(k))) by {
        lemma_coord_of(k);
        let c = coord_of(k);
        match g2.grid@[k] {
            GridBlock::Occupied(t) => {
                if c.y >= y && reoccupied_below(g0, g2, y, n, c) {
                    let s2 = choose|s2: int|
                        0 <= s2 < n && piece_on_plane(g0.tetris@[s2], y) && piece_covers(
                            g2.tetris@[s2],
                            c,
                        );
                    let b2 = choose|b2: int|
                        0 <= b2 < g2.tetris@[s2].blocks@.len() && g2.tetris@[s2].blocks@[b2].c == c;
                    assert(g2.grid@[index_of(c)] == GridBlock::Occupied(s2 as usize));
                    assert(t == s2);
                } else {
                    assert(g0.grid@[k] == GridBlock::Occupied(t));
                    assert(piece_covers(g0.tetris@[t as int], c));
                    if piece_on_plane(g0.tetris@[t as int], y) {
                        assert(c.y < y);
                        let j0 = choose|j0: int|
                            0 <= j0 < g0.tetris@[t as int].blocks@.len() && g0.tetris@[t as int].blocks@[j0].c
                                == c;
                        lemma_split_blocks(g0.tetris@[t as int].blocks@, y);
                        assert(g2.tetris@[t as int].blocks@.contains(g0.tetris@[t as int].blocks@[j0]));
                        assert(piece_covers(g2.tetris@[t as int], c));
                    } else {
                        assert(g2.tetris@[t as int] == g0.tetris@[t as int]);
                    }
                }
            },
            GridBlock::Vacant => {},
        }
    }
    assert(g2.marks_tight());
    assert forall|a: int, j1: int, j2: int|
        0 <= a < g2.tetris@.len() && 0 <= j1 < g2.tetris@[a].blocks@.len() && 0 <= j2
            < g2.tetris@[a].blocks@.len() && j1 != j2 implies (#[trigger] g2.tetris@[a].blocks@[j1]).c
        != (#[trigger] g2.tetris@[a].blocks@[j2]).c by {
        if piece_on_plane(g0.tetris@[a], y) {
            assert forall|j: int|
                0 <= j < g0.tetris@[a].blocks@.len() implies in_bounds(
                (#[trigger] g0.tetris@[a].blocks@[j]).c,
            ) by {}
            lemma_split_blocks_distinct(g0.tetris@[a].blocks@, y);
        } else {
            assert(g2.tetris@[a] == g0.tetris@[a]);
        }
    }
    assert(g2.blocks_distinct());
}

/// One step of the clear's second pass: rebuilding revisited piece `t` on an
/// intermediate state `g1` (already holding the rebuilt pieces below `t`)
/// extends the pass's bookkeeping from prefix `t` to prefix `t + 1`.
#[verifier::rlimit(100)]
#[verifier::spinoff_prover]
proof fn lemma_clear_step(g0: Grid, g1: Grid, g2: Grid, y: int, t: int)
    requires
        g0.wf(),
        0 <= y < 16,
        0 <= t < g0.tetris@.len(),
        piece_on_plane(g0.tetris@[t], y),
        g1.tetris@.len() == g0.tetris@.len(),
        forall|s: int|
            0 <= s < g0.tetris@.len() && (s >= t || !piece_on_plane(g0.tetris@[s], y))
                ==> #[trigger] g1.tetris@[s] == g0.tetris@[s],
        forall|s: int|
            0 <= s < t && piece_on_plane(g0.tetris@[s], y) ==> (#[trigger] g1.tetris@[s]).blocks@
                == split_blocks(g0.tetris@[s].blocks@, y) && g1.tetris@[s].falling == g0.tetris@[s].falling,
        g1.grid@.len() == GRID_LEN,
        forall|s: int, b: int|
            0 <= s < t && piece_on_plane(g0.tetris@[s], y) && 0 <= b < g1.tetris@[s].blocks@.len()
                && (#[trigger] g1.tetris@[s].blocks@[b]).c.y >= y ==> g1.grid@[index_of(
                g1.tetris@[s].blocks@[b].c,
            )] == GridBlock::Occupied(s as usize),
        forall|c: GridCoord|
            in_bounds(c) && !(c.y >= y && reoccupied_below(g0, g1, y, t, c))
                ==> #[trigger] g1.grid@[index_of(c)] == (if c.y >= y && covered_by_moved_below(
                g0,
                y,
                g0.tetris@.len() as int,
                c,
            ) {
                GridBlock::Vacant
            } else {
                g0.grid@[index_of(c)]
            }),
        g2.tetris@.len() == g1.tetris@.len(),
        forall|s: int|
            0 <= s < g1.tetris@.len() && s != t ==> #[trigger] g2.tetris@[s] == g1.tetris@[s],
        g2.tetris@[t].blocks@ == split_blocks(g1.tetris@[t].blocks@, y),
        g2.tetris@[t].falling == g1.tetris@[t].falling,
        g2.grid@.len() == GRID_LEN,
        forall|c: GridCoord|
            in_bounds(c) ==> #[trigger] g2.grid@[index_of(c)] == (if (exists|j: int|
                0 <= j < g1.tetris@[t].blocks@.len() && (#[trigger] g1.tetris@[t].blocks@[j]).c.y
                    > y && offset_coord(g1.tetris@[t].blocks@[j].c, 0, -1, 0) == c) {
                GridBlock::Occupied(t as usize)
            } else {
                g1.grid@[index_of(c)]
            }),
    ensures
        forall|s: int|
            0 <= s < g0.tetris@.len() && (s >= t + 1 || !piece_on_plane(g0.tetris@[s], y))
                ==> #[trigger] g2.tetris@[s] == g0.tetris@[s],
        forall|s: int|
            0 <= s < t + 1 && piece_on_plane(g0.tetris@[s], y) ==> (#[trigger] g2.tetris@[s]).blocks@
                == split_blocks(g0.tetris@[s].blocks@, y) && g2.tetris@[s].falling == g0.tetris@[s].falling,
        forall|s: int, b: int|
            0 <= s < t + 1 && piece_on_plane(g0.tetris@[s], y) && 0 <= b
                < g2.tetris@[s].blocks@.len() && (#[trigger] g2.tetris@[s].blocks@[b]).c.y >= y
                ==> g2.grid@[index_of(g2.tetris@[s].blocks@[b].c)] == GridBlock::Occupied(
                s as usize,
            ),
        forall|c: GridCoord|
            in_bounds(c) && !(c.y >= y && reoccupied_below(g0, g2, y, t + 1, c))
                ==> #[trigger] g2.grid@[index_of(c)] == (if c.y >= y && covered_by_moved_below(
                g0,
                y,
                g0.tetris@.len() as int,
                c,
            ) {
                GridBlock::Vacant
            } else {
                g0.grid@[index_of(c)]
            }),
{
    let bs = g0.tetris@[t].blocks@;
    assert(g1.tetris@[t] == g0.tetris@[t]);
    assert(g0.tetris@.len() == g0.tetris.len());
    assert forall|j: int| 0 <= j < bs.len() implies in_bounds((#[trigger] bs[j]).c) by {}
    lemma_split_blocks(bs, y);
    assert forall|s: int, b: int|
        0 <= s < t + 1 && piece_on_plane(g0.tetris@[s], y) && 0 <= b < g2.tetris@[s].blocks@.len()
            && (#[trigger] g2.tetris@[s].blocks@[b]).c.y >= y implies g2.grid@[index_of(
        g2.tetris@[s].blocks@[b].c,
    )] == GridBlock::Occupied(s as usize) by {
        let e = g2.tetris@[s].blocks@[b];
        if s == t {
            // a rebuilt block on or above the plane is a lowered block and
            // was just marked
            let j = choose|j: int|
                0 <= j < bs.len() && ((bs[j].c.y > y && e == lowered(bs[j])) || (bs[j].c.y < y && e
                    == bs[j]));
            assert(bs[j].c.y > y);
            assert(g1.tetris@[t].blocks@[j] == bs[j]);
            assert(offset_coord(g1.tetris@[t].blocks@[j].c, 0, -1, 0) == e.c);
            assert(in_bounds(e.c));
        } else {
            // piece t's lowered blocks land on no cell of an already rebuilt
            // piece: both would have had blocks on one cell before the clear
            assert(g2.tetris@[s] == g1.tetris@[s]);
            assert(g1.grid@[index_of(e.c)] == GridBlock::Occupied(s as usize));
            assert forall|j: int|
                0 <= j < g0.tetris@[s].blocks@.len() implies in_bounds(
                (#[trigger] g0.tetris@[s].blocks@[j]).c,
            ) by {}
            assert(g2.tetris@[s].blocks@[b].c == e.c);
            assert(in_bounds(e.c)) by {
                lemma_split_blocks(g0.tetris@[s].blocks@, y);
                let j = choose|j: int|
                    0 <= j < g0.tetris@[s].blocks@.len() && ((g0.tetris@[s].blocks@[j].c.y > y && e
                        == lowered(g0.tetris@[s].blocks@[j])) || (g0.tetris@[s].blocks@[j].c.y < y
                        && e == g0.tetris@[s].blocks@[j]));
            }
            if exists|j: int|
                0 <= j < g1.tetris@[t].blocks@.len() && (#[trigger] g1.tetris@[t].blocks@[j]).c.y
                    > y && offset_coord(g1.tetris@[t].blocks@[j].c, 0, -1, 0) == e.c {
                let j = choose|j: int|
                    0 <= j < g1.tetris@[t].blocks@.len() && (#[trigger] g1.tetris@[t].blocks@[j]).c.y
                        > y && offset_coord(g1.tetris@[t].blocks@[j].c, 0, -1, 0) == e.c;
                lemma_rebuilt_cover(g0.tetris@[s].blocks@, y, e.c);
                let b2 = choose|b2: int|
                    0 <= b2 < g0.tetris@[s].blocks@.len() && (#[trigger] g0.tetris@[s].blocks@[b2]).c.y
                        > y && offset_coord(g0.tetris@[s].blocks@[b2].c, 0, -1, 0) == e.c;
                assert(g0.tetris@[s].blocks@[b2].c == bs[j].c);
                assert(g0.grid@[index_of(bs[j].c)] == GridBlock::Occupied(s as usize));
                assert(g0.grid@[index_of(bs[j].c)] == GridBlock::Occupied(t as usize));
                assert(false);
            }
            assert(g2.grid@[index_of(e.c)] == g1.grid@[index_of(e.c)]);
        }
    }
    assert forall|c: GridCoord|
        in_bounds(c) && !(c.y >= y && reoccupied_below(g0, g2, y, t + 1, c)) implies #[trigger] g2.grid@[index_of(
        c,
    )] == (if c.y >= y && covered_by_moved_below(g0, y, g0.tetris@.len() as int, c) {
        GridBlock::Vacant
    } else {
        g0.grid@[index_of(c)]
    }) by {
        if exists|j: int|
            0 <= j < g1.tetris@[t].blocks@.len() && (#[trigger] g1.tetris@[t].blocks@[j]).c.y > y
                && offset_coord(g1.tetris@[t].blocks@[j].c, 0, -1, 0) == c {
            let j = choose|j: int|
                0 <= j < g1.tetris@[t].blocks@.len() && (#[trigger] g1.tetris@[t].blocks@[j]).c.y
                    > y && offset_coord(g1.tetris@[t].blocks@[j].c, 0, -1, 0) == c;
            assert(g2.tetris@[t].blocks@.contains(lowered(bs[j])));
            assert(piece_covers(g2.tetris@[t], c));
            assert(c.y >= y);
            assert(reoccupied_below(g0, g2, y, t + 1, c));
            assert(false);
        }
        assert(g2.grid@[index_of(c)] == g1.grid@[index_of(c)]);
        if c.y >= y && reoccupied_below(g0, g1, y, t, c) {
            let s = choose|s: int|
                0 <= s < t && piece_on_plane(g0.tetris@[s], y) && piece_covers(g1.tetris@[s], c);
            assert(g2.tetris@[s] == g1.tetris@[s]);
            assert(reoccupied_below(g0, g2, y, t + 1, c));
            assert(false);
        }
    }
}

/// `g2` is `g1` with piece `i` moved as a whole by the given offset and
/// nothing else changed about the pieces or the scalar state.
pub open spec fn piece_moved(g1: Grid, g2: Grid, i: int, dx: int, dy: int, dz: int) -> bool {
    &&& g2.tetris@.len() == g1.tetris@.len()
    &&& forall|s: int|
        0 <= s < g1.tetris@.len() && s != i ==> #[trigger] g2.tetris@[s] == g1.tetris@[s]
    &&& piece_shifted(g1.tetris@[i], g2.tetris@[i], dx, dy, dz)
    &&& g2.current == g1.current
    &&& g2.origin == g1.origin
    &&& g2.end == g1.end
}

/// A lateral move or a descent is atomic. [`Grid::lower_tetris`] and
/// [`Grid::move_xz`] ensure either `piece_moved` or an unchanged grid (for a
/// descent, `piece_halted`): when the piece moves, every one of its blocks
/// shifts by exactly the same offset with its color kept, and no other piece,
/// cell ownership aside, is touched; no partial move is reachable.
pub proof fn lemma_move_atomic(g1: Grid, g2: Grid, i: int, dx: int, dy: int, dz: int)
    requires
        0 <= i < g1.tetris@.len(),
        piece_moved(g1, g2, i, dx, dy, dz),
    ensures
        g2.tetris@[i].blocks@.len() == g1.tetris@[i].blocks@.len(),
        forall|j: int|
            0 <= j < g1.tetris@[i].blocks@.len() ==> (#[trigger] g2.tetris@[i].blocks@[j]).c
                == offset_coord(g1.tetris@[i].blocks@[j].c, dx, dy, dz)
                && g2.tetris@[i].blocks@[j].color == g1.tetris@[i].blocks@[j].color,
        forall|s: int|
            0 <= s < g1.tetris@.len() && s != i ==> #[trigger] g2.tetris@[s] == g1.tetris@[s],
{
}

/// `g2` is `g1` with piece `i` halted (its falling flag cleared) and nothing
/// else changed: no block and no cell moves.
pub open spec fn piece_halted(g1: Grid, g2: Grid, i: int) -> bool {
    &&& g2.tetris@.len() == g1.tetris@.len()
    &&& forall|s: int|
        0 <= s < g1.tetris@.len() && s != i ==> #[trigger] g2.tetris@[s] == g1.tetris@[s]
    &&& g2.tetris@[i].blocks@ == g1.tetris@[i].blocks@
    &&& !g2.tetris@[i].falling
    &&& g2.grid@ == g1.grid@
    &&& g2.current == g1.current
    &&& g2.origin == g1.origin
    &&& g2.end == g1.end
}

/// A block lowered by one cell, keeping its color.
pub open spec fn lowered(b: Block) -> Block {
    Block { c: offset_coord(b.c, 0, -1, 0), color: b.color }
}

/// What one block contributes to its piece after plane `y` is cleared: a
/// block above the plane drops by one cell, a block below it stays, a block
/// on the plane is deleted.
pub open spec fn block_contrib(b: Block, y: int) -> Seq<Block> {
    if b.c.y > y {
        seq![lowered(b)]
    } else if b.c.y < y {
        seq![b]
    } else {
        Seq::empty()
    }
}

/// A piece's block list after plane `y` is cleared: blocks above the plane
/// lowered by one, blocks below kept, blocks on the plane deleted, in the
/// original order.
pub open spec fn split_blocks(bs: Seq<Block>, y: int) -> Seq<Block>
    decreases bs.len(),
{
    if bs.len() == 0 {
        Seq::empty()
    } else {
        split_blocks(bs.drop_last(), y) + block_contrib(bs.last(), y)
    }
}

/// Clearing a plane keeps blocks below it unchanged, lowers blocks above it
/// by exactly one, deletes blocks on it, and produces nothing else.
pub proof fn lemma_split_blocks(bs: Seq<Block>, y: int)
    ensures
        split_blocks(bs, y).len() <= bs.len(),
        forall|k: int|
            0 <= k < split_blocks(bs, y).len() ==> (exists|j: int|
                0 <= j < bs.len() && ((bs[j].c.y > y && #[trigger] split_blocks(bs, y)[k]
                    == lowered(bs[j])) || (bs[j].c.y < y && split_blocks(bs, y)[k] == bs[j]))),
        forall|j: int|
            0 <= j < bs.len() && (#[trigger] bs[j]).c.y > y ==> split_blocks(bs, y).contains(
                lowered(bs[j]),
            ),
        forall|j: int|
            0 <= j < bs.len() && (#[trigger] bs[j]).c.y < y ==> split_blocks(bs, y).contains(
                bs[j],
            ),
    decreases bs.len(),
{
    if bs.len() > 0 {
        let pre = bs.drop_last();
        lemma_split_blocks(pre, y);
        assert(bs.last() == bs[bs.len() - 1]);
        assert forall|j: int| 0 <= j < bs.len() && (#[trigger] bs[j]).c.y > y implies split_blocks(
            bs,
            y,
        ).contains(lowered(bs[j])) by {
            if j < bs.len() - 1 {
                assert(pre[j] == bs[j]);
                let k = choose|k: int|
                    0 <= k < split_blocks(pre, y).len() && split_blocks(pre, y)[k] == lowered(
                        bs[j],
                    );
                assert(split_blocks(bs, y)[k] == lowered(bs[j]));
            } else {
                let k = split_blocks(pre, y).len() as int;
                assert(split_blocks(bs, y)[k] == lowered(bs[j]));
            }
        }
        assert forall|j: int| 0 <= j < bs.len() && (#[trigger] bs[j]).c.y < y implies split_blocks(
            bs,
            y,
        ).contains(bs[j]) by {
            if j < bs.len() - 1 {
                assert(pre[j] == bs[j]);
                let k = choose|k: int|
                    0 <= k < split_blocks(pre, y).len() && split_blocks(pre, y)[k] == bs[j];
                assert(split_blocks(bs, y)[k] == bs[j]);
            } else {
                let k = split_blocks(pre, y).len() as int;
                assert(split_blocks(bs, y)[k] == bs[j]);
            }
        }
        assert forall|k: int| 0 <= k < split_blocks(bs, y).len() implies (exists|j: int|
            0 <= j < bs.len() && ((bs[j].c.y > y && #[trigger] split_blocks(bs, y)[k] == lowered(
                bs[j],
            )) || (bs[j].c.y < y && split_blocks(bs, y)[k] == bs[j]))) by {
            if k < split_blocks(pre, y).len() {
                let j = choose|j: int|
                    0 <= j < pre.len() && ((pre[j].c.y > y && split_blocks(pre, y)[k] == lowered(
                        pre[j],
                    )) || (pre[j].c.y < y && split_blocks(pre, y)[k] == pre[j]));
                assert(bs[j] == pre[j]);
                assert(split_blocks(bs, y)[k] == split_blocks(pre, y)[k]);
            } else {
                let j = bs.len() - 1;
                assert(split_blocks(bs, y)[k] == block_contrib(bs.last(), y)[k - split_blocks(
                    pre,
                    y,
                ).len()]);
            }
        }
    }
}

/// A revisited piece keeps no block on the cleared plane itself, provided no
/// block sat directly above the plane: the plane's own blocks are deleted,
/// and only a block from the row just above could drop into the plane.
pub proof fn lemma_cleared_plane_empty(bs: Seq<Block>, y: int)
    requires
        0 <= y,
        forall|j: int| 0 <= j < bs.len() ==> in_bounds((#[trigger] bs[j]).c),
        forall|j: int| 0 <= j < bs.len() ==> (#[trigger] bs[j]).c.y != y + 1,
    ensures
        forall|k: int|
            0 <= k < split_blocks(bs, y).len() ==> (#[trigger] split_blocks(bs, y)[k]).c.y != y,
{
    lemma_split_blocks(bs, y);
    assert forall|k: int|
        0 <= k < split_blocks(bs, y).len() implies (#[trigger] split_blocks(bs, y)[k]).c.y != y by {
        let j = choose|j: int|
            0 <= j < bs.len() && ((bs[j].c.y > y && split_blocks(bs, y)[k] == lowered(bs[j])) || (
            bs[j].c.y < y && split_blocks(bs, y)[k] == bs[j]));
        if bs[j].c.y > y {
            assert(bs[j].c.y != y + 1);
            assert(split_blocks(bs, y)[k].c.y == bs[j].c.y - 1);
        }
    }
}

/// Does piece `t` have a block on plane `y`? Such pieces are the ones a
/// plane clear revisits.
pub open spec fn piece_on_plane(t: Tetris, y: int) -> bool {
    exists|j: int| 0 <= j < t.blocks@.len() && t.blocks@[j].c.y == y
}

/// Clearing plane `y` can keep the occupancy exact only if no block that a
/// revisited piece lowers lands on a block of a piece the clear does not
/// move (one that has no block on the plane). Inputs violating this would
/// put two blocks on one cell.
pub open spec fn clear_unobstructed(g: Grid, y: int) -> bool {
    forall|t: int, j: int|
        0 <= t < g.tetris@.len() && piece_on_plane(g.tetris@[t], y) && 0 <= j
            < g.tetris@[t].blocks@.len() && (#[trigger] g.tetris@[t].blocks@[j]).c.y > y
            ==> !covered_by_unmoved(g, y, offset_coord(g.tetris@[t].blocks@[j].c, 0, -1, 0))
}

/// Does a piece without a block on plane `y` have a block on cell `c`?
pub open spec fn covered_by_unmoved(g: Grid, y: int, c: GridCoord) -> bool {
    exists|s: int|
        0 <= s < g.tetris@.len() && !piece_on_plane(g.tetris@[s], y) && piece_covers(
            g.tetris@[s],
            c,
        )
}

/// Clearing a plane never leaves two blocks of one piece on the same cell.
pub proof fn lemma_split_blocks_distinct(bs: Seq<Block>, y: int)
    requires
        0 <= y,
        forall|j: int| 0 <= j < bs.len() ==> in_bounds((#[trigger] bs[j]).c),
        forall|j1: int, j2: int|
            0 <= j1 < bs.len() && 0 <= j2 < bs.len() && j1 != j2 ==> (#[trigger] bs[j1]).c
                != (#[trigger] bs[j2]).c,
    ensures
        forall|k1: int, k2: int|
            0 <= k1 < split_blocks(bs, y).len() && 0 <= k2 < split_blocks(bs, y).len() && k1 != k2
                ==> (#[trigger] split_blocks(bs, y)[k1]).c != (#[trigger] split_blocks(bs, y)[k2]).c,
    decreases bs.len(),
{
    if bs.len() > 0 {
        let pre = bs.drop_last();
        let last = bs.last();
        lemma_split_blocks_distinct(pre, y);
        lemma_split_blocks(pre, y);
        let sp = split_blocks(pre, y);
        let sb = split_blocks(bs, y);
        assert forall|k1: int, k2: int|
            0 <= k1 < sb.len() && 0 <= k2 < sb.len() && k1 != k2 implies (#[trigger] sb[k1]).c
            != (#[trigger] sb[k2]).c by {
            if k1 < sp.len() && k2 < sp.len() {
                assert(sb[k1] == sp[k1] && sb[k2] == sp[k2]);
            } else {
                // at most one element is appended, so one index lies in the prefix
                let (ka, kb) = if k1 < k2 {
                    (k1, k2)
                } else {
                    (k2, k1)
                };
                assert(ka < sp.len() && kb >= sp.len());
                assert(sb[ka] == sp[ka]);
                let e = sb[kb];
                assert(block_contrib(last, y).len() == 1 && e == block_contrib(last, y)[0]);
                let j = choose|j: int|
                    0 <= j < pre.len() && ((pre[j].c.y > y && sp[ka] == lowered(pre[j])) || (
                    pre[j].c.y < y && sp[ka] == pre[j]));
                assert(pre[j] == bs[j] && j < bs.len() - 1);
                assert(bs[j].c != last.c);
                if sp[ka].c == e.c {
                    if last.c.y > y {
                        assert(e == lowered(last));
                        if pre[j].c.y > y {
                            assert(pre[j].c == last.c);
                        } else {
                            assert(sp[ka].c.y < y && e.c.y >= y);
                        }
                    } else {
                        assert(e == last);
                        if pre[j].c.y > y {
                            assert(sp[ka].c.y >= y && e.c.y < y);
                        } else {
                            assert(pre[j].c == last.c);
                        }
                    }
                    assert(false);
                }
            }
        }
    }
}

/// Is every cell of horizontal plane `y` occupied?
pub open spec fn plane_full(g: Grid, y: int) -> bool {
    forall|k: int| 64 * y <= k < 64 * (y + 1) ==> #[trigger] g.grid@[k] != GridBlock::Vacant
}

/// May piece `i` descend one more cell after already having descended `m`
/// cells from its position in `g`: every block must still be above the floor
/// and no other piece may have a block directly below it.
pub open spec fn can_fall(g: Grid, i: int, m: int) -> bool {
    forall|j: int|
        0 <= j < g.tetris@[i].blocks@.len() ==> ((#[trigger] g.tetris@[i].blocks@[j]).c.y - m >= 1
            && !covered_by_other(g, i, offset_coord(g.tetris@[i].blocks@[j].c, 0, -(m + 1), 0)))
}

/// `g2` is `g1` with piece `i` hard-dropped by exactly `d` cells: every block
/// descended `d` cells with its color kept, each of the `d` one-cell descents
/// was possible, and no further descent is.
pub open spec fn dropped_by(g1: Grid, g2: Grid, i: int, d: int) -> bool {
    &&& 0 <= d
    &&& g2.tetris@[i].blocks@.len() == g1.tetris@[i].blocks@.len()
    &&& forall|j: int|
        0 <= j < g1.tetris@[i].blocks@.len() ==> #[trigger] g2.tetris@[i].blocks@[j] == (Block {
            c: offset_coord(g1.tetris@[i].blocks@[j].c, 0, -d, 0),
            color: g1.tetris@[i].blocks@[j].color,
        })
    &&& forall|m: int| 0 <= m < d ==> can_fall(g1, i, m)
    &&& !can_fall(g1, i, d)
}

/// Whether some piece other than `i` covers a cell depends only on the other
/// pieces' block lists.
proof fn lemma_covered_other_eq(g1: Grid, g2: Grid, i: int, c: GridCoord)
    requires
        g1.tetris@.len() == g2.tetris@.len(),
        forall|s: int|
            0 <= s < g1.tetris@.len() && s != i ==> #[trigger] g2.tetris@[s] == g1.tetris@[s],
    ensures
        covered_by_other(g1, i, c) == covered_by_other(g2, i, c),
{
    if covered_by_other(g1, i, c) {
        let s = choose|s: int|
            0 <= s < g1.tetris@.len() && s != i && piece_covers(g1.tetris@[s], c);
        assert(piece_covers(g2.tetris@[s], c));
    }
    if covered_by_other(g2, i, c) {
        let s = choose|s: int|
            0 <= s < g2.tetris@.len() && s != i && piece_covers(g2.tetris@[s], c);
        assert(piece_covers(g1.tetris@[s], c));
    }
}

/// After piece `i` has descended `k` cells from `g0` to `cur` with the other
/// pieces untouched, one more one-cell descent is possible in `cur` exactly
/// when `can_fall(g0, i, k)` says so.
proof fn lemma_can_fall_step(g0: Grid, cur: Grid, i: int, k: int)
    requires
        g0.wf(),
        cur.wf(),
        0 <= i < g0.tetris@.len(),
        0 <= k <= 16,
        cur.tetris@.len() == g0.tetris@.len(),
        forall|s: int|
            0 <= s < g0.tetris@.len() && s != i ==> #[trigger] cur.tetris@[s] == g0.tetris@[s],
        cur.tetris@[i].blocks@.len() == g0.tetris@[i].blocks@.len(),
        forall|j: int|
            0 <= j < g0.tetris@[i].blocks@.len() ==> #[trigger] cur.tetris@[i].blocks@[j] == (Block {
                c: offset_coord(g0.tetris@[i].blocks@[j].c, 0, -k, 0),
                color: g0.tetris@[i].blocks@[j].color,
            }),
    ensures
        can_shift_spec(cur, i, 0, -1, 0) == can_fall(g0, i, k),
{
    assert forall|j: int|
        #![trigger g0.tetris@[i].blocks@[j]]
        0 <= j < g0.tetris@[i].blocks@.len() implies {
        let b0 = g0.tetris@[i].blocks@[j].c;
        let bc = cur.tetris@[i].blocks@[j].c;
        in_bounds(b0) && in_bounds(bc) && bc == offset_coord(b0, 0, -k, 0) && offset_coord(
            bc,
            0,
            -1,
            0,
        ) == offset_coord(b0, 0, -(k + 1), 0)
    } by {
        assert(g0.tetris@[i].blocks@[j] == g0.tetris@[i].blocks@[j]);
        assert(in_bounds(g0.tetris@[i].blocks@[j].c));
        assert(in_bounds(cur.tetris@[i].blocks@[j].c));
    }
    if can_shift_spec(cur, i, 0, -1, 0) {
        assert forall|j: int| 0 <= j < g0.tetris@[i].blocks@.len() implies ((
        #[trigger] g0.tetris@[i].blocks@[j]).c.y - k >= 1 && !covered_by_other(
            g0,
            i,
            offset_coord(g0.tetris@[i].blocks@[j].c, 0, -(k + 1), 0),
        )) by {
            assert(in_bounds(offset_coord(cur.tetris@[i].blocks@[j].c, 0, -1, 0)));
            lemma_covered_other_eq(
                g0,
                cur,
                i,
                offset_coord(g0.tetris@[i].blocks@[j].c, 0, -(k + 1), 0),
            );
        }
    }
    if can_fall(g0, i, k) {
        assert forall|j: int| 0 <= j < cur.tetris@[i].blocks@.len() implies {
            let c2 = offset_coord((#[trigger] cur.tetris@[i].blocks@[j]).c, 0, -1, 0);
            in_bounds(c2) && !covered_by_other(cur, i, c2)
        } by {
            assert(g0.tetris@[i].blocks@[j].c.y - k >= 1);
            lemma_covered_other_eq(
                g0,
                cur,
                i,
                offset_coord(g0.tetris@[i].blocks@[j].c, 0, -(k + 1), 0),
            );
        }
    }
}

/// On an X/Z move request, the offset that belongs to each direction code:
/// `0` is left, `1` right, `2` forward, `3` back. Codes outside `0..4` are
/// ignored by [`Grid::move_xz`] before this table is consulted.
pub open spec fn move_delta(d: int) -> (int, int) {
    if d == 0 {
        (-1, 0)
    } else if d == 1 {
        (1, 0)
    } else if d == 2 {
        (0, 1)
    } else {
        (0, -1)
    }
}

impl Grid {
    /// Ends the game: recolors every block of every piece to the terminal
    /// color and raises the game-over flag. The occupancy pattern is kept.
    pub fn end_game(&mut self)
        requires
            old(self).wf(),
        ensures
            final(self).wf(),
            final(self).end,
            final(self).grid@ == old(self).grid@,
            final(self).current == old(self).current,
            final(self).origin == old(self).origin,
            recolored(*old(self), *final(self)),
    {
        let ghost g0 = *self;
        let mut t: usize = 0;
        while t < self.tetris.len()
            invariant
                g0 == *old(self),
                t <= self.tetris@.len(),
                self.grid@ == g0.grid@,
                self.current == g0.current,
                self.origin == g0.origin,
                self.end == g0.end,
                self.tetris@.len() == g0.tetris@.len(),
                forall|i: int|
                    0 <= i < g0.tetris@.len() ==> (#[trigger] self.tetris@[i]).falling
                        == g0.tetris@[i].falling && self.tetris@[i].blocks@.len()
                        == g0.tetris@[i].blocks@.len(),
                forall|i: int, j: int|
                    0 <= i < g0.tetris@.len() && 0 <= j < g0.tetris@[i].blocks@.len()
                        ==> (#[trigger] self.tetris@[i].blocks@[j]).c == g0.tetris@[i].blocks@[j].c,
                forall|i: int, j: int|
                    0 <= i < t && 0 <= j < g0.tetris@[i].blocks@.len()
                        ==> (#[trigger] self.tetris@[i].blocks@[j]).color == TetrisColor::Mix,
                forall|i: int, j: int|
                    t <= i < g0.tetris@.len() && 0 <= j < g0.tetris@[i].blocks@.len()
                        ==> (#[trigger] self.tetris@[i].blocks@[j]).color
                        == g0.tetris@[i].blocks@[j].color,
            decreases self.tetris@.len() - t,
        {
            let mut j: usize = 0;
            while j < self.tetris[t].blocks.len()
                invariant
                    g0 == *old(self),
                    t < self.tetris@.len(),
                    j <= self.tetris@[t as int].blocks@.len(),
                    self.grid@ == g0.grid@,
                    self.current == g0.current,
                    self.origin == g0.origin,
                    self.end == g0.end,
                    self.tetris@.len() == g0.tetris@.len(),
                    forall|i: int|
                        0 <= i < g0.tetris@.len() ==> (#[trigger] self.tetris@[i]).falling
                            == g0.tetris@[i].falling && self.tetris@[i].blocks@.len()
                            == g0.tetris@[i].blocks@.len(),
                    forall|i: int, jj: int|
                        0 <= i < g0.tetris@.len() && 0 <= jj < g0.tetris@[i].blocks@.len()
                            ==> (#[trigger] self.tetris@[i].blocks@[jj]).c
                            == g0.tetris@[i].blocks@[jj].c,
                    forall|i: int, jj: int|
                        0 <= i < t && 0 <= jj < g0.tetris@[i].blocks@.len()
                            ==> (#[trigger] self.tetris@[i].blocks@[jj]).color == TetrisColor::Mix,
                    forall|jj: int|
                        0 <= jj < j ==> (#[trigger] self.tetris@[t as int].blocks@[jj]).color
                            == TetrisColor::Mix,
                    forall|i: int, jj: int|
                        t <= i < g0.tetris@.len() && 0 <= jj < g0.tetris@[i].blocks@.len() && (i != t
                            || jj >= j) ==> (#[trigger] self.tetris@[i].blocks@[jj]).color
                            == g0.tetris@[i].blocks@[jj].color,
                decreases self.tetris@[t as int].blocks@.len() - j,
            {
                self.tetris[t].blocks[j].color = TetrisColor::Mix;
                j += 1;
            }
            t += 1;
        }
        self.end = true;
        proof {
            lemma_wf_same_cells(g0, *self);
        }
    }

    /// Tries to place `t` as a new piece. If no existing piece claims any of
    /// its cells, the piece is appended, its cells are marked, and it becomes
    /// the controlled piece; otherwise nothing is placed and the game ends.
    pub fn place_tetris(&mut self, t: Tetris)
        requires
            old(self).wf(),
            placeable(t.blocks@),
        ensures
            final(self).wf(),
            can_place(*old(self), t.blocks@) ==> spawned(
                *old(self),
                *final(self),
                t.blocks@,
                t.falling,
            ),
            !can_place(*old(self), t.blocks@) ==> {
                &&& final(self).end
                &&& final(self).grid@ == old(self).grid@
                &&& final(self).current == old(self).current
                &&& final(self).origin == old(self).origin
                &&& recolored(*old(self), *final(self))
            },
    {
        let ghost g0 = *self;
        let i = self.tetris.len();
        let mut j: usize = 0;
        while j < t.blocks.len()
            invariant
                g0 == *old(self),
                *self == g0,
                g0.wf(),
                i == g0.tetris@.len(),
                j <= t.blocks@.len(),
                placeable(t.blocks@),
                forall|jj: int|
                    0 <= jj < j ==> g0.grid@[index_of((#[trigger] t.blocks@[jj]).c)]
                        == GridBlock::Vacant,
            decreases t.blocks@.len() - j,
        {
            let c = t.blocks[j].c;
            let k = xyz_to_index(c.x, c.y, c.z);
            let gb = self.grid[k];
            if !gb.is_vacant() && gb != GridBlock::Occupied(i) {
                proof {
                    // the blocking mark names a real piece, so placement is impossible
                    assert(0 <= k < GRID_LEN);
                    match g0.grid@[k as int] {
                        GridBlock::Occupied(s) => {
                            lemma_coord_of(k as int);
                            lemma_index_of_injective(coord_of(k as int), c);
                            assert(covered_by_any(g0, t.blocks@[j as int].c));
                            assert(!can_place(g0, t.blocks@));
                        },
                        GridBlock::Vacant => {},
                    }
                }
                self.end_game();
                return;
            }
            proof {
                // a mark naming the not-yet-added piece `i` cannot exist
                match g0.grid@[k as int] {
                    GridBlock::Occupied(s) => {
                        assert(s < g0.tetris@.len());
                        assert(g0.tetris@.len() == g0.tetris.len());
                        assert(false);
                    },
                    GridBlock::Vacant => {},
                }
            }
            j += 1;
        }
        proof {
            // every target cell is vacant, hence unclaimed by any piece
            assert forall|jj: int| 0 <= jj < t.blocks@.len() implies !covered_by_any(
                g0,
                (#[trigger] t.blocks@[jj]).c,
            ) by {
                lemma_occupancy_consistent(g0, t.blocks@[jj].c);
            }
            assert(can_place(g0, t.blocks@));
        }
        let mut j: usize = 0;
        while j < t.blocks.len()
            invariant
                g0 == *old(self),
                g0.wf(),
                i == g0.tetris@.len(),
                j <= t.blocks@.len(),
                placeable(t.blocks@),
                can_place(g0, t.blocks@),
                self.tetris@ == g0.tetris@,
                self.current == g0.current,
                self.origin == g0.origin,
                self.end == g0.end,
                self.grid@.len() == GRID_LEN,
                forall|jj: int|
                    0 <= jj < t.blocks@.len() ==> g0.grid@[index_of((#[trigger] t.blocks@[jj]).c)]
                        == GridBlock::Vacant,
                forall|c2: GridCoord|
                    in_bounds(c2) ==> #[trigger] self.grid@[index_of(c2)] == (if (exists|jj: int|
                        0 <= jj < j && (#[trigger] t.blocks@[jj]).c == c2) {
                        GridBlock::Occupied(i)
                    } else {
                        g0.grid@[index_of(c2)]
                    }),
            decreases t.blocks@.len() - j,
        {
            let c = t.blocks[j].c;
            let k = xyz_to_index(c.x, c.y, c.z);
            self.grid[k] = GridBlock::Occupied(i);
            proof {
                assert forall|c2: GridCoord| in_bounds(c2) implies #[trigger] self.grid@[index_of(
                    c2,
                )] == (if (exists|jj: int|
                    0 <= jj < j + 1 && (#[trigger] t.blocks@[jj]).c == c2) {
                    GridBlock::Occupied(i)
                } else {
                    g0.grid@[index_of(c2)]
                }) by {
                    if index_of(c2) == index_of(c) {
                        lemma_index_of_injective(c2, c);
                    }
                }
            }
            j += 1;
        }
        self.tetris.push(t);
        self.current = i;
        proof {
            let g2 = *self;
            assert forall|a: int, b: int|
                0 <= a < g2.tetris@.len() && 0 <= b < g2.tetris@[a].blocks@.len() implies in_bounds(
                (#[trigger] g2.tetris@[a].blocks@[b]).c,
            ) && g2.grid@[index_of(g2.tetris@[a].blocks@[b].c)] == GridBlock::Occupied(
                a as usize,
            ) by {
                if a < i {
                    assert(g2.tetris@[a] == g0.tetris@[a]);
                    let c2 = g0.tetris@[a].blocks@[b].c;
                    assert(g0.grid@[index_of(c2)] == GridBlock::Occupied(a as usize));
                    if exists|jj: int| 0 <= jj < t.blocks@.len() && (#[trigger] t.blocks@[jj]).c
                        == c2 {
                        assert(g0.grid@[index_of(c2)] == GridBlock::Vacant);
                        assert(false);
                    }
                } else {
                    assert(g2.tetris@[a].blocks@[b] == t.blocks@[b]);
                }
            }
            assert(g2.marks_match());
            assert forall|k: int|
                0 <= k < GRID_LEN implies ((#[trigger] g2.grid@[k]) matches GridBlock::Occupied(s)
                ==> 0 <= s < g2.tetris@.len() && piece_covers(g2.tetris@[s as int], coord_of(
                k,
            ))) by {
                lemma_coord_of(k);
                let c2 = coord_of(k);
                match g2.grid@[k] {
                    GridBlock::Occupied(s) => {
                        if exists|jj: int| 0 <= jj < t.blocks@.len() && (#[trigger] t.blocks@[jj]).c
                            == c2 {
                            let jj = choose|jj: int|
                                0 <= jj < t.blocks@.len() && (#[trigger] t.blocks@[jj]).c == c2;
                            assert(g2.tetris@[i as int].blocks@[jj].c == c2);
                            assert(piece_covers(g2.tetris@[i as int], c2));
                            assert(s == i);
                        } else {
                            assert(g2.grid@[k] == g0.grid@[k]);
                            let gs = g0.tetris@[s as int];
                            let jj = choose|jj: int|
                                0 <= jj < gs.blocks@.len() && gs.blocks@[jj].c == c2;
                            assert(g2.tetris@[s as int].blocks@[jj].c == c2);
                        }
                    },
                    GridBlock::Vacant => {},
                }
            }
            assert(g2.marks_tight());
            assert(g2.blocks_distinct());
        }
    }

    /// Spawns a randomly chosen template as a new piece; if its spawn cells
    /// are taken, the spawn fails and the game ends instead.
    pub fn add_tetris(&mut self)
        requires
            old(self).wf(),
        ensures
            final(self).wf(),
            exists|s: int| 0 <= s < 6 && #[trigger] add_outcome(*old(self), *final(self), s),
    {
        let ghost g0 = *self;
        let t = Tetris::gen_random_tetris();
        proof {
            let s = choose|s: int| 0 <= s < 6 && t.blocks@ == spec_template(s);
            lemma_template_placeable(s);
        }
        self.place_tetris(t);
        proof {
            let s = choose|s: int| 0 <= s < 6 && t.blocks@ == spec_template(s);
            assert(add_outcome(g0, *self, s));
        }
    }

    /// Checks whether piece `i` can move as a whole by the given offset:
    /// every destination cell must be inside the grid and vacant or occupied
    /// by piece `i` itself.
    fn can_shift(&self, i: usize, dx: i32, dy: i32, dz: i32) -> (r: bool)
        requires
            self.wf(),
            i < self.tetris@.len(),
            -1 <= dx <= 1,
            -1 <= dy <= 1,
            -1 <= dz <= 1,
        ensures
            r == can_shift_spec(*self, i as int, dx as int, dy as int, dz as int),
    {
        let mut j: usize = 0;
        while j < self.tetris[i].blocks.len()
            invariant
                self.wf(),
                i < self.tetris@.len(),
                -1 <= dx <= 1,
                -1 <= dy <= 1,
                -1 <= dz <= 1,
                j <= self.tetris@[i as int].blocks@.len(),
                forall|jj: int|
                    0 <= jj < j ==> {
                        let c2 = offset_coord(
                            (#[trigger] self.tetris@[i as int].blocks@[jj]).c,
                            dx as int,
                            dy as int,
                            dz as int,
                        );
                        in_bounds(c2) && !covered_by_other(*self, i as int, c2)
                    },
            decreases self.tetris@[i as int].blocks@.len() - j,
        {
            let b = self.tetris[i].blocks[j];
            let nx = b.c.x + dx;
            let ny = b.c.y + dy;
            let nz = b.c.z + dz;
            if nx < 0 || nx >= GRID_X_MAX || ny < 0 || ny >= GRID_Y_MAX || nz < 0 || nz
                >= GRID_Z_MAX {
                return false;
            }
            let k = xyz_to_index(nx, ny, nz);
            let gb = self.grid[k];
            proof {
                lemma_free_for(
                    *self,
                    i as int,
                    offset_coord(
                        self.tetris@[i as int].blocks@[j as int].c,
                        dx as int,
                        dy as int,
                        dz as int,
                    ),
                );
            }
            if !gb.is_vacant() && gb != GridBlock::Occupied(i) {
                return false;
            }
            j += 1;
        }
        true
    }

    /// Moves piece `i` as a whole by the given offset, vacating all of its
    /// old cells before marking all of its new cells.
    fn shift_piece(&mut self, i: usize, dx: i32, dy: i32, dz: i32)
        requires
            old(self).wf(),
            i < old(self).tetris@.len(),
            -1 <= dx <= 1,
            -1 <= dy <= 1,
            -1 <= dz <= 1,
            can_shift_spec(*old(self), i as int, dx as int, dy as int, dz as int),
        ensures
            final(self).wf(),
            final(self).tetris@.len() == old(self).tetris@.len(),
            piece_shifted(
                old(self).tetris@[i as int],
                final(self).tetris@[i as int],
                dx as int,
                dy as int,
                dz as int,
            ),
            forall|s: int|
                0 <= s < old(self).tetris@.len() && s != i ==> #[trigger] final(self).tetris@[s]
                    == old(self).tetris@[s],
            final(self).current == old(self).current,
            final(self).origin == old(self).origin,
            final(self).end == old(self).end,
    {
        let ghost g0 = *old(self);
        // Compute the translated block list.
        let mut nb: Vec<Block> = Vec::new();
        let mut j: usize = 0;
        while j < self.tetris[i].blocks.len()
            invariant
                g0 == *old(self),
                *self == g0,
                g0.wf(),
                i < g0.tetris@.len(),
                -1 <= dx <= 1,
                -1 <= dy <= 1,
                -1 <= dz <= 1,
                can_shift_spec(g0, i as int, dx as int, dy as int, dz as int),
                j <= g0.tetris@[i as int].blocks@.len(),
                nb@.len() == j,
                forall|jj: int|
                    0 <= jj < j ==> #[trigger] nb@[jj] == (Block {
                        c: offset_coord(
                            g0.tetris@[i as int].blocks@[jj].c,
                            dx as int,
                            dy as int,
                            dz as int,
                        ),
                        color: g0.tetris@[i as int].blocks@[jj].color,
                    }),
            decreases g0.tetris@[i as int].blocks@.len() - j,
        {
            let b = self.tetris[i].blocks[j];
            nb.push(Block { c: GridCoord { x: b.c.x + dx, y: b.c.y + dy, z: b.c.z + dz }, color: b.color });
            j += 1;
        }
        // Vacate every old cell of the piece.
        let mut j: usize = 0;
        while j < self.tetris[i].blocks.len()
            invariant
                g0 == *old(self),
                g0.wf(),
                i < g0.tetris@.len(),
                j <= g0.tetris@[i as int].blocks@.len(),
                self.tetris@ == g0.tetris@,
                self.current == g0.current,
                self.origin == g0.origin,
                self.end == g0.end,
                self.grid@.len() == GRID_LEN,
                forall|c2: GridCoord|
                    in_bounds(c2) ==> #[trigger] self.grid@[index_of(c2)] == (if (exists|jj: int|
                        0 <= jj < j && (#[trigger] g0.tetris@[i as int].blocks@[jj]).c == c2) {
                        GridBlock::Vacant
                    } else {
                        g0.grid@[index_of(c2)]
                    }),
            decreases g0.tetris@[i as int].blocks@.len() - j,
        {
            let c = self.tetris[i].blocks[j].c;
            let k = xyz_to_index(c.x, c.y, c.z);
            self.grid[k] = GridBlock::Vacant;
            proof {
                assert forall|c2: GridCoord| in_bounds(c2) implies #[trigger] self.grid@[index_of(
                    c2,
                )] == (if (exists|jj: int|
                    0 <= jj < j + 1 && (#[trigger] g0.tetris@[i as int].blocks@[jj]).c == c2) {
                    GridBlock::Vacant
                } else {
                    g0.grid@[index_of(c2)]
                }) by {
                    if index_of(c2) == index_of(c) {
                        lemma_index_of_injective(c2, c);
                    }
                }
            }
            j += 1;
        }
        // Mark every destination cell.
        let mut j: usize = 0;
        while j < nb.len()
            invariant
                g0 == *old(self),
                g0.wf(),
                i < g0.tetris@.len(),
                -1 <= dx <= 1,
                -1 <= dy <= 1,
                -1 <= dz <= 1,
                can_shift_spec(g0, i as int, dx as int, dy as int, dz as int),
                j <= nb@.len(),
                nb@.len() == g0.tetris@[i as int].blocks@.len(),
                forall|jj: int|
                    0 <= jj < nb@.len() ==> #[trigger] nb@[jj] == (Block {
                        c: offset_coord(
                            g0.tetris@[i as int].blocks@[jj].c,
                            dx as int,
                            dy as int,
                            dz as int,
                        ),
                        color: g0.tetris@[i as int].blocks@[jj].color,
                    }),
                self.tetris@ == g0.tetris@,
                self.current == g0.current,
                self.origin == g0.origin,
                self.end == g0.end,
                self.grid@.len() == GRID_LEN,
                forall|c2: GridCoord|
                    in_bounds(c2) ==> #[trigger] self.grid@[index_of(c2)] == (if (exists|jj: int|
                        0 <= jj < j && (#[trigger] nb@[jj]).c == c2) {
                        GridBlock::Occupied(i)
                    } else if (exists|jj: int|
                        0 <= jj < g0.tetris@[i as int].blocks@.len()
                            && (#[trigger] g0.tetris@[i as int].blocks@[jj]).c == c2) {
                        GridBlock::Vacant
                    } else {
                        g0.grid@[index_of(c2)]
                    }),
            decreases nb@.len() - j,
        {
            let c = nb[j].c;
            proof {
                assert(nb@[j as int] == (Block {
                    c: offset_coord(
                        g0.tetris@[i as int].blocks@[j as int].c,
                        dx as int,
                        dy as int,
                        dz as int,
                    ),
                    color: g0.tetris@[i as int].blocks@[j as int].color,
                }));
                assert(in_bounds(c));
            }
            let k = xyz_to_index(c.x, c.y, c.z);
            self.grid[k] = GridBlock::Occupied(i);
            proof {
                assert forall|c2: GridCoord| in_bounds(c2) implies #[trigger] self.grid@[index_of(
                    c2,
                )] == (if (exists|jj: int| 0 <= jj < j + 1 && (#[trigger] nb@[jj]).c == c2) {
                    GridBlock::Occupied(i)
                } else if (exists|jj: int|
                    0 <= jj < g0.tetris@[i as int].blocks@.len()
                        && (#[trigger] g0.tetris@[i as int].blocks@[jj]).c == c2) {
                    GridBlock::Vacant
                } else {
                    g0.grid@[index_of(c2)]
                }) by {
                    if index_of(c2) == index_of(c) {
                        lemma_index_of_injective(c2, c);
                    }
                }
            }
            j += 1;
        }
        // Swap in the translated block list.
        self.tetris[i].blocks = nb;
        proof {
            lemma_shift_piece_wf(g0, *self, i as int, dx as int, dy as int, dz as int);
        }
    }

    /// Computes the flattened occupancy-array index of a cell coordinate.
    pub fn coord_to_index(c: GridCoord) -> (i: usize)
        requires
            in_bounds(c),
        ensures
            i == index_of(c),
            i < GRID_LEN,
    {
        xyz_to_index(c.x, c.y, c.z)
    }

    /// Recovers the cell coordinate of a flattened occupancy-array index.
    pub fn index_to_coord(i: usize) -> (c: GridCoord)
        requires
            i < GRID_LEN,
        ensures
            in_bounds(c),
            index_of(c) == i,
    {
        let (x, y, z) = index_to_xyz(i);
        GridCoord::new(x, y, z)
    }

    /// The 64 cells of horizontal plane `y`, lowest plane first.
    pub fn get_plane(&self, y: i32) -> (r: &[GridBlock])
        requires
            self.grid@.len() == GRID_LEN,
            0 <= y < GRID_Y_MAX,
        ensures
            r@ == self.grid@.subrange(64 * y, 64 * (y + 1)),
    {
        proof {
            // spell the constants out so the solver can bound the products
            assert(PLANE_LEN == 64);
            assert(GRID_Y_MAX == 16);
        }
        let start = (y as usize) * PLANE_LEN;
        let end = start + PLANE_LEN;
        vstd::slice::slice_subrange(self.grid.as_slice(), start, end)
    }

    /// The indices of all full planes, in ascending order: plane `y` is
    /// listed exactly when none of its 64 cells is vacant.
    pub fn check_planes(&self) -> (r: Vec<i32>)
        requires
            self.grid@.len() == GRID_LEN,
        ensures
            forall|a: int|
                0 <= a < r@.len() ==> 0 <= #[trigger] r@[a] < GRID_Y_MAX && plane_full(
                    *self,
                    r@[a] as int,
                ),
            forall|y: int|
                0 <= y < GRID_Y_MAX && plane_full(*self, y) ==> (exists|a: int|
                    0 <= a < r@.len() && r@[a] == y),
            forall|a: int, b: int| 0 <= a < b < r@.len() ==> r@[a] < r@[b],
    {
        let mut planes: Vec<i32> = Vec::new();
        let mut y: i32 = 0;
        while y < GRID_Y_MAX
            invariant
                0 <= y <= GRID_Y_MAX,
                self.grid@.len() == GRID_LEN,
                forall|a: int|
                    0 <= a < planes@.len() ==> 0 <= #[trigger] planes@[a] < y && plane_full(
                        *self,
                        planes@[a] as int,
                    ),
                forall|yy: int|
                    0 <= yy < y && plane_full(*self, yy) ==> (exists|a: int|
                        0 <= a < planes@.len() && planes@[a] == yy),
                forall|a: int, b: int| 0 <= a < b < planes@.len() ==> planes@[a] < planes@[b],
            decreases GRID_Y_MAX - y,
        {
            let mut vacant = false;
            let plane = self.get_plane(y);
            let mut j: usize = 0;
            while j < plane.len()
                invariant
                    0 <= y < GRID_Y_MAX,
                    self.grid@.len() == GRID_LEN,
                    plane@ == self.grid@.subrange(64 * y, 64 * (y + 1)),
                    j <= plane@.len(),
                    vacant == (exists|k: int| 0 <= k < j && #[trigger] plane@[k] == GridBlock::Vacant),
                decreases plane@.len() - j,
            {
                if plane[j] == GridBlock::Vacant {
                    vacant = true;
                }
                j += 1;
            }
            proof {
                assert forall|k: int| 64 * y <= k < 64 * (y + 1) implies #[trigger] self.grid@[k]
                    == plane@[k - 64 * y] by {}
                if vacant {
                    let k = choose|k: int| 0 <= k < plane@.len() && plane@[k] == GridBlock::Vacant;
                    assert(self.grid@[64 * y + k] == GridBlock::Vacant);
                    assert(!plane_full(*self, y as int));
                } else {
                    assert(plane_full(*self, y as int));
                }
            }
            if !vacant {
                let ghost p0 = planes@;
                planes.push(y);
                proof {
                    assert forall|yy: int|
                        0 <= yy <= y && plane_full(*self, yy) implies (exists|a: int|
                        0 <= a < planes@.len() && planes@[a] == yy) by {
                        if yy == y {
                            assert(planes@[p0.len() as int] == y);
                        } else {
                            let a = choose|a: int| 0 <= a < p0.len() && p0[a] == yy;
                            assert(planes@[a] == yy);
                        }
                    }
                }
            }
            y += 1;
        }
        planes
    }

    /// Checks whether piece `i` has a block on plane `y`.
    fn has_block_on_plane(&self, i: usize, y: i32) -> (r: bool)
        requires
            i < self.tetris@.len(),
        ensures
            r == piece_on_plane(self.tetris@[i as int], y as int),
    {
        let mut j: usize = 0;
        while j < self.tetris[i].blocks.len()
            invariant
                i < self.tetris@.len(),
                j <= self.tetris@[i as int].blocks@.len(),
                forall|jj: int|
                    0 <= jj < j ==> (#[trigger] self.tetris@[i as int].blocks@[jj]).c.y != y,
            decreases self.tetris@[i as int].blocks@.len() - j,
        {
            if self.tetris[i].blocks[j].c.y == y {
                return true;
            }
            j += 1;
        }
        false
    }

    /// Checks whether plane `y` can be cleared with the occupancy kept
    /// exact: no lowered block of a revisited piece may land on a block of a
    /// piece that stays put.
    pub fn can_clear_plane(&self, y: i32) -> (r: bool)
        requires
            self.wf(),
            0 <= y < GRID_Y_MAX,
        ensures
            r == clear_unobstructed(*self, y as int),
    {
        let mut t: usize = 0;
        while t < self.tetris.len()
            invariant
                self.wf(),
                0 <= y < GRID_Y_MAX,
                t <= self.tetris@.len(),
                forall|tt: int, j: int|
                    0 <= tt < t && piece_on_plane(self.tetris@[tt], y as int) && 0 <= j
                        < self.tetris@[tt].blocks@.len()
                        && (#[trigger] self.tetris@[tt].blocks@[j]).c.y > y
                        ==> !covered_by_unmoved(
                        *self,
                        y as int,
                        offset_coord(self.tetris@[tt].blocks@[j].c, 0, -1, 0),
                    ),
            decreases self.tetris@.len() - t,
        {
            if self.has_block_on_plane(t, y) {
                let mut j: usize = 0;
                while j < self.tetris[t].blocks.len()
                    invariant
                        self.wf(),
                        0 <= y < GRID_Y_MAX,
                        t < self.tetris@.len(),
                        piece_on_plane(self.tetris@[t as int], y as int),
                        j <= self.tetris@[t as int].blocks@.len(),
                        forall|jj: int|
                            0 <= jj < j && (#[trigger] self.tetris@[t as int].blocks@[jj]).c.y > y
                                ==> !covered_by_unmoved(
                                *self,
                                y as int,
                                offset_coord(self.tetris@[t as int].blocks@[jj].c, 0, -1, 0),
                            ),
                    decreases self.tetris@[t as int].blocks@.len() - j,
                {
                    let b = self.tetris[t].blocks[j];
                    if b.c.y > y {
                        let dest = GridCoord { x: b.c.x, y: b.c.y - 1, z: b.c.z };
                        let k = xyz_to_index(dest.x, dest.y, dest.z);
                        match self.grid[k] {
                            GridBlock::Occupied(s) => {
                                proof {
                                    assert(0 <= k < GRID_LEN);
                                    lemma_coord_of(k as int);
                                    lemma_index_of_injective(coord_of(k as int), dest);
                                }
                                proof {
                                    assert(self.grid@[k as int] == GridBlock::Occupied(s));
                                    assert(0 <= (s as int) && (s as int) < self.tetris@.len());
                                }
                                if !self.has_block_on_plane(s, y) {
                                    proof {
                                        assert(piece_covers(self.tetris@[s as int], dest));
                                        assert(covered_by_unmoved(*self, y as int, dest));
                                        assert(piece_on_plane(self.tetris@[t as int], y as int));
                                        assert(!clear_unobstructed(*self, y as int));
                                    }
                                    return false;
                                }
                                proof {
                                    assert(self.tetris@.len() == self.tetris.len());
                                    if covered_by_unmoved(*self, y as int, dest) {
                                        let s2 = choose|s2: int|
                                            0 <= s2 < self.tetris@.len() && !piece_on_plane(
                                                self.tetris@[s2],
                                                y as int,
                                            ) && piece_covers(self.tetris@[s2], dest);
                                        let j2 = choose|j2: int|
                                            0 <= j2 < self.tetris@[s2].blocks@.len()
                                                && self.tetris@[s2].blocks@[j2].c == dest;
                                        assert(self.grid@[index_of(dest)] == GridBlock::Occupied(
                                            s2 as usize,
                                        ));
                                        assert(false);
                                    }
                                }
                            },
                            GridBlock::Vacant => {
                                proof {
                                    assert(self.tetris@.len() == self.tetris.len());
                                    if covered_by_unmoved(*self, y as int, dest) {
                                        let s2 = choose|s2: int|
                                            0 <= s2 < self.tetris@.len() && !piece_on_plane(
                                                self.tetris@[s2],
                                                y as int,
                                            ) && piece_covers(self.tetris@[s2], dest);
                                        let j2 = choose|j2: int|
                                            0 <= j2 < self.tetris@[s2].blocks@.len()
                                                && self.tetris@[s2].blocks@[j2].c == dest;
                                        assert(self.grid@[index_of(dest)] == GridBlock::Occupied(
                                            s2 as usize,
                                        ));
                                        assert(false);
                                    }
                                }
                            },
                        }
                    }
                    j += 1;
                }
            } else {
                proof {
                    assert(!piece_on_plane(self.tetris@[t as int], y as int));
                }
            }
            t += 1;
        }
        proof {
            assert forall|tt: int, j: int|
                0 <= tt < self.tetris@.len() && piece_on_plane(self.tetris@[tt], y as int) && 0 <= j
                    < self.tetris@[tt].blocks@.len()
                    && (#[trigger] self.tetris@[tt].blocks@[j]).c.y > y implies !covered_by_unmoved(
                *self,
                y as int,
                offset_coord(self.tetris@[tt].blocks@[j].c, 0, -1, 0),
            ) by {}
        }
        true
    }

    /// Vacates the cells of every block of piece `i` that lies on or above
    /// plane `y`; the block lists are untouched.
    fn vacate_plane_piece(&mut self, i: usize, y: i32)
        requires
            old(self).grid@.len() == GRID_LEN,
            i < old(self).tetris@.len(),
            forall|j: int|
                0 <= j < old(self).tetris@[i as int].blocks@.len() ==> in_bounds(
                    (#[trigger] old(self).tetris@[i as int].blocks@[j]).c,
                ),
        ensures
            final(self).tetris@ == old(self).tetris@,
            final(self).current == old(self).current,
            final(self).origin == old(self).origin,
            final(self).end == old(self).end,
            final(self).grid@.len() == GRID_LEN,
            forall|c: GridCoord|
                in_bounds(c) ==> #[trigger] final(self).grid@[index_of(c)] == (if piece_covers(
                    old(self).tetris@[i as int],
                    c,
                ) && c.y >= y {
                    GridBlock::Vacant
                } else {
                    old(self).grid@[index_of(c)]
                }),
    {
        let ghost g0 = *old(self);
        let mut j: usize = 0;
        while j < self.tetris[i].blocks.len()
            invariant
                g0 == *old(self),
                i < g0.tetris@.len(),
                j <= g0.tetris@[i as int].blocks@.len(),
                forall|jj: int|
                    0 <= jj < g0.tetris@[i as int].blocks@.len() ==> in_bounds(
                        (#[trigger] g0.tetris@[i as int].blocks@[jj]).c,
                    ),
                self.tetris@ == g0.tetris@,
                self.current == g0.current,
                self.origin == g0.origin,
                self.end == g0.end,
                self.grid@.len() == GRID_LEN,
                forall|c: GridCoord|
                    in_bounds(c) ==> #[trigger] self.grid@[index_of(c)] == (if (exists|jj: int|
                        0 <= jj < j && (#[trigger] g0.tetris@[i as int].blocks@[jj]).c == c
                            && c.y >= y) {
                        GridBlock::Vacant
                    } else {
                        g0.grid@[index_of(c)]
                    }),
            decreases g0.tetris@[i as int].blocks@.len() - j,
        {
            let b = self.tetris[i].blocks[j];
            if b.c.y >= y {
                let k = xyz_to_index(b.c.x, b.c.y, b.c.z);
                self.grid[k] = GridBlock::Vacant;
            }
            proof {
                assert forall|c: GridCoord| in_bounds(c) implies #[trigger] self.grid@[index_of(c)]
                    == (if (exists|jj: int|
                    0 <= jj < j + 1 && (#[trigger] g0.tetris@[i as int].blocks@[jj]).c == c && c.y
                        >= y) {
                    GridBlock::Vacant
                } else {
                    g0.grid@[index_of(c)]
                }) by {
                    if index_of(c) == index_of(b.c) {
                        lemma_index_of_injective(c, b.c);
                    }
                }
            }
            j += 1;
        }
    }

    /// Rebuilds piece `i` for a clear of plane `y`: blocks above the plane
    /// drop by one cell and their new cells are marked, blocks below stay,
    /// blocks on the plane are deleted.
    fn relower_piece(&mut self, i: usize, y: i32)
        requires
            old(self).grid@.len() == GRID_LEN,
            i < old(self).tetris@.len(),
            0 <= y,
            forall|j: int|
                0 <= j < old(self).tetris@[i as int].blocks@.len() ==> in_bounds(
                    (#[trigger] old(self).tetris@[i as int].blocks@[j]).c,
                ),
        ensures
            final(self).tetris@.len() == old(self).tetris@.len(),
            forall|s: int|
                0 <= s < old(self).tetris@.len() && s != i ==> #[trigger] final(self).tetris@[s]
                    == old(self).tetris@[s],
            final(self).tetris@[i as int].blocks@ == split_blocks(
                old(self).tetris@[i as int].blocks@,
                y as int,
            ),
            final(self).tetris@[i as int].falling == old(self).tetris@[i as int].falling,
            final(self).current == old(self).current,
            final(self).origin == old(self).origin,
            final(self).end == old(self).end,
            final(self).grid@.len() == GRID_LEN,
            forall|c: GridCoord|
                in_bounds(c) ==> #[trigger] final(self).grid@[index_of(c)] == (if (exists|j: int|
                    0 <= j < old(self).tetris@[i as int].blocks@.len()
                        && (#[trigger] old(self).tetris@[i as int].blocks@[j]).c.y > y
                        && offset_coord(old(self).tetris@[i as int].blocks@[j].c, 0, -1, 0) == c) {
                    GridBlock::Occupied(i)
                } else {
                    old(self).grid@[index_of(c)]
                }),
    {
        let ghost g0 = *old(self);
        let ghost bs = g0.tetris@[i as int].blocks@;
        let mut nb: Vec<Block> = Vec::new();
        let mut j: usize = 0;
        while j < self.tetris[i].blocks.len()
            invariant
                g0 == *old(self),
                bs == g0.tetris@[i as int].blocks@,
                i < g0.tetris@.len(),
                0 <= y,
                j <= bs.len(),
                forall|jj: int| 0 <= jj < bs.len() ==> in_bounds((#[trigger] bs[jj]).c),
                self.tetris@ == g0.tetris@,
                self.current == g0.current,
                self.origin == g0.origin,
                self.end == g0.end,
                self.grid@.len() == GRID_LEN,
                nb@ == split_blocks(bs.take(j as int), y as int),
                forall|c: GridCoord|
                    in_bounds(c) ==> #[trigger] self.grid@[index_of(c)] == (if (exists|jj: int|
                        0 <= jj < j && (#[trigger] bs[jj]).c.y > y && offset_coord(
                            bs[jj].c,
                            0,
                            -1,
                            0,
                        ) == c) {
                        GridBlock::Occupied(i)
                    } else {
                        g0.grid@[index_of(c)]
                    }),
            decreases bs.len() - j,
        {
            let b = self.tetris[i].blocks[j];
            proof {
                assert(bs.take(j as int + 1).drop_last() =~= bs.take(j as int));
                assert(bs.take(j as int + 1).last() == bs[j as int]);
            }
            if b.c.y > y {
                let b2 = Block { c: GridCoord { x: b.c.x, y: b.c.y - 1, z: b.c.z }, color: b.color };
                nb.push(b2);
                let k = xyz_to_index(b2.c.x, b2.c.y, b2.c.z);
                self.grid[k] = GridBlock::Occupied(i);
                proof {
                    assert(b2 == lowered(bs[j as int]));
                    assert forall|c: GridCoord| in_bounds(c) implies #[trigger] self.grid@[index_of(
                        c,
                    )] == (if (exists|jj: int|
                        0 <= jj < j + 1 && (#[trigger] bs[jj]).c.y > y && offset_coord(
                            bs[jj].c,
                            0,
                            -1,
                            0,
                        ) == c) {
                        GridBlock::Occupied(i)
                    } else {
                        g0.grid@[index_of(c)]
                    }) by {
                        if index_of(c) == index_of(b2.c) {
                            lemma_index_of_injective(c, b2.c);
                        }
                    }
                }
            } else if b.c.y < y {
                nb.push(b);
            }
            j += 1;
        }
        proof {
            assert(bs.take(bs.len() as int) =~= bs);
        }
        self.tetris[i].blocks = nb;
    }

    /// Revisits piece `i` for a clear of plane `y`: blocks above the plane
    /// drop by one cell, blocks below stay, blocks on the plane are deleted,
    /// with the occupancy array updated to match. Returns the piece's new
    /// block list.
    pub fn split_piece(&mut self, i: usize, y: i32) -> (r: Vec<Block>)
        requires
            old(self).wf(),
            i < old(self).tetris@.len(),
            0 <= y < GRID_Y_MAX,
            forall|j: int|
                0 <= j < old(self).tetris@[i as int].blocks@.len()
                    && (#[trigger] old(self).tetris@[i as int].blocks@[j]).c.y > y
                    ==> !covered_by_other(
                    *old(self),
                    i as int,
                    offset_coord(old(self).tetris@[i as int].blocks@[j].c, 0, -1, 0),
                ),
        ensures
            final(self).wf(),
            final(self).tetris@.len() == old(self).tetris@.len(),
            forall|s: int|
                0 <= s < old(self).tetris@.len() && s != i ==> #[trigger] final(self).tetris@[s]
                    == old(self).tetris@[s],
            final(self).tetris@[i as int].blocks@ == split_blocks(
                old(self).tetris@[i as int].blocks@,
                y as int,
            ),
            final(self).tetris@[i as int].falling == old(self).tetris@[i as int].falling,
            final(self).current == old(self).current,
            final(self).origin == old(self).origin,
            final(self).end == old(self).end,
            r@ == final(self).tetris@[i as int].blocks@,
    {
        let ghost g0 = *old(self);
        self.vacate_plane_piece(i, y);
        let ghost g1 = *self;
        self.relower_piece(i, y);
        proof {
            lemma_split_wf(g0, g1, *self, i as int, y as int);
        }
        let mut r: Vec<Block> = Vec::new();
        let mut j: usize = 0;
        while j < self.tetris[i].blocks.len()
            invariant
                i < self.tetris@.len(),
                j <= self.tetris@[i as int].blocks@.len(),
                r@ == self.tetris@[i as int].blocks@.take(j as int),
            decreases self.tetris@[i as int].blocks@.len() - j,
        {
            let b = self.tetris[i].blocks[j];
            r.push(b);
            proof {
                assert(r@ =~= self.tetris@[i as int].blocks@.take(j as int + 1));
            }
            j += 1;
        }
        proof {
            assert(self.tetris@[i as int].blocks@.take(self.tetris@[i as int].blocks@.len() as int)
                =~= self.tetris@[i as int].blocks@);
        }
        r
    }

    /// Clears plane `y`: every piece with a block on that plane is revisited
    /// exactly once — its blocks above the plane drop by one cell (gravity
    /// fill-in), its blocks below the plane stay, and its blocks on the plane
    /// are deleted. Pieces without a block on the plane do not move. The
    /// occupancy array is updated to match throughout, which is possible only
    /// on grids where no lowered block lands on an unmoved piece's block
    /// (`clear_unobstructed`, checkable with [`Grid::can_clear_plane`]).
    pub fn clear_plane(&mut self, y: i32)
        requires
            old(self).wf(),
            0 <= y < GRID_Y_MAX,
            clear_unobstructed(*old(self), y as int),
        ensures
            final(self).wf(),
            final(self).tetris@.len() == old(self).tetris@.len(),
            final(self).current == old(self).current,
            final(self).origin == old(self).origin,
            final(self).end == old(self).end,
            forall|t: int|
                0 <= t < old(self).tetris@.len() && piece_on_plane(
                    old(self).tetris@[t],
                    y as int,
                ) ==> (#[trigger] final(self).tetris@[t]).blocks@ == split_blocks(
                    old(self).tetris@[t].blocks@,
                    y as int,
                ) && final(self).tetris@[t].falling == old(self).tetris@[t].falling,
            forall|t: int|
                0 <= t < old(self).tetris@.len() && !piece_on_plane(old(self).tetris@[t], y as int)
                    ==> #[trigger] final(self).tetris@[t] == old(self).tetris@[t],
    {
        let ghost g0 = *old(self);
        let n = self.tetris.len();
        // First pass: vacate every revisited piece's cells on or above the plane.
        let mut t: usize = 0;
        while t < n
            invariant
                g0 == *old(self),
                g0.wf(),
                0 <= y < GRID_Y_MAX,
                n == g0.tetris@.len(),
                t <= n,
                self.tetris@ == g0.tetris@,
                self.current == g0.current,
                self.origin == g0.origin,
                self.end == g0.end,
                self.grid@.len() == GRID_LEN,
                forall|c: GridCoord|
                    in_bounds(c) ==> #[trigger] self.grid@[index_of(c)] == (if c.y >= y
                        && covered_by_moved_below(g0, y as int, t as int, c) {
                        GridBlock::Vacant
                    } else {
                        g0.grid@[index_of(c)]
                    }),
            decreases n - t,
        {
            if self.has_block_on_plane(t, y) {
                let ghost gpre = *self;
                self.vacate_plane_piece(t, y);
                proof {
                    assert forall|c: GridCoord| in_bounds(c) implies #[trigger] self.grid@[index_of(
                        c,
                    )] == (if c.y >= y && covered_by_moved_below(g0, y as int, t as int + 1, c) {
                        GridBlock::Vacant
                    } else {
                        g0.grid@[index_of(c)]
                    }) by {
                        if piece_covers(gpre.tetris@[t as int], c) && c.y >= y {
                            assert(covered_by_moved_below(g0, y as int, t as int + 1, c));
                        } else {
                            if c.y >= y && covered_by_moved_below(g0, y as int, t as int + 1, c) {
                                let s = choose|s: int|
                                    0 <= s < t + 1 && piece_on_plane(g0.tetris@[s], y as int)
                                        && piece_covers(g0.tetris@[s], c);
                                assert(s < t);
                                assert(covered_by_moved_below(g0, y as int, t as int, c));
                            }
                        }
                    }
                }
            } else {
                proof {
                    assert forall|c: GridCoord| in_bounds(c) implies #[trigger] self.grid@[index_of(
                        c,
                    )] == (if c.y >= y && covered_by_moved_below(g0, y as int, t as int + 1, c) {
                        GridBlock::Vacant
                    } else {
                        g0.grid@[index_of(c)]
                    }) by {
                        if c.y >= y && covered_by_moved_below(g0, y as int, t as int + 1, c) {
                            let s = choose|s: int|
                                0 <= s < t + 1 && piece_on_plane(g0.tetris@[s], y as int)
                                    && piece_covers(g0.tetris@[s], c);
                            assert(s < t);
                            assert(covered_by_moved_below(g0, y as int, t as int, c));
                        }
                    }
                }
            }
            t += 1;
        }
        // Second pass: rebuild every revisited piece and mark its lowered cells.
        let mut t: usize = 0;
        while t < n
            invariant
                g0 == *old(self),
                g0.wf(),
                0 <= y < GRID_Y_MAX,
                clear_unobstructed(g0, y as int),
                n == g0.tetris@.len(),
                t <= n,
                self.tetris@.len() == g0.tetris@.len(),
                self.current == g0.current,
                self.origin == g0.origin,
                self.end == g0.end,
                self.grid@.len() == GRID_LEN,
                forall|s: int|
                    0 <= s < n && (s >= t || !piece_on_plane(g0.tetris@[s], y as int))
                        ==> #[trigger] self.tetris@[s] == g0.tetris@[s],
                forall|s: int|
                    0 <= s < t && piece_on_plane(g0.tetris@[s], y as int)
                        ==> (#[trigger] self.tetris@[s]).blocks@ == split_blocks(
                        g0.tetris@[s].blocks@,
                        y as int,
                    ) && self.tetris@[s].falling == g0.tetris@[s].falling,
                forall|s: int, b: int|
                    0 <= s < t && piece_on_plane(g0.tetris@[s], y as int) && 0 <= b
                        < self.tetris@[s].blocks@.len() && (#[trigger] self.tetris@[s].blocks@[b]).c.y
                        >= y ==> self.grid@[index_of(self.tetris@[s].blocks@[b].c)]
                        == GridBlock::Occupied(s as usize),
                forall|c: GridCoord|
                    in_bounds(c) && !(c.y >= y && reoccupied_below(g0, *self, y as int, t as int, c))
                        ==> #[trigger] self.grid@[index_of(c)] == (if c.y >= y
                        && covered_by_moved_below(g0, y as int, n as int, c) {
                        GridBlock::Vacant
                    } else {
                        g0.grid@[index_of(c)]
                    }),
            decreases n - t,
        {
            if self.has_block_on_plane(t, y) {
                let ghost gpre = *self;
                self.relower_piece(t, y);
                proof {
                    lemma_clear_step(g0, gpre, *self, y as int, t as int);
                }
            } else {
                proof {
                    assert forall|c: GridCoord|
                        in_bounds(c) && !(c.y >= y && reoccupied_below(
                            g0,
                            *self,
                            y as int,
                            t as int + 1,
                            c,
                        )) implies #[trigger] self.grid@[index_of(c)] == (if c.y >= y
                        && covered_by_moved_below(g0, y as int, n as int, c) {
                        GridBlock::Vacant
                    } else {
                        g0.grid@[index_of(c)]
                    }) by {
                        if c.y >= y && reoccupied_below(g0, *self, y as int, t as int, c) {
                            let s = choose|s: int|
                                0 <= s < t && piece_on_plane(g0.tetris@[s], y as int)
                                    && piece_covers(self.tetris@[s], c);
                            assert(reoccupied_below(g0, *self, y as int, t as int + 1, c));
                        }
                    }
                }
            }
            t += 1;
        }
        proof {
            lemma_clear_wf(g0, *self, y as int);
        }
    }

    /// Lowers piece `i` by one cell. If any cell directly below a block is
    /// the floor or a block of another piece, the whole piece halts instead
    /// and nothing moves: the descent is all-or-nothing.
    pub fn lower_tetris(&mut self, i: usize)
        requires
            old(self).wf(),
            i < old(self).tetris@.len(),
        ensures
            final(self).wf(),
            can_shift_spec(*old(self), i as int, 0, -1, 0) ==> piece_moved(
                *old(self),
                *final(self),
                i as int,
                0,
                -1,
                0,
            ),
            !can_shift_spec(*old(self), i as int, 0, -1, 0) ==> piece_halted(
                *old(self),
                *final(self),
                i as int,
            ),
    {
        let ghost g0 = *self;
        if self.can_shift(i, 0, -1, 0) {
            self.shift_piece(i, 0, -1, 0);
        } else {
            self.tetris[i].falling = false;
            proof {
                assert(self.tetris@ == g0.tetris@.update(
                    i as int,
                    Tetris { blocks: g0.tetris@[i as int].blocks, falling: false },
                ));
                lemma_wf_same_cells(g0, *self);
            }
        }
    }

    /// The piece whose block occupies the cell `(x, y, z)`, or `None` for a
    /// vacant cell.
    pub fn tetris_at_xyz(&self, x: i32, y: i32, z: i32) -> (r: Option<&Tetris>)
        requires
            self.wf(),
            in_bounds(GridCoord { x, y, z }),
        ensures
            (self.grid@[index_of(GridCoord { x, y, z })] matches GridBlock::Occupied(s) ==> r
                matches Some(t) && *t == self.tetris@[s as int]),
            (self.grid@[index_of(GridCoord { x, y, z })] == GridBlock::Vacant ==> r is None),
    {
        let k = xyz_to_index(x, y, z);
        match self.grid[k] {
            GridBlock::Occupied(s) => {
                proof {
                    assert(self.grid@[k as int] matches GridBlock::Occupied(s2) ==> 0 <= s2
                        < self.tetris@.len());
                    assert(self.tetris@.len() == self.tetris.len());
                }
                Some(&self.tetris[s])
            },
            GridBlock::Vacant => None,
        }
    }

    /// The piece whose block occupies the cell `c`, or `None` for a vacant
    /// cell.
    pub fn tetris_at_coord(&self, c: GridCoord) -> (r: Option<&Tetris>)
        requires
            self.wf(),
            in_bounds(c),
        ensures
            (self.grid@[index_of(c)] matches GridBlock::Occupied(s) ==> r matches Some(t) && *t
                == self.tetris@[s as int]),
            (self.grid@[index_of(c)] == GridBlock::Vacant ==> r is None),
    {
        let (x, y, z) = (c.x, c.y, c.z);
        self.tetris_at_xyz(x, y, z)
    }

    /// Hard drop: descends piece `i` one cell at a time, as a whole, until a
    /// block would hit the floor or another piece, then halts it. A piece
    /// that is not falling (or has no blocks) only has its flag cleared.
    pub fn drop_tetris(&mut self, i: usize)
        requires
            old(self).wf(),
            i < old(self).tetris@.len(),
        ensures
            final(self).wf(),
            final(self).tetris@.len() == old(self).tetris@.len(),
            forall|s: int|
                0 <= s < old(self).tetris@.len() && s != i ==> #[trigger] final(self).tetris@[s]
                    == old(self).tetris@[s],
            !final(self).tetris@[i as int].falling,
            final(self).tetris@[i as int].blocks@.len() == old(self).tetris@[i as int].blocks@.len(),
            final(self).current == old(self).current,
            final(self).origin == old(self).origin,
            final(self).end == old(self).end,
            old(self).tetris@[i as int].falling && old(self).tetris@[i as int].blocks@.len() > 0
                ==> exists|d: int| #[trigger] dropped_by(*old(self), *final(self), i as int, d),
            !(old(self).tetris@[i as int].falling && old(self).tetris@[i as int].blocks@.len() > 0)
                ==> final(self).tetris@[i as int].blocks@ == old(self).tetris@[i as int].blocks@
                && final(self).grid@ == old(self).grid@,
    {
        let ghost g0 = *self;
        if self.tetris[i].blocks.len() == 0 || !self.tetris[i].falling {
            self.tetris[i].falling = false;
            proof {
                assert(self.tetris@ == g0.tetris@.update(
                    i as int,
                    Tetris { blocks: g0.tetris@[i as int].blocks, falling: false },
                ));
                lemma_wf_same_cells(g0, *self);
            }
            return;
        }
        let ghost mut k: int = 0;
        while self.can_shift(i, 0, -1, 0)
            invariant
                g0 == *old(self),
                g0.wf(),
                i < g0.tetris@.len(),
                g0.tetris@[i as int].blocks@.len() > 0,
                g0.tetris@[i as int].falling,
                self.wf(),
                0 <= k <= 16,
                self.tetris@.len() == g0.tetris@.len(),
                forall|s: int|
                    0 <= s < g0.tetris@.len() && s != i ==> #[trigger] self.tetris@[s]
                        == g0.tetris@[s],
                self.tetris@[i as int].blocks@.len() == g0.tetris@[i as int].blocks@.len(),
                forall|j: int|
                    0 <= j < g0.tetris@[i as int].blocks@.len() ==> #[trigger] self.tetris@[i as int].blocks@[j] == (Block {
                        c: offset_coord(g0.tetris@[i as int].blocks@[j].c, 0, -k, 0),
                        color: g0.tetris@[i as int].blocks@[j].color,
                    }),
                self.tetris@[i as int].falling == g0.tetris@[i as int].falling,
                self.current == g0.current,
                self.origin == g0.origin,
                self.end == g0.end,
                forall|m: int| 0 <= m < k ==> can_fall(g0, i as int, m),
            decreases self.tetris@[i as int].blocks@[0].c.y,
        {
            proof {
                lemma_can_fall_step(g0, *self, i as int, k);
                assert(g0.tetris@[i as int].blocks@[0].c.y - k >= 1);
                assert(in_bounds(g0.tetris@[i as int].blocks@[0].c));
            }
            let ghost gpre = *self;
            self.shift_piece(i, 0, -1, 0);
            proof {
                k = k + 1;
                assert forall|j: int|
                    0 <= j < g0.tetris@[i as int].blocks@.len() implies #[trigger] self.tetris@[i as int].blocks@[j] == (Block {
                    c: offset_coord(g0.tetris@[i as int].blocks@[j].c, 0, -k, 0),
                    color: g0.tetris@[i as int].blocks@[j].color,
                }) by {
                    assert(in_bounds(gpre.tetris@[i as int].blocks@[j].c));
                    assert(self.tetris@[i as int].blocks@[j] == (Block {
                        c: offset_coord(gpre.tetris@[i as int].blocks@[j].c, 0, -1, 0),
                        color: gpre.tetris@[i as int].blocks@[j].color,
                    }));
                }
            }
        }
        proof {
            lemma_can_fall_step(g0, *self, i as int, k);
        }
        let ghost gpre = *self;
        self.tetris[i].falling = false;
        proof {
            assert(self.tetris@ == gpre.tetris@.update(
                i as int,
                Tetris { blocks: gpre.tetris@[i as int].blocks, falling: false },
            ));
            lemma_wf_same_cells(gpre, *self);
            assert(dropped_by(g0, *self, i as int, k));
        }
    }

    /// Moves piece `i` one cell across the X/Z plane in the direction given
    /// by `d` (`0` left, `1` right, `2` forward, `3` back). The move happens
    /// only while the piece is falling, and only if every destination cell is
    /// inside the grid and not taken by another piece; otherwise nothing
    /// changes: the move is all-or-nothing.
    pub fn move_xz(&mut self, i: usize, d: usize)
        requires
            old(self).wf(),
            i < old(self).tetris@.len(),
        ensures
            final(self).wf(),
            ({
                let dd = move_delta(d as int);
                if old(self).tetris@[i as int].falling && d < 4 && can_shift_spec(
                    *old(self),
                    i as int,
                    dd.0,
                    0,
                    dd.1,
                ) {
                    piece_moved(*old(self), *final(self), i as int, dd.0, 0, dd.1)
                } else {
                    *final(self) == *old(self)
                }
            }),
    {
        if !self.tetris[i].falling {
            return;
        }
        let (dx, dz): (i32, i32) = match d {
            0 => (-1, 0),
            1 => (1, 0),
            2 => (0, 1),
            3 => (0, -1),
            _ => {
                return;
            },
        };
        if self.can_shift(i, dx, 0, dz) {
            self.shift_piece(i, dx, 0, dz);
        }
    }

    /// Builds a fresh grid at the given origin, holding one randomly chosen
    /// piece placed at the spawn region with its cells marked.
    pub fn new(origin: GridCoord) -> (g: Grid)
        ensures
            g.wf(),
            g.origin == origin,
            !g.end,
            g.current == 0,
            g.tetris@.len() == 1,
            g.tetris@[0].falling,
            exists|s: int| 0 <= s < 6 && g.tetris@[0].blocks@ == spec_template(s),
    {
        let mut cells: Vec<GridBlock> = Vec::new();
        let mut k: usize = 0;
        while k < GRID_LEN
            invariant
                k <= GRID_LEN,
                cells@.len() == k,
                forall|kk: int| 0 <= kk < k ==> #[trigger] cells@[kk] == GridBlock::Vacant,
            decreases GRID_LEN - k,
        {
            cells.push(GridBlock::Vacant);
            k += 1;
        }
        let mut g = Grid { tetris: Vec::new(), current: 0, origin, end: false, grid: cells };
        proof {
            assert(g.wf());
        }
        let t = Tetris::gen_random_tetris();
        proof {
            let s = choose|s: int| 0 <= s < 6 && t.blocks@ == spec_template(s);
            lemma_template_placeable(s);
        }
        g.place_tetris(t);
        g
    }
}

} // verus!

