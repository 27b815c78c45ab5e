//! The transport/storage form of the grid state and its lossless round trip.
//!
//! A grid serializes to plain lists: pieces of blocks (coordinate triple plus
//! color) with a falling flag, the controlled piece's index, and the origin
//! triple. Rebuilding derives the occupancy array from the block lists alone,
//! assigning piece indices by list position, so a round trip reproduces the
//! occupancy pattern, colors, falling flags and origin exactly
//! ([`lemma_round_trip`]).

use crate::grid::{
    coord_of, in_bounds, index_of, piece_covers, xyz_to_index, Block, Grid, GridBlock, GridCoord,
    Tetris, TetrisColor, GRID_LEN,
};
use vstd::prelude::*;

verus! {

/// A coordinate triple in storage order `[x, y, z]`.
pub type SerializablePos3 = [i32; 3];

/// Storage form of one block: its color and its coordinate triple.
#[derive(Clone, Debug)]
pub struct SerializableBlock {
    pub color: TetrisColor,
    pub c: SerializablePos3,
}

/// Storage form of one piece: its blocks and its falling flag.
#[derive(Clone, Debug)]
pub struct SerializableTetris {
    pub blocks: Vec<SerializableBlock>,
    pub falling: bool,
}

/// Storage form of a grid: the pieces, the controlled piece's index, and the
/// origin triple. The occupancy array and the game-over flag are not stored;
/// rebuilding derives the one and clears the other.
#[derive(Clone, Debug)]
pub struct SerializableGrid {
    pub tetris: Vec<SerializableTetris>,
    pub current: usize,
    pub origin: SerializablePos3,
}

/// The block a storage record stands for.
pub open spec fn block_of(sb: SerializableBlock) -> Block {
    Block { c: GridCoord { x: sb.c@[0], y: sb.c@[1], z: sb.c@[2] }, color: sb.color }
}

/// `sb` is the storage form of `b`.
pub open spec fn abstracts_block(sb: SerializableBlock, b: Block) -> bool {
    sb.c@.len() == 3 && block_of(sb) == b
}

/// `st` is the storage form of `t`.
pub open spec fn abstracts_tetris(st: SerializableTetris, t: Tetris) -> bool {
    &&& st.falling == t.falling
    &&& st.blocks@.len() == t.blocks@.len()
    &&& forall|j: int|
        0 <= j < t.blocks@.len() ==> abstracts_block(#[trigger] st.blocks@[j], t.blocks@[j])
}

/// `sg` is the storage form of `g`.
pub open spec fn abstracts_grid(sg: SerializableGrid, g: Grid) -> bool {
    &&& sg.current == g.current
    &&& sg.origin@.len() == 3
    &&& sg.origin@[0] == g.origin.x
    &&& sg.origin@[1] == g.origin.y
    &&& sg.origin@[2] == g.origin.z
    &&& sg.tetris@.len() == g.tetris@.len()
    &&& forall|i: int|
        0 <= i < g.tetris@.len() ==> abstracts_tetris(#[trigger] sg.tetris@[i], g.tetris@[i])
}

/// A storage record can be rebuilt into a well-formed grid: every block's
/// cell lies inside the grid, no two blocks anywhere share a cell, and the
/// controlled piece's index is in range.
pub open spec fn sg_valid(sg: SerializableGrid) -> bool {
    &&& sg.tetris@.len() == 0 || sg.current < sg.tetris@.len()
    &&& forall|i: int, j: int|
        0 <= i < sg.tetris@.len() && 0 <= j < sg.tetris@[i].blocks@.len() ==> in_bounds(
            block_of(#[trigger] sg.tetris@[i].blocks@[j]).c,
        )
    &&& forall|i1: int, j1: int, i2: int, j2: int|
        0 <= i1 < sg.tetris@.len() && 0 <= j1 < sg.tetris@[i1].blocks@.len() && 0 <= i2
            < sg.tetris@.len() && 0 <= j2 < sg.tetris@[i2].blocks@.len() && (i1 != i2 || j1 != j2)
            ==> block_of(#[trigger] sg.tetris@[i1].blocks@[j1]).c != block_of(
            #[trigger] sg.tetris@[i2].blocks@[j2],
        ).c
}

/// `g2` is the grid rebuilt from the storage record `sg`: the pieces read
/// back in order, the occupancy array derived from their blocks, the
/// game-over flag cleared.
pub open spec fn rebuilt_from(g2: Grid, sg: SerializableGrid) -> bool {
    &&& g2.wf()
    &&& g2.current == sg.current
    &&& g2.origin == (GridCoord { x: sg.origin@[0], y: sg.origin@[1], z: sg.origin@[2] })
    &&& !g2.end
    &&& g2.tetris@.len() == sg.tetris@.len()
    &&& forall|i: int|
        0 <= i < sg.tetris@.len() ==> abstracts_tetris(#[trigger] sg.tetris@[i], g2.tetris@[i])
}

impl SerializableBlock {
    /// Turns a block into its storage form.
    pub fn from_block(b: &Block) -> (r: SerializableBlock)
        ensures
            abstracts_block(r, *b),
    {
        SerializableBlock { color: b.color, c: [b.c.x, b.c.y, b.c.z] }
    }

    /// Reads a block back from its storage form.
    pub fn to_block(&self) -> (r: Block)
        ensures
            r == block_of(*self),
    {
        Block { color: self.color, c: GridCoord::new(self.c[0], self.c[1], self.c[2]) }
    }
}

impl SerializableTetris {
    /// Turns a piece into its storage form.
    pub fn from_tetris(t: &Tetris) -> (r: SerializableTetris)
        ensures
            abstracts_tetris(r, *t),
    {
        let mut blocks: Vec<SerializableBlock> = Vec::new();
        let mut j: usize = 0;
        while j < t.blocks.len()
            invariant
                j <= t.blocks@.len(),
                blocks@.len() == j,
                forall|jj: int|
                    0 <= jj < j ==> abstracts_block(#[trigger] blocks@[jj], t.blocks@[jj]),
            decreases t.blocks@.len() - j,
        {
            blocks.push(SerializableBlock::from_block(&t.blocks[j]));
            j += 1;
        }
        SerializableTetris { falling: t.falling, blocks }
    }

    /// Reads a piece back from its storage form.
    pub fn to_tetris(&self) -> (r: Tetris)
        ensures
            r.falling == self.falling,
            r.blocks@.len() == self.blocks@.len(),
            forall|j: int|
                0 <= j < self.blocks@.len() ==> #[trigger] r.blocks@[j] == block_of(
                    self.blocks@[j],
                ),
    {
        let mut blocks: Vec<Block> = Vec::new();
        let mut j: usize = 0;
        while j < self.blocks.len()
            invariant
                j <= self.blocks@.len(),
                blocks@.len() == j,
                forall|jj: int|
                    0 <= jj < j ==> #[trigger] blocks@[jj] == block_of(self.blocks@[jj]),
            decreases self.blocks@.len() - j,
        {
            blocks.push(self.blocks[j].to_block());
            j += 1;
        }
        Tetris { falling: self.falling, blocks }
    }
}

impl SerializableGrid {
    /// Turns a grid into its storage form.
    pub fn from_grid(g: &Grid) -> (r: SerializableGrid)
        ensures
            abstracts_grid(r, *g),
    {
        let mut tetris: Vec<SerializableTetris> = Vec::new();
        let mut i: usize = 0;
        while i < g.tetris.len()
            invariant
                i <= g.tetris@.len(),
                tetris@.len() == i,
                forall|s: int|
                    0 <= s < i ==> abstracts_tetris(#[trigger] tetris@[s], g.tetris@[s]),
            decreases g.tetris@.len() - i,
        {
            tetris.push(SerializableTetris::from_tetris(&g.tetris[i]));
            i += 1;
        }
        SerializableGrid {
            current: g.current,
            origin: [g.origin.x, g.origin.y, g.origin.z],
            tetris,
        }
    }

    /// Checks that this record can be rebuilt into a well-formed grid: the
    /// controlled piece's index in range, every cell inside the grid, no two
    /// blocks on one cell. A record that fails this check is malformed input.
    pub fn is_valid(&self) -> (r: bool)
        ensures
            r == sg_valid(*self),
    {
        if !(self.tetris.len() == 0 || self.current < self.tetris.len()) {
            return false;
        }
        let mut seen: Vec<bool> = Vec::new();
        let mut k: usize = 0;
        while k < GRID_LEN
            invariant
                k <= GRID_LEN,
                seen@.len() == k,
                forall|kk: int| 0 <= kk < k ==> #[trigger] seen@[kk] == false,
            decreases GRID_LEN - k,
        {
            seen.push(false);
            k += 1;
        }
        let mut i: usize = 0;
        while i < self.tetris.len()
            invariant
                i <= self.tetris@.len(),
                seen@.len() == GRID_LEN,
                self.tetris@.len() == 0 || self.current < self.tetris@.len(),
                forall|i1: int, j1: int|
                    0 <= i1 < i && 0 <= j1 < self.tetris@[i1].blocks@.len() ==> in_bounds(
                        block_of(#[trigger] self.tetris@[i1].blocks@[j1]).c,
                    ),
                forall|c: GridCoord|
                    in_bounds(c) ==> (#[trigger] seen@[index_of(c)] == (exists|i1: int, j1: int|
                        0 <= i1 < i && 0 <= j1 < self.tetris@[i1].blocks@.len() && block_of(
                            #[trigger] self.tetris@[i1].blocks@[j1],
                        ).c == c)),
                forall|i1: int, j1: int, i2: int, j2: int|
                    0 <= i1 < i && 0 <= j1 < self.tetris@[i1].blocks@.len() && 0 <= i2 < i && 0
                        <= j2 < self.tetris@[i2].blocks@.len() && (i1 != i2 || j1 != j2)
                        ==> block_of(#[trigger] self.tetris@[i1].blocks@[j1]).c != block_of(
                        #[trigger] self.tetris@[i2].blocks@[j2],
                    ).c,
            decreases self.tetris@.len() - i,
        {
            let mut j: usize = 0;
            while j < self.tetris[i].blocks.len()
                invariant
                    i < self.tetris@.len(),
                    j <= self.tetris@[i as int].blocks@.len(),
                    seen@.len() == GRID_LEN,
                    forall|i1: int, j1: int|
                        0 <= i1 < i && 0 <= j1 < self.tetris@[i1].blocks@.len() ==> in_bounds(
                            block_of(#[trigger] self.tetris@[i1].blocks@[j1]).c,
                        ),
                    forall|j1: int|
                        0 <= j1 < j ==> in_bounds(
                            block_of(#[trigger] self.tetris@[i as int].blocks@[j1]).c,
                        ),
                    forall|c: GridCoord|
                        in_bounds(c) ==> (#[trigger] seen@[index_of(c)] == (exists|
                            i1: int,
                            j1: int,
                        |
                            ((0 <= i1 < i && 0 <= j1 < self.tetris@[i1].blocks@.len()) || (i1 == i
                                && 0 <= j1 < j)) && 0 <= i1 < self.tetris@.len() && 0 <= j1
                                < self.tetris@[i1].blocks@.len() && block_of(
                                #[trigger] self.tetris@[i1].blocks@[j1],
                            ).c == c)),
                    forall|i1: int, j1: int, i2: int, j2: int|
                        ((0 <= i1 < i && 0 <= j1 < self.tetris@[i1].blocks@.len()) || (i1 == i && 0
                            <= j1 < j)) && ((0 <= i2 < i && 0 <= j2
                            < self.tetris@[i2].blocks@.len()) || (i2 == i && 0 <= j2 < j)) && (i1
                            != i2 || j1 != j2) && 0 <= i1 < self.tetris@.len() && 0 <= i2
                            < self.tetris@.len() ==> block_of(
                            #[trigger] self.tetris@[i1].blocks@[j1],
                        ).c != block_of(#[trigger] self.tetris@[i2].blocks@[j2]).c,
                decreases self.tetris@[i as int].blocks@.len() - j,
            {
                let sb = &self.tetris[i].blocks[j];
                let c = GridCoord::new(sb.c[0], sb.c[1], sb.c[2]);
                if c.x < 0 || c.x >= 8 || c.y < 0 || c.y >= 16 || c.z < 0 || c.z >= 8 {
                    return false;
                }
                let k = xyz_to_index(c.x, c.y, c.z);
                if seen[k] {
                    return false;
                }
                seen[k] = true;
                proof {
                    assert(c == block_of(self.tetris@[i as int].blocks@[j as int]).c);
                    assert forall|c2: GridCoord| in_bounds(c2) implies #[trigger] seen@[index_of(
                        c2,
                    )] == (exists|i1: int, j1: int|
                        ((0 <= i1 < i && 0 <= j1 < self.tetris@[i1].blocks@.len()) || (i1 == i && 0
                            <= j1 < j + 1)) && 0 <= i1 < self.tetris@.len() && 0 <= j1
                            < self.tetris@[i1].blocks@.len() && block_of(
                            #[trigger] self.tetris@[i1].blocks@[j1],
                        ).c == c2) by {
                        if index_of(c2) == index_of(c) {
                            crate::grid::lemma_coord_of(index_of(c));
                            crate::grid::lemma_coord_of(index_of(c2));
                        }
                    }
                }
                j += 1;
            }
            i += 1;
        }
        true
    }

    /// Rebuilds a grid from its storage form: the pieces are read back in
    /// order, each block's cell is marked with its piece's list position, the
    /// game runs on (`end` cleared). A record that is not `sg_valid`
    /// (checkable with [`SerializableGrid::is_valid`]) is malformed input.
    pub fn to_grid(&self) -> (g: Grid)
        requires
            sg_valid(*self),
        ensures
            rebuilt_from(g, *self),
    {
        let mut tetris: Vec<Tetris> = Vec::new();
        let mut i: usize = 0;
        while i < self.tetris.len()
            invariant
                sg_valid(*self),
                i <= self.tetris@.len(),
                tetris@.len() == i,
                forall|s: int|
                    0 <= s < i ==> abstracts_tetris(self.tetris@[s], #[trigger] tetris@[s]),
            decreases self.tetris@.len() - i,
        {
            let t = self.tetris[i].to_tetris();
            proof {
                assert forall|j: int|
                    0 <= j < self.tetris@[i as int].blocks@.len() implies abstracts_block(
                    #[trigger] self.tetris@[i as int].blocks@[j],
                    t.blocks@[j],
                ) by {
                    assert(self.tetris@[i as int].blocks@[j].c@.len() == 3);
                }
            }
            tetris.push(t);
            i += 1;
        }
        let mut cells: Vec<GridBlock> = Vec::new();
        let mut k: usize = 0;
        while k < GRID_LEN
            invariant
                k <= GRID_LEN,
                cells@.len() == k,
                forall|kk: int| 0 <= kk < k ==> #[trigger] cells@[kk] == GridBlock::Vacant,
            decreases GRID_LEN - k,
        {
            cells.push(GridBlock::Vacant);
            k += 1;
        }
        let mut g = Grid {
            tetris,
            current: self.current,
            origin: GridCoord::new(self.origin[0], self.origin[1], self.origin[2]),
            end: false,
            grid: cells,
        };
        let ghost glists = g.tetris@;
        let mut i: usize = 0;
        while i < g.tetris.len()
            invariant
                sg_valid(*self),
                g.current == self.current,
                g.origin == (GridCoord {
                    x: self.origin@[0],
                    y: self.origin@[1],
                    z: self.origin@[2],
                }),
                !g.end,
                i <= glists.len(),
                g.tetris@ == glists,
                glists.len() == self.tetris@.len(),
                forall|s: int|
                    0 <= s < glists.len() ==> abstracts_tetris(
                        self.tetris@[s],
                        #[trigger] glists[s],
                    ),
                g.grid@.len() == GRID_LEN,
                forall|s: int, b: int|
                    0 <= s < i && 0 <= b < glists[s].blocks@.len() ==> in_bounds(
                        (#[trigger] glists[s].blocks@[b]).c,
                    ) && g.grid@[index_of(glists[s].blocks@[b].c)] == GridBlock::Occupied(
                        s as usize,
                    ),
                forall|c: GridCoord|
                    in_bounds(c) && !(exists|s: int|
                        0 <= s < i && piece_covers(#[trigger] glists[s], c))
                        ==> #[trigger] g.grid@[index_of(c)] == GridBlock::Vacant,
            decreases glists.len() - i,
        {
            let mut j: usize = 0;
            while j < g.tetris[i].blocks.len()
                invariant
                    sg_valid(*self),
                    g.current == self.current,
                    g.origin == (GridCoord {
                        x: self.origin@[0],
                        y: self.origin@[1],
                        z: self.origin@[2],
                    }),
                    !g.end,
                    i < glists.len(),
                    g.tetris@ == glists,
                    glists.len() == self.tetris@.len(),
                    forall|s: int|
                        0 <= s < glists.len() ==> abstracts_tetris(
                            self.tetris@[s],
                            #[trigger] glists[s],
                        ),
                    j <= glists[i as int].blocks@.len(),
                    g.grid@.len() == GRID_LEN,
                    forall|s: int, b: int|
                        (0 <= s < i && 0 <= b < glists[s].blocks@.len()) || (s == i && 0 <= b < j)
                            ==> 0 <= s < glists.len() && in_bounds(
                            (#[trigger] glists[s].blocks@[b]).c,
                        ) && g.grid@[index_of(glists[s].blocks@[b].c)] == GridBlock::Occupied(
                            s as usize,
                        ),
                    forall|c: GridCoord|
                        in_bounds(c) && !(exists|s: int, b: int|
                            ((0 <= s < i && 0 <= b < glists[s].blocks@.len()) || (s == i && 0 <= b
                                < j)) && 0 <= s < glists.len() && 0 <= b < glists[s].blocks@.len()
                                && (#[trigger] glists[s].blocks@[b]).c == c)
                            ==> #[trigger] g.grid@[index_of(c)] == GridBlock::Vacant,
                decreases glists[i as int].blocks@.len() - j,
            {
                let c = g.tetris[i].blocks[j].c;
                proof {
                    assert(abstracts_block(
                        self.tetris@[i as int].blocks@[j as int],
                        glists[i as int].blocks@[j as int],
                    ));
                    assert(in_bounds(block_of(self.tetris@[i as int].blocks@[j as int]).c));
                    assert(in_bounds(c));
                }
                let k = xyz_to_index(c.x, c.y, c.z);
                g.grid[k] = GridBlock::Occupied(i);
                proof {
                    assert forall|s: int, b: int|
                        (0 <= s < i && 0 <= b < glists[s].blocks@.len()) || (s == i && 0 <= b < j
                            + 1) implies 0 <= s < glists.len() && in_bounds(
                        (#[trigger] glists[s].blocks@[b]).c,
                    ) && g.grid@[index_of(glists[s].blocks@[b].c)] == GridBlock::Occupied(
                        s as usize,
                    ) by {
                        let c2 = glists[s].blocks@[b].c;
                        assert(abstracts_block(self.tetris@[s].blocks@[b], glists[s].blocks@[b]));
                        assert(in_bounds(block_of(self.tetris@[s].blocks@[b]).c));
                        if s != i || b != j {
                            // distinct blocks sit on distinct cells
                            assert(block_of(self.tetris@[s].blocks@[b]).c != block_of(
                                self.tetris@[i as int].blocks@[j as int],
                            ).c);
                            if index_of(c2) == index_of(c) {
                                crate::grid::lemma_index_of_injective(c2, c);
                                assert(false);
                            }
                        }
                    }
                    assert forall|c2: GridCoord|
                        in_bounds(c2) && !(exists|s: int, b: int|
                            ((0 <= s < i && 0 <= b < glists[s].blocks@.len()) || (s == i && 0 <= b
                                < j + 1)) && 0 <= s < glists.len() && 0 <= b
                                < glists[s].blocks@.len() && (#[trigger] glists[s].blocks@[b]).c
                                == c2) implies #[trigger] g.grid@[index_of(c2)]
                        == GridBlock::Vacant by {
                        if index_of(c2) == index_of(c) {
                            crate::grid::lemma_index_of_injective(c2, c);
                        }
                    }
                }
                j += 1;
            }
            i += 1;
        }
        proof {
            assert(glists.len() == self.tetris.len());
            assert forall|a: int, b: int|
                0 <= a < g.tetris@.len() && 0 <= b < g.tetris@[a].blocks@.len() implies in_bounds(
                (#[trigger] g.tetris@[a].blocks@[b]).c,
            ) && g.grid@[index_of(g.tetris@[a].blocks@[b].c)] == GridBlock::Occupied(
                a as usize,
            ) by {}
            assert(g.marks_match());
            assert forall|k: int|
                0 <= k < GRID_LEN implies ((#[trigger] g.grid@[k]) matches GridBlock::Occupied(t)
                ==> 0 <= t < g.tetris@.len() && piece_covers(g.tetris@[t as int], coord_of(
                k,
            ))) by {
                crate::grid::lemma_coord_of(k);
                let c2 = coord_of(k);
                match g.grid@[k] {
                    GridBlock::Occupied(t) => {
                        if exists|s: int, b: int|
                            0 <= s < glists.len() && 0 <= b < glists[s].blocks@.len()
                                && (#[trigger] glists[s].blocks@[b]).c == c2 {
                            let (s, b) = choose|s: int, b: int|
                                0 <= s < glists.len() && 0 <= b < glists[s].blocks@.len()
                                    && (#[trigger] glists[s].blocks@[b]).c == c2;
                            assert(g.grid@[index_of(c2)] == GridBlock::Occupied(s as usize));
                            assert(t == s);
                            assert(piece_covers(g.tetris@[s], c2));
                        } else {
                            assert(g.grid@[index_of(c2)] == GridBlock::Vacant);
                            assert(false);
                        }
                    },
                    GridBlock::Vacant => {},
                }
            }
            assert(g.marks_tight());
            assert forall|a: int, j1: int, j2: int|
                0 <= a < g.tetris@.len() && 0 <= j1 < g.tetris@[a].blocks@.len() && 0 <= j2
                    < g.tetris@[a].blocks@.len() && j1 != j2 implies (#[trigger] g.tetris@[a].blocks@[j1]).c != (#[trigger] g.tetris@[a].blocks@[j2]).c by {
                assert(abstracts_block(self.tetris@[a].blocks@[j1], g.tetris@[a].blocks@[j1]));
                assert(abstracts_block(self.tetris@[a].blocks@[j2], g.tetris@[a].blocks@[j2]));
                assert(block_of(self.tetris@[a].blocks@[j1]).c != block_of(
                    self.tetris@[a].blocks@[j2],
                ).c);
            }
            assert(g.blocks_distinct());
            assert forall|i2: int|
                0 <= i2 < self.tetris@.len() implies abstracts_tetris(
                #[trigger] self.tetris@[i2],
                g.tetris@[i2],
            ) by {}
        }
        g
    }
}

/// Reading a grid's storage form back (`to_grid` after `from_grid`)
/// reproduces the same occupancy pattern, block colors, falling flags and
/// origin; piece indices are reassigned by list position, which the storage
/// form keeps, so they agree as well.
pub proof fn lemma_round_trip(g: Grid, sg: SerializableGrid, g2: Grid)
    requires
        g.wf(),
        abstracts_grid(sg, g),
        rebuilt_from(g2, sg),
    ensures
        g2.origin == g.origin,
        g2.current == g.current,
        g2.tetris@.len() == g.tetris@.len(),
        forall|i: int|
            0 <= i < g.tetris@.len() ==> (#[trigger] g2.tetris@[i]).falling == g.tetris@[i].falling
                && g2.tetris@[i].blocks@ == g.tetris@[i].blocks@,
        forall|c: GridCoord|
            in_bounds(c) ==> #[trigger] g2.grid@[index_of(c)] == g.grid@[index_of(c)],
{
    assert(g.tetris@.len() == g.tetris.len());
    assert forall|i: int|
        0 <= i < g.tetris@.len() implies (#[trigger] g2.tetris@[i]).falling == g.tetris@[i].falling
        && g2.tetris@[i].blocks@ == g.tetris@[i].blocks@ by {
        assert(abstracts_tetris(sg.tetris@[i], g.tetris@[i]));
        assert(abstracts_tetris(sg.tetris@[i], g2.tetris@[i]));
        assert forall|j: int|
            0 <= j < g.tetris@[i].blocks@.len() implies #[trigger] g2.tetris@[i].blocks@[j]
            == g.tetris@[i].blocks@[j] by {
            assert(abstracts_block(sg.tetris@[i].blocks@[j], g.tetris@[i].blocks@[j]));
            assert(abstracts_block(sg.tetris@[i].blocks@[j], g2.tetris@[i].blocks@[j]));
        }
        assert(g2.tetris@[i].blocks@ =~= g.tetris@[i].blocks@);
    }
    assert forall|c: GridCoord|
        in_bounds(c) implies #[trigger] g2.grid@[index_of(c)] == g.grid@[index_of(c)] by {
        crate::grid::lemma_occupancy_consistent(g, c);
        crate::grid::lemma_occupancy_consistent(g2, c);
        match g.grid@[index_of(c)] {
            GridBlock::Occupied(s) => {
                assert(0 <= index_of(c) < GRID_LEN);
                assert(piece_covers(g.tetris@[s as int], c));
                let j = choose|j: int|
                    0 <= j < g.tetris@[s as int].blocks@.len() && g.tetris@[s as int].blocks@[j].c
                        == c;
                assert(g2.tetris@[s as int].blocks@[j].c == c);
                assert(piece_covers(g2.tetris@[s as int], c));
            },
            GridBlock::Vacant => {
                match g2.grid@[index_of(c)] {
                    GridBlock::Occupied(s2) => {
                        assert(piece_covers(g2.tetris@[s2 as int], c));
                        let j = choose|j: int|
                            0 <= j < g2.tetris@[s2 as int].blocks@.len() && g2.tetris@[s2 as int].blocks@[j].c == c;
                        assert(g.tetris@[s2 as int].blocks@[j].c == c);
                        assert(piece_covers(g.tetris@[s2 as int], c));
                        assert(g.grid@[index_of(c)] == GridBlock::Occupied(s2));
                        assert(false);
                    },
                    GridBlock::Vacant => {},
                }
            },
        }
    }
}

} // verus!
