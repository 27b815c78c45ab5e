//! The per-frame display list of unit blocks that the game draws.
//!
//! Besides the grid's own blocks (each translated by the grid's world-space
//! origin), the scene shows a fixed arrangement of decorative blocks spelling
//! the game's name above the board. Assembling that list is plain integer
//! work on block coordinates; turning each block into a GPU instance
//! transform is the platform layer's job.

use crate::grid::{blk, offset_coord, Block, Grid, GridCoord, Tetris, TetrisColor};
use crate::serialization::{block_of, sg_valid, SerializableGrid};
use vstd::prelude::*;

verus! {

/// The fixed decorative blocks (the game's name spelled in colored cubes),
/// placed relative to a horizontal offset of zero.
pub open spec fn letter_blocks() -> Seq<Block> {
    seq![
        blk(10, 25, 20, TetrisColor::Red),
        blk(9, 25, 20, TetrisColor::Red),
        blk(8, 25, 20, TetrisColor::Red),
        blk(9, 24, 20, TetrisColor::Red),
        blk(9, 23, 20, TetrisColor::Red),
        blk(9, 22, 20, TetrisColor::Red),
        blk(9, 21, 20, TetrisColor::Red),
        blk(6, 25, 20, TetrisColor::Blue),
        blk(5, 25, 20, TetrisColor::Blue),
        blk(4, 25, 20, TetrisColor::Blue),
        blk(6, 24, 20, TetrisColor::Blue),
        blk(6, 23, 20, TetrisColor::Blue),
        blk(5, 23, 20, TetrisColor::Blue),
        blk(4, 23, 20, TetrisColor::Blue),
        blk(6, 22, 20, TetrisColor::Blue),
        blk(6, 21, 20, TetrisColor::Blue),
        blk(5, 21, 20, TetrisColor::Blue),
        blk(4, 21, 20, TetrisColor::Blue),
        blk(2, 25, 20, TetrisColor::Yellow),
        blk(1, 25, 20, TetrisColor::Yellow),
        blk(0, 25, 20, TetrisColor::Yellow),
        blk(1, 24, 20, TetrisColor::Yellow),
        blk(1, 23, 20, TetrisColor::Yellow),
        blk(1, 22, 20, TetrisColor::Yellow),
        blk(1, 21, 20, TetrisColor::Yellow),
        blk(-3, 25, 20, TetrisColor::Green),
        blk(-4, 25, 20, TetrisColor::Green),
        blk(-2, 24, 20, TetrisColor::Green),
        blk(-5, 24, 20, TetrisColor::Green),
        blk(-2, 23, 20, TetrisColor::Green),
        blk(-3, 23, 20, TetrisColor::Green),
        blk(-4, 23, 20, TetrisColor::Green),
        blk(-2, 22, 20, TetrisColor::Green),
        blk(-4, 22, 20, TetrisColor::Green),
        blk(-2, 21, 20, TetrisColor::Green),
        blk(-5, 21, 20, TetrisColor::Green),
        blk(-7, 25, 20, TetrisColor::Cyan),
        blk(-7, 24, 20, TetrisColor::Cyan),
        blk(-7, 23, 20, TetrisColor::Cyan),
        blk(-7, 22, 20, TetrisColor::Cyan),
        blk(-7, 21, 20, TetrisColor::Cyan),
        blk(-10, 25, 20, TetrisColor::Magenta),
        blk(-11, 25, 20, TetrisColor::Magenta),
        blk(-12, 25, 20, TetrisColor::Magenta),
        blk(-9, 24, 20, TetrisColor::Magenta),
        blk(-10, 23, 20, TetrisColor::Magenta),
        blk(-11, 23, 20, TetrisColor::Magenta),
        blk(-12, 22, 20, TetrisColor::Magenta),
        blk(-9, 21, 20, TetrisColor::Magenta),
        blk(-10, 21, 20, TetrisColor::Magenta),
        blk(-11, 21, 20, TetrisColor::Magenta)
    ]
}

/// A block list translated by the given offset, colors kept, order kept.
pub open spec fn translated_seq(bs: Seq<Block>, dx: int, dy: int, dz: int) -> Seq<Block> {
    Seq::new(
        bs.len(),
        |j: int| Block { c: offset_coord(bs[j].c, dx, dy, dz), color: bs[j].color },
    )
}

/// All blocks of a list of pieces, in piece order then block order, each
/// translated by `v`.
pub open spec fn flat_translated(ts: Seq<Tetris>, v: GridCoord) -> Seq<Block>
    decreases ts.len(),
{
    if ts.len() == 0 {
        Seq::empty()
    } else {
        flat_translated(ts.drop_last(), v) + translated_seq(
            ts.last().blocks@,
            v.x as int,
            v.y as int,
            v.z as int,
        )
    }
}

/// All blocks of a list of stored pieces, in piece order then block order,
/// each translated by `v`.
pub open spec fn flat_translated_ser(ts: Seq<crate::serialization::SerializableTetris>, v: GridCoord) -> Seq<
    Block,
>
    decreases ts.len(),
{
    if ts.len() == 0 {
        Seq::empty()
    } else {
        flat_translated_ser(ts.drop_last(), v) + Seq::new(
            ts.last().blocks@.len(),
            |j: int| Block {
                c: offset_coord(block_of(ts.last().blocks@[j]).c, v.x as int, v.y as int, v.z as int),
                color: ts.last().blocks@[j].color,
            },
        )
    }
}

/// The flat list of world-space blocks drawn this frame.
#[derive(Clone, Debug)]
pub struct Blocks {
    pub vec: Vec<Block>,
}

impl Blocks {
    /// The fixed decorative blocks as a vector.
    fn letter_table() -> (r: Vec<Block>)
        ensures
            r@ == letter_blocks(),
            forall|j: int|
                0 <= j < r@.len() ==> -12 <= (#[trigger] r@[j]).c.x <= 10 && 21 <= r@[j].c.y <= 25
                    && r@[j].c.z == 20,
    {
        let r: Vec<Block> = vec![
            Block { c: GridCoord { x: 10, y: 25, z: 20 }, color: TetrisColor::Red },
            Block { c: GridCoord { x: 9, y: 25, z: 20 }, color: TetrisColor::Red },
            Block { c: GridCoord { x: 8, y: 25, z: 20 }, color: TetrisColor::Red },
            Block { c: GridCoord { x: 9, y: 24, z: 20 }, color: TetrisColor::Red },
            Block { c: GridCoord { x: 9, y: 23, z: 20 }, color: TetrisColor::Red },
            Block { c: GridCoord { x: 9, y: 22, z: 20 }, color: TetrisColor::Red },
            Block { c: GridCoord { x: 9, y: 21, z: 20 }, color: TetrisColor::Red },
            Block { c: GridCoord { x: 6, y: 25, z: 20 }, color: TetrisColor::Blue },
            Block { c: GridCoord { x: 5, y: 25, z: 20 }, color: TetrisColor::Blue },
            Block { c: GridCoord { x: 4, y: 25, z: 20 }, color: TetrisColor::Blue },
            Block { c: GridCoord { x: 6, y: 24, z: 20 }, color: TetrisColor::Blue },
            Block { c: GridCoord { x: 6, y: 23, z: 20 }, color: TetrisColor::Blue },
            Block { c: GridCoord { x: 5, y: 23, z: 20 }, color: TetrisColor::Blue },
            Block { c: GridCoord { x: 4, y: 23, z: 20 }, color: TetrisColor::Blue },
            Block { c: GridCoord { x: 6, y: 22, z: 20 }, color: TetrisColor::Blue },
            Block { c: GridCoord { x: 6, y: 21, z: 20 }, color: TetrisColor::Blue },
            Block { c: GridCoord { x: 5, y: 21, z: 20 }, color: TetrisColor::Blue },
            Block { c: GridCoord { x: 4, y: 21, z: 20 }, color: TetrisColor::Blue },
            Block { c: GridCoord { x: 2, y: 25, z: 20 }, color: TetrisColor::Yellow },
            Block { c: GridCoord { x: 1, y: 25, z: 20 }, color: TetrisColor::Yellow },
            Block { c: GridCoord { x: 0, y: 25, z: 20 }, color: TetrisColor::Yellow },
            Block { c: GridCoord { x: 1, y: 24, z: 20 }, color: TetrisColor::Yellow },
            Block { c: GridCoord { x: 1, y: 23, z: 20 }, color: TetrisColor::Yellow },
            Block { c: GridCoord { x: 1, y: 22, z: 20 }, color: TetrisColor::Yellow },
            Block { c: GridCoord { x: 1, y: 21, z: 20 }, color: TetrisColor::Yellow },
            Block { c: GridCoord { x: -3, y: 25, z: 20 }, color: TetrisColor::Green },
            Block { c: GridCoord { x: -4, y: 25, z: 20 }, color: TetrisColor::Green },
            Block { c: GridCoord { x: -2, y: 24, z: 20 }, color: TetrisColor::Green },
            Block { c: GridCoord { x: -5, y: 24, z: 20 }, color: TetrisColor::Green },
            Block { c: GridCoord { x: -2, y: 23, z: 20 }, color: TetrisColor::Green },
            Block { c: GridCoord { x: -3, y: 23, z: 20 }, color: TetrisColor::Green },
            Block { c: GridCoord { x: -4, y: 23, z: 20 }, color: TetrisColor::Green },
            Block { c: GridCoord { x: -2, y: 22, z: 20 }, color: TetrisColor::Green },
            Block { c: GridCoord { x: -4, y: 22, z: 20 }, color: TetrisColor::Green },
            Block { c: GridCoord { x: -2, y: 21, z: 20 }, color: TetrisColor::Green },
            Block { c: GridCoord { x: -5, y: 21, z: 20 }, color: TetrisColor::Green },
            Block { c: GridCoord { x: -7, y: 25, z: 20 }, color: TetrisColor::Cyan },
            Block { c: GridCoord { x: -7, y: 24, z: 20 }, color: TetrisColor::Cyan },
            Block { c: GridCoord { x: -7, y: 23, z: 20 }, color: TetrisColor::Cyan },
            Block { c: GridCoord { x: -7, y: 22, z: 20 }, color: TetrisColor::Cyan },
            Block { c: GridCoord { x: -7, y: 21, z: 20 }, color: TetrisColor::Cyan },
            Block { c: GridCoord { x: -10, y: 25, z: 20 }, color: TetrisColor::Magenta },
            Block { c: GridCoord { x: -11, y: 25, z: 20 }, color: TetrisColor::Magenta },
            Block { c: GridCoord { x: -12, y: 25, z: 20 }, color: TetrisColor::Magenta },
            Block { c: GridCoord { x: -9, y: 24, z: 20 }, color: TetrisColor::Magenta },
            Block { c: GridCoord { x: -10, y: 23, z: 20 }, color: TetrisColor::Magenta },
            Block { c: GridCoord { x: -11, y: 23, z: 20 }, color: TetrisColor::Magenta },
            Block { c: GridCoord { x: -12, y: 22, z: 20 }, color: TetrisColor::Magenta },
            Block { c: GridCoord { x: -9, y: 21, z: 20 }, color: TetrisColor::Magenta },
            Block { c: GridCoord { x: -10, y: 21, z: 20 }, color: TetrisColor::Magenta },
            Block { c: GridCoord { x: -11, y: 21, z: 20 }, color: TetrisColor::Magenta }
        ];
        proof {
            assert(r@ =~= letter_blocks());
        }
        r
    }

    /// Assembles the frame's block list: the decorative blocks shifted
    /// horizontally by `offset`, then every block of every piece of the grid
    /// translated by the grid's origin.
    pub fn new(grid: &Grid, offset: i32) -> (r: Blocks)
        requires
            grid.wf(),
            -2147483636 <= offset <= 2147483637,
            -2147483648 <= grid.origin.x <= 2147483632,
            -2147483648 <= grid.origin.y <= 2147483632,
            -2147483648 <= grid.origin.z <= 2147483627,
        ensures
            r.vec@ == translated_seq(letter_blocks(), offset as int, 0, 0) + flat_translated(
                grid.tetris@,
                grid.origin,
            ),
    {
        let base = Self::letter_table();
        let mut v: Vec<Block> = Vec::new();
        let mut j: usize = 0;
        while j < base.len()
            invariant
                -2147483636 <= offset <= 2147483637,
                base@ == letter_blocks(),
                forall|jj: int|
                    0 <= jj < base@.len() ==> -12 <= (#[trigger] base@[jj]).c.x <= 10 && 21
                        <= base@[jj].c.y <= 25 && base@[jj].c.z == 20,
                j <= base@.len(),
                v@ =~= translated_seq(letter_blocks(), offset as int, 0, 0).subrange(0, j as int),
            decreases base@.len() - j,
        {
            let b = base[j];
            v.push(Block { c: GridCoord { x: b.c.x + offset, y: b.c.y, z: b.c.z }, color: b.color });
            proof {
                assert(v@ =~= translated_seq(letter_blocks(), offset as int, 0, 0).subrange(
                    0,
                    j as int + 1,
                ));
            }
            j += 1;
        }
        proof {
            assert(v@ =~= translated_seq(letter_blocks(), offset as int, 0, 0));
        }
        let ghost letters = v@;
        let mut i: usize = 0;
        while i < grid.tetris.len()
            invariant
                grid.wf(),
                -2147483648 <= grid.origin.x <= 2147483632,
                -2147483648 <= grid.origin.y <= 2147483632,
                -2147483648 <= grid.origin.z <= 2147483627,
                i <= grid.tetris@.len(),
                v@ == letters + flat_translated(grid.tetris@.take(i as int), grid.origin),
            decreases grid.tetris@.len() - i,
        {
            let mut j: usize = 0;
            while j < grid.tetris[i].blocks.len()
                invariant
                    grid.wf(),
                    -2147483648 <= grid.origin.x <= 2147483632,
                    -2147483648 <= grid.origin.y <= 2147483632,
                    -2147483648 <= grid.origin.z <= 2147483627,
                    i < grid.tetris@.len(),
                    j <= grid.tetris@[i as int].blocks@.len(),
                    v@ == letters + flat_translated(grid.tetris@.take(i as int), grid.origin)
                        + translated_seq(
                        grid.tetris@[i as int].blocks@,
                        grid.origin.x as int,
                        grid.origin.y as int,
                        grid.origin.z as int,
                    ).subrange(0, j as int),
                decreases grid.tetris@[i as int].blocks@.len() - j,
            {
                let b = grid.tetris[i].blocks[j];
                proof {
                    assert(crate::grid::in_bounds(grid.tetris@[i as int].blocks@[j as int].c));
                }
                let ghost vpre = v@;
                v.push(
                    Block {
                        c: GridCoord {
                            x: b.c.x + grid.origin.x,
                            y: b.c.y + grid.origin.y,
                            z: b.c.z + grid.origin.z,
                        },
                        color: b.color,
                    },
                );
                proof {
                    assert(v@ =~= letters + flat_translated(
                        grid.tetris@.take(i as int),
                        grid.origin,
                    ) + translated_seq(
                        grid.tetris@[i as int].blocks@,
                        grid.origin.x as int,
                        grid.origin.y as int,
                        grid.origin.z as int,
                    ).subrange(0, j as int + 1));
                }
                j += 1;
            }
            proof {
                let tk = grid.tetris@.take(i as int + 1);
                assert(tk.drop_last() =~= grid.tetris@.take(i as int));
                assert(tk.last() == grid.tetris@[i as int]);
                let full = translated_seq(
                    grid.tetris@[i as int].blocks@,
                    grid.origin.x as int,
                    grid.origin.y as int,
                    grid.origin.z as int,
                );
                assert(full.subrange(0, grid.tetris@[i as int].blocks@.len() as int) =~= full);
                assert(v@ =~= letters + flat_translated(tk, grid.origin));
            }
            i += 1;
        }
        proof {
            assert(grid.tetris@.take(grid.tetris@.len() as int) =~= grid.tetris@);
        }
        Blocks { vec: v }
    }

    /// Assembles the block list of a stored grid (a peer's board, say),
    /// translated by the given origin. The record must be a valid grid, as
    /// [`SerializableGrid::is_valid`] checks.
    pub fn from_serialized(sg: &SerializableGrid, origin: GridCoord) -> (r: Blocks)
        requires
            sg_valid(*sg),
            -2147483648 <= origin.x <= 2147483632,
            -2147483648 <= origin.y <= 2147483632,
            -2147483648 <= origin.z <= 2147483632,
        ensures
            r.vec@ == flat_translated_ser(sg.tetris@, origin),
    {
        let mut v: Vec<Block> = Vec::new();
        let mut i: usize = 0;
        while i < sg.tetris.len()
            invariant
                sg_valid(*sg),
                -2147483648 <= origin.x <= 2147483632,
                -2147483648 <= origin.y <= 2147483632,
                -2147483648 <= origin.z <= 2147483632,
                i <= sg.tetris@.len(),
                v@ == flat_translated_ser(sg.tetris@.take(i as int), origin),
            decreases sg.tetris@.len() - i,
        {
            let mut j: usize = 0;
            while j < sg.tetris[i].blocks.len()
                invariant
                    sg_valid(*sg),
                    -2147483648 <= origin.x <= 2147483632,
                    -2147483648 <= origin.y <= 2147483632,
                    -2147483648 <= origin.z <= 2147483632,
                    i < sg.tetris@.len(),
                    j <= sg.tetris@[i as int].blocks@.len(),
                    v@ == flat_translated_ser(sg.tetris@.take(i as int), origin) + Seq::new(
                        sg.tetris@[i as int].blocks@.len(),
                        |jj: int| Block {
                            c: offset_coord(
                                block_of(sg.tetris@[i as int].blocks@[jj]).c,
                                origin.x as int,
                                origin.y as int,
                                origin.z as int,
                            ),
                            color: sg.tetris@[i as int].blocks@[jj].color,
                        },
                    ).subrange(0, j as int),
                decreases sg.tetris@[i as int].blocks@.len() - j,
            {
                let mut b = sg.tetris[i].blocks[j].to_block();
                proof {
                    assert(crate::grid::in_bounds(
                        block_of(sg.tetris@[i as int].blocks@[j as int]).c,
                    ));
                }
                b.c.x = b.c.x + origin.x;
                b.c.y = b.c.y + origin.y;
                b.c.z = b.c.z + origin.z;
                let ghost inner = Seq::new(
                    sg.tetris@[i as int].blocks@.len(),
                    |jj: int| Block {
                        c: offset_coord(
                            block_of(sg.tetris@[i as int].blocks@[jj]).c,
                            origin.x as int,
                            origin.y as int,
                            origin.z as int,
                        ),
                        color: sg.tetris@[i as int].blocks@[jj].color,
                    },
                );
                v.push(b);
                proof {
                    assert(v@ =~= flat_translated_ser(sg.tetris@.take(i as int), origin)
                        + inner.subrange(0, j as int + 1));
                }
                j += 1;
            }
            proof {
                let tk = sg.tetris@.take(i as int + 1);
                assert(tk.drop_last() =~= sg.tetris@.take(i as int));
                assert(tk.last() == sg.tetris@[i as int]);
                let inner = Seq::new(
                    sg.tetris@[i as int].blocks@.len(),
                    |jj: int| Block {
                        c: offset_coord(
                            block_of(sg.tetris@[i as int].blocks@[jj]).c,
                            origin.x as int,
                            origin.y as int,
                            origin.z as int,
                        ),
                        color: sg.tetris@[i as int].blocks@[jj].color,
                    },
                );
                assert(inner.subrange(0, sg.tetris@[i as int].blocks@.len() as int) =~= inner);
                assert(v@ =~= flat_translated_ser(tk, origin));
            }
            i += 1;
        }
        proof {
            assert(sg.tetris@.take(sg.tetris@.len() as int) =~= sg.tetris@);
        }
        Blocks { vec: v }
    }
}

} // verus!
