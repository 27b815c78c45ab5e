use real3d::assets::ModelRef;
use real3d::blocks::Blocks;
use real3d::grid::{xyz_to_index, Grid, GridBlock, GridCoord, TetrisColor};
use real3d::render::{InstanceGroups, BONE_MAX};
use real3d::serialization::{SerializableBlock, SerializableGrid, SerializableTetris};

fn sblock(x: i32, y: i32, z: i32, color: TetrisColor) -> SerializableBlock {
    SerializableBlock { color, c: [x, y, z] }
}

fn spiece(cells: &[(i32, i32, i32)], color: TetrisColor, falling: bool) -> SerializableTetris {
    let mut blocks = Vec::new();
    for &(x, y, z) in cells {
        blocks.push(sblock(x, y, z, color));
    }
    SerializableTetris { blocks, falling }
}

fn sample_grid() -> Grid {
    let sg = SerializableGrid {
        tetris: vec![
            spiece(&[(0, 0, 0), (1, 0, 0)], TetrisColor::Green, false),
            spiece(&[(4, 14, 4), (4, 15, 4)], TetrisColor::Magenta, true),
        ],
        current: 1,
        origin: [-4, 1, -3],
    };
    assert!(sg.is_valid());
    sg.to_grid()
}

#[test]
fn serialization_round_trip() {
    let g = sample_grid();
    let sg = SerializableGrid::from_grid(&g);
    assert!(sg.is_valid());
    let g2 = sg.to_grid();
    assert_eq!(g2.current, g.current);
    assert_eq!(g2.origin, g.origin);
    assert!(!g2.end);
    assert_eq!(g2.tetris.len(), g.tetris.len());
    for (t2, t) in g2.tetris.iter().zip(g.tetris.iter()) {
        assert_eq!(t2.falling, t.falling);
        assert_eq!(t2.blocks.len(), t.blocks.len());
        for (b2, b) in t2.blocks.iter().zip(t.blocks.iter()) {
            assert_eq!(b2.c, b.c);
            assert_eq!(b2.color, b.color);
        }
    }
    // same occupancy pattern, cell by cell
    for y in 0..16 {
        assert_eq!(g2.get_plane(y), g.get_plane(y));
    }
}

#[test]
fn block_round_trip() {
    let b = real3d::grid::Block { c: GridCoord::new(3, 7, 2), color: TetrisColor::Cyan };
    let sb = SerializableBlock::from_block(&b);
    assert_eq!(sb.c, [3, 7, 2]);
    assert_eq!(sb.color, TetrisColor::Cyan);
    let b2 = sb.to_block();
    assert_eq!(b2.c, b.c);
    assert_eq!(b2.color, b.color);
}

#[test]
fn tetris_round_trip() {
    let st = spiece(&[(1, 2, 3), (4, 5, 6)], TetrisColor::Yellow, true);
    let t = st.to_tetris();
    assert!(t.falling);
    assert_eq!(t.blocks.len(), 2);
    assert_eq!(t.blocks[1].c, GridCoord::new(4, 5, 6));
    let st2 = SerializableTetris::from_tetris(&t);
    assert_eq!(st2.blocks.len(), 2);
    assert_eq!(st2.blocks[0].c, [1, 2, 3]);
    assert!(st2.falling);
}

#[test]
fn rebuild_derives_occupancy_by_position() {
    let g = sample_grid();
    assert_eq!(g.grid[xyz_to_index(0, 0, 0)], GridBlock::Occupied(0));
    assert_eq!(g.grid[xyz_to_index(4, 14, 4)], GridBlock::Occupied(1));
    assert_eq!(g.grid[xyz_to_index(7, 7, 7)], GridBlock::Vacant);
}

#[test]
fn invalid_records_are_rejected() {
    // controlled piece's index out of range
    let bad_current = SerializableGrid {
        tetris: vec![spiece(&[(0, 0, 0)], TetrisColor::Red, false)],
        current: 1,
        origin: [0, 0, 0],
    };
    assert!(!bad_current.is_valid());
    // a coordinate outside the grid
    let out_of_range = SerializableGrid {
        tetris: vec![spiece(&[(8, 0, 0)], TetrisColor::Red, false)],
        current: 0,
        origin: [0, 0, 0],
    };
    assert!(!out_of_range.is_valid());
    // two blocks on one cell
    let duplicate = SerializableGrid {
        tetris: vec![
            spiece(&[(1, 1, 1)], TetrisColor::Red, false),
            spiece(&[(1, 1, 1)], TetrisColor::Blue, false),
        ],
        current: 0,
        origin: [0, 0, 0],
    };
    assert!(!duplicate.is_valid());
    // the empty record is a valid (empty) grid
    let empty = SerializableGrid { tetris: vec![], current: 0, origin: [0, 0, 0] };
    assert!(empty.is_valid());
    assert_eq!(empty.to_grid().tetris.len(), 0);
}

#[test]
fn display_blocks_hold_letters_then_grid() {
    let g = sample_grid();
    let blocks = Blocks::new(&g, 0);
    // 51 decorative blocks, then one entry per grid block
    assert_eq!(blocks.vec.len(), 51 + 4);
    // the first decorative block, unshifted
    assert_eq!(blocks.vec[0].c, GridCoord::new(10, 25, 20));
    assert_eq!(blocks.vec[0].color, TetrisColor::Red);
    // with a horizontal offset the letters shift, the rest does not change
    let shifted = Blocks::new(&g, -5);
    assert_eq!(shifted.vec[0].c, GridCoord::new(5, 25, 20));
    assert_eq!(shifted.vec[51], blocks.vec[51]);
    // grid blocks are translated by the grid's origin (-4, 1, -3)
    assert_eq!(blocks.vec[51].c, GridCoord::new(-4, 1, -3));
    assert_eq!(blocks.vec[51].color, TetrisColor::Green);
    assert_eq!(blocks.vec[53].c, GridCoord::new(0, 15, 1));
    assert_eq!(blocks.vec[53].color, TetrisColor::Magenta);
}

#[test]
fn display_blocks_from_serialized_peer_grid() {
    let sg = SerializableGrid {
        tetris: vec![spiece(&[(2, 3, 4)], TetrisColor::Blue, true)],
        current: 0,
        origin: [9, 9, 9], // the stored origin is ignored; the caller supplies one
    };
    assert!(sg.is_valid());
    let blocks = Blocks::from_serialized(&sg, GridCoord::new(-15, 1, -3));
    assert_eq!(blocks.vec.len(), 1);
    assert_eq!(blocks.vec[0].c, GridCoord::new(-13, 4, 1));
    assert_eq!(blocks.vec[0].color, TetrisColor::Blue);
}

#[test]
fn render_batching_groups_by_model() {
    let mut igs: InstanceGroups<u32, u8> = InstanceGroups::new();
    let ma = ModelRef::new(0);
    let mb = ModelRef::new(1);
    igs.render(ma, 10);
    igs.render(mb, 20);
    igs.render(ma, 11);
    igs.render_batch(ma, vec![12, 13]);
    assert_eq!(igs.static_groups.len(), 2);
    assert_eq!(igs.static_groups[0].instances, vec![10, 11, 12, 13]);
    assert_eq!(igs.static_groups[1].instances, vec![20]);
}

#[test]
fn render_clear_keeps_groups_but_empties_lists() {
    let mut igs: InstanceGroups<u32, u8> = InstanceGroups::new();
    let ma = ModelRef::new(0);
    igs.render(ma, 1);
    igs.render_anim(ma, 2, vec![7, 8], 0);
    igs.clear();
    assert_eq!(igs.static_groups.len(), 1);
    assert!(igs.static_groups[0].instances.is_empty());
    assert_eq!(igs.anim_groups.len(), 1);
    assert!(igs.anim_groups[0].instances.is_empty());
    assert!(igs.anim_groups[0].bones.is_empty());
    // a later frame reuses the same group
    igs.render(ma, 3);
    assert_eq!(igs.static_groups.len(), 1);
    assert_eq!(igs.static_groups[0].instances, vec![3]);
}

#[test]
fn render_anim_pads_bones_per_instance() {
    let mut igs: InstanceGroups<u32, u8> = InstanceGroups::new();
    let ma = ModelRef::new(4);
    igs.render_anim(ma, 1, vec![5, 6, 7], 0);
    igs.render_anim(ma, 2, vec![9], 0);
    assert_eq!(igs.anim_groups.len(), 1);
    assert_eq!(igs.anim_groups[0].instances, vec![1, 2]);
    assert_eq!(igs.anim_groups[0].bones.len(), 2 * BONE_MAX);
    assert_eq!(&igs.anim_groups[0].bones[..3], &[5, 6, 7]);
    assert!(igs.anim_groups[0].bones[3..BONE_MAX].iter().all(|&b| b == 0));
    assert_eq!(igs.anim_groups[0].bones[BONE_MAX], 9);
    assert!(igs.anim_groups[0].bones[BONE_MAX + 1..].iter().all(|&b| b == 0));
}

#[test]
fn handles_carry_their_index() {
    assert_eq!(ModelRef::new(3), ModelRef::new(3));
    assert!(ModelRef::new(3) != ModelRef::new(4));
    let s = real3d::audio::SoundID(1);
    assert_eq!(s.0, 1);
}
