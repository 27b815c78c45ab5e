use real3d::grid::{
    xyz_to_index, index_to_xyz, Block, Grid, GridBlock, GridCoord, Tetris, TetrisColor, GRID_LEN,
};
use real3d::serialization::{SerializableBlock, SerializableGrid, SerializableTetris};

fn sblock(x: i32, y: i32, z: i32, color: TetrisColor) -> SerializableBlock {
    SerializableBlock { color, c: [x, y, z] }
}

fn spiece(cells: &[(i32, i32, i32)], color: TetrisColor, falling: bool) -> SerializableTetris {
    let mut blocks = Vec::new();
    for &(x, y, z) in cells {
        blocks.push(sblock(x, y, z, color));
    }
    SerializableTetris { blocks, falling }
}

/// Builds a deterministic grid from explicit pieces.
fn grid_of(pieces: Vec<SerializableTetris>, current: usize) -> Grid {
    let sg = SerializableGrid { tetris: pieces, current, origin: [0, 0, 0] };
    assert!(sg.is_valid());
    sg.to_grid()
}

fn piece_cells(g: &Grid, i: usize) -> Vec<(i32, i32, i32)> {
    g.tetris[i].blocks.iter().map(|b| (b.c.x, b.c.y, b.c.z)).collect()
}

fn cube_cells(x0: i32, y0: i32, z0: i32) -> Vec<(i32, i32, i32)> {
    let mut v = Vec::new();
    for dx in 0..2 {
        for dy in 0..2 {
            for dz in 0..2 {
                v.push((x0 + dx, y0 + dy, z0 + dz));
            }
        }
    }
    v
}

#[test]
fn index_round_trip() {
    for i in 0..GRID_LEN {
        let (x, y, z) = index_to_xyz(i);
        assert_eq!(xyz_to_index(x, y, z), i);
    }
    assert_eq!(xyz_to_index(0, 0, 0), 0);
    assert_eq!(xyz_to_index(0, 0, 7), 7);
    assert_eq!(xyz_to_index(1, 0, 0), 8);
    assert_eq!(xyz_to_index(0, 1, 0), 64);
    assert_eq!(xyz_to_index(7, 15, 7), GRID_LEN - 1);
}

#[test]
fn grid_block_is_vacant() {
    assert!(GridBlock::Vacant.is_vacant());
    assert!(!GridBlock::Occupied(0).is_vacant());
    assert!(!GridBlock::Occupied(7).is_vacant());
}

#[test]
fn fresh_grid_has_no_full_planes() {
    let g = Grid::new(GridCoord::new(-4, 1, -3));
    assert_eq!(g.check_planes(), Vec::<i32>::new());
    assert_eq!(g.origin, GridCoord::new(-4, 1, -3));
    assert!(!g.end);
    assert_eq!(g.current, 0);
    assert_eq!(g.tetris.len(), 1);
    assert!(g.tetris[0].falling);
    // the spawned piece's cells are marked with its index
    for b in &g.tetris[0].blocks {
        let t = g.tetris_at_coord(b.c);
        assert!(t.is_some());
    }
}

#[test]
fn occupancy_matches_blocks_after_rebuild() {
    let cells = cube_cells(4, 14, 4);
    let g = grid_of(vec![spiece(&cells, TetrisColor::Red, true)], 0);
    for &(x, y, z) in &cells {
        assert_eq!(g.grid[xyz_to_index(x, y, z)], GridBlock::Occupied(0));
    }
    // a vacant cell is claimed by nobody
    assert_eq!(g.grid[xyz_to_index(0, 0, 0)], GridBlock::Vacant);
    assert!(g.tetris_at_xyz(0, 0, 0).is_none());
    assert!(g.tetris_at_xyz(4, 14, 4).is_some());
}

#[test]
fn lower_to_floor_scenario() {
    // a 2x2x2 cube falls freely and lands with its bottom layer on y == 0
    let mut g = grid_of(vec![spiece(&cube_cells(4, 14, 4), TetrisColor::Red, true)], 0);
    let mut steps = 0;
    while g.tetris[0].falling {
        g.lower_tetris(0);
        steps += 1;
        assert!(steps < 100);
    }
    let min_y = g.tetris[0].blocks.iter().map(|b| b.c.y).min().unwrap();
    assert_eq!(min_y, 0);
    assert_eq!(steps, 15); // 14 descents, then the halting call
    // occupancy moved with the piece
    assert_eq!(g.grid[xyz_to_index(4, 0, 4)], GridBlock::Occupied(0));
    assert_eq!(g.grid[xyz_to_index(4, 14, 4)], GridBlock::Vacant);
}

#[test]
fn lower_onto_obstruction_scenario() {
    // a landed slab occupies y in {0, 1}; the falling cube must rest on top
    let slab = spiece(&cube_cells(4, 0, 4), TetrisColor::Green, false);
    let cube = spiece(&cube_cells(4, 13, 4), TetrisColor::Red, true);
    let mut g = grid_of(vec![slab, cube], 1);
    while g.tetris[1].falling {
        g.lower_tetris(1);
    }
    let min_y = g.tetris[1].blocks.iter().map(|b| b.c.y).min().unwrap();
    let obstruction_top = g.tetris[0].blocks.iter().map(|b| b.c.y).max().unwrap();
    assert_eq!(min_y, obstruction_top + 1);
    assert_eq!(min_y, 2);
}

#[test]
fn drop_tetris_hard_drop() {
    let slab = spiece(&cube_cells(4, 0, 4), TetrisColor::Green, false);
    let cube = spiece(&cube_cells(4, 13, 4), TetrisColor::Red, true);
    let mut g = grid_of(vec![slab, cube], 1);
    g.drop_tetris(1);
    assert!(!g.tetris[1].falling);
    let min_y = g.tetris[1].blocks.iter().map(|b| b.c.y).min().unwrap();
    assert_eq!(min_y, 2);
    // all blocks moved by the same delta: the cube shape is intact
    let mut cells = piece_cells(&g, 1);
    cells.sort();
    let mut expect = cube_cells(4, 2, 4);
    expect.sort();
    assert_eq!(cells, expect);
    // the grid matches the new cells
    for &(x, y, z) in &expect {
        assert_eq!(g.grid[xyz_to_index(x, y, z)], GridBlock::Occupied(1));
    }
}

#[test]
fn drop_on_landed_piece_only_clears_flag() {
    let mut g = grid_of(vec![spiece(&cube_cells(4, 5, 4), TetrisColor::Red, false)], 0);
    let before = piece_cells(&g, 0);
    g.drop_tetris(0);
    assert!(!g.tetris[0].falling);
    assert_eq!(piece_cells(&g, 0), before);
}

#[test]
fn move_xz_directions() {
    let mut g = grid_of(vec![spiece(&[(4, 5, 4)], TetrisColor::Blue, true)], 0);
    g.move_xz(0, 0); // left: x - 1
    assert_eq!(piece_cells(&g, 0), vec![(3, 5, 4)]);
    g.move_xz(0, 1); // right: x + 1
    assert_eq!(piece_cells(&g, 0), vec![(4, 5, 4)]);
    g.move_xz(0, 2); // forward: z + 1
    assert_eq!(piece_cells(&g, 0), vec![(4, 5, 5)]);
    g.move_xz(0, 3); // back: z - 1
    assert_eq!(piece_cells(&g, 0), vec![(4, 5, 4)]);
    g.move_xz(0, 9); // unknown direction: no move
    assert_eq!(piece_cells(&g, 0), vec![(4, 5, 4)]);
}

#[test]
fn move_xz_blocked_at_wall() {
    let mut g = grid_of(vec![spiece(&[(0, 5, 4), (1, 5, 4)], TetrisColor::Blue, true)], 0);
    g.move_xz(0, 0); // left would leave the grid: whole move rejected
    assert_eq!(piece_cells(&g, 0), vec![(0, 5, 4), (1, 5, 4)]);
    // occupancy untouched
    assert_eq!(g.grid[xyz_to_index(0, 5, 4)], GridBlock::Occupied(0));
    assert_eq!(g.grid[xyz_to_index(1, 5, 4)], GridBlock::Occupied(0));
}

#[test]
fn move_xz_blocked_by_other_piece_is_atomic() {
    // the right neighbor of only ONE block is taken: still nothing moves
    let mover = spiece(&[(2, 5, 4), (2, 6, 4)], TetrisColor::Blue, true);
    let wall = spiece(&[(3, 6, 4)], TetrisColor::Green, false);
    let mut g = grid_of(vec![mover, wall], 0);
    g.move_xz(0, 1);
    assert_eq!(piece_cells(&g, 0), vec![(2, 5, 4), (2, 6, 4)]);
    assert_eq!(piece_cells(&g, 1), vec![(3, 6, 4)]);
}

#[test]
fn move_xz_ignores_landed_piece() {
    let mut g = grid_of(vec![spiece(&[(4, 5, 4)], TetrisColor::Blue, false)], 0);
    g.move_xz(0, 1);
    assert_eq!(piece_cells(&g, 0), vec![(4, 5, 4)]);
}

#[test]
fn lower_is_atomic_against_uneven_surface() {
    // an L-shaped piece over an uneven floor: one column would land, the
    // other could continue; the whole piece stops
    let floor = spiece(&[(4, 0, 4)], TetrisColor::Green, false);
    let ell = spiece(&[(4, 1, 4), (5, 1, 4)], TetrisColor::Red, true);
    let mut g = grid_of(vec![floor, ell], 1);
    g.lower_tetris(1);
    assert!(!g.tetris[1].falling);
    assert_eq!(piece_cells(&g, 1), vec![(4, 1, 4), (5, 1, 4)]);
}

#[test]
fn check_planes_reports_full_planes_ascending() {
    // fill planes 0 and 2 completely, plane 1 only partially
    let mut cells0 = Vec::new();
    let mut cells2 = Vec::new();
    for x in 0..8 {
        for z in 0..8 {
            cells0.push((x, 0, z));
            cells2.push((x, 2, z));
        }
    }
    let p0 = spiece(&cells0, TetrisColor::Green, false);
    let p1 = spiece(&[(3, 1, 3)], TetrisColor::Red, false);
    let p2 = spiece(&cells2, TetrisColor::Blue, false);
    let g = grid_of(vec![p0, p1, p2], 0);
    assert_eq!(g.check_planes(), vec![0, 2]);
}

#[test]
fn get_plane_reads_one_layer() {
    let g = grid_of(vec![spiece(&[(0, 3, 0)], TetrisColor::Red, false)], 0);
    let plane = g.get_plane(3);
    assert_eq!(plane.len(), 64);
    assert_eq!(plane[0], GridBlock::Occupied(0));
    assert!(plane[1..].iter().all(|c| c.is_vacant()));
    assert!(g.get_plane(0).iter().all(|c| c.is_vacant()));
}

#[test]
fn clear_plane_deletes_lowers_and_keeps() {
    // one piece fills plane 0 and adds a tower at (0, 1..=2, 0); clearing
    // plane 0 deletes the plane blocks, drops the tower by one, and leaves a
    // landed piece above plane level untouched (it has no block on plane 0)
    let mut cells = Vec::new();
    for x in 0..8 {
        for z in 0..8 {
            cells.push((x, 0, z));
        }
    }
    cells.push((0, 1, 0));
    cells.push((0, 2, 0));
    let filler = spiece(&cells, TetrisColor::Green, false);
    let bystander = spiece(&[(7, 5, 7)], TetrisColor::Red, false);
    let mut g = grid_of(vec![filler, bystander], 0);
    assert!(g.can_clear_plane(0));
    g.clear_plane(0);
    // the tower dropped by exactly one; the 64 plane blocks are gone
    assert_eq!(piece_cells(&g, 0), vec![(0, 0, 0), (0, 1, 0)]);
    // the bystander without a block on the plane did not move
    assert_eq!(piece_cells(&g, 1), vec![(7, 5, 7)]);
    // occupancy rebuilt to match
    assert_eq!(g.grid[xyz_to_index(0, 0, 0)], GridBlock::Occupied(0));
    assert_eq!(g.grid[xyz_to_index(0, 1, 0)], GridBlock::Occupied(0));
    assert_eq!(g.grid[xyz_to_index(0, 2, 0)], GridBlock::Vacant);
    assert_eq!(g.grid[xyz_to_index(1, 0, 0)], GridBlock::Vacant);
    assert_eq!(g.grid[xyz_to_index(7, 5, 7)], GridBlock::Occupied(1));
    // the cleared plane is no longer full
    assert_eq!(g.check_planes(), Vec::<i32>::new());
}

#[test]
fn clear_plane_blocked_by_unmoved_piece_is_detected() {
    // a revisited piece would drop a block onto a piece that stays put
    let mut cells = Vec::new();
    for x in 0..8 {
        for z in 0..8 {
            cells.push((x, 0, z));
        }
    }
    cells.push((0, 2, 0));
    let filler = spiece(&cells, TetrisColor::Green, false);
    let in_the_way = spiece(&[(0, 1, 0)], TetrisColor::Red, false);
    let g = grid_of(vec![filler, in_the_way], 0);
    assert!(!g.can_clear_plane(0));
}

#[test]
fn split_piece_fragments_one_piece() {
    let tower = spiece(&[(3, 0, 3), (3, 1, 3), (3, 2, 3)], TetrisColor::Cyan, false);
    let mut g = grid_of(vec![tower], 0);
    let new_blocks = g.split_piece(0, 1);
    // the block on plane 1 is gone, the block above dropped, the block below stays
    assert_eq!(piece_cells(&g, 0), vec![(3, 0, 3), (3, 1, 3)]);
    assert_eq!(new_blocks.len(), 2);
    assert_eq!(new_blocks[0].c, GridCoord::new(3, 0, 3));
    assert_eq!(new_blocks[1].c, GridCoord::new(3, 1, 3));
    assert_eq!(g.grid[xyz_to_index(3, 2, 3)], GridBlock::Vacant);
}

#[test]
fn end_game_recolors_everything() {
    let mut g = grid_of(
        vec![
            spiece(&[(1, 1, 1)], TetrisColor::Red, false),
            spiece(&[(2, 2, 2)], TetrisColor::Blue, true),
        ],
        1,
    );
    g.end_game();
    assert!(g.end);
    for t in &g.tetris {
        for b in &t.blocks {
            assert_eq!(b.color, TetrisColor::Mix);
        }
    }
    // cells and flags are untouched
    assert_eq!(piece_cells(&g, 0), vec![(1, 1, 1)]);
    assert!(g.tetris[1].falling);
}

#[test]
fn add_tetris_spawns_on_open_grid() {
    let mut g = grid_of(vec![spiece(&[(0, 0, 0)], TetrisColor::Red, false)], 0);
    g.add_tetris();
    assert!(!g.end);
    assert_eq!(g.tetris.len(), 2);
    assert_eq!(g.current, 1);
    assert!(g.tetris[1].falling);
    // every spawned block's cell is marked with the new piece's index
    for b in &g.tetris[1].blocks {
        let k = xyz_to_index(b.c.x, b.c.y, b.c.z);
        assert_eq!(g.grid[k], GridBlock::Occupied(1));
    }
}

#[test]
fn add_tetris_into_full_spawn_region_ends_game() {
    // every template spawns within x 3..=6, y 12..=15, z 4..=5; fill it all
    let mut cells = Vec::new();
    for x in 3..7 {
        for y in 12..16 {
            for z in 4..6 {
                cells.push((x, y, z));
            }
        }
    }
    let blocker = spiece(&cells, TetrisColor::Yellow, false);
    let mut g = grid_of(vec![blocker], 0);
    g.add_tetris();
    assert!(g.end);
    assert_eq!(g.tetris.len(), 1); // nothing was placed
    for b in &g.tetris[0].blocks {
        assert_eq!(b.color, TetrisColor::Mix);
    }
}

#[test]
fn place_tetris_known_piece() {
    let mut g = grid_of(vec![], 0);
    let piece = Tetris {
        blocks: vec![
            Block { c: GridCoord::new(4, 15, 4), color: TetrisColor::Cyan },
            Block { c: GridCoord::new(4, 14, 4), color: TetrisColor::Cyan },
        ],
        falling: true,
    };
    g.place_tetris(piece);
    assert_eq!(g.tetris.len(), 1);
    assert_eq!(g.current, 0);
    assert_eq!(piece_cells(&g, 0), vec![(4, 15, 4), (4, 14, 4)]);
    assert_eq!(g.grid[xyz_to_index(4, 15, 4)], GridBlock::Occupied(0));
}

#[test]
fn template_shapes_are_fixed() {
    let cube = Tetris::template(0);
    assert_eq!(cube.blocks.len(), 8);
    assert!(cube.falling);
    assert_eq!(cube.blocks[0].c, GridCoord::new(5, 15, 5));
    assert_eq!(cube.blocks[0].color, TetrisColor::Red);
    let line = Tetris::template(1);
    assert_eq!(line.blocks.len(), 4);
    assert_eq!(line.blocks[0].c, GridCoord::new(4, 12, 4));
    assert_eq!(line.blocks[0].color, TetrisColor::Green);
    for shape in 0..6 {
        let t = Tetris::template(shape);
        assert!(t.falling);
        assert!(t.blocks.len() == 4 || t.blocks.len() == 8);
        for b in &t.blocks {
            assert!(b.c.y >= 12 && b.c.y < 16);
        }
    }
}

#[test]
fn clear_plane_can_empty_a_piece_but_keeps_it() {
    // the filler lives only on plane 1: clearing empties it, yet it stays in
    // the list so later pieces keep their indices; a floating piece without a
    // block on the plane does not move
    let mut cells = Vec::new();
    for x in 0..8 {
        for z in 0..8 {
            cells.push((x, 1, z));
        }
    }
    let filler = spiece(&cells, TetrisColor::Green, false);
    let floater = spiece(&[(0, 0, 0), (0, 3, 0)], TetrisColor::Red, false);
    let mut g = grid_of(vec![filler, floater], 0);
    assert_eq!(g.check_planes(), vec![1]);
    assert!(g.can_clear_plane(1));
    g.clear_plane(1);
    assert_eq!(g.tetris.len(), 2);
    assert!(g.tetris[0].blocks.is_empty());
    assert_eq!(piece_cells(&g, 1), vec![(0, 0, 0), (0, 3, 0)]);
    assert_eq!(g.grid[xyz_to_index(0, 1, 0)], GridBlock::Vacant);
    assert_eq!(g.grid[xyz_to_index(0, 3, 0)], GridBlock::Occupied(1));
    assert_eq!(g.check_planes(), Vec::<i32>::new());
}

#[test]
fn empty_piece_operations_are_harmless() {
    // a piece emptied by clears stays in the list; operating on it is safe
    let empty = SerializableTetris { blocks: vec![], falling: true };
    let other = spiece(&[(3, 3, 3)], TetrisColor::Cyan, false);
    let mut g = grid_of(vec![empty, other], 0);
    g.drop_tetris(0);
    assert!(!g.tetris[0].falling);
    assert!(g.tetris[0].blocks.is_empty());
    g.move_xz(0, 1);
    assert!(g.tetris[0].blocks.is_empty());
    assert_eq!(piece_cells(&g, 1), vec![(3, 3, 3)]);
}
