use tetris_core::{Block, BlockType, Grid, Point, ROWS};

fn right(block: &mut Block, iter: i32) {
    for _ in 0..iter {
        block.right(|_| false);
    }
}

fn left(block: &mut Block, iter: i32) {
    for _ in 0..iter {
        block.left(|_| false);
    }
}

#[test]
fn grid_fill() {
    let mut grid = Grid::new();
    let block = Block::new(BlockType::J);
    grid.fill(&block);

    let data = grid.get_data();
    assert_eq!(data[0][0], 2);
    assert_eq!(data[1][0..3], [2_u8, 2_u8, 2_u8]);
}

#[test]
fn grid_remove() {
    let mut grid = Grid::new();
    let mut block = Block::new(BlockType::I);

    block.down(|_| false);
    grid.fill(&block);

    grid.remove_row(1);

    assert_eq!(grid.get_data().len(), 20);
    assert_eq!(
        grid.get_data().iter().fold(0, |acc, r| if r
            .iter()
            .filter(|c| c > &&0_u8)
            .collect::<Vec<&u8>>()
            .len()
            == 0
        {
            acc + 1
        } else {
            acc
        }),
        20
    );
}

#[test]
fn grid_erase1() {
    let mut grid = Grid::new();

    let mut block = Block::new(BlockType::Z);
    block.drop(|_| false);
    grid.fill(&block);

    let mut block = Block::new(BlockType::Z);
    right(&mut block, 2);
    block.drop(|_| false);
    grid.fill(&block);

    let mut block = Block::new(BlockType::Z);
    right(&mut block, 4);
    block.drop(|_| false);
    grid.fill(&block);

    let mut block = Block::new(BlockType::Z);
    right(&mut block, 6);
    block.drop(|_| false);
    grid.fill(&block);

    let mut block = Block::new(BlockType::T);
    block.rotate();
    right(&mut block, 8);
    block.drop(|_| false);
    grid.fill(&block);

    let data = grid.get_data().clone();

    assert_eq!(
        data[17][0..10],
        [0_u8, 0_u8, 0_u8, 0_u8, 0_u8, 0_u8, 0_u8, 0_u8, 0_u8, 1_u8]
    );
    assert_eq!(
        data[18][0..10],
        [5_u8, 5_u8, 5_u8, 5_u8, 5_u8, 5_u8, 5_u8, 5_u8, 1_u8, 1_u8]
    );
    assert_eq!(
        data[19][0..10],
        [0_u8, 5_u8, 5_u8, 5_u8, 5_u8, 5_u8, 5_u8, 5_u8, 5_u8, 1_u8]
    );

    grid.erase_full_row(&block);

    let data = grid.get_data();
    assert_eq!(
        data[18][0..10],
        [0_u8, 0_u8, 0_u8, 0_u8, 0_u8, 0_u8, 0_u8, 0_u8, 0_u8, 1_u8]
    );
    assert_eq!(
        data[19][0..10],
        [0_u8, 5_u8, 5_u8, 5_u8, 5_u8, 5_u8, 5_u8, 5_u8, 5_u8, 1_u8]
    );
}

#[test]
fn grid_erase2() {
    let mut grid = Grid::new();

    let mut block = Block::new(BlockType::I);
    block.drop(|p| !grid.is_empty(p));
    grid.fill(&block);

    let mut block = Block::new(BlockType::I);
    right(&mut block, 4);
    block.drop(|p| !grid.is_empty(p));
    grid.fill(&block);

    let mut block = Block::new(BlockType::I);
    right(&mut block, 1);
    block.drop(|p| !grid.is_empty(p));
    grid.fill(&block);

    let mut block = Block::new(BlockType::I);
    right(&mut block, 5);
    block.drop(|p| !grid.is_empty(p));
    grid.fill(&block);

    let mut block = Block::new(BlockType::I);
    right(&mut block, 1);
    block.drop(|p| !grid.is_empty(p));
    grid.fill(&block);

    let mut block = Block::new(BlockType::L);
    right(&mut block, 6);
    block.drop(|p| !grid.is_empty(p));
    grid.fill(&block);

    let mut block = Block::new(BlockType::I);
    right(&mut block, 1);
    block.drop(|p| !grid.is_empty(p));
    grid.fill(&block);

    let mut block = Block::new(BlockType::L);
    right(&mut block, 5);
    block.drop(|p| !grid.is_empty(p));
    grid.fill(&block);

    let mut block = Block::new(BlockType::I);
    block.rotate();
    right(&mut block, 7);
    block.drop(|p| !grid.is_empty(p));
    grid.fill(&block);

    let mut block = Block::new(BlockType::I);
    block.rotate();
    left(&mut block, 2);
    block.drop(|p| !grid.is_empty(p));
    grid.fill(&block);

    let data = grid.get_data().clone();
    assert_eq!(
        data[15][0..10],
        [7_u8, 0_u8, 0_u8, 0_u8, 0_u8, 0_u8, 0_u8, 3_u8, 0_u8, 0_u8]
    );
    assert_eq!(
        data[16][0..10],
        [7_u8, 7_u8, 7_u8, 7_u8, 7_u8, 3_u8, 3_u8, 3_u8, 3_u8, 7_u8]
    );
    assert_eq!(
        data[17][0..10],
        [7_u8, 7_u8, 7_u8, 7_u8, 7_u8, 0_u8, 3_u8, 3_u8, 3_u8, 7_u8]
    );
    assert_eq!(
        data[18][0..10],
        [7_u8, 7_u8, 7_u8, 7_u8, 7_u8, 7_u8, 7_u8, 7_u8, 7_u8, 7_u8]
    );
    assert_eq!(
        data[19][0..10],
        [7_u8, 7_u8, 7_u8, 7_u8, 7_u8, 7_u8, 7_u8, 7_u8, 0_u8, 7_u8]
    );

    grid.erase_full_row(&block);

    let data = grid.get_data().clone();
    assert_eq!(
        data[17][0..10],
        [7_u8, 0_u8, 0_u8, 0_u8, 0_u8, 0_u8, 0_u8, 3_u8, 0_u8, 0_u8]
    );
    assert_eq!(
        data[18][0..10],
        [7_u8, 7_u8, 7_u8, 7_u8, 7_u8, 0_u8, 3_u8, 3_u8, 3_u8, 7_u8]
    );
    assert_eq!(
        data[19][0..10],
        [7_u8, 7_u8, 7_u8, 7_u8, 7_u8, 7_u8, 7_u8, 7_u8, 0_u8, 7_u8]
    );
}

fn i_block_at(x: i32, y: i32) -> Block {
    let mut block = Block::new(BlockType::I);
    block.shift(x, y);
    block
}

#[test]
fn full_bottom_row_is_found_and_cleared() {
    let mut grid = Grid::new();
    let bottom = ROWS as i32 - 1;
    // A marker one row up that must move down by one.
    grid.fill(&i_block_at(0, bottom - 1));
    grid.fill(&i_block_at(0, bottom));
    grid.fill(&i_block_at(4, bottom));
    let mut last = Block::new(BlockType::O);
    last.shift(8, bottom - 1);
    grid.fill(&last);
    assert_eq!(grid.get_data()[19], vec![7, 7, 7, 7, 7, 7, 7, 7, 6, 6]);

    let range = last.range();
    assert_eq!(grid.find_full_rows(&range), vec![19_usize]);
    grid.erase_full_row(&last);
    let data = grid.get_data();
    assert_eq!(data[19], vec![7, 7, 7, 7, 0, 0, 0, 0, 6, 6]);
    assert_eq!(data[18], vec![0; 10]);
    assert_eq!(data[0], vec![0; 10]);
}

#[test]
fn find_full_rows_only_looks_at_the_span() {
    let mut grid = Grid::new();
    for y in [17, 18] {
        grid.fill(&i_block_at(0, y));
        grid.fill(&i_block_at(4, y));
        let mut o = Block::new(BlockType::O);
        o.shift(8, y - 1);
        grid.fill(&o);
    }
    let both = grid.find_full_rows(&tetris_core::Rect::new(0, 16, 4, 4));
    assert_eq!(both, vec![17_usize, 18_usize]);
    let upper = grid.find_full_rows(&tetris_core::Rect::new(0, 10, 4, 8));
    assert_eq!(upper, vec![17_usize]);
    let none = grid.find_full_rows(&tetris_core::Rect::new(0, -5, 4, 3));
    assert!(none.is_empty());
}

#[test]
fn erase_clears_two_rows_at_once() {
    let mut grid = Grid::new();
    grid.fill(&i_block_at(0, 16));
    for y in [17, 18] {
        grid.fill(&i_block_at(0, y));
        grid.fill(&i_block_at(4, y));
    }
    let mut o = Block::new(BlockType::O);
    o.shift(8, 17);
    grid.fill(&o);
    grid.erase_full_row(&o);
    let data = grid.get_data();
    assert_eq!(data[18], vec![7, 7, 7, 7, 0, 0, 0, 0, 0, 0]);
    assert_eq!(data[17], vec![0; 10]);
    assert_eq!(data[16], vec![0; 10]);
}

#[test]
fn remove_row_shifts_rows_above_down() {
    let mut grid = Grid::new();
    grid.fill(&i_block_at(0, 18));
    grid.fill(&i_block_at(0, 19));
    grid.fill(&i_block_at(4, 19));
    let mut o = Block::new(BlockType::O);
    o.shift(8, 18);
    grid.fill(&o);
    grid.remove_row(19);
    let data = grid.get_data();
    assert_eq!(data.len(), ROWS);
    assert_eq!(data[19], vec![7, 7, 7, 7, 0, 0, 0, 0, 6, 6]);
    assert_eq!(data[0], vec![0; 10]);
    for r in 0..19 {
        assert_eq!(data[r], vec![0; 10]);
    }
}

#[test]
fn fill_then_is_empty() {
    let mut grid = Grid::new();
    let block = Block::new(BlockType::T);
    grid.fill(&block);
    assert!(!grid.is_empty(&block.points()));
    assert!(grid.is_empty(&vec![Point::new(-1, 0), Point::new(0, -1), Point::new(10, 3), Point::new(2, 20)]));
    assert!(grid.is_empty(&vec![Point::new(0, 0)]));
    assert!(!grid.is_empty(&vec![Point::new(1, 0)]));
}

#[test]
fn fill_skips_cells_off_the_board() {
    let mut grid = Grid::new();
    let mut block = Block::new(BlockType::I);
    block.shift(-2, -1);
    grid.fill(&block);
    assert_eq!(grid.get_data().iter().flatten().filter(|c| **c != 0).count(), 0);
    let mut block = Block::new(BlockType::I);
    block.shift(8, 0);
    grid.fill(&block);
    assert_eq!(grid.get_data()[0], vec![0, 0, 0, 0, 0, 0, 0, 0, 7, 7]);
}

#[test]
fn bottom_row_rests() {
    let grid = Grid::new();
    assert!(!grid.is_empty_below(&vec![Point::new(3, 19)]));
    assert!(!grid.is_empty_below(&i_block_at(0, 19).points()));
    assert!(grid.is_empty_below(&i_block_at(0, 18).points()));
    assert!(grid.is_empty_below(&vec![Point::new(3, 25), Point::new(-4, -4)]));
}

#[test]
fn occupied_cell_below_rests() {
    let mut grid = Grid::new();
    grid.fill(&i_block_at(0, 19));
    assert!(!grid.is_empty_below(&vec![Point::new(2, 18)]));
    assert!(grid.is_empty_below(&vec![Point::new(5, 18)]));
}

#[test]
fn point_above_the_board_rests_on_row_zero() {
    let mut grid = Grid::new();
    grid.fill(&i_block_at(0, 0));
    assert!(!grid.is_empty_below(&vec![Point::new(0, -1)]));
    assert!(grid.is_empty_below(&vec![Point::new(5, -1)]));
    assert!(grid.is_empty_below(&vec![Point::new(0, -2)]));
}
