use tetris_core::{Block, BlockType, Point, COLUMNS, ROWS};

const KINDS: [BlockType; 7] = [
    BlockType::T,
    BlockType::J,
    BlockType::L,
    BlockType::S,
    BlockType::Z,
    BlockType::O,
    BlockType::I,
];

fn coords(points: &[Point]) -> Vec<(i32, i32)> {
    points.iter().map(|p| (p.x(), p.y())).collect()
}

#[test]
fn codes_round_trip() {
    for (i, kind) in KINDS.iter().enumerate() {
        assert_eq!(kind.index() as usize, i + 1);
        assert_eq!(BlockType::new(kind.index()), *kind);
    }
    assert_eq!(BlockType::new(0), BlockType::T);
    assert_eq!(BlockType::new(8), BlockType::T);
    assert_eq!(BlockType::new(255), BlockType::T);
}

#[test]
fn colors_and_patterns() {
    assert_eq!(BlockType::T.color(), (128, 0, 128));
    assert_eq!(BlockType::J.color(), (0, 0, 255));
    assert_eq!(BlockType::L.color(), (255, 165, 0));
    assert_eq!(BlockType::S.color(), (128, 255, 0));
    assert_eq!(BlockType::Z.color(), (255, 0, 0));
    assert_eq!(BlockType::O.color(), (255, 255, 0));
    assert_eq!(BlockType::I.color(), (0, 255, 255));
    assert_eq!(coords(&BlockType::L.points()), vec![(2, 0), (2, 1), (1, 1), (0, 1)]);
    assert_eq!(coords(&BlockType::I.points()), vec![(0, 0), (1, 0), (2, 0), (3, 0)]);
}

#[test]
fn random_kinds_vary() {
    let mut seen = std::collections::HashSet::new();
    for _ in 0..500 {
        seen.insert(BlockType::random().index());
    }
    assert!(seen.len() > 1);
    assert!(seen.iter().all(|c| (1..=7).contains(c)));
}

#[test]
fn spawn_then_align_sits_above_the_board_centred() {
    for kind in KINDS {
        let mut block = Block::new(kind);
        block.align_to_start();
        let r = block.range();
        assert_eq!(r.y() + r.height() as i32, 0);
        assert_eq!(r.x(), (COLUMNS / 2 - r.width() / 2) as i32);
    }
    let mut block = Block::new(BlockType::I);
    block.align_to_start();
    assert_eq!(coords(block.points_ref()), vec![(3, -1), (4, -1), (5, -1), (6, -1)]);
    let mut block = Block::new(BlockType::T);
    block.align_to_start();
    assert_eq!(coords(block.points_ref()), vec![(5, -2), (4, -1), (5, -1), (6, -1)]);
}

#[test]
fn rotate_four_times_is_identity() {
    for kind in KINDS {
        let mut block = Block::new(kind);
        block.shift(4, 7);
        let before = coords(block.points_ref());
        for _ in 0..4 {
            block.rotate();
        }
        assert_eq!(coords(block.points_ref()), before);
    }
}

#[test]
fn rotate_turns_about_the_third_point() {
    let mut block = Block::new(BlockType::I);
    block.rotate();
    assert_eq!(coords(block.points_ref()), vec![(2, 2), (2, 1), (2, 0), (2, -1)]);
    let mut block = Block::new(BlockType::T);
    block.rotate();
    assert_eq!(coords(block.points_ref()), vec![(0, 1), (1, 2), (1, 1), (1, 0)]);
}

#[test]
fn moves_roll_back_when_blocked() {
    let mut block = Block::new(BlockType::O);
    block.left(|_| true);
    assert_eq!(coords(block.points_ref()), vec![(0, 0), (1, 0), (0, 1), (1, 1)]);
    block.right(|_| false);
    assert_eq!(coords(block.points_ref()), vec![(1, 0), (2, 0), (1, 1), (2, 1)]);
    block.down(|_| false);
    assert_eq!(coords(block.points_ref()), vec![(1, 1), (2, 1), (1, 2), (2, 2)]);
    block.down(|p| p.iter().any(|q| q.y() > 2));
    assert_eq!(coords(block.points_ref()), vec![(1, 1), (2, 1), (1, 2), (2, 2)]);
    block.left(|_| false);
    assert_eq!(coords(block.points_ref()), vec![(0, 1), (1, 1), (0, 2), (1, 2)]);
}

#[test]
fn drop_stops_on_first_obstruction_or_floor() {
    let mut block = Block::new(BlockType::O);
    block.drop(|_| false);
    let r = block.range();
    assert_eq!(r.y() + r.height() as i32, ROWS as i32);
    let mut block = Block::new(BlockType::O);
    block.drop(|p| p.iter().any(|q| q.y() >= 10));
    let r = block.range();
    assert_eq!(r.y(), 8);
    assert_eq!(r.height(), 2);
}

#[test]
fn range_of_points() {
    let mut block = Block::new(BlockType::S);
    block.shift(-3, 5);
    let r = block.range();
    assert_eq!((r.x(), r.y(), r.width(), r.height()), (-3, 5, 3, 2));
}

#[test]
fn adjust_bound_clamps_each_side() {
    let mut block = Block::new(BlockType::I);
    block.shift(-2, 0);
    block.adjust_bound();
    assert_eq!(coords(block.points_ref()), vec![(0, 0), (1, 0), (2, 0), (3, 0)]);
    let mut block = Block::new(BlockType::I);
    block.shift(8, 0);
    block.adjust_bound();
    assert_eq!(coords(block.points_ref()), vec![(6, 0), (7, 0), (8, 0), (9, 0)]);
    let mut block = Block::new(BlockType::J);
    block.shift(0, 20);
    block.adjust_bound();
    let r = block.range();
    assert_eq!(r.y() + r.height() as i32, ROWS as i32);
    let mut block = Block::new(BlockType::J);
    block.shift(0, -6);
    block.adjust_bound();
    assert_eq!(block.range().y(), -6);
}

#[test]
fn lookahead_is_loaded_and_applied() {
    let mut block = Block::new(BlockType::Z);
    assert!(block.next_ref().is_none());
    assert_eq!(block.next_type(), None);
    block.load_next();
    let next = block.next_type().unwrap();
    block.apply_next();
    assert_eq!(*block.type_ref(), next);
    assert_eq!(*block.color_ref(), next.color());
    let r = block.range();
    assert_eq!(r.y() + r.height() as i32, 0);
    assert!(block.next_type().is_some());
}

#[test]
fn update_moves_points_over() {
    let mut block = Block::new(BlockType::Z);
    let mut pts = vec![Point::new(1, 1), Point::new(2, 2), Point::new(3, 3), Point::new(4, 4)];
    block.update(&mut pts);
    assert!(pts.is_empty());
    assert_eq!(coords(&block.points()), vec![(1, 1), (2, 2), (3, 3), (4, 4)]);
}
