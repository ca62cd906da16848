use tetris_core::{
    init_tetris, init_worker, on_event, tick_event, user_event, worker_guard, AppEvent, Block,
    BlockEvent, BlockType, Msg, Ticker, Tetris, Worker, ROWS,
};

fn coords(b: &Block) -> Vec<(i32, i32)> {
    b.points_ref().iter().map(|p| (p.x(), p.y())).collect()
}

fn game_with(kind: BlockType) -> Tetris {
    let mut t = Tetris::new();
    t.block = Block::new(kind);
    t.init();
    t
}

#[test]
fn ticker_pulses_every_period() {
    let mut t = Ticker::new(3);
    let pulses: Vec<bool> = (0..7).map(|_| t.tick()).collect();
    assert_eq!(pulses, vec![false, false, true, false, false, true, false]);
    let mut every = Ticker::new(0);
    assert!(every.tick());
    assert!(every.tick());
}

#[test]
fn init_aligns_and_loads_lookahead() {
    let t = game_with(BlockType::I);
    assert_eq!(coords(&t.block), vec![(3, -1), (4, -1), (5, -1), (6, -1)]);
    assert!(t.block.next_type().is_some());
    let mut again = t;
    let next = again.block.next_type();
    again.init();
    assert_eq!(coords(&again.block), vec![(3, -1), (4, -1), (5, -1), (6, -1)]);
    assert_eq!(again.block.next_type(), next);
}

#[test]
fn drop_then_left_stops_after_lock() {
    let mut t = game_with(BlockType::I);
    let next = t.block.next_type().unwrap();
    t.event(Some(vec![BlockEvent::Drop, BlockEvent::Left]));
    let data = t.get_grid();
    assert_eq!(data.get_data()[19], vec![0, 0, 0, 7, 7, 7, 7, 0, 0, 0]);
    assert_eq!(*t.block.type_ref(), next);
    let r = t.block.range();
    assert_eq!(r.y() + r.height() as i32, 0);
    assert!(t.block.next_type().is_some());
}

#[test]
fn events_move_and_clamp() {
    let mut t = game_with(BlockType::O);
    t.event(Some(vec![BlockEvent::Left; 8]));
    assert_eq!(t.block.range().x(), 0);
    t.event(Some(vec![BlockEvent::Right; 12]));
    let r = t.block.range();
    assert_eq!(r.x() + r.width() as i32, 10);
    t.event(Some(vec![BlockEvent::Down, BlockEvent::Down, BlockEvent::Rotate, BlockEvent::Idle]));
    assert_eq!(coords(&t.block), vec![(8, 0), (9, 0), (8, 1), (9, 1)]);
    let before = coords(&t.block);
    t.event(None);
    assert_eq!(coords(&t.block), before);
    let fresh = t.grid.get_data().iter().flatten().all(|c| *c == 0);
    assert!(fresh);
}

#[test]
fn rotate_near_wall_is_clamped() {
    let mut t = game_with(BlockType::I);
    t.event(Some(vec![BlockEvent::Down, BlockEvent::Down, BlockEvent::Down, BlockEvent::Rotate]));
    // Vertical at column 5, rows 0..=3 after the turn about (5, 2).
    assert_eq!(coords(&t.block), vec![(5, 4), (5, 3), (5, 2), (5, 1)]);
    t.event(Some(vec![BlockEvent::Right; 6]));
    assert_eq!(t.block.range().x(), 9);
    t.event(Some(vec![BlockEvent::Rotate]));
    let r = t.block.range();
    assert_eq!(r.x() + r.width() as i32, 10);
    assert_eq!(r.width(), 4);
}

#[test]
fn gravity_moves_down_on_pulses_and_locks_at_the_floor() {
    let mut t = game_with(BlockType::O);
    for _ in 0..9 {
        t.tick();
    }
    assert_eq!(t.block.range().y(), -2);
    t.tick();
    assert_eq!(t.block.range().y(), -1);
    for _ in 0..(10 * (ROWS - 1)) {
        t.tick();
    }
    let data = t.get_grid();
    assert_eq!(data.get_data()[19][4..6], [6, 6]);
    assert_eq!(data.get_data()[18][4..6], [6, 6]);
    let r = t.block.range();
    assert_eq!(r.y() + r.height() as i32, 0);
}

#[test]
fn full_row_from_play_is_cleared() {
    let mut t = game_with(BlockType::I);
    t.event(Some(vec![BlockEvent::Left, BlockEvent::Left, BlockEvent::Left, BlockEvent::Drop]));
    t.block = Block::new(BlockType::I);
    t.init();
    t.event(Some(vec![BlockEvent::Right, BlockEvent::Drop]));
    t.block = Block::new(BlockType::O);
    t.init();
    t.event(Some(vec![BlockEvent::Right, BlockEvent::Right, BlockEvent::Right, BlockEvent::Right, BlockEvent::Drop]));
    let g = t.get_grid();
    // The O completed the bottom row, which is cleared; its upper half moves down.
    assert_eq!(g.get_data()[19], vec![0, 0, 0, 0, 0, 0, 0, 0, 6, 6]);
    assert_eq!(g.get_data()[18], vec![0; 10]);
    t.block = Block::new(BlockType::O);
    t.init();
    t.event(Some(vec![BlockEvent::Right, BlockEvent::Right, BlockEvent::Right, BlockEvent::Right, BlockEvent::Drop]));
    let g = t.get_grid();
    assert_eq!(g.get_data()[19], vec![0, 0, 0, 0, 0, 0, 0, 0, 6, 6]);
    assert_eq!(g.get_data()[18], vec![0, 0, 0, 0, 0, 0, 0, 0, 6, 6]);
    assert_eq!(g.get_data()[17], vec![0, 0, 0, 0, 0, 0, 0, 0, 6, 6]);
}

#[test]
fn snapshots_copy_piece_and_field() {
    let mut t = game_with(BlockType::S);
    let b = t.get_block();
    assert_eq!(coords(&b), coords(&t.block));
    assert_eq!(b.next_type(), t.block.next_type());
    assert_eq!(*b.type_ref(), BlockType::S);
    t.event(Some(vec![BlockEvent::Drop]));
    assert_eq!(t.get_grid().get_data(), t.grid.get_data());
}

#[test]
fn app_event_ids() {
    let e = AppEvent::User(3, 9, None);
    assert_eq!(e.worker_id(), 3);
    assert_eq!(e.tetris_id(), 9);
    assert_eq!(AppEvent::InitWorker(1, 4).tetris_id(), 4);
    assert_eq!(AppEvent::Tick(2, 5).worker_id(), 2);
    let m = Msg::new(AppEvent::Tick(2, 5), None, None);
    assert!(m.block.is_none() && m.grid.is_none());
}

#[test]
fn shard_guards_and_routes() {
    let mut w = Worker::new();
    assert!(worker_guard(&w, 0));
    assert!(tick_event(&mut w, 0, 0).is_none());
    let m = init_worker(&mut w, 2, 3).unwrap();
    assert!(matches!(m.event, AppEvent::InitWorker(2, 3)));
    assert_eq!(w.tetris.len(), 3);
    for g in &w.tetris {
        assert_eq!((g.ticker.fact, g.ticker.elapsed), (10, 0));
        assert!(g.block.next_type().is_none());
        assert_eq!(g.block.range().x(), 0);
        assert_eq!(g.block.range().y(), 0);
    }
    assert!(init_worker(&mut w, 5, 1).is_none());
    assert_eq!(w.tetris.len(), 3);
    assert!(worker_guard(&w, 1));
    assert!(!worker_guard(&w, 2));
    assert!(init_tetris(&mut w, 1, 0).is_none());
    let m = init_tetris(&mut w, 2, 1).unwrap();
    assert!(matches!(m.event, AppEvent::InitTetris(2, 1)));
    assert!(m.block.is_some() && m.grid.is_none());
    assert!(w.tetris[1].block.next_type().is_some());
    assert!(w.tetris[0].block.next_type().is_none());
    let m = tick_event(&mut w, 2, 1).unwrap();
    assert!(m.grid.is_some());
    let m = user_event(&mut w, 2, 1, Some(vec![BlockEvent::Left])).unwrap();
    assert!(matches!(m.event, AppEvent::User(2, 1, None)));
    assert!(m.grid.is_none());
    let m = user_event(&mut w, 2, 1, Some(vec![BlockEvent::Drop, BlockEvent::Right])).unwrap();
    assert!(m.grid.is_some());
    assert!(w.accepts(&AppEvent::Tick(2, 1)));
    assert!(!w.accepts(&AppEvent::Tick(2, 0)));
    assert!(!w.accepts(&AppEvent::Tick(2, 7)));
    assert!(w.accepts(&AppEvent::Tick(4, 7)));
    assert!(on_event(&mut w, AppEvent::Tick(4, 7)).is_none());
    assert!(on_event(&mut w, AppEvent::InitTetris(2, 0)).is_some());
    assert!(w.accepts(&AppEvent::User(2, 0, None)));
}
