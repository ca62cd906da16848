use tetris_core::{broadcast_user_events, gravity_events, moves_only, AppEvent, BlockEvent, EventMgr};

#[test]
fn gravity_reaches_every_slot_in_order() {
    let events = gravity_events(2, 3);
    let ids: Vec<(u8, u32)> = events
        .iter()
        .map(|e| match e {
            AppEvent::Tick(w, t) => (*w, *t),
            _ => panic!("not a tick"),
        })
        .collect();
    assert_eq!(ids, vec![(0, 0), (0, 1), (0, 2), (1, 0), (1, 1), (1, 2)]);
    assert!(gravity_events(0, 5).is_empty());
    assert!(gravity_events(4, 0).is_empty());
}

#[test]
fn user_moves_are_filtered_and_broadcast() {
    let raw = vec![BlockEvent::Idle, BlockEvent::Left, BlockEvent::Idle, BlockEvent::Drop];
    let moves = moves_only(&raw);
    assert_eq!(moves, vec![BlockEvent::Left, BlockEvent::Drop]);
    let out = broadcast_user_events(1, 2, &moves);
    assert_eq!(out.len(), 2);
    for (i, e) in out.iter().enumerate() {
        match e {
            AppEvent::User(w, t, Some(v)) => {
                assert_eq!((*w, *t as usize), (0, i));
                assert_eq!(*v, moves);
            }
            _ => panic!("not a user event"),
        }
    }
}

#[test]
fn start_up_events() {
    let mut mgr: EventMgr<i32> = EventMgr::new();
    mgr.worker_handles.push(11);
    mgr.worker_handles.push(12);
    let events = mgr.init_events(2);
    let shown: Vec<String> = events.iter().map(|e| format!("{:?}", e)).collect();
    assert_eq!(
        shown,
        vec![
            "InitWorker(0, 2)",
            "InitWorker(1, 2)",
            "InitTetris(0, 0)",
            "InitTetris(0, 1)",
            "InitTetris(1, 0)",
            "InitTetris(1, 1)",
        ]
    );
}
