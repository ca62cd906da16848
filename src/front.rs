//! What the front end sends to the shards: the start-up events, a gravity
//! tick for every game, and each batch of user moves for every game.
use vstd::prelude::*;
use crate::game::BlockEvent;
use crate::shard::AppEvent;

verus! {

/// The events of `s` that move or turn the piece, in order.
pub open spec fn moves(s: Seq<BlockEvent>) -> Seq<BlockEvent>
    decreases s.len(),
{
    if s.len() == 0 {
        s
    } else {
        let m = moves(s.drop_last());
        if s.last() == BlockEvent::Idle {
            m
        } else {
            m.push(s.last())
        }
    }
}

/// Drops the inert events from a batch of user input.
pub fn moves_only(events: &Vec<BlockEvent>) -> (r: Vec<BlockEvent>)
    ensures
        r@ == moves(events@),
{
    let mut r: Vec<BlockEvent> = Vec::new();
    let mut i: usize = 0;
    while i < events.len()
        invariant
            i <= events.len(),
            r@ == moves(events@.subrange(0, i as int)),
        decreases events.len() - i,
    {
        assert(events@.subrange(0, i + 1).drop_last() =~= events@.subrange(0, i as int));
        if events[i] != BlockEvent::Idle {
            r.push(events[i]);
        }
        i += 1;
    }
    assert(events@.subrange(0, i as int) =~= events@);
    r
}

fn copy_events(v: &Vec<BlockEvent>) -> (r: Vec<BlockEvent>)
    ensures
        r@ == v@,
{
    let mut r: Vec<BlockEvent> = Vec::new();
    let mut i: usize = 0;
    while i < v.len()
        invariant
            i <= v.len(),
            r@ == v@.subrange(0, i as int),
        decreases v.len() - i,
    {
        r.push(v[i]);
        i += 1;
        assert(r@ =~= v@.subrange(0, i as int));
    }
    assert(v@.subrange(0, i as int) =~= v@);
    r
}

/// Entry `i` of a shard-major listing of `per_worker` slots per shard
/// addresses shard `i / per_worker`, slot `i % per_worker`.
proof fn lemma_slot_of(w: int, t: int, per_worker: int)
    requires
        0 <= w,
        0 <= t < per_worker,
    ensures
        (w * per_worker + t) / per_worker == w,
        (w * per_worker + t) % per_worker == t,
{
    vstd::arithmetic::div_mod::lemma_fundamental_div_mod_converse(w * per_worker + t, per_worker, w, t);
}

/// A gravity tick for every slot of every shard, shard by shard.
pub fn gravity_events(worker_count: u8, tetris_per_worker: u32) -> (r: Vec<AppEvent>)
    ensures
        r.len() == worker_count * tetris_per_worker,
        forall|i: int|
            0 <= i < r.len() ==> #[trigger] r[i] == AppEvent::Tick(
                (i / tetris_per_worker as int) as u8,
                (i % tetris_per_worker as int) as u32,
            ),
{
    let mut r: Vec<AppEvent> = Vec::new();
    let mut w: u8 = 0;
    while w < worker_count
        invariant
            w <= worker_count,
            r.len() == w * tetris_per_worker,
            forall|i: int|
                0 <= i < r.len() ==> #[trigger] r[i] == AppEvent::Tick(
                    (i / tetris_per_worker as int) as u8,
                    (i % tetris_per_worker as int) as u32,
                ),
        decreases worker_count - w,
    {
        let mut t: u32 = 0;
        while t < tetris_per_worker
            invariant
                w < worker_count,
                t <= tetris_per_worker,
                r.len() == w * tetris_per_worker + t,
                forall|i: int|
                    0 <= i < r.len() ==> #[trigger] r[i] == AppEvent::Tick(
                        (i / tetris_per_worker as int) as u8,
                        (i % tetris_per_worker as int) as u32,
                    ),
            decreases tetris_per_worker - t,
        {
            proof {
                lemma_slot_of(w as int, t as int, tetris_per_worker as int);
            }
            r.push(AppEvent::Tick(w, t));
            t += 1;
        }
        proof {
            assert((w + 1) * tetris_per_worker == w * tetris_per_worker + tetris_per_worker)
                by (nonlinear_arith);
        }
        w += 1;
    }
    r
}

/// The same batch of user events for every slot of every shard, shard by shard.
pub fn broadcast_user_events(
    worker_count: u8,
    tetris_per_worker: u32,
    events: &Vec<BlockEvent>,
) -> (r: Vec<AppEvent>)
    ensures
        r.len() == worker_count * tetris_per_worker,
        forall|i: int|
            0 <= i < r.len() ==> (#[trigger] r[i] matches AppEvent::User(w, t, Some(v)) && w == i
                / tetris_per_worker as int && t == i % tetris_per_worker as int && v@ == events@),
{
    let mut r: Vec<AppEvent> = Vec::new();
    let mut w: u8 = 0;
    while w < worker_count
        invariant
            w <= worker_count,
            r.len() == w * tetris_per_worker,
            forall|i: int|
                0 <= i < r.len() ==> (#[trigger] r[i] matches AppEvent::User(a, b, Some(v)) && a
                    == i / tetris_per_worker as int && b == i % tetris_per_worker as int && v@
                    == events@),
        decreases worker_count - w,
    {
        let mut t: u32 = 0;
        while t < tetris_per_worker
            invariant
                w < worker_count,
                t <= tetris_per_worker,
                r.len() == w * tetris_per_worker + t,
                forall|i: int|
                    0 <= i < r.len() ==> (#[trigger] r[i] matches AppEvent::User(a, b, Some(v)) && a
                        == i / tetris_per_worker as int && b == i % tetris_per_worker as int && v@
                        == events@),
            decreases tetris_per_worker - t,
        {
            proof {
                lemma_slot_of(w as int, t as int, tetris_per_worker as int);
            }
            r.push(AppEvent::User(w, t, Some(copy_events(events))));
            t += 1;
        }
        proof {
            assert((w + 1) * tetris_per_worker == w * tetris_per_worker + tetris_per_worker)
                by (nonlinear_arith);
        }
        w += 1;
    }
    r
}

/// The front end's handles on its shards, one per shard id.
#[derive(Debug)]
pub struct EventMgr<T> {
    pub worker_handles: Vec<T>,
}

impl<T> EventMgr<T> {
    pub fn new() -> (r: EventMgr<T>)
        ensures
            r.worker_handles.len() == 0,
    {
        EventMgr { worker_handles: Vec::new() }
    }

    /// The start-up events: `InitWorker` for every shard, then `InitTetris`
    /// for every slot of every shard, shard by shard.
    pub fn init_events(&self, tetris_per_worker: u32) -> (r: Vec<AppEvent>)
        requires
            self.worker_handles.len() <= u8::MAX,
        ensures
            ({
                let n = self.worker_handles.len() as int;
                &&& r.len() == n + n * tetris_per_worker
                &&& forall|i: int|
                    0 <= i < n ==> #[trigger] r[i] == AppEvent::InitWorker(i as u8, tetris_per_worker)
                &&& forall|i: int|
                    n <= i < r.len() ==> #[trigger] r[i] == AppEvent::InitTetris(
                        ((i - n) / tetris_per_worker as int) as u8,
                        ((i - n) % tetris_per_worker as int) as u32,
                    )
            }),
    {
        let n = self.worker_handles.len();
        let mut r: Vec<AppEvent> = Vec::new();
        let mut w: usize = 0;
        while w < n
            invariant
                n == self.worker_handles.len(),
                n <= u8::MAX,
                w <= n,
                r.len() == w,
                forall|i: int| 0 <= i < w ==> #[trigger] r[i] == AppEvent::InitWorker(i as u8, tetris_per_worker),
            decreases n - w,
        {
            r.push(AppEvent::InitWorker(w as u8, tetris_per_worker));
            w += 1;
        }
        let mut w: u8 = 0;
        while (w as usize) < n
            invariant
                n == self.worker_handles.len(),
                n <= u8::MAX,
                w <= n,
                r.len() == n + w * tetris_per_worker,
                forall|i: int| 0 <= i < n ==> #[trigger] r[i] == AppEvent::InitWorker(i as u8, tetris_per_worker),
                forall|i: int|
                    n <= i < r.len() ==> #[trigger] r[i] == AppEvent::InitTetris(
                        ((i - n) / tetris_per_worker as int) as u8,
                        ((i - n) % tetris_per_worker as int) as u32,
                    ),
            decreases n - w,
        {
            let mut t: u32 = 0;
            while t < tetris_per_worker
                invariant
                    n == self.worker_handles.len(),
                    (w as int) < n,
                    t <= tetris_per_worker,
                    r.len() == n + w * tetris_per_worker + t,
                    forall|i: int| 0 <= i < n ==> #[trigger] r[i] == AppEvent::InitWorker(i as u8, tetris_per_worker),
                    forall|i: int|
                        n <= i < r.len() ==> #[trigger] r[i] == AppEvent::InitTetris(
                            ((i - n) / tetris_per_worker as int) as u8,
                            ((i - n) % tetris_per_worker as int) as u32,
                        ),
                decreases tetris_per_worker - t,
            {
                proof {
                    lemma_slot_of(w as int, t as int, tetris_per_worker as int);
                }
                r.push(AppEvent::InitTetris(w, t));
                t += 1;
            }
            proof {
                assert((w + 1) * tetris_per_worker == w * tetris_per_worker + tetris_per_worker)
                    by (nonlinear_arith);
            }
            w += 1;
        }
        r
    }
}

} // verus!
