//! The shard coordinator: the games of one shard, addressed by slot, and the
//! routing of inbound events to them.
use vstd::prelude::*;
use crate::block::{Block, is_fresh};
use crate::grid::Grid;
use crate::game::{BlockEvent, Tetris};

verus! {

/// An inbound event, addressed by shard id and, but for `InitWorker`, slot id.
#[derive(Debug)]
pub enum AppEvent {
    /// Shard id and the number of slots to allocate.
    InitWorker(u8, u32),
    InitTetris(u8, u32),
    Tick(u8, u32),
    User(u8, u32, Option<Vec<BlockEvent>>),
}

impl AppEvent {
    pub open spec fn worker_spec(&self) -> u8 {
        match *self {
            AppEvent::InitWorker(w, _) => w,
            AppEvent::InitTetris(w, _) => w,
            AppEvent::Tick(w, _) => w,
            AppEvent::User(w, _, _) => w,
        }
    }

    pub open spec fn tetris_spec(&self) -> u32 {
        match *self {
            AppEvent::InitWorker(_, t) => t,
            AppEvent::InitTetris(_, t) => t,
            AppEvent::Tick(_, t) => t,
            AppEvent::User(_, t, _) => t,
        }
    }

    pub fn worker_id(&self) -> (r: u8)
        ensures
            r == self.worker_spec(),
    {
        match *self {
            AppEvent::InitWorker(worker_index, _) => worker_index,
            AppEvent::InitTetris(worker_index, _) => worker_index,
            AppEvent::Tick(worker_index, _) => worker_index,
            AppEvent::User(worker_index, _, _) => worker_index,
        }
    }

    /// The slot id; for `InitWorker`, the slot count.
    pub fn tetris_id(&self) -> (r: u32)
        ensures
            r == self.tetris_spec(),
    {
        match *self {
            AppEvent::InitWorker(_, tetris_id) => tetris_id,
            AppEvent::InitTetris(_, tetris_id) => tetris_id,
            AppEvent::Tick(_, tetris_id) => tetris_id,
            AppEvent::User(_, tetris_id, _) => tetris_id,
        }
    }
}

/// An outbound message: the event it answers, the piece, and the field when
/// placed cells may have changed.
#[derive(Debug)]
pub struct Msg {
    pub event: AppEvent,
    pub block: Option<Block>,
    pub grid: Option<Grid>,
}

impl Msg {
    pub fn new(event: AppEvent, block: Option<Block>, grid: Option<Grid>) -> (r: Msg)
        ensures
            r.event == event,
            r.block == block,
            r.grid == grid,
    {
        Msg { event, block, grid }
    }
}

/// The games of one shard, and the shard id once it is initialized.
#[derive(Debug)]
pub struct Worker {
    pub idx: Option<u8>,
    pub tetris: Vec<Tetris>,
}

impl Worker {
    pub open spec fn wf(&self) -> bool {
        forall|i: int| 0 <= i < self.tetris.len() ==> (#[trigger] self.tetris[i]).inv()
    }

    /// Events for shard `w` are handled here.
    pub open spec fn serves(&self, w: u8) -> bool {
        self.idx == Some(w)
    }

    /// Slot `t` exists and has its lookahead loaded.
    pub open spec fn ready(&self, t: u32) -> bool {
        t < self.tetris.len() && self.tetris[t as int].block.next is Some
    }

    /// What handling `e` asks of the shard: an addressed slot exists, and one
    /// that ticks or takes user input has been initialized.
    pub open spec fn admits(&self, e: AppEvent) -> bool {
        match e {
            AppEvent::InitWorker(_, _) => true,
            AppEvent::InitTetris(w, t) => self.serves(w) ==> t < self.tetris.len(),
            AppEvent::Tick(w, t) => self.serves(w) ==> self.ready(t),
            AppEvent::User(w, t, _) => self.serves(w) ==> self.ready(t),
        }
    }

    /// Only slot `t` differs between `self` and `old`.
    pub open spec fn others_kept(&self, old: Worker, t: int) -> bool {
        &&& self.idx == old.idx
        &&& self.tetris.len() == old.tetris.len()
        &&& forall|i: int| 0 <= i < self.tetris.len() && i != t ==> self.tetris[i] == old.tetris[i]
    }

    pub fn new() -> (r: Worker)
        ensures
            r.idx is None,
            r.tetris.len() == 0,
            r.wf(),
    {
        Worker { idx: None, tetris: Vec::new() }
    }

    /// Whether handling `e` is allowed (see `admits`); a driver tests this
    /// before handing the event over.
    pub fn accepts(&self, e: &AppEvent) -> (r: bool)
        ensures
            r == self.admits(*e),
    {
        match e {
            AppEvent::InitWorker(_, _) => true,
            AppEvent::InitTetris(w, t) => worker_guard(self, *w) || (*t as usize) < self.tetris.len(),
            AppEvent::Tick(w, t) => worker_guard(self, *w) || self.slot_ready(*t),
            AppEvent::User(w, t, _) => worker_guard(self, *w) || self.slot_ready(*t),
        }
    }

    fn slot_ready(&self, t: u32) -> (r: bool)
        ensures
            r == self.ready(t),
    {
        (t as usize) < self.tetris.len() && self.tetris[t as usize].block.next.is_some()
    }
}

/// True when an event for shard `worker_id` must be dropped here: the shard
/// is not initialized, or has another id.
pub fn worker_guard(worker: &Worker, worker_id: u8) -> (r: bool)
    ensures
        r == !worker.serves(worker_id),
{
    match worker.idx {
        Some(idx) => worker_id != idx,
        None => true,
    }
}

/// Initializes the shard with its id and `tetris_count` new games; does
/// nothing and answers nothing if it was initialized already.
pub fn init_worker(worker: &mut Worker, worker_index: u8, tetris_count: u32) -> (r: Option<Msg>)
    requires
        old(worker).wf(),
    ensures
        final(worker).wf(),
        old(worker).idx is Some ==> r is None && final(worker).idx == old(worker).idx
            && final(worker).tetris@ == old(worker).tetris@,
        old(worker).idx is None ==> {
            &&& final(worker).idx == Some(worker_index)
            &&& final(worker).tetris.len() == old(worker).tetris.len() + tetris_count
            &&& forall|i: int|
                0 <= i < old(worker).tetris.len() ==> final(worker).tetris[i] == old(
                    worker,
                ).tetris[i]
            &&& forall|i: int|
                old(worker).tetris.len() <= i < final(worker).tetris.len()
                    ==> #[trigger] final(worker).tetris[i].grid.rows() == crate::grid::zero_rows(
                    crate::shape::ROWS as int,
                ) && final(worker).tetris[i].block.next is None && is_fresh(final(worker).tetris[i].block)
                    && final(worker).tetris[i].ticker.fact == 10
                    && final(worker).tetris[i].ticker.elapsed == 0
            &&& r matches Some(m) && m.event == AppEvent::InitWorker(worker_index, tetris_count)
                && m.block is None && m.grid is None
        },
{
    if worker.idx.is_some() {
        return None;
    }
    worker.idx = Some(worker_index);
    let ghost n0 = worker.tetris.len();
    let ghost t0 = worker.tetris@;
    let mut k: u32 = 0;
    while k < tetris_count
        invariant
            k <= tetris_count,
            worker.wf(),
            worker.idx == Some(worker_index),
            worker.tetris.len() == n0 + k,
            forall|i: int| 0 <= i < n0 ==> worker.tetris[i] == t0[i],
            forall|i: int|
                n0 <= i < worker.tetris.len() ==> #[trigger] worker.tetris[i].grid.rows()
                    == crate::grid::zero_rows(crate::shape::ROWS as int)
                    && worker.tetris[i].block.next is None && is_fresh(worker.tetris[i].block)
                    && worker.tetris[i].ticker.fact == 10 && worker.tetris[i].ticker.elapsed == 0,
        decreases tetris_count - k,
    {
        worker.tetris.push(Tetris::new());
        k += 1;
    }
    Some(Msg::new(AppEvent::InitWorker(worker_index, tetris_count), None, None))
}

/// Runs `init` on the addressed game and answers with its piece.
pub fn init_tetris(worker: &mut Worker, worker_index: u8, tetris_index: u32) -> (r: Option<Msg>)
    requires
        old(worker).wf(),
        old(worker).admits(AppEvent::InitTetris(worker_index, tetris_index)),
    ensures
        final(worker).wf(),
        !old(worker).serves(worker_index) ==> r is None && final(worker).idx == old(worker).idx
            && final(worker).tetris@ == old(worker).tetris@,
        old(worker).serves(worker_index) ==> {
            let t = tetris_index as int;
            &&& final(worker).others_kept(*old(worker), t)
            &&& final(worker).tetris[t].inited_from(old(worker).tetris[t])
            &&& r matches Some(m) && m.event == AppEvent::InitTetris(worker_index, tetris_index)
                && (m.block matches Some(b) && b.looks_like(final(worker).tetris[t].block))
                && m.grid is None
        },
{
    if worker_guard(worker, worker_index) {
        return None;
    }
    let t = tetris_index as usize;
    let ghost old_tetris = worker.tetris@;
    let mut tetris = worker.tetris.remove(t);
    tetris.init();
    let block = tetris.get_block();
    worker.tetris.insert(t, tetris);
    assert(forall|i: int| 0 <= i < worker.tetris.len() && i != t ==> worker.tetris[i] == old_tetris[i]);
    Some(Msg::new(AppEvent::InitTetris(worker_index, tetris_index), Some(block), None))
}

/// Runs `tick` on the addressed game and answers with its piece and field.
pub fn tick_event(worker: &mut Worker, worker_index: u8, tetris_index: u32) -> (r: Option<Msg>)
    requires
        old(worker).wf(),
        old(worker).admits(AppEvent::Tick(worker_index, tetris_index)),
    ensures
        final(worker).wf(),
        !old(worker).serves(worker_index) ==> r is None && final(worker).idx == old(worker).idx
            && final(worker).tetris@ == old(worker).tetris@,
        old(worker).serves(worker_index) ==> {
            let t = tetris_index as int;
            &&& final(worker).others_kept(*old(worker), t)
            &&& final(worker).tetris[t].ticked_from(old(worker).tetris[t])
            &&& r matches Some(m) && m.event == AppEvent::Tick(worker_index, tetris_index)
                && (m.block matches Some(b) && b.looks_like(final(worker).tetris[t].block))
                && (m.grid matches Some(g) && g.rows() == final(worker).tetris[t].grid.rows())
        },
{
    if worker_guard(worker, worker_index) {
        return None;
    }
    let t = tetris_index as usize;
    let ghost old_tetris = worker.tetris@;
    let mut tetris = worker.tetris.remove(t);
    tetris.tick();
    let block = tetris.get_block();
    let grid = tetris.get_grid();
    worker.tetris.insert(t, tetris);
    assert(forall|i: int| 0 <= i < worker.tetris.len() && i != t ==> worker.tetris[i] == old_tetris[i]);
    Some(Msg::new(AppEvent::Tick(worker_index, tetris_index), Some(block), Some(grid)))
}

/// Applies a batch of user events to the addressed game and answers with its
/// piece, and with its field when the piece locked.
pub fn user_event(
    worker: &mut Worker,
    worker_index: u8,
    tetris_index: u32,
    block_events: Option<Vec<BlockEvent>>,
) -> (r: Option<Msg>)
    requires
        old(worker).wf(),
        old(worker).admits(AppEvent::User(worker_index, tetris_index, block_events)),
    ensures
        final(worker).wf(),
        !old(worker).serves(worker_index) ==> r is None && final(worker).idx == old(worker).idx
            && final(worker).tetris@ == old(worker).tetris@,
        old(worker).serves(worker_index) ==> {
            let t = tetris_index as int;
            let evs = match block_events {
                Some(v) => v@,
                None => Seq::empty(),
            };
            &&& final(worker).others_kept(*old(worker), t)
            &&& r matches Some(m) && m.event == AppEvent::User(worker_index, tetris_index, None)
                && (m.block matches Some(b) && b.looks_like(final(worker).tetris[t].block))
                && final(worker).tetris[t].handled_from(old(worker).tetris[t], evs, m.grid is Some)
                && (m.grid matches Some(g) ==> g.rows() == final(worker).tetris[t].grid.rows())
        },
{
    if worker_guard(worker, worker_index) {
        return None;
    }
    let t = tetris_index as usize;
    let ghost old_tetris = worker.tetris@;
    let mut tetris = worker.tetris.remove(t);
    let locked = match block_events {
        Some(events) => tetris.apply_user_events(&events),
        None => {
            let events: Vec<BlockEvent> = Vec::new();
            tetris.apply_user_events(&events)
        },
    };
    let block = tetris.get_block();
    let grid = if locked {
        Some(tetris.get_grid())
    } else {
        None
    };
    worker.tetris.insert(t, tetris);
    assert(forall|i: int| 0 <= i < worker.tetris.len() && i != t ==> worker.tetris[i] == old_tetris[i]);
    Some(Msg::new(AppEvent::User(worker_index, tetris_index, None), Some(block), grid))
}

/// Routes an inbound event to its handler.
pub fn on_event(worker: &mut Worker, event: AppEvent) -> (r: Option<Msg>)
    requires
        old(worker).wf(),
        old(worker).admits(event),
    ensures
        final(worker).wf(),
        match event {
            AppEvent::InitWorker(_, _) => r is Some <==> old(worker).idx is None,
            _ => r is Some <==> old(worker).serves(event.worker_spec()),
        },
        r is None ==> final(worker).idx == old(worker).idx && final(worker).tetris@ == old(
            worker,
        ).tetris@,
        match event {
            AppEvent::InitWorker(w, n) => r is Some ==> final(worker).idx == Some(w)
                && final(worker).tetris.len() == old(worker).tetris.len() + n,
            AppEvent::InitTetris(w, t) => r is Some ==> final(worker).others_kept(
                *old(worker),
                t as int,
            ) && final(worker).tetris[t as int].inited_from(old(worker).tetris[t as int]),
            AppEvent::Tick(w, t) => r is Some ==> final(worker).others_kept(*old(worker), t as int)
                && final(worker).tetris[t as int].ticked_from(old(worker).tetris[t as int]),
            AppEvent::User(w, t, evs) => r matches Some(m) ==> final(worker).others_kept(
                *old(worker),
                t as int,
            ) && final(worker).tetris[t as int].handled_from(
                old(worker).tetris[t as int],
                match evs {
                    Some(v) => v@,
                    None => Seq::empty(),
                },
                m.grid is Some,
            ),
        },
{
    match event {
        AppEvent::InitWorker(w, count) => init_worker(worker, w, count),
        AppEvent::InitTetris(w, t) => init_tetris(worker, w, t),
        AppEvent::Tick(w, t) => tick_event(worker, w, t),
        AppEvent::User(w, t, events) => user_event(worker, w, t, events),
    }
}

} // verus!
