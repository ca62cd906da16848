//! The seven piece kinds: their cell patterns, colours and grid codes.
use vstd::prelude::*;
use rand::distributions::IndependentSample;
use crate::geometry::Point;

verus! {

pub const COLUMNS: usize = 10;
pub const ROWS: usize = 20;
pub const DEFAULT_GRAVITY: u8 = 20;

pub type Color = (u8, u8, u8);

#[derive(Debug, Clone, Copy, PartialEq, Eq, Structural)]
pub enum BlockType {
    T,
    J,
    L,
    S,
    Z,
    O,
    I,
}

/// The kind that a grid code stands for; codes outside `1..=7` fall back to `T`.
pub open spec fn kind_of_code(index: u8) -> BlockType {
    if index == 2 {
        BlockType::J
    } else if index == 3 {
        BlockType::L
    } else if index == 4 {
        BlockType::S
    } else if index == 5 {
        BlockType::Z
    } else if index == 6 {
        BlockType::O
    } else if index == 7 {
        BlockType::I
    } else {
        BlockType::T
    }
}

/// The grid code of a kind, in `1..=7`.
pub open spec fn code_of(kind: BlockType) -> u8 {
    match kind {
        BlockType::T => 1,
        BlockType::J => 2,
        BlockType::L => 3,
        BlockType::S => 4,
        BlockType::Z => 5,
        BlockType::O => 6,
        BlockType::I => 7,
    }
}

pub open spec fn color_of(kind: BlockType) -> Color {
    match kind {
        BlockType::T => (128, 0, 128),
        BlockType::J => (0, 0, 255),
        BlockType::L => (255, 165, 0),
        BlockType::S => (128, 255, 0),
        BlockType::Z => (255, 0, 0),
        BlockType::O => (255, 255, 0),
        BlockType::I => (0, 255, 255),
    }
}

pub open spec fn pt(x: i32, y: i32) -> Point {
    Point { x, y }
}

/// The local cell pattern of a kind; the third point is the rotation pivot.
pub open spec fn pattern(kind: BlockType) -> Seq<Point> {
    match kind {
        BlockType::T => seq![pt(1, 0), pt(0, 1), pt(1, 1), pt(2, 1)],
        BlockType::J => seq![pt(0, 0), pt(0, 1), pt(1, 1), pt(2, 1)],
        BlockType::L => seq![pt(2, 0), pt(2, 1), pt(1, 1), pt(0, 1)],
        BlockType::S => seq![pt(2, 0), pt(1, 0), pt(1, 1), pt(0, 1)],
        BlockType::Z => seq![pt(0, 0), pt(1, 0), pt(1, 1), pt(2, 1)],
        BlockType::O => seq![pt(0, 0), pt(1, 0), pt(0, 1), pt(1, 1)],
        BlockType::I => seq![pt(0, 0), pt(1, 0), pt(2, 0), pt(3, 0)],
    }
}

/// Relies on rand's `thread_rng` and `distributions::Range::new(low, high)`,
/// whose `ind_sample` draws an integer uniformly from `[low, high)`.
#[verifier::external_body]
fn sample_range(low: u8, high: u8) -> (r: u8)
    requires
        low < high,
    ensures
        low <= r < high,
{
    let mut rng = rand::thread_rng();
    rand::distributions::Range::new(low, high).ind_sample(&mut rng)
}

impl BlockType {
    pub fn new(index: u8) -> (r: BlockType)
        ensures
            r == kind_of_code(index),
    {
        match index {
            1 => BlockType::T,
            2 => BlockType::J,
            3 => BlockType::L,
            4 => BlockType::S,
            5 => BlockType::Z,
            6 => BlockType::O,
            7 => BlockType::I,
            _ => BlockType::T,
        }
    }

    /// A kind drawn uniformly from the seven.
    pub fn random() -> (r: BlockType)
        ensures
            exists|c: u8| 1 <= c < 8 && r == kind_of_code(c),
    {
        let c = sample_range(1, 8);
        BlockType::new(c)
    }

    pub fn index(&self) -> (r: u8)
        ensures
            r == code_of(*self),
            1 <= r <= 7,
            kind_of_code(r) == *self,
    {
        match *self {
            BlockType::T => 1,
            BlockType::J => 2,
            BlockType::L => 3,
            BlockType::S => 4,
            BlockType::Z => 5,
            BlockType::O => 6,
            BlockType::I => 7,
        }
    }

    pub fn color(&self) -> (r: Color)
        ensures
            r == color_of(*self),
    {
        match *self {
            BlockType::T => (128, 0, 128),
            BlockType::J => (0, 0, 255),
            BlockType::L => (255, 165, 0),
            BlockType::S => (128, 255, 0),
            BlockType::Z => (255, 0, 0),
            BlockType::O => (255, 255, 0),
            BlockType::I => (0, 255, 255),
        }
    }

    pub fn points(&self) -> (r: Vec<Point>)
        ensures
            r@ == pattern(*self),
    {
        let raw: [(i32, i32); 4] = match *self {
            BlockType::T => [(1, 0), (0, 1), (1, 1), (2, 1)],
            BlockType::J => [(0, 0), (0, 1), (1, 1), (2, 1)],
            BlockType::L => [(2, 0), (2, 1), (1, 1), (0, 1)],
            BlockType::S => [(2, 0), (1, 0), (1, 1), (0, 1)],
            BlockType::Z => [(0, 0), (1, 0), (1, 1), (2, 1)],
            BlockType::O => [(0, 0), (1, 0), (0, 1), (1, 1)],
            BlockType::I => [(0, 0), (1, 0), (2, 0), (3, 0)],
        };
        let mut r: Vec<Point> = Vec::new();
        r.push(Point::new(raw[0].0, raw[0].1));
        r.push(Point::new(raw[1].0, raw[1].1));
        r.push(Point::new(raw[2].0, raw[2].1));
        r.push(Point::new(raw[3].0, raw[3].1));
        assert(r@ =~= pattern(*self));
        r
    }
}

} // verus!
