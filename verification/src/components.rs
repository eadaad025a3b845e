//! The component kinds an entity can carry.

use vstd::prelude::*;

use crate::rect::Rect;

verus! {

#[derive(Debug, Clone, Copy, PartialEq, Eq, Structural)]
pub enum Direction {
    Up,
    Down,
    Left,
    Right,
}

/// Existence-only tag: the single entity driven by the movement intent.
#[derive(Debug, Clone, Copy, Default)]
pub struct KeyboardControlled;

/// Existence-only tag for hostile entities.
#[derive(Debug, Clone, Copy, Default)]
pub struct Enemy;

/// Existence-only tag for collectable entities.
#[derive(Debug, Clone, Copy, Default)]
pub struct Item;

/// The entity's current bounding rectangle in world coordinates.
#[derive(Debug, Clone, Copy, PartialEq, Eq, Structural)]
pub struct Position(pub Rect);

/// Movement state. `speed` is a fixed-point scalar measured in thousandths
/// of a world unit per millisecond, so a speed of 200 covers one fifth of a
/// unit each millisecond.
#[derive(Debug, Clone, Copy, PartialEq, Eq, Structural)]
pub struct Velocity {
    pub speed: u32,
    pub direction: Direction,
}

/// Which spritesheet and which sub-rectangle of it to draw this frame.
#[derive(Debug, Clone, Copy, PartialEq, Eq, Structural)]
pub struct Sprite {
    pub spritesheet: usize,
    pub region: Rect,
}

/// One ordered frame sequence per movement direction, plus the index of the
/// frame shown last.
#[derive(Debug)]
pub struct MovementAnimation {
    pub current_frame: usize,
    pub up_frames: Vec<Sprite>,
    pub down_frames: Vec<Sprite>,
    pub left_frames: Vec<Sprite>,
    pub right_frames: Vec<Sprite>,
}

/// Mathematical image of a [`MovementAnimation`].
#[verifier::ext_equal]
pub ghost struct AnimationView {
    pub current_frame: usize,
    pub up_frames: Seq<Sprite>,
    pub down_frames: Seq<Sprite>,
    pub left_frames: Seq<Sprite>,
    pub right_frames: Seq<Sprite>,
}

impl View for MovementAnimation {
    type V = AnimationView;

    open spec fn view(&self) -> AnimationView {
        AnimationView {
            current_frame: self.current_frame,
            up_frames: self.up_frames@,
            down_frames: self.down_frames@,
            left_frames: self.left_frames@,
            right_frames: self.right_frames@,
        }
    }
}

/// The frame sequence an animation shows while moving in `direction`.
pub open spec fn frames_for(anim: AnimationView, direction: Direction) -> Seq<Sprite> {
    match direction {
        Direction::Up => anim.up_frames,
        Direction::Down => anim.down_frames,
        Direction::Left => anim.left_frames,
        Direction::Right => anim.right_frames,
    }
}

} // verus!
