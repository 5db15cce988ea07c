use vstd::prelude::*;

verus! {

/// Rotation step of one key press, in milliradians.
pub const ROT_STEP: i64 = 100;

/// Zoom step of one key press, in world fixed-point units (a fifth of a unit).
pub const ZOOM_STEP: i64 = 205;

/// Starting distance of the scene from the eye (ten world units).
pub const ZOOM_START: i64 = 10240;

/// The keys the render loop reacts to; every other key is `Other`.
#[derive(Clone, Copy, Debug, PartialEq, Eq, Structural)]
pub enum Key {
    W,
    S,
    A,
    D,
    Equals,
    Minus,
    Other,
}

/// The view parameters that input changes between frames: rotation angles
/// about each axis in milliradians, and the distance of the scene from the
/// eye in world fixed-point units.
#[derive(Clone, Copy, Debug, PartialEq, Eq, Structural)]
pub struct FrameState {
    pub x_rot: i64,
    pub y_rot: i64,
    pub z_rot: i64,
    pub zoom: i64,
}

/// What a press of `key` adds to the x rotation, the y rotation and the zoom.
pub open spec fn key_delta(key: Key) -> (int, int, int) {
    match key {
        Key::W => (ROT_STEP as int, 0, 0),
        Key::S => (-ROT_STEP, 0, 0),
        Key::A => (0, ROT_STEP as int, 0),
        Key::D => (0, -ROT_STEP, 0),
        Key::Equals => (0, 0, -ZOOM_STEP),
        Key::Minus => (0, 0, ZOOM_STEP as int),
        Key::Other => (0, 0, 0),
    }
}

/// Bound on every value of a `FrameState` that `apply_key` produces.
pub open spec fn in_range(v: int) -> bool {
    -0x1_0000_0000 <= v <= 0x1_0000_0000
}

impl FrameState {
    /// The state of the first frame: no rotation, scene ten units away.
    pub fn new() -> (s: FrameState)
        ensures
            s == (FrameState { x_rot: 0, y_rot: 0, z_rot: 0, zoom: ZOOM_START }),
    {
        FrameState { x_rot: 0, y_rot: 0, z_rot: 0, zoom: ZOOM_START }
    }

    /// Applies one key press. A press that would leave a value beyond
    /// `in_range` is ignored.
    pub fn apply_key(&self, key: Key) -> (s: FrameState)
        ensures
            ({
                let (dx, dy, dz) = key_delta(key);
                if in_range(self.x_rot + dx) && in_range(self.y_rot + dy) && in_range(self.zoom + dz)
                    && in_range(self.z_rot as int) {
                    s.x_rot == self.x_rot + dx && s.y_rot == self.y_rot + dy && s.zoom == self.zoom + dz
                        && s.z_rot == self.z_rot
                } else {
                    s == *self
                }
            }),
    {
        if self.x_rot < -0x2_0000_0000 || self.x_rot > 0x2_0000_0000 || self.y_rot < -0x2_0000_0000
            || self.y_rot > 0x2_0000_0000 || self.zoom < -0x2_0000_0000 || self.zoom > 0x2_0000_0000 {
            return *self;
        }
        let next = match key {
            Key::W => FrameState { x_rot: self.x_rot + ROT_STEP, ..*self },
            Key::S => FrameState { x_rot: self.x_rot - ROT_STEP, ..*self },
            Key::A => FrameState { y_rot: self.y_rot + ROT_STEP, ..*self },
            Key::D => FrameState { y_rot: self.y_rot - ROT_STEP, ..*self },
            Key::Equals => FrameState { zoom: self.zoom - ZOOM_STEP, ..*self },
            Key::Minus => FrameState { zoom: self.zoom + ZOOM_STEP, ..*self },
            Key::Other => *self,
        };
        if next.x_rot < -0x1_0000_0000 || next.x_rot > 0x1_0000_0000 || next.y_rot < -0x1_0000_0000
            || next.y_rot > 0x1_0000_0000 || next.z_rot < -0x1_0000_0000 || next.z_rot > 0x1_0000_0000
            || next.zoom < -0x1_0000_0000 || next.zoom > 0x1_0000_0000 {
            *self
        } else {
            next
        }
    }
}

} // verus!
