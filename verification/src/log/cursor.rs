//! Cursor for navigating event streams.
use vstd::prelude::*;

verus! {

/// Direction of the last cursor move.
#[derive(Debug, Clone, Copy, PartialEq, Eq, Structural)]
pub enum Direction {
    Forward,
    Backward,
}

/// A position in an event stream and the direction it last moved in.
#[derive(Debug, Clone, Copy, PartialEq, Eq, Structural)]
pub struct Cursor {
    pub position: u64,
    pub direction: Direction,
}

impl Cursor {
    /// A cursor at position zero moving forward.
    pub fn new() -> (c: Self)
        ensures
            c.position == 0,
            c.direction == Direction::Forward,
    {
        Cursor { position: 0, direction: Direction::Forward }
    }

    /// A cursor at `position` moving forward.
    pub fn at(position: u64) -> (c: Self)
        ensures
            c.position == position,
            c.direction == Direction::Forward,
    {
        Cursor { position, direction: Direction::Forward }
    }

    /// Moves `count` positions forward, stopping at `u64::MAX`.
    pub fn move_forward(&mut self, count: u64)
        ensures
            final(self).position == (if old(self).position + count <= u64::MAX {
                (old(self).position + count) as u64
            } else {
                u64::MAX
            }),
            final(self).direction == Direction::Forward,
    {
        self.position = self.position.saturating_add(count);
        self.direction = Direction::Forward;
    }

    /// Moves `count` positions back, stopping at zero.
    pub fn move_backward(&mut self, count: u64)
        ensures
            final(self).position == (if old(self).position >= count {
                (old(self).position - count) as u64
            } else {
                0
            }),
            final(self).direction == Direction::Backward,
    {
        self.position = self.position.saturating_sub(count);
        self.direction = Direction::Backward;
    }

    /// Jumps to `position`; the direction is kept.
    pub fn seek(&mut self, position: u64)
        ensures
            final(self).position == position,
            final(self).direction == old(self).direction,
    {
        self.position = position;
    }

    /// The current position.
    pub fn pos(&self) -> (p: u64)
        ensures
            p == self.position,
    {
        self.position
    }

    /// Back to position zero moving forward.
    pub fn reset(&mut self)
        ensures
            final(self).position == 0,
            final(self).direction == Direction::Forward,
    {
        self.position = 0;
        self.direction = Direction::Forward;
    }
}

impl Default for Cursor {
    fn default() -> (c: Self)
        ensures
            c.position == 0,
            c.direction == Direction::Forward,
    {
        Cursor::new()
    }
}

} // verus!
