//! The mouse pointer: position kept on screen, button state, and clicks.
use vstd::prelude::*;

verus! {

/// What the mouse and its buttons are doing, with the previous reading.
pub struct CurrentMouseState {
    pub x: i16,
    pub y: i16,
    pub prev_x: i16,
    pub prev_y: i16,
    pub left_button_down: bool,
    pub right_button_down: bool,
    pub prev_left_button_down: bool,
    pub prev_right_button_down: bool,
    pub has_moved: bool,
    pub screen_size: (u16, u16),
}

/// `v` kept at least 0 and then at most `hi`.
pub open spec fn clamp(v: int, hi: int) -> int {
    let lo = if v < 0 { 0 } else { v };
    if lo > hi { hi } else { lo }
}

impl CurrentMouseState {
    pub open spec fn screen(&self) -> (u16, u16) {
        self.screen_size
    }

    /// The screen the pointer moves on fits the pointer's coordinates.
    pub open spec fn wf(&self) -> bool {
        self.screen().0 <= 32767 && self.screen().1 <= 32767
    }

    /// The pointer at the center of a screen of `screen_size`, buttons up.
    pub fn new(screen_size: (u16, u16)) -> (r: CurrentMouseState)
        requires
            screen_size.0 <= 32767,
            screen_size.1 <= 32767,
        ensures
            r.wf(),
            r.screen() == screen_size,
            r.x == screen_size.0 / 2 && r.y == screen_size.1 / 2,
            r.prev_x == r.x && r.prev_y == r.y,
            !r.left_button_down && !r.right_button_down && !r.prev_left_button_down && !r.prev_right_button_down,
            r.has_moved,
    {
        let x = (screen_size.0 / 2) as i16;
        let y = (screen_size.1 / 2) as i16;
        CurrentMouseState {
            x,
            y,
            prev_x: x,
            prev_y: y,
            left_button_down: false,
            right_button_down: false,
            prev_left_button_down: false,
            prev_right_button_down: false,
            has_moved: true,
            screen_size,
        }
    }

    /// Applies one reading of the mouse: a move of (dx, dy) (y grows upwards)
    /// and the button states. The pointer stays on screen. Returns the point
    /// of a click: the left button released without moving.
    pub fn update(&mut self, dx: i16, dy: i16, left: bool, right: bool) -> (click: Option<(i16, i16)>)
        requires
            old(self).wf(),
        ensures
            final(self).wf(),
            final(self).screen() == old(self).screen(),
            final(self).prev_x == old(self).x && final(self).prev_y == old(self).y,
            final(self).prev_left_button_down == old(self).left_button_down,
            final(self).prev_right_button_down == old(self).right_button_down,
            final(self).x == clamp(old(self).x + dx, old(self).screen().0 - 1),
            final(self).y == clamp(old(self).y - dy, old(self).screen().1 - 1),
            final(self).left_button_down == left && final(self).right_button_down == right,
            final(self).has_moved == (final(self).x != old(self).x || final(self).y != old(self).y),
            click == if old(self).left_button_down && !left && !final(self).has_moved {
                Some((final(self).x, final(self).y))
            } else {
                None::<(i16, i16)>
            },
    {
        self.prev_x = self.x;
        self.prev_y = self.y;
        self.prev_left_button_down = self.left_button_down;
        self.prev_right_button_down = self.right_button_down;
        let max_x = self.screen_size.0 as i32 - 1;
        let max_y = self.screen_size.1 as i32 - 1;
        let mut nx = self.x as i32 + dx as i32;
        if nx < 0 {
            nx = 0;
        }
        if nx > max_x {
            nx = max_x;
        }
        let mut ny = self.y as i32 - dy as i32;
        if ny < 0 {
            ny = 0;
        }
        if ny > max_y {
            ny = max_y;
        }
        self.x = nx as i16;
        self.y = ny as i16;
        self.left_button_down = left;
        self.right_button_down = right;
        self.has_moved = self.x != self.prev_x || self.y != self.prev_y;
        if self.prev_left_button_down && !self.left_button_down && !self.has_moved {
            Some((self.x, self.y))
        } else {
            None
        }
    }
}

/// The pointer stays on a screen of at least one pixel each way.
pub proof fn lemma_clamp_on_screen(v: int, hi: int)
    requires
        hi >= 0,
    ensures
        0 <= clamp(v, hi) <= hi,
{
}

} // verus!
