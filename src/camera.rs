use vstd::prelude::*;
use crate::geometry::Point;

verus! {

pub const DISPLAY_WIDTH: i32 = 40;
pub const DISPLAY_HEIGHT: i32 = 25;

/// The visible window of the grid, centred on the player.
#[derive(Clone, Copy, Debug, PartialEq, Eq, Structural)]
pub struct Camera {
    pub left_x: i32,
    pub right_x: i32,
    pub top_y: i32,
    pub bottom_y: i32,
}

/// Points far enough from the integer limits for the window around them.
pub open spec fn camera_safe(p: Point) -> bool {
    -1_000_000 <= p.x <= 1_000_000 && -1_000_000 <= p.y <= 1_000_000
}

pub open spec fn centred_on(p: Point) -> Camera {
    Camera {
        left_x: (p.x - DISPLAY_WIDTH / 2) as i32,
        right_x: (p.x + DISPLAY_WIDTH / 2) as i32,
        top_y: (p.y - DISPLAY_HEIGHT / 2) as i32,
        bottom_y: (p.y + DISPLAY_HEIGHT / 2) as i32,
    }
}

impl Camera {
    pub open spec fn wf(&self) -> bool {
        -2_000_000 <= self.left_x <= 2_000_000 && -2_000_000 <= self.top_y <= 2_000_000
    }

    pub fn new(player_position: Point) -> (c: Camera)
        requires
            camera_safe(player_position),
        ensures
            c == centred_on(player_position),
            c.wf(),
    {
        Camera {
            left_x: player_position.x - DISPLAY_WIDTH / 2,
            right_x: player_position.x + DISPLAY_WIDTH / 2,
            top_y: player_position.y - DISPLAY_HEIGHT / 2,
            bottom_y: player_position.y + DISPLAY_HEIGHT / 2,
        }
    }

    pub fn on_player_move(&mut self, player_position: Point)
        requires
            camera_safe(player_position),
        ensures
            *final(self) == centred_on(player_position),
            final(self).wf(),
    {
        *self = Camera::new(player_position);
    }
}

} // verus!
