//! An example world: a box that moves one logical pixel per frame along each
//! axis and bounces off the edges of a coarse logical grid.

use vstd::prelude::*;

use crate::canvas::{pixel, rect_covers, Canvas, CoordinateSystem};
use crate::world::{World, WorldConfig};

verus! {

/// Physical width of the window, in pixels.
pub const RESOLUTION_WIDTH: u32 = 320;

/// Physical height of the window, in pixels.
pub const RESOLUTION_HEIGHT: u32 = 240;

/// Logical width of the world, in cells of 8 by 8 physical pixels.
pub const WIDTH: u32 = RESOLUTION_WIDTH / 8;

/// Logical height of the world, in cells of 8 by 8 physical pixels.
pub const HEIGHT: u32 = RESOLUTION_HEIGHT / 8;

/// Side of the box, in logical pixels.
pub const BOX_SIZE: i16 = 8;

/// One axis of the box: its position lies between 0 and one past the last
/// position at which the box fits, its velocity is one step either way, and
/// at either end it is the velocity that brought the box there.
pub open spec fn axis_ok(pos: int, vel: int, extent: int) -> bool {
    &&& 0 <= pos <= extent - BOX_SIZE + 1
    &&& (vel == 1 || vel == -1)
    &&& (pos == 0 ==> vel == -1)
    &&& (pos == extent - BOX_SIZE + 1 ==> vel == 1)
}

/// One frame along one axis: the velocity turns around when the box touches
/// or has passed the low edge, or sticks out past the high edge; then the
/// box moves by the velocity. Gives the new position and velocity.
pub open spec fn axis_step(pos: int, vel: int, extent: int) -> (int, int) {
    let v = if pos <= 0 || pos + BOX_SIZE > extent {
        -vel
    } else {
        vel
    };
    (pos + v, v)
}

/// The state of the bouncing box.
pub struct BouncingBox {
    box_x: i16,
    box_y: i16,
    velocity_x: i16,
    velocity_y: i16,
}

impl BouncingBox {
    /// Position and velocity on each axis stay within the world.
    #[verifier::type_invariant]
    spec fn inv(&self) -> bool {
        &&& axis_ok(self.box_x as int, self.velocity_x as int, WIDTH as int)
        &&& axis_ok(self.box_y as int, self.velocity_y as int, HEIGHT as int)
    }

    /// Logical position of the box's top-left corner along X.
    pub closed spec fn x(&self) -> int {
        self.box_x as int
    }

    /// Logical position of the box's top-left corner along Y.
    pub closed spec fn y(&self) -> int {
        self.box_y as int
    }

    /// Velocity along X.
    pub closed spec fn vx(&self) -> int {
        self.velocity_x as int
    }

    /// Velocity along Y.
    pub closed spec fn vy(&self) -> int {
        self.velocity_y as int
    }

    /// Logical X of the box's top-left corner.
    pub fn box_x(&self) -> (r: i16)
        ensures
            r == self.x(),
    {
        self.box_x
    }

    /// Logical Y of the box's top-left corner.
    pub fn box_y(&self) -> (r: i16)
        ensures
            r == self.y(),
    {
        self.box_y
    }

    /// Velocity along X, in logical pixels per frame.
    pub fn velocity_x(&self) -> (r: i16)
        ensures
            r == self.vx(),
    {
        self.velocity_x
    }

    /// Velocity along Y, in logical pixels per frame.
    pub fn velocity_y(&self) -> (r: i16)
        ensures
            r == self.vy(),
    {
        self.velocity_y
    }

    /// The starting state: the box at (24, 16), moving down and to the right.
    pub fn start() -> (r: Self)
        ensures
            r.x() == 24 && r.y() == 16 && r.vx() == 1 && r.vy() == 1,
    {
        BouncingBox { box_x: 24, box_y: 16, velocity_x: 1, velocity_y: 1 }
    }

    /// Advance the box by one frame along both axes.
    pub fn step(&mut self)
        ensures
            (final(self).x(), final(self).vx()) == axis_step(old(self).x(), old(self).vx(), WIDTH as int),
            (final(self).y(), final(self).vy()) == axis_step(old(self).y(), old(self).vy(), HEIGHT as int),
            0 <= final(self).x() <= WIDTH - BOX_SIZE + 1,
            0 <= final(self).y() <= HEIGHT - BOX_SIZE + 1,
    {
        proof {
            use_type_invariant(&*self);
        }
        let mut velocity_x = self.velocity_x;
        let mut velocity_y = self.velocity_y;
        if self.box_x <= 0 || self.box_x + BOX_SIZE > WIDTH as i16 {
            velocity_x = -velocity_x;
        }
        if self.box_y <= 0 || self.box_y + BOX_SIZE > HEIGHT as i16 {
            velocity_y = -velocity_y;
        }
        *self = BouncingBox {
            box_x: self.box_x + velocity_x,
            box_y: self.box_y + velocity_y,
            velocity_x,
            velocity_y,
        };
    }

    /// The world's configuration: a 320 by 240 window showing a 40 by 30
    /// logical grid from the top-left, with white grid lines.
    pub fn configuration() -> (r: WorldConfig)
        ensures
            r.width == RESOLUTION_WIDTH && r.height == RESOLUTION_HEIGHT,
            r.title@ == "Bouncing Box"@,
            r.pixel_grid_width == WIDTH && r.pixel_grid_height == HEIGHT,
            r.coordinate_system == CoordinateSystem::TopLeft,
            r.show_grid && r.grid_color == (255u8, 255u8, 255u8, 255u8),
    {
        WorldConfig::new(
            RESOLUTION_WIDTH,
            RESOLUTION_HEIGHT,
            "Bouncing Box",
            CoordinateSystem::TopLeft,
            Some(WIDTH),
            Some(HEIGHT),
            true,
            (255, 255, 255, 255),
        )
    }

    /// Paint the frame: a transparent black background with the box in purple.
    pub fn paint(&self, canvas: &mut Canvas<'_>)
        requires
            old(canvas).wf(),
        ensures
            final(canvas).wf(),
            final(canvas).geometry() == old(canvas).geometry(),
            final(canvas).buffer().len() == old(canvas).buffer().len(),
            forall|px: int, py: int| #[trigger] old(canvas).geometry().on_frame(px, py) ==>
                pixel(old(canvas).geometry(), final(canvas).buffer(), px, py) == if rect_covers(
                    old(canvas).geometry(),
                    self.x(),
                    self.y(),
                    BOX_SIZE as int,
                    BOX_SIZE as int,
                    px,
                    py,
                ) {
                    (0x5eu8, 0x48u8, 0xe8u8, 0xffu8)
                } else {
                    (0u8, 0u8, 0u8, 0u8)
                },
    {
        canvas.clear((0, 0, 0, 0));
        canvas.fill_rect(self.box_x as i32, self.box_y as i32, BOX_SIZE as u32, BOX_SIZE as u32, (0x5e, 0x48, 0xe8, 0xff));
    }
}

impl World for BouncingBox {
    fn new() -> (r: Self)
        ensures
            r.x() == 24 && r.y() == 16 && r.vx() == 1 && r.vy() == 1,
    {
        BouncingBox::start()
    }

    fn config() -> (r: WorldConfig)
        ensures
            r.width == RESOLUTION_WIDTH && r.height == RESOLUTION_HEIGHT,
            r.title@ == "Bouncing Box"@,
            r.pixel_grid_width == WIDTH && r.pixel_grid_height == HEIGHT,
            r.coordinate_system == CoordinateSystem::TopLeft,
            r.show_grid && r.grid_color == (255u8, 255u8, 255u8, 255u8),
    {
        BouncingBox::configuration()
    }

    fn update(&mut self)
        ensures
            (final(self).x(), final(self).vx()) == axis_step(old(self).x(), old(self).vx(), WIDTH as int),
            (final(self).y(), final(self).vy()) == axis_step(old(self).y(), old(self).vy(), HEIGHT as int),
            0 <= final(self).x() <= WIDTH - BOX_SIZE + 1,
            0 <= final(self).y() <= HEIGHT - BOX_SIZE + 1,
    {
        self.step();
    }

    fn draw(&self, canvas: &mut Canvas<'_>)
        ensures
            final(canvas).buffer().len() == old(canvas).buffer().len(),
            forall|px: int, py: int| #[trigger] old(canvas).geometry().on_frame(px, py) ==>
                pixel(old(canvas).geometry(), final(canvas).buffer(), px, py) == if rect_covers(
                    old(canvas).geometry(),
                    self.x(),
                    self.y(),
                    BOX_SIZE as int,
                    BOX_SIZE as int,
                    px,
                    py,
                ) {
                    (0x5eu8, 0x48u8, 0xe8u8, 0xffu8)
                } else {
                    (0u8, 0u8, 0u8, 0u8)
                },
    {
        self.paint(canvas);
    }
}

} // verus!
