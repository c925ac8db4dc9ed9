use vstd::prelude::*;

use crate::canvas::{Canvas, CoordinateSystem, Rgba};
use crate::input::InputState;

verus! {

/// Configuration of a world: window title and size, coordinate system,
/// logical grid and grid overlay.
pub struct WorldConfig {
    pub width: u32,
    pub height: u32,
    pub title: String,
    pub coordinate_system: CoordinateSystem,
    pub pixel_grid_width: u32,
    pub pixel_grid_height: u32,
    pub show_grid: bool,
    pub grid_color: Rgba,
}

impl WorldConfig {
    /// Create a new configuration.
    ///
    /// A missing grid width or height defaults to the physical width or
    /// height (one logical pixel per physical pixel). Grid lines, when shown,
    /// are visible only where the logical grid is coarser than the window.
    pub fn new(
        width: u32,
        height: u32,
        title: &str,
        coordinate_system: CoordinateSystem,
        pixel_grid_width: Option<u32>,
        pixel_grid_height: Option<u32>,
        show_grid: bool,
        grid_color: Rgba,
    ) -> (r: Self)
        ensures
            r.width == width,
            r.height == height,
            r.title@ == title@,
            r.coordinate_system == coordinate_system,
            r.pixel_grid_width == match pixel_grid_width {
                Some(w) => w,
                None => width,
            },
            r.pixel_grid_height == match pixel_grid_height {
                Some(h) => h,
                None => height,
            },
            r.show_grid == show_grid,
            r.grid_color == grid_color,
    {
        WorldConfig {
            width,
            height,
            title: title.to_owned(),
            coordinate_system,
            pixel_grid_width: match pixel_grid_width {
                Some(w) => w,
                None => width,
            },
            pixel_grid_height: match pixel_grid_height {
                Some(h) => h,
                None => height,
            },
            show_grid,
            grid_color,
        }
    }
}

/// The interface a visualization implements. Each frame the driver calls
/// `handle_input`, then `update`, then `draw`, then the canvas's grid
/// overlay, and then presents the frame.
pub trait World: Sized {
    /// Create the initial state of the world.
    fn new() -> Self;

    /// The configuration of this world (window size, title, grid, ...).
    fn config() -> WorldConfig;

    /// Advance the world by one frame.
    fn update(&mut self);

    /// Paint the current state onto the canvas.
    fn draw(&self, canvas: &mut Canvas<'_>)
        requires
            old(canvas).wf(),
        ensures
            final(canvas).wf(),
            final(canvas).geometry() == old(canvas).geometry(),
    ;

    /// React to the input state; called once per frame before `update`.
    /// Does nothing unless a world overrides it.
    fn handle_input(&mut self, _input: &InputState) {
    }
}

} // verus!
