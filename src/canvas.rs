use vstd::prelude::*;

verus! {

/// A color as (red, green, blue, alpha), each component 0-255.
pub type Rgba = (u8, u8, u8, u8);

/// Coordinate system for the canvas.
#[derive(Debug, Clone, Copy, PartialEq, Eq, Structural)]
pub enum CoordinateSystem {
    /// Origin (0, 0) is at the top-left corner, Y grows downward.
    TopLeft,
    /// Origin (0, 0) is at the center of the canvas, Y grows upward.
    Center,
}

impl Default for CoordinateSystem {
    fn default() -> (r: Self)
        ensures
            r == CoordinateSystem::TopLeft,
    {
        CoordinateSystem::TopLeft
    }
}

/// Why a canvas could not be built over a frame buffer.
#[derive(Debug, Clone, Copy, PartialEq, Eq, Structural)]
pub enum CanvasError {
    /// The frame buffer does not hold exactly `physical_width * physical_height * 4` bytes.
    BufferLength,
    /// The logical width or height is zero.
    ZeroLogicalSize,
}

/// The sizes and settings of a canvas: everything but the frame buffer.
#[derive(Debug, Clone, Copy)]
pub struct Geometry {
    pub physical_width: u32,
    pub physical_height: u32,
    pub logical_width: u32,
    pub logical_height: u32,
    pub pixel_scale_x: u32,
    pub pixel_scale_y: u32,
    pub coordinate_system: CoordinateSystem,
    pub show_grid: bool,
    pub grid_color: Rgba,
}

impl Geometry {
    /// Logical sizes are positive and each scale factor is the truncated
    /// ratio of physical to logical size along its axis.
    pub open spec fn wf(self) -> bool {
        &&& self.logical_width > 0
        &&& self.logical_height > 0
        &&& self.pixel_scale_x == self.physical_width / self.logical_width
        &&& self.pixel_scale_y == self.physical_height / self.logical_height
    }

    /// Number of bytes a frame buffer of this geometry holds.
    pub open spec fn frame_len(self) -> int {
        self.physical_width * self.physical_height * 4
    }

    /// Where a logical point lands on the logical grid, if it lands on it.
    pub open spec fn map(self, x: int, y: int) -> Option<(int, int)> {
        let (bx, by) = match self.coordinate_system {
            CoordinateSystem::TopLeft => (x, y),
            CoordinateSystem::Center => (
                x + self.logical_width / 2,
                self.logical_height / 2 - y,
            ),
        };
        if 0 <= bx < self.logical_width && 0 <= by < self.logical_height {
            Some((bx, by))
        } else {
            None
        }
    }

    /// Whether the logical point `(x, y)` lies inside the logical grid.
    pub open spec fn in_bounds(self, x: int, y: int) -> bool {
        self.map(x, y) is Some
    }

    /// Whether physical pixel `(px, py)` lies in the frame.
    pub open spec fn on_frame(self, px: int, py: int) -> bool {
        0 <= px < self.physical_width && 0 <= py < self.physical_height
    }

    /// Whether physical pixel `(px, py)` belongs to the block of physical
    /// pixels that the logical point `(x, y)` stands for.
    pub open spec fn covers(self, x: int, y: int, px: int, py: int) -> bool {
        match self.map(x, y) {
            Some((lx, ly)) => {
                &&& lx * self.pixel_scale_x <= px < lx * self.pixel_scale_x + self.pixel_scale_x
                &&& ly * self.pixel_scale_y <= py < ly * self.pixel_scale_y + self.pixel_scale_y
            },
            None => false,
        }
    }

    /// Index of physical pixel `(px, py)` in row-major order.
    pub open spec fn index(self, px: int, py: int) -> int {
        py * self.physical_width + px
    }
}

/// The color stored for the pixel with row-major index `i`.
pub open spec fn color_at(buf: Seq<u8>, i: int) -> Rgba {
    (buf[4 * i], buf[4 * i + 1], buf[4 * i + 2], buf[4 * i + 3])
}

/// The color of physical pixel `(px, py)` of a frame of geometry `g`.
pub open spec fn pixel(g: Geometry, buf: Seq<u8>, px: int, py: int) -> Rgba {
    color_at(buf, g.index(px, py))
}

/// What reading the logical point `(x, y)` gives: the color of the top-left
/// physical pixel of its block.
pub open spec fn read(g: Geometry, buf: Seq<u8>, x: int, y: int) -> Option<Rgba> {
    match g.map(x, y) {
        Some((lx, ly)) => {
            let px = lx * g.pixel_scale_x;
            let py = ly * g.pixel_scale_y;
            if g.on_frame(px, py) {
                Some(pixel(g, buf, px, py))
            } else {
                None
            }
        },
        None => None,
    }
}

/// `after` is `before` with the block of logical point `(x, y)` painted `c`.
pub open spec fn set_effect(g: Geometry, before: Seq<u8>, after: Seq<u8>, x: int, y: int, c: Rgba) -> bool {
    &&& after.len() == before.len()
    &&& forall|px: int, py: int| #[trigger] g.on_frame(px, py) ==>
        pixel(g, after, px, py) == if g.covers(x, y, px, py) { c } else { pixel(g, before, px, py) }
}

/// Whether physical pixel `(px, py)` lies in the block of some logical point
/// `(x + dx, y + dy)` with `0 <= dx < w` and `0 <= dy < h`.
pub open spec fn rect_covers(g: Geometry, x: int, y: int, w: int, h: int, px: int, py: int) -> bool {
    exists|dx: int, dy: int| 0 <= dx < w && 0 <= dy < h && #[trigger] g.covers(x + dx, y + dy, px, py)
}

/// `after` is `before` with every block of the rectangle painted `c`.
pub open spec fn fill_effect(
    g: Geometry,
    before: Seq<u8>,
    after: Seq<u8>,
    x: int,
    y: int,
    w: int,
    h: int,
    c: Rgba,
) -> bool {
    &&& after.len() == before.len()
    &&& forall|px: int, py: int| #[trigger] g.on_frame(px, py) ==>
        pixel(g, after, px, py) == if rect_covers(g, x, y, w, h, px, py) { c } else { pixel(g, before, px, py) }
}

/// A pixel on the frame has an index inside the frame.
proof fn lemma_index_in_frame(g: Geometry, px: int, py: int)
    requires
        g.on_frame(px, py),
    ensures
        0 <= g.index(px, py),
        g.index(px, py) + 1 <= g.physical_width * g.physical_height,
{
    let w = g.physical_width as int;
    let h = g.physical_height as int;
    assert(0 <= py * w && 0 <= py * w + px && py * w + px + 1 <= w * h) by (nonlinear_arith)
        requires
            0 <= px < w,
            0 <= py < h,
    ;
}

/// Two distinct pixels on the frame have distinct indices.
pub(crate) proof fn lemma_index_distinct(g: Geometry, px: int, py: int, qx: int, qy: int)
    requires
        g.on_frame(px, py),
        g.on_frame(qx, qy),
        px != qx || py != qy,
    ensures
        g.index(px, py) != g.index(qx, qy),
{
    let w = g.physical_width as int;
    if py == qy {
    } else if py < qy {
        assert(py * w + px < qy * w + qx) by (nonlinear_arith)
            requires
                py < qy,
                0 <= px < w,
                0 <= qx,
        ;
    } else {
        assert(qy * w + qx < py * w + px) by (nonlinear_arith)
            requires
                qy < py,
                0 <= qx < w,
                0 <= px,
        ;
    }
}

/// The block of a logical cell fits in the frame along one axis.
pub(crate) proof fn lemma_block_fits(l: int, s: int, logical: int, physical: int)
    requires
        0 <= l < logical,
        0 <= s,
        s == physical / logical,
        0 <= physical,
    ensures
        0 <= l * s,
        l * s + s <= physical,
{
    assert(logical * (physical / logical) <= physical) by (nonlinear_arith)
        requires
            logical > 0,
            physical >= 0,
    ;
    assert(0 <= l * s && l * s + s <= logical * s) by (nonlinear_arith)
        requires
            0 <= l < logical,
            0 <= s,
    ;
}

/// A grid line at index `k <= logical` along one axis lies at most at `physical`.
proof fn lemma_line_fits(k: int, s: int, logical: int, physical: int)
    requires
        0 <= k <= logical,
        0 <= s,
        s == physical / logical,
        0 <= physical,
        logical > 0,
    ensures
        0 <= k * s <= physical,
{
    assert(logical * (physical / logical) <= physical) by (nonlinear_arith)
        requires
            logical > 0,
            physical >= 0,
    ;
    assert(0 <= k * s <= logical * s) by (nonlinear_arith)
        requires
            0 <= k <= logical,
            0 <= s,
    ;
}

/// Extending a one-row rectangle by one column adds the block of that column.
proof fn lemma_rect_column_step(g: Geometry, x: int, y: int, dx: int, px: int, py: int)
    requires
        0 <= dx,
    ensures
        rect_covers(g, x, y, dx + 1, 1, px, py) == (rect_covers(g, x, y, dx, 1, px, py) || g.covers(x + dx, y, px, py)),
{
    if g.covers(x + dx, y, px, py) {
        assert(g.covers(x + dx, y + 0, px, py));
    }
    if rect_covers(g, x, y, dx + 1, 1, px, py) {
        let (a, b) = choose|a: int, b: int| 0 <= a < dx + 1 && 0 <= b < 1 && #[trigger] g.covers(x + a, y + b, px, py);
        assert(b == 0);
        if a < dx {
            assert(rect_covers(g, x, y, dx, 1, px, py));
        } else {
            assert(g.covers(x + dx, y, px, py));
        }
    }
    if rect_covers(g, x, y, dx, 1, px, py) {
        let (a, b) = choose|a: int, b: int| 0 <= a < dx && 0 <= b < 1 && #[trigger] g.covers(x + a, y + b, px, py);
        assert(g.covers(x + a, y + b, px, py));
    }
}

/// Extending a rectangle by one row adds the blocks of that row.
proof fn lemma_rect_row_step(g: Geometry, x: int, y: int, w: int, dy: int, px: int, py: int)
    requires
        0 <= dy,
    ensures
        rect_covers(g, x, y, w, dy + 1, px, py) == (rect_covers(g, x, y, w, dy, px, py) || rect_covers(
            g,
            x,
            y + dy,
            w,
            1,
            px,
            py,
        )),
{
    if rect_covers(g, x, y, w, dy + 1, px, py) {
        let (a, b) = choose|a: int, b: int| 0 <= a < w && 0 <= b < dy + 1 && #[trigger] g.covers(x + a, y + b, px, py);
        if b < dy {
            assert(rect_covers(g, x, y, w, dy, px, py));
        } else {
            assert(g.covers(x + a, (y + dy) + 0, px, py));
            assert(rect_covers(g, x, y + dy, w, 1, px, py));
        }
    }
    if rect_covers(g, x, y, w, dy, px, py) {
        let (a, b) = choose|a: int, b: int| 0 <= a < w && 0 <= b < dy && #[trigger] g.covers(x + a, y + b, px, py);
        assert(g.covers(x + a, y + b, px, py));
    }
    if rect_covers(g, x, y + dy, w, 1, px, py) {
        let (a, b) = choose|a: int, b: int| 0 <= a < w && 0 <= b < 1 && #[trigger] g.covers(x + a, (y + dy) + b, px, py);
        assert(g.covers(x + a, y + dy, px, py));
    }
}

/// Position of grid line `k` along an axis of scale `s`.
pub open spec fn line_pos(k: int, s: int) -> int {
    k * s
}

/// Whether `p` is the position of one of the grid lines `0..n` along an axis of scale `s`.
pub open spec fn line_prefix(n: int, s: int, p: int) -> bool {
    exists|k: int| 0 <= k < n && #[trigger] line_pos(k, s) == p
}

/// Whether the grid overlay draws anything on a canvas of geometry `g`.
pub open spec fn grid_active(g: Geometry) -> bool {
    g.show_grid && (g.pixel_scale_x > 1 || g.pixel_scale_y > 1)
}

/// Whether physical pixel `(px, py)` lies on a grid line: a column at a
/// logical column boundary or a row at a logical row boundary.
pub open spec fn on_grid_line(g: Geometry, px: int, py: int) -> bool {
    line_prefix(g.logical_width + 1, g.pixel_scale_x as int, px) || line_prefix(
        g.logical_height + 1,
        g.pixel_scale_y as int,
        py,
    )
}

/// Adding line `n` to the lines `0..n` adds its position.
proof fn lemma_line_prefix_step(n: int, s: int, p: int)
    requires
        0 <= n,
    ensures
        line_prefix(n + 1, s, p) == (line_prefix(n, s, p) || line_pos(n, s) == p),
{
    if line_prefix(n + 1, s, p) {
        let k = choose|k: int| 0 <= k < n + 1 && #[trigger] line_pos(k, s) == p;
        if k < n {
            assert(line_prefix(n, s, p));
        }
    }
    if line_pos(n, s) == p {
        assert(line_prefix(n + 1, s, p));
    }
    if line_prefix(n, s, p) {
        let k = choose|k: int| 0 <= k < n && #[trigger] line_pos(k, s) == p;
        assert(line_prefix(n + 1, s, p));
    }
}

/// A canvas drawing into a borrowed RGBA frame buffer.
pub struct Canvas<'a> {
    frame: &'a mut [u8],
    geometry: Geometry,
}

impl<'a> Canvas<'a> {
    /// The bytes of the frame buffer.
    pub closed spec fn buffer(&self) -> Seq<u8> {
        self.frame@
    }

    /// The sizes and settings of this canvas.
    pub closed spec fn geometry(&self) -> Geometry {
        self.geometry
    }

    /// The geometry is well formed and the buffer has its exact length.
    pub closed spec fn wf(&self) -> bool {
        &&& self.geometry.wf()
        &&& self.frame@.len() == self.geometry.frame_len()
        &&& self.frame@.len() <= usize::MAX
    }

    /// Create a canvas over a frame buffer.
    ///
    /// Fails when the buffer's length is not `physical_width * physical_height * 4`,
    /// or when a logical dimension is zero.
    pub fn new(
        frame: &'a mut [u8],
        physical_width: u32,
        physical_height: u32,
        logical_width: u32,
        logical_height: u32,
        coordinate_system: CoordinateSystem,
        show_grid: bool,
        grid_color: Rgba,
    ) -> (r: Result<Canvas<'a>, CanvasError>)
        ensures
            old(frame)@.len() != physical_width * physical_height * 4 ==> r == Err::<Canvas<'a>, CanvasError>(CanvasError::BufferLength),
            old(frame)@.len() == physical_width * physical_height * 4 && (logical_width == 0 || logical_height == 0)
                ==> r == Err::<Canvas<'a>, CanvasError>(CanvasError::ZeroLogicalSize),
            r is Ok <==> (old(frame)@.len() == physical_width * physical_height * 4 && logical_width > 0 && logical_height > 0),
            r is Err ==> final(frame)@ == old(frame)@,
            r matches Ok(c) ==> {
                &&& c.wf()
                &&& c.buffer() == old(frame)@
                &&& c.buffer().len() == c.geometry().frame_len()
                &&& c.geometry() == (Geometry {
                    physical_width,
                    physical_height,
                    logical_width,
                    logical_height,
                    pixel_scale_x: (physical_width / logical_width) as u32,
                    pixel_scale_y: (physical_height / logical_height) as u32,
                    coordinate_system,
                    show_grid,
                    grid_color,
                })
            },
    {
        let len = frame.len();
        let w = physical_width as usize;
        let h = physical_height as usize;
        let fits = match w.checked_mul(h) {
            Some(n) => match n.checked_mul(4) {
                Some(m) => m == len,
                None => false,
            },
            None => false,
        };
        if !fits {
            return Err(CanvasError::BufferLength);
        }
        if logical_width == 0 || logical_height == 0 {
            return Err(CanvasError::ZeroLogicalSize);
        }
        let geometry = Geometry {
            physical_width,
            physical_height,
            logical_width,
            logical_height,
            pixel_scale_x: physical_width / logical_width,
            pixel_scale_y: physical_height / logical_height,
            coordinate_system,
            show_grid,
            grid_color,
        };
        Ok(Canvas { frame, geometry })
    }

    /// Get the logical width of the canvas (in logical pixels).
    pub fn width(&self) -> (r: u32)
        ensures
            r == self.geometry().logical_width,
    {
        self.geometry.logical_width
    }

    /// Get the logical height of the canvas (in logical pixels).
    pub fn height(&self) -> (r: u32)
        ensures
            r == self.geometry().logical_height,
    {
        self.geometry.logical_height
    }

    /// Get the coordinate system of the canvas.
    pub fn coordinate_system(&self) -> (r: CoordinateSystem)
        ensures
            r == self.geometry().coordinate_system,
    {
        self.geometry.coordinate_system
    }

    /// Convert user coordinates to logical grid coordinates.
    fn to_logical_coords(&self, x: i64, y: i64) -> (r: Option<(u32, u32)>)
        requires
            self.wf(),
            -0x4_0000_0000 <= x <= 0x4_0000_0000,
            -0x4_0000_0000 <= y <= 0x4_0000_0000,
        ensures
            r is Some <==> self.geometry().map(x as int, y as int) is Some,
            r matches Some((a, b)) ==> self.geometry().map(x as int, y as int) == Some((a as int, b as int)),
    {
        let g = self.geometry;
        let (bx, by): (i64, i64) = match g.coordinate_system {
            CoordinateSystem::TopLeft => (x, y),
            CoordinateSystem::Center => {
                let center_x = (g.logical_width / 2) as i64;
                let center_y = (g.logical_height / 2) as i64;
                (x + center_x, center_y - y)
            },
        };
        if bx >= 0 && bx < g.logical_width as i64 && by >= 0 && by < g.logical_height as i64 {
            Some((bx as u32, by as u32))
        } else {
            None
        }
    }

    /// Set a physical pixel in the frame buffer; pixels off the frame are ignored.
    fn set_physical_pixel(&mut self, phys_x: u32, phys_y: u32, color: Rgba)
        requires
            old(self).wf(),
        ensures
            final(self).wf(),
            final(self).geometry() == old(self).geometry(),
            !old(self).geometry().on_frame(phys_x as int, phys_y as int) ==> final(self).buffer() == old(self).buffer(),
            forall|qx: int, qy: int| #[trigger] old(self).geometry().on_frame(qx, qy) ==>
                pixel(old(self).geometry(), final(self).buffer(), qx, qy) == if qx == phys_x && qy == phys_y {
                    color
                } else {
                    pixel(old(self).geometry(), old(self).buffer(), qx, qy)
                },
    {
        let g = self.geometry;
        if phys_x < g.physical_width && phys_y < g.physical_height {
            proof {
                lemma_index_in_frame(g, phys_x as int, phys_y as int);
            }
            let k = phys_y as usize * g.physical_width as usize + phys_x as usize;
            let idx = k * 4;
            let ghost before = self.frame@;
            self.frame[idx] = color.0;
            self.frame[idx + 1] = color.1;
            self.frame[idx + 2] = color.2;
            self.frame[idx + 3] = color.3;
            proof {
                assert forall|qx: int, qy: int| #[trigger] g.on_frame(qx, qy) implies
                    pixel(g, self.frame@, qx, qy) == if qx == phys_x && qy == phys_y {
                        color
                    } else {
                        pixel(g, before, qx, qy)
                    } by {
                    lemma_index_in_frame(g, qx, qy);
                    if qx != phys_x || qy != phys_y {
                        lemma_index_distinct(g, qx, qy, phys_x as int, phys_y as int);
                    }
                }
            }
        }
    }

    /// Get a physical pixel from the frame buffer, if it lies on the frame.
    fn get_physical_pixel(&self, phys_x: u32, phys_y: u32) -> (r: Option<Rgba>)
        requires
            self.wf(),
        ensures
            r == if self.geometry().on_frame(phys_x as int, phys_y as int) {
                Some(pixel(self.geometry(), self.buffer(), phys_x as int, phys_y as int))
            } else {
                None
            },
    {
        let g = self.geometry;
        if phys_x < g.physical_width && phys_y < g.physical_height {
            proof {
                lemma_index_in_frame(g, phys_x as int, phys_y as int);
            }
            let idx = (phys_y as usize * g.physical_width as usize + phys_x as usize) * 4;
            Some((self.frame[idx], self.frame[idx + 1], self.frame[idx + 2], self.frame[idx + 3]))
        } else {
            None
        }
    }

    /// Paint the block of physical pixels that logical cell `(logical_x, logical_y)` covers.
    fn fill_block(&mut self, logical_x: u32, logical_y: u32, color: Rgba)
        requires
            old(self).wf(),
            logical_x < old(self).geometry().logical_width,
            logical_y < old(self).geometry().logical_height,
        ensures
            final(self).wf(),
            final(self).geometry() == old(self).geometry(),
            forall|px: int, py: int| #[trigger] old(self).geometry().on_frame(px, py) ==>
                pixel(old(self).geometry(), final(self).buffer(), px, py) == if {
                    let g = old(self).geometry();
                    &&& logical_x * g.pixel_scale_x <= px < logical_x * g.pixel_scale_x + g.pixel_scale_x
                    &&& logical_y * g.pixel_scale_y <= py < logical_y * g.pixel_scale_y + g.pixel_scale_y
                } {
                    color
                } else {
                    pixel(old(self).geometry(), old(self).buffer(), px, py)
                },
    {
        let g = self.geometry;
        let ghost before = self.frame@;
        proof {
            lemma_block_fits(logical_x as int, g.pixel_scale_x as int, g.logical_width as int, g.physical_width as int);
            lemma_block_fits(logical_y as int, g.pixel_scale_y as int, g.logical_height as int, g.physical_height as int);
        }
        let phys_x_start = logical_x * g.pixel_scale_x;
        let phys_y_start = logical_y * g.pixel_scale_y;
        let mut dy: u32 = 0;
        while dy < g.pixel_scale_y
            invariant
                self.wf(),
                self.geometry() == g,
                g.wf(),
                dy <= g.pixel_scale_y,
                phys_x_start + g.pixel_scale_x <= g.physical_width,
                phys_y_start + g.pixel_scale_y <= g.physical_height,
                phys_x_start == logical_x * g.pixel_scale_x,
                phys_y_start == logical_y * g.pixel_scale_y,
                forall|px: int, py: int| #[trigger] g.on_frame(px, py) ==>
                    pixel(g, self.buffer(), px, py) == if phys_x_start <= px < phys_x_start + g.pixel_scale_x
                        && phys_y_start <= py < phys_y_start + dy {
                        color
                    } else {
                        pixel(g, before, px, py)
                    },
            decreases g.pixel_scale_y - dy,
        {
            let mut dx: u32 = 0;
            while dx < g.pixel_scale_x
                invariant
                    self.wf(),
                    self.geometry() == g,
                    g.wf(),
                    dy < g.pixel_scale_y,
                    dx <= g.pixel_scale_x,
                    phys_x_start + g.pixel_scale_x <= g.physical_width,
                    phys_y_start + g.pixel_scale_y <= g.physical_height,
                    phys_x_start == logical_x * g.pixel_scale_x,
                    phys_y_start == logical_y * g.pixel_scale_y,
                    forall|px: int, py: int| #[trigger] g.on_frame(px, py) ==>
                        pixel(g, self.buffer(), px, py) == if (phys_x_start <= px < phys_x_start + g.pixel_scale_x
                            && phys_y_start <= py < phys_y_start + dy) || (py == phys_y_start + dy
                            && phys_x_start <= px < phys_x_start + dx) {
                            color
                        } else {
                            pixel(g, before, px, py)
                        },
                decreases g.pixel_scale_x - dx,
            {
                self.set_physical_pixel(phys_x_start + dx, phys_y_start + dy, color);
                dx += 1;
            }
            dy += 1;
        }
    }

    /// Set the logical pixel `(x, y)` to `color`, filling its whole block of
    /// physical pixels. Returns false, and writes nothing, when the point lies
    /// outside the logical grid.
    pub fn set_pixel(&mut self, x: i32, y: i32, color: Rgba) -> (r: bool)
        requires
            old(self).wf(),
        ensures
            final(self).wf(),
            final(self).geometry() == old(self).geometry(),
            r == old(self).geometry().in_bounds(x as int, y as int),
            !r ==> final(self).buffer() == old(self).buffer(),
            set_effect(old(self).geometry(), old(self).buffer(), final(self).buffer(), x as int, y as int, color),
    {
        self.set_point(x as i64, y as i64, color)
    }

    /// Set the logical point `(x, y)`, given in wide integers so that offsets
    /// from an `i32` point can be reached without overflow.
    fn set_point(&mut self, x: i64, y: i64, color: Rgba) -> (r: bool)
        requires
            old(self).wf(),
            -0x4_0000_0000 <= x <= 0x4_0000_0000,
            -0x4_0000_0000 <= y <= 0x4_0000_0000,
        ensures
            final(self).wf(),
            final(self).geometry() == old(self).geometry(),
            r == old(self).geometry().in_bounds(x as int, y as int),
            !r ==> final(self).buffer() == old(self).buffer(),
            set_effect(old(self).geometry(), old(self).buffer(), final(self).buffer(), x as int, y as int, color),
    {
        match self.to_logical_coords(x, y) {
            Some((logical_x, logical_y)) => {
                self.fill_block(logical_x, logical_y, color);
                true
            },
            None => false,
        }
    }

    /// Fill the rectangle with top-left logical corner `(x, y)` and the given
    /// size: every logical point `(x + dx, y + dy)` with `dx < width` and
    /// `dy < height` is set as by `set_pixel`; points outside are skipped.
    pub fn fill_rect(&mut self, x: i32, y: i32, width: u32, height: u32, color: Rgba)
        requires
            old(self).wf(),
        ensures
            final(self).wf(),
            final(self).geometry() == old(self).geometry(),
            fill_effect(
                old(self).geometry(),
                old(self).buffer(),
                final(self).buffer(),
                x as int,
                y as int,
                width as int,
                height as int,
                color,
            ),
    {
        let g = self.geometry;
        let ghost before = self.buffer();
        let mut dy: u32 = 0;
        while dy < height
            invariant
                self.wf(),
                self.geometry() == g,
                dy <= height,
                self.buffer().len() == before.len(),
                forall|px: int, py: int| #[trigger] g.on_frame(px, py) ==>
                    pixel(g, self.buffer(), px, py) == if rect_covers(g, x as int, y as int, width as int, dy as int, px, py) {
                        color
                    } else {
                        pixel(g, before, px, py)
                    },
            decreases height - dy,
        {
            let mut dx: u32 = 0;
            while dx < width
                invariant
                    self.wf(),
                    self.geometry() == g,
                    dy < height,
                    dx <= width,
                    self.buffer().len() == before.len(),
                    forall|px: int, py: int| #[trigger] g.on_frame(px, py) ==>
                        pixel(g, self.buffer(), px, py) == if rect_covers(g, x as int, y as int, width as int, dy as int, px, py)
                            || rect_covers(g, x as int, y + dy, dx as int, 1, px, py) {
                            color
                        } else {
                            pixel(g, before, px, py)
                        },
                decreases width - dx,
            {
                let ghost mid = self.buffer();
                self.set_point(x as i64 + dx as i64, y as i64 + dy as i64, color);
                proof {
                    assert forall|px: int, py: int| #[trigger] g.on_frame(px, py) implies
                        pixel(g, self.buffer(), px, py) == if rect_covers(g, x as int, y as int, width as int, dy as int, px, py)
                            || rect_covers(g, x as int, y + dy, dx + 1, 1, px, py) {
                            color
                        } else {
                            pixel(g, before, px, py)
                        } by {
                        lemma_rect_column_step(g, x as int, y + dy, dx as int, px, py);
                    }
                }
                dx += 1;
            }
            proof {
                assert forall|px: int, py: int| #[trigger] g.on_frame(px, py) implies
                    pixel(g, self.buffer(), px, py) == if rect_covers(g, x as int, y as int, width as int, dy + 1, px, py) {
                        color
                    } else {
                        pixel(g, before, px, py)
                    } by {
                    lemma_rect_row_step(g, x as int, y as int, width as int, dy as int, px, py);
                }
            }
            dy += 1;
        }
    }

    /// Get the color of the logical pixel `(x, y)`: the color of the top-left
    /// physical pixel of its block, or `None` when the point lies outside.
    pub fn get_pixel(&self, x: i32, y: i32) -> (r: Option<Rgba>)
        requires
            self.wf(),
        ensures
            r == read(self.geometry(), self.buffer(), x as int, y as int),
    {
        match self.to_logical_coords(x as i64, y as i64) {
            Some((logical_x, logical_y)) => {
                let g = self.geometry;
                proof {
                    lemma_block_fits(logical_x as int, g.pixel_scale_x as int, g.logical_width as int, g.physical_width as int);
                    lemma_block_fits(logical_y as int, g.pixel_scale_y as int, g.logical_height as int, g.physical_height as int);
                }
                self.get_physical_pixel(logical_x * g.pixel_scale_x, logical_y * g.pixel_scale_y)
            },
            None => None,
        }
    }

    /// Set every physical pixel of the frame to `color`, whatever the logical
    /// grid and coordinate system.
    pub fn clear(&mut self, color: Rgba)
        requires
            old(self).wf(),
        ensures
            final(self).wf(),
            final(self).geometry() == old(self).geometry(),
            final(self).buffer().len() == old(self).buffer().len(),
            forall|i: int| 0 <= i < old(self).buffer().len() / 4 ==> #[trigger] color_at(final(self).buffer(), i) == color,
            forall|px: int, py: int| #[trigger] old(self).geometry().on_frame(px, py) ==>
                pixel(old(self).geometry(), final(self).buffer(), px, py) == color,
    {
        let n = self.frame.len() / 4;
        let mut i: usize = 0;
        while i < n
            invariant
                self.wf(),
                self.geometry() == old(self).geometry(),
                n == self.buffer().len() / 4,
                self.buffer().len() == 4 * n,
                i <= n,
                forall|j: int| 0 <= j < i ==> #[trigger] color_at(self.buffer(), j) == color,
            decreases n - i,
        {
            let idx = i * 4;
            let ghost before = self.buffer();
            self.frame[idx] = color.0;
            self.frame[idx + 1] = color.1;
            self.frame[idx + 2] = color.2;
            self.frame[idx + 3] = color.3;
            assert forall|j: int| 0 <= j <= i implies #[trigger] color_at(self.buffer(), j) == color by {
                if j < i {
                    assert(color_at(before, j) == color);
                }
            }
            i += 1;
        }
        proof {
            let g = self.geometry;
            assert forall|px: int, py: int| #[trigger] g.on_frame(px, py) implies
                pixel(g, self.buffer(), px, py) == color by {
                lemma_index_in_frame(g, px, py);
            }
        }
    }

    /// Draw grid lines between logical pixels, over whatever the frame holds.
    ///
    /// Does nothing unless the grid is shown and a scale factor exceeds 1;
    /// otherwise draws a full-height column at every logical column boundary
    /// `0..=width` and a full-width row at every logical row boundary
    /// `0..=height`, where they fall on the frame.
    pub fn draw_grid(&mut self)
        requires
            old(self).wf(),
        ensures
            final(self).wf(),
            final(self).geometry() == old(self).geometry(),
            final(self).buffer().len() == old(self).buffer().len(),
            !grid_active(old(self).geometry()) ==> final(self).buffer() == old(self).buffer(),
            grid_active(old(self).geometry()) ==> forall|px: int, py: int| #[trigger] old(self).geometry().on_frame(px, py)
                ==> pixel(old(self).geometry(), final(self).buffer(), px, py) == if on_grid_line(old(self).geometry(), px, py) {
                    old(self).geometry().grid_color
                } else {
                    pixel(old(self).geometry(), old(self).buffer(), px, py)
                },
    {
        let g = self.geometry;
        if !g.show_grid || (g.pixel_scale_x <= 1 && g.pixel_scale_y <= 1) {
            return;
        }
        let ghost before = self.buffer();
        let color = g.grid_color;
        let ghost sx = g.pixel_scale_x as int;
        let ghost sy = g.pixel_scale_y as int;
        // Vertical lines
        let mut logical_x: u64 = 0;
        while logical_x <= g.logical_width as u64
            invariant
                self.wf(),
                self.geometry() == g,
                g.wf(),
                logical_x <= g.logical_width + 1,
                sx == g.pixel_scale_x,
                forall|px: int, py: int| #[trigger] g.on_frame(px, py) ==>
                    pixel(g, self.buffer(), px, py) == if line_prefix(logical_x as int, sx, px) {
                        color
                    } else {
                        pixel(g, before, px, py)
                    },
            decreases g.logical_width + 1 - logical_x,
        {
            proof {
                lemma_line_fits(logical_x as int, sx, g.logical_width as int, g.physical_width as int);
            }
            let phys_x = logical_x as u32 * g.pixel_scale_x;
            let ghost mid = self.buffer();
            if phys_x < g.physical_width {
                let mut phys_y: u32 = 0;
                while phys_y < g.physical_height
                    invariant
                        self.wf(),
                        self.geometry() == g,
                        phys_x < g.physical_width,
                        phys_y <= g.physical_height,
                        forall|px: int, py: int| #[trigger] g.on_frame(px, py) ==>
                            pixel(g, self.buffer(), px, py) == if px == phys_x && py < phys_y {
                                color
                            } else {
                                pixel(g, mid, px, py)
                            },
                    decreases g.physical_height - phys_y,
                {
                    self.set_physical_pixel(phys_x, phys_y, color);
                    phys_y += 1;
                }
            }
            proof {
                assert forall|px: int, py: int| #[trigger] g.on_frame(px, py) implies
                    pixel(g, self.buffer(), px, py) == if line_prefix(logical_x + 1, sx, px) {
                        color
                    } else {
                        pixel(g, before, px, py)
                    } by {
                    lemma_line_prefix_step(logical_x as int, sx, px);
                }
            }
            logical_x += 1;
        }
        let ghost after_columns = self.buffer();
        // Horizontal lines
        let mut logical_y: u64 = 0;
        while logical_y <= g.logical_height as u64
            invariant
                self.wf(),
                self.geometry() == g,
                g.wf(),
                logical_y <= g.logical_height + 1,
                sy == g.pixel_scale_y,
                forall|px: int, py: int| #[trigger] g.on_frame(px, py) ==>
                    pixel(g, self.buffer(), px, py) == if line_prefix(logical_y as int, sy, py) {
                        color
                    } else {
                        pixel(g, after_columns, px, py)
                    },
            decreases g.logical_height + 1 - logical_y,
        {
            proof {
                lemma_line_fits(logical_y as int, sy, g.logical_height as int, g.physical_height as int);
            }
            let phys_y = logical_y as u32 * g.pixel_scale_y;
            let ghost mid = self.buffer();
            if phys_y < g.physical_height {
                let mut phys_x: u32 = 0;
                while phys_x < g.physical_width
                    invariant
                        self.wf(),
                        self.geometry() == g,
                        phys_y < g.physical_height,
                        phys_x <= g.physical_width,
                        forall|px: int, py: int| #[trigger] g.on_frame(px, py) ==>
                            pixel(g, self.buffer(), px, py) == if py == phys_y && px < phys_x {
                                color
                            } else {
                                pixel(g, mid, px, py)
                            },
                    decreases g.physical_width - phys_x,
                {
                    self.set_physical_pixel(phys_x, phys_y, color);
                    phys_x += 1;
                }
            }
            proof {
                assert forall|px: int, py: int| #[trigger] g.on_frame(px, py) implies
                    pixel(g, self.buffer(), px, py) == if line_prefix(logical_y + 1, sy, py) {
                        color
                    } else {
                        pixel(g, after_columns, px, py)
                    } by {
                    lemma_line_prefix_step(logical_y as int, sy, py);
                }
            }
            logical_y += 1;
        }
    }
}

} // verus!
