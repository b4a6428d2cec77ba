//! The rasterizer: a validated image description applied onto a pixel
//! buffer, command by command in document order.
//!
//! The buffer starts as the background color; each command then
//! overwrites the pixels it covers, so later commands win wherever
//! regions overlap. A command that reaches outside the canvas aborts
//! rasterization with a drawing error; nothing is clamped or wrapped.
//! Persisting the finished buffer to an image file is the caller's
//! affair: this module only fills it.

use vstd::pervasive::VecAdditionalExecFns;
use vstd::prelude::*;

use crate::error::CustomError;
use crate::error::DrawingError;
use crate::error::SpecError;
use crate::Command;
use crate::CustomImage;
use crate::ImageFill;
use crate::Pixel;

verus! {

pub open spec fn min_u32(a: u32, b: u32) -> u32 {
    if a <= b {
        a
    } else {
        b
    }
}

pub open spec fn max_u32(a: u32, b: u32) -> u32 {
    if a <= b {
        b
    } else {
        a
    }
}

// ---------------------------------------------------------------------
// What a command paints, denotationally.
// ---------------------------------------------------------------------

/// Whether the command paints the point `(x, y)`. A rectangle spans the
/// inclusive axis-aligned box between its two corners, in whichever
/// order they were given.
pub open spec fn covers(c: Command, x: int, y: int) -> bool {
    match c {
        Command::DrawPixel { position, .. } => {
            x == position.0 as int && y == position.1 as int
        },
        Command::DrawRect { corner_position_1: c1, corner_position_2: c2, .. } => {
            &&& min_u32(c1.0, c2.0) <= x <= max_u32(c1.0, c2.0)
            &&& min_u32(c1.1, c2.1) <= y <= max_u32(c1.1, c2.1)
        },
    }
}

/// The color the command paints with.
pub open spec fn cmd_color(c: Command) -> Pixel {
    match c {
        Command::DrawPixel { color, .. } => color,
        Command::DrawRect { color, .. } => color,
    }
}

/// Whether every point the command paints lies on a `w` by `h` canvas.
pub open spec fn cmd_in_bounds(w: u32, h: u32, c: Command) -> bool {
    match c {
        Command::DrawPixel { position, .. } => position.0 < w && position.1 < h,
        Command::DrawRect { corner_position_1: c1, corner_position_2: c2, .. } => {
            max_u32(c1.0, c2.0) < w && max_u32(c1.1, c2.1) < h
        },
    }
}

/// The color the canvas shows at `(x, y)` after the whole command list:
/// the color of the last command covering the point, and the background
/// where no command does.
pub open spec fn color_at(bg: Pixel, cmds: Seq<Command>, x: int, y: int) -> Pixel
    decreases cmds.len(),
{
    if cmds.len() == 0 {
        bg
    } else if covers(cmds.last(), x, y) {
        cmd_color(cmds.last())
    } else {
        color_at(bg, cmds.drop_last(), x, y)
    }
}

/// The index of the first command that reaches outside the canvas.
pub open spec fn first_oob(w: u32, h: u32, cmds: Seq<Command>) -> Option<int>
    decreases cmds.len(),
{
    if cmds.len() == 0 {
        None
    } else if !cmd_in_bounds(w, h, cmds.first()) {
        Some(0)
    } else {
        match first_oob(w, h, cmds.drop_first()) {
            None => None,
            Some(i) => Some(i + 1),
        }
    }
}

/// The out-of-canvas point an offending command is blamed for: the first
/// painted point, walking its columns left to right and each column top
/// to bottom, that falls outside the canvas. Meaningful only when the
/// command is out of bounds.
pub open spec fn blame_point(w: u32, h: u32, c: Command) -> (u32, u32) {
    match c {
        Command::DrawPixel { position, .. } => position,
        Command::DrawRect { corner_position_1: c1, corner_position_2: c2, .. } => {
            let xmin = min_u32(c1.0, c2.0);
            let ymin = min_u32(c1.1, c2.1);
            let ymax = max_u32(c1.1, c2.1);
            if xmin >= w || ymin >= h {
                (xmin, ymin)
            } else if ymax >= h {
                (xmin, h)
            } else {
                (w, ymin)
            }
        },
    }
}

/// Whether a pixel buffer exists for this canvas size: both dimensions
/// positive and their product within `u32`, the constraints of the
/// pixel-storage collaborator this buffer is handed to.
pub open spec fn canvas_ok(w: u32, h: u32) -> bool {
    w > 0 && h > 0 && (w as nat) * (h as nat) <= u32::MAX as nat
}

// ---------------------------------------------------------------------
// Laws of painting.
// ---------------------------------------------------------------------

/// Appending a command repaints exactly the points it covers and leaves
/// every other point alone.
pub proof fn lemma_color_at_push(bg: Pixel, cmds: Seq<Command>, c: Command, x: int, y: int)
    ensures
        color_at(bg, cmds.push(c), x, y) == (if covers(c, x, y) {
            cmd_color(c)
        } else {
            color_at(bg, cmds, x, y)
        }),
{
    assert(cmds.push(c).drop_last() =~= cmds);
}

/// Commands that cover the same points with the same colors paint the
/// same canvas.
pub proof fn lemma_color_at_congruence(
    bg: Pixel,
    cmds1: Seq<Command>,
    cmds2: Seq<Command>,
    x: int,
    y: int,
)
    requires
        cmds1.len() == cmds2.len(),
        forall|k: int|
            0 <= k < cmds1.len() ==> covers(cmds1[k], x, y) == covers(cmds2[k], x, y)
                && cmd_color(cmds1[k]) == cmd_color(cmds2[k]),
    ensures
        color_at(bg, cmds1, x, y) == color_at(bg, cmds2, x, y),
    decreases cmds1.len(),
{
    if cmds1.len() > 0 {
        let n = cmds1.len() - 1;
        assert(covers(cmds1[n], x, y) == covers(cmds2[n], x, y));
        assert forall|k: int| 0 <= k < n implies covers(cmds1.drop_last()[k], x, y) == covers(
            cmds2.drop_last()[k],
            x,
            y,
        ) && cmd_color(cmds1.drop_last()[k]) == cmd_color(cmds2.drop_last()[k]) by {
            assert(cmds1.drop_last()[k] == cmds1[k]);
            assert(cmds2.drop_last()[k] == cmds2[k]);
        }
        lemma_color_at_congruence(bg, cmds1.drop_last(), cmds2.drop_last(), x, y);
    }
}

/// The two corners of a rectangle are interchangeable: the swapped
/// command covers the same points, paints the same color, respects the
/// same bounds and is blamed for the same point.
pub proof fn lemma_rect_corners_immaterial(
    w: u32,
    h: u32,
    c1: (u32, u32),
    c2: (u32, u32),
    color: Pixel,
    x: int,
    y: int,
)
    ensures
        covers(
            Command::DrawRect { corner_position_1: c1, corner_position_2: c2, color },
            x,
            y,
        ) == covers(
            Command::DrawRect { corner_position_1: c2, corner_position_2: c1, color },
            x,
            y,
        ),
        cmd_in_bounds(w, h, Command::DrawRect { corner_position_1: c1, corner_position_2: c2, color })
            == cmd_in_bounds(
            w,
            h,
            Command::DrawRect { corner_position_1: c2, corner_position_2: c1, color },
        ),
        blame_point(w, h, Command::DrawRect { corner_position_1: c1, corner_position_2: c2, color })
            == blame_point(
            w,
            h,
            Command::DrawRect { corner_position_1: c2, corner_position_2: c1, color },
        ),
{
}

/// Swapping the corners of one rectangle command changes nothing about
/// the finished raster: the filled region is identical.
pub proof fn lemma_rect_corner_swap_raster(
    bg: Pixel,
    cmds: Seq<Command>,
    i: int,
    c1: (u32, u32),
    c2: (u32, u32),
    color: Pixel,
    x: int,
    y: int,
)
    requires
        0 <= i < cmds.len(),
        cmds[i] == (Command::DrawRect { corner_position_1: c1, corner_position_2: c2, color }),
    ensures
        color_at(
            bg,
            cmds.update(i, Command::DrawRect { corner_position_1: c2, corner_position_2: c1, color }),
            x,
            y,
        ) == color_at(bg, cmds, x, y),
{
    let swapped = Command::DrawRect { corner_position_1: c2, corner_position_2: c1, color };
    let cmds2 = cmds.update(i, swapped);
    assert forall|k: int| 0 <= k < cmds2.len() implies covers(cmds2[k], x, y) == covers(
        cmds[k],
        x,
        y,
    ) && cmd_color(cmds2[k]) == cmd_color(cmds[k]) by {
        if k == i {
            lemma_rect_corners_immaterial(0, 0, c1, c2, color, x, y);
        }
    }
    lemma_color_at_congruence(bg, cmds2, cmds, x, y);
}

/// Later commands win: at a point covered by two commands and by no
/// later one, the finished raster shows the later command's color, so
/// command order is semantically significant wherever regions overlap.
pub proof fn lemma_later_command_wins(
    bg: Pixel,
    cmds: Seq<Command>,
    i: int,
    j: int,
    x: int,
    y: int,
)
    requires
        0 <= i < j < cmds.len(),
        covers(cmds[i], x, y),
        covers(cmds[j], x, y),
        forall|k: int| j < k < cmds.len() ==> !covers(cmds[k], x, y),
    ensures
        color_at(bg, cmds, x, y) == cmd_color(cmds[j]),
    decreases cmds.len(),
{
    if j == cmds.len() - 1 {
    } else {
        assert(!covers(cmds.last(), x, y));
        assert forall|k: int| j < k < cmds.drop_last().len() implies !covers(
            cmds.drop_last()[k],
            x,
            y,
        ) by {
            assert(cmds.drop_last()[k] == cmds[k]);
        }
        assert(cmds.drop_last()[i] == cmds[i]);
        assert(cmds.drop_last()[j] == cmds[j]);
        lemma_later_command_wins(bg, cmds.drop_last(), i, j, x, y);
    }
}

/// A command list whose members all stay on the canvas has no offender.
pub proof fn lemma_first_oob_none(w: u32, h: u32, cmds: Seq<Command>)
    requires
        forall|j: int| 0 <= j < cmds.len() ==> cmd_in_bounds(w, h, cmds[j]),
    ensures
        first_oob(w, h, cmds) is None,
    decreases cmds.len(),
{
    if cmds.len() > 0 {
        assert(cmd_in_bounds(w, h, cmds[0]));
        assert forall|j: int| 0 <= j < cmds.drop_first().len() implies cmd_in_bounds(
            w,
            h,
            cmds.drop_first()[j],
        ) by {
            assert(cmds.drop_first()[j] == cmds[j + 1]);
        }
        lemma_first_oob_none(w, h, cmds.drop_first());
    }
}

/// The first out-of-bounds command is the offender.
pub proof fn lemma_first_oob_at(w: u32, h: u32, cmds: Seq<Command>, k: int)
    requires
        0 <= k < cmds.len(),
        forall|j: int| 0 <= j < k ==> cmd_in_bounds(w, h, cmds[j]),
        !cmd_in_bounds(w, h, cmds[k]),
    ensures
        first_oob(w, h, cmds) == Some(k),
    decreases k,
{
    if k == 0 {
    } else {
        assert(cmd_in_bounds(w, h, cmds[0]));
        assert forall|j: int| 0 <= j < k - 1 implies cmd_in_bounds(
            w,
            h,
            cmds.drop_first()[j],
        ) by {
            assert(cmds.drop_first()[j] == cmds[j + 1]);
        }
        assert(cmds.drop_first()[k - 1] == cmds[k]);
        lemma_first_oob_at(w, h, cmds.drop_first(), k - 1);
    }
}

// ---------------------------------------------------------------------
// Row-major index arithmetic.
// ---------------------------------------------------------------------

proof fn lemma_row_major_bounds(w: int, h: int, x: int, y: int)
    requires
        0 <= x < w,
        0 <= y < h,
    ensures
        0 <= x + w * y,
        x + w * y < w * h,
{
    assert(0 <= x + w * y && x + w * y < w * h) by (nonlinear_arith)
        requires
            0 <= x < w,
            0 <= y < h,
    ;
}

proof fn lemma_row_major_injective(w: int, x1: int, y1: int, x2: int, y2: int)
    requires
        0 <= x1 < w,
        0 <= x2 < w,
        0 <= y1,
        0 <= y2,
        x1 + w * y1 == x2 + w * y2,
    ensures
        x1 == x2,
        y1 == y2,
{
    assert(y1 == y2) by (nonlinear_arith)
        requires
            0 <= x1 < w,
            0 <= x2 < w,
            0 <= y1,
            0 <= y2,
            x1 + w * y1 == x2 + w * y2,
    ;
}

// ---------------------------------------------------------------------
// The pixel buffer.
// ---------------------------------------------------------------------

/// Owned width by height pixel storage, row major. It stands in for the
/// external pixel-storage collaborator: the canvas constraints of
/// `create` are that collaborator's, so a finished buffer can always be
/// handed over for encoding.
#[derive(Debug)]
pub struct PixelBuffer {
    width: u32,
    height: u32,
    data: Vec<Pixel>,
}

impl PixelBuffer {
    /// The buffer holds exactly width times height pixels.
    pub closed spec fn wf(&self) -> bool {
        &&& canvas_ok(self.width, self.height)
        &&& self.data@.len() == (self.width as nat) * (self.height as nat)
    }

    pub closed spec fn spec_width(&self) -> u32 {
        self.width
    }

    pub closed spec fn spec_height(&self) -> u32 {
        self.height
    }

    /// The color stored at `(x, y)`.
    pub closed spec fn spec_pixel(&self, x: int, y: int) -> Pixel {
        self.data@[x + (self.width as int) * y]
    }

    pub fn width(&self) -> (r: u32)
        ensures
            r == self.spec_width(),
    {
        self.width
    }

    pub fn height(&self) -> (r: u32)
        ensures
            r == self.spec_height(),
    {
        self.height
    }

    /// A freshly allocated buffer, every pixel the fill color. Fails
    /// exactly when no buffer exists for this canvas size.
    pub fn create(width: u32, height: u32, fill: Pixel) -> (r: Result<PixelBuffer, CustomError>)
        ensures
            r is Ok <==> canvas_ok(width, height),
            match r {
                Ok(b) => {
                    &&& b.wf()
                    &&& b.spec_width() == width
                    &&& b.spec_height() == height
                    &&& forall|x: int, y: int|
                        0 <= x < width && 0 <= y < height ==> b.spec_pixel(x, y) == fill
                },
                Err(e) => e@ == SpecError::Drawing(DrawingError::Canvas { width, height }),
            },
    {
        if width == 0 || height == 0 {
            return Err(CustomError::Drawing(DrawingError::Canvas { width, height }));
        }
        proof {
            assert((width as nat) * (height as nat) < 0x1_0000_0000_0000_0000) by (nonlinear_arith)
                requires
                    width < 0x1_0000_0000,
                    height < 0x1_0000_0000,
            ;
        }
        let total64: u64 = (width as u64) * (height as u64);
        if total64 > 0xffff_ffff {
            return Err(CustomError::Drawing(DrawingError::Canvas { width, height }));
        }
        let total: usize = total64 as usize;
        let mut data: Vec<Pixel> = Vec::new();
        let mut i: usize = 0;
        while i < total
            invariant
                i <= total,
                data@.len() == i,
                forall|j: int| 0 <= j < i ==> data@[j] == fill,
            decreases total - i,
        {
            data.push(fill);
            i = i + 1;
        }
        let b = PixelBuffer { width, height, data };
        proof {
            assert forall|x: int, y: int| 0 <= x < width && 0 <= y < height implies b.spec_pixel(
                x,
                y,
            ) == fill by {
                lemma_row_major_bounds(width as int, height as int, x, y);
            }
        }
        Ok(b)
    }

    /// Set one pixel; out-of-bounds coordinates are refused and leave
    /// the buffer untouched.
    pub fn set_pixel(&mut self, x: u32, y: u32, color: Pixel) -> (r: Result<(), CustomError>)
        requires
            old(self).wf(),
        ensures
            final(self).wf(),
            final(self).spec_width() == old(self).spec_width(),
            final(self).spec_height() == old(self).spec_height(),
            x < old(self).spec_width() && y < old(self).spec_height() ==> {
                &&& r is Ok
                &&& final(self).spec_pixel(x as int, y as int) == color
                &&& forall|px: int, py: int|
                    0 <= px < old(self).spec_width() && 0 <= py < old(self).spec_height() && !(px
                        == x as int && py == y as int) ==> final(self).spec_pixel(px, py) == old(
                        self,
                    ).spec_pixel(px, py)
            },
            !(x < old(self).spec_width() && y < old(self).spec_height()) ==> {
                &&& r == Err::<(), CustomError>(
                    CustomError::Drawing(DrawingError::OutOfBounds { x, y }),
                )
                &&& *final(self) == *old(self)
            },
    {
        if x >= self.width || y >= self.height {
            return Err(CustomError::Drawing(DrawingError::OutOfBounds { x, y }));
        }
        proof {
            lemma_row_major_bounds(self.width as int, self.height as int, x as int, y as int);
        }
        let idx64: u64 = (x as u64) + (self.width as u64) * (y as u64);
        let idx: usize = idx64 as usize;
        self.data.set(idx, color);
        proof {
            let w = self.width as int;
            let h = self.height as int;
            assert forall|px: int, py: int|
                0 <= px < w && 0 <= py < h && !(px == x as int && py == y as int) implies self
                .spec_pixel(px, py) == old(self).spec_pixel(px, py) by {
                lemma_row_major_bounds(w, h, px, py);
                if px + w * py == x as int + w * (y as int) {
                    lemma_row_major_injective(w, px, py, x as int, y as int);
                }
            }
        }
        Ok(())
    }

    /// Read one pixel back; nothing outside the canvas to read.
    pub fn pixel(&self, x: u32, y: u32) -> (r: Option<Pixel>)
        requires
            self.wf(),
        ensures
            match r {
                Some(p) => x < self.spec_width() && y < self.spec_height() && p == self.spec_pixel(
                    x as int,
                    y as int,
                ),
                None => !(x < self.spec_width() && y < self.spec_height()),
            },
    {
        if x >= self.width || y >= self.height {
            return None;
        }
        proof {
            lemma_row_major_bounds(self.width as int, self.height as int, x as int, y as int);
        }
        let idx64: u64 = (x as u64) + (self.width as u64) * (y as u64);
        let idx: usize = idx64 as usize;
        Some(self.data[idx])
    }

    /// Fill the inclusive box between the given extremes, which must lie
    /// on the canvas.
    #[verifier::loop_isolation(false)]
    fn fill_rect(&mut self, xmin: u32, xmax: u32, ymin: u32, ymax: u32, color: Pixel)
        requires
            old(self).wf(),
            xmin <= xmax < old(self).spec_width(),
            ymin <= ymax < old(self).spec_height(),
        ensures
            final(self).wf(),
            final(self).spec_width() == old(self).spec_width(),
            final(self).spec_height() == old(self).spec_height(),
            forall|px: int, py: int|
                0 <= px < old(self).spec_width() && 0 <= py < old(self).spec_height()
                    ==> final(self).spec_pixel(px, py) == (if xmin <= px <= xmax && ymin <= py
                    <= ymax {
                    color
                } else {
                    old(self).spec_pixel(px, py)
                }),
    {
        let w = self.width();
        let h = self.height();
        let mut x = xmin;
        while x <= xmax
            invariant
                xmin <= x <= xmax + 1,
                self.wf(),
                self.spec_width() == w,
                self.spec_height() == h,
                forall|px: int, py: int|
                    0 <= px < w && 0 <= py < h ==> self.spec_pixel(px, py) == (if xmin <= px < x
                        && ymin <= py <= ymax {
                        color
                    } else {
                        old(self).spec_pixel(px, py)
                    }),
            decreases xmax + 1 - x,
        {
            let mut y = ymin;
            while y <= ymax
                invariant
                    x <= xmax,
                    ymin <= y <= ymax + 1,
                    self.wf(),
                    self.spec_width() == w,
                    self.spec_height() == h,
                    forall|px: int, py: int|
                        0 <= px < w && 0 <= py < h ==> self.spec_pixel(px, py) == (if (xmin <= px
                            < x && ymin <= py <= ymax) || (px == x && ymin <= py < y) {
                            color
                        } else {
                            old(self).spec_pixel(px, py)
                        }),
                decreases ymax + 1 - y,
            {
                let _ = self.set_pixel(x, y, color);
                y = y + 1;
            }
            x = x + 1;
        }
    }

    /// Surrender the raw pixel rows, row major, for encoding by the
    /// pixel-storage collaborator.
    pub fn into_data(self) -> (r: Vec<Pixel>)
        requires
            self.wf(),
        ensures
            r@.len() == (self.spec_width() as nat) * (self.spec_height() as nat),
            forall|x: int, y: int|
                0 <= x < self.spec_width() && 0 <= y < self.spec_height() ==> r@[x + (
                self.spec_width() as int) * y] == self.spec_pixel(x, y),
    {
        self.data
    }
}

impl CustomImage {
    /// Rasterize this document into a freshly created pixel buffer:
    /// every pixel starts as the background color, then the commands
    /// apply in list order, later ones overwriting earlier ones point by
    /// point.
    ///
    /// The result is the buffer exactly when the canvas size is
    /// representable and every command stays on the canvas. Otherwise
    /// nothing is clamped and no buffer escapes: the first offending
    /// command aborts rasterization with a drawing error blaming the
    /// first out-of-canvas point in its column-by-column walk.
    #[verifier::loop_isolation(false)]
    pub fn render(&self) -> (r: Result<PixelBuffer, CustomError>)
        ensures
            match r {
                Ok(buf) => {
                    &&& canvas_ok(self@.width, self@.height)
                    &&& first_oob(self@.width, self@.height, self@.commands) is None
                    &&& buf.wf()
                    &&& buf.spec_width() == self@.width
                    &&& buf.spec_height() == self@.height
                    &&& forall|x: int, y: int|
                        0 <= x < self@.width && 0 <= y < self@.height ==> buf.spec_pixel(x, y)
                            == color_at(self@.background, self@.commands, x, y)
                },
                Err(e) => {
                    if !canvas_ok(self@.width, self@.height) {
                        e@ == SpecError::Drawing(
                            DrawingError::Canvas { width: self@.width, height: self@.height },
                        )
                    } else {
                        &&& first_oob(self@.width, self@.height, self@.commands) is Some
                        &&& ({
                            let i = first_oob(self@.width, self@.height, self@.commands)->Some_0;
                            let bp = blame_point(self@.width, self@.height, self@.commands[i]);
                            e@ == SpecError::Drawing(
                                DrawingError::OutOfBounds { x: bp.0, y: bp.1 },
                            )
                        })
                    }
                },
            },
    {
        let w = self.width;
        let h = self.height;
        let (commands, background): (&Vec<Command>, Pixel) = match &self.data {
            ImageFill::Sparse((c, b)) => (c, *b),
        };
        let ghost cmds = commands@;
        let mut buf = match PixelBuffer::create(w, h, background) {
            Err(e) => {
                return Err(e);
            },
            Ok(b) => b,
        };
        let mut k: usize = 0;
        while k < commands.len()
            invariant
                k <= cmds.len(),
                buf.wf(),
                buf.spec_width() == w,
                buf.spec_height() == h,
                forall|j: int| 0 <= j < k ==> cmd_in_bounds(w, h, cmds[j]),
                forall|x: int, y: int|
                    0 <= x < w && 0 <= y < h ==> buf.spec_pixel(x, y) == color_at(
                        background,
                        cmds.take(k as int),
                        x,
                        y,
                    ),
            decreases cmds.len() - k,
        {
            let c = commands[k];
            let ghost ck = cmds[k as int];
            match c {
                Command::DrawPixel { position, color } => {
                    if position.0 >= w || position.1 >= h {
                        proof {
                            lemma_first_oob_at(w, h, cmds, k as int);
                        }
                        return Err(
                            CustomError::Drawing(
                                DrawingError::OutOfBounds { x: position.0, y: position.1 },
                            ),
                        );
                    }
                    let _ = buf.set_pixel(position.0, position.1, color);
                    proof {
                        assert(cmds.take(k as int + 1) =~= cmds.take(k as int).push(ck));
                        assert forall|x: int, y: int| 0 <= x < w && 0 <= y < h implies buf
                            .spec_pixel(x, y) == color_at(
                            background,
                            cmds.take(k as int + 1),
                            x,
                            y,
                        ) by {
                            lemma_color_at_push(background, cmds.take(k as int), ck, x, y);
                        }
                    }
                },
                Command::DrawRect { corner_position_1: c1, corner_position_2: c2, color } => {
                    let xmin = if c1.0 <= c2.0 {
                        c1.0
                    } else {
                        c2.0
                    };
                    let xmax = if c1.0 <= c2.0 {
                        c2.0
                    } else {
                        c1.0
                    };
                    let ymin = if c1.1 <= c2.1 {
                        c1.1
                    } else {
                        c2.1
                    };
                    let ymax = if c1.1 <= c2.1 {
                        c2.1
                    } else {
                        c1.1
                    };
                    if xmin >= w || ymin >= h {
                        proof {
                            lemma_first_oob_at(w, h, cmds, k as int);
                        }
                        return Err(
                            CustomError::Drawing(DrawingError::OutOfBounds { x: xmin, y: ymin }),
                        );
                    }
                    if ymax >= h {
                        proof {
                            lemma_first_oob_at(w, h, cmds, k as int);
                        }
                        return Err(
                            CustomError::Drawing(DrawingError::OutOfBounds { x: xmin, y: h }),
                        );
                    }
                    if xmax >= w {
                        proof {
                            lemma_first_oob_at(w, h, cmds, k as int);
                        }
                        return Err(
                            CustomError::Drawing(DrawingError::OutOfBounds { x: w, y: ymin }),
                        );
                    }
                    buf.fill_rect(xmin, xmax, ymin, ymax, color);
                    proof {
                        assert(cmds.take(k as int + 1) =~= cmds.take(k as int).push(ck));
                        assert forall|x: int, y: int| 0 <= x < w && 0 <= y < h implies buf
                            .spec_pixel(x, y) == color_at(
                            background,
                            cmds.take(k as int + 1),
                            x,
                            y,
                        ) by {
                            lemma_color_at_push(background, cmds.take(k as int), ck, x, y);
                        }
                    }
                },
            }
            k = k + 1;
        }
        proof {
            assert(cmds.take(cmds.len() as int) =~= cmds);
            lemma_first_oob_none(w, h, cmds);
        }
        Ok(buf)
    }
}

} // verus!
