use vstd::prelude::*;

verus! {

/// One pixel, in RGBA order.
#[derive(Clone, Copy, PartialEq, Eq, Structural, Debug)]
pub struct Rgba {
    pub r: u8,
    pub g: u8,
    pub b: u8,
    pub a: u8,
}

/// Whether a pixel table can back a canvas: nonempty, rectangular, and
/// within the fixed size bound.
pub open spec fn spec_rows_ok(rows: Seq<Vec<Rgba>>) -> bool {
    &&& 0 < rows.len() <= 4096
    &&& 0 < (rows[0])@.len() <= 4096
    &&& forall|y: int| 0 <= y < rows.len() ==> (#[trigger] rows[y])@.len() == (rows[0])@.len()
}

/// A fixed-size raster image: `height` rows of `width` pixels each.
pub struct Canvas {
    width: usize,
    height: usize,
    rows: Vec<Vec<Rgba>>,
}

/// The color a run of barcode modules puts at horizontal offset `xoff` from
/// the run's left edge, each module two pixels wide: the foreground where
/// the module is set, the background where it is not.
pub open spec fn spec_bar_pixel(modules: Seq<u8>, fg: Rgba, bg: Rgba, xoff: int) -> Rgba {
    if modules[xoff / 2] != 0 {
        fg
    } else {
        bg
    }
}

impl Canvas {
    pub closed spec fn spec_width(&self) -> int {
        self.width as int
    }

    pub closed spec fn spec_height(&self) -> int {
        self.height as int
    }

    pub closed spec fn spec_rows(&self) -> Seq<Vec<Rgba>> {
        self.rows@
    }

    /// Well-formed: the row table matches the stated size, which stays
    /// within a fixed bound so that coordinate arithmetic cannot overflow.
    pub open spec fn wf(&self) -> bool {
        &&& self.spec_rows().len() == self.spec_height()
        &&& forall|y: int|
            0 <= y < self.spec_height() ==> (#[trigger] self.spec_rows()[y])@.len()
                == self.spec_width()
        &&& 0 < self.spec_width() <= 4096
        &&& 0 < self.spec_height() <= 4096
    }

    /// The pixel at column `x` of row `y`.
    pub open spec fn pixel(&self, x: int, y: int) -> Rgba {
        self.spec_rows()[y]@[x]
    }

    pub fn width(&self) -> (r: usize)
        ensures
            r == self.spec_width(),
    {
        self.width
    }

    pub fn height(&self) -> (r: usize)
        ensures
            r == self.spec_height(),
    {
        self.height
    }

    /// The pixel at column `x` of row `y`, for callers outside the proof.
    pub fn pixel_at(&self, x: usize, y: usize) -> (r: Rgba)
        requires
            self.wf(),
            x < self.spec_width(),
            y < self.spec_height(),
        ensures
            r == self.pixel(x as int, y as int),
    {
        self.rows[y][x]
    }

    /// A canvas of the given size with every pixel set to `c`.
    pub fn new(width: usize, height: usize, c: Rgba) -> (r: Canvas)
        requires
            0 < width <= 4096,
            0 < height <= 4096,
        ensures
            r.wf(),
            r.spec_width() == width,
            r.spec_height() == height,
            forall|x: int, y: int|
                0 <= x < width && 0 <= y < height ==> #[trigger] r.pixel(x, y) == c,
    {
        let mut rows: Vec<Vec<Rgba>> = Vec::new();
        let mut y: usize = 0;
        while y < height
            invariant
                y <= height,
                rows@.len() == y,
                forall|yy: int|
                    0 <= yy < y ==> (#[trigger] rows@[yy])@.len() == width && forall|xx: int|
                        0 <= xx < width ==> rows@[yy]@[xx] == c,
            decreases height - y,
        {
            let mut row: Vec<Rgba> = Vec::new();
            let mut x: usize = 0;
            while x < width
                invariant
                    x <= width,
                    row@.len() == x,
                    forall|xx: int| 0 <= xx < x ==> #[trigger] row@[xx] == c,
                decreases width - x,
            {
                row.push(c);
                x = x + 1;
            }
            rows.push(row);
            y = y + 1;
        }
        Canvas { width, height, rows }
    }

    /// Adopts a prepared pixel table as a canvas: `Some` exactly when the
    /// table is rectangular and within the size bound, and then the canvas
    /// shows exactly the given pixels.
    pub fn from_rows(rows: Vec<Vec<Rgba>>) -> (r: Option<Canvas>)
        ensures
            r is Some <==> spec_rows_ok(rows@),
            r matches Some(c) ==> c.wf() && c.spec_height() == rows@.len() && c.spec_width() == (
            rows@[0])@.len() && (forall|x: int, y: int|
                0 <= y < rows@.len() && 0 <= x < (rows@[0])@.len() ==> #[trigger] c.pixel(x, y)
                    == (rows@[y])@[x]),
    {
        let height = rows.len();
        if height == 0 || height > 4096 {
            return None;
        }
        let width = rows[0].len();
        if width == 0 || width > 4096 {
            return None;
        }
        let mut y: usize = 0;
        while y < height
            invariant
                y <= height,
                height == rows@.len(),
                width == (rows@[0])@.len(),
                forall|yy: int| 0 <= yy < y ==> (#[trigger] rows@[yy])@.len() == width,
            decreases height - y,
        {
            if rows[y].len() != width {
                return None;
            }
            y = y + 1;
        }
        Some(Canvas { width, height, rows })
    }

    /// Sets the rectangle of `rw` by `rh` pixels at `(x0, y0)` to `c`,
    /// leaving every other pixel as it was.
    pub fn fill_rect(&mut self, x0: usize, y0: usize, rw: usize, rh: usize, c: Rgba)
        requires
            old(self).wf(),
            x0 + rw <= old(self).spec_width(),
            y0 + rh <= old(self).spec_height(),
        ensures
            final(self).wf(),
            final(self).spec_width() == old(self).spec_width(),
            final(self).spec_height() == old(self).spec_height(),
            forall|x: int, y: int|
                0 <= x < old(self).spec_width() && 0 <= y < old(self).spec_height()
                    ==> #[trigger] final(self).pixel(x, y) == if x0 <= x < x0 + rw && y0 <= y < y0
                    + rh {
                    c
                } else {
                    old(self).pixel(x, y)
                },
    {
        let w = self.width;
        let mut y: usize = y0;
        while y < y0 + rh
            invariant
                self.wf(),
                w == self.spec_width(),
                self.spec_width() == old(self).spec_width(),
                self.spec_height() == old(self).spec_height(),
                x0 + rw <= self.spec_width(),
                y0 <= y <= y0 + rh <= self.spec_height(),
                forall|xx: int, yy: int|
                    0 <= xx < self.spec_width() && 0 <= yy < self.spec_height()
                        ==> #[trigger] self.pixel(xx, yy) == if x0 <= xx < x0 + rw && y0 <= yy < y {
                        c
                    } else {
                        old(self).pixel(xx, yy)
                    },
            decreases y0 + rh - y,
        {
            let mut row: Vec<Rgba> = Vec::new();
            let mut x: usize = 0;
            while x < w
                invariant
                    self.wf(),
                    w == self.spec_width(),
                    x0 + rw <= self.spec_width(),
                    y0 <= y < self.spec_height(),
                    x <= w,
                    row@.len() == x,
                    forall|xx: int|
                        0 <= xx < x ==> #[trigger] row@[xx] == if x0 <= xx < x0 + rw {
                            c
                        } else {
                            self.pixel(xx, y as int)
                        },
                decreases w - x,
            {
                if x0 <= x && x < x0 + rw {
                    row.push(c);
                } else {
                    row.push(self.rows[y][x]);
                }
                x = x + 1;
            }
            let ghost rowv = row@;
            let ghost before = *self;
            self.rows.set(y, row);
            proof {
                assert forall|xx: int, yy: int|
                    0 <= xx < self.spec_width() && 0 <= yy
                        < self.spec_height() implies #[trigger] self.pixel(xx, yy) == if x0 <= xx
                    < x0 + rw && y0 <= yy < y + 1 {
                    c
                } else {
                    old(self).pixel(xx, yy)
                } by {
                    if yy == y {
                        assert(self.pixel(xx, yy) == rowv[xx]);
                        assert(rowv[xx] == if x0 <= xx < x0 + rw {
                            c
                        } else {
                            before.pixel(xx, y as int)
                        });
                    } else {
                        assert(self.pixel(xx, yy) == before.pixel(xx, yy));
                    }
                }
            }
            y = y + 1;
        }
    }

    /// Copies `src` onto this canvas with its top-left corner at
    /// `(dx, dy)`, cropping whatever falls outside this canvas.
    pub fn blit(&mut self, src: &Canvas, dx: usize, dy: usize)
        requires
            old(self).wf(),
            src.wf(),
        ensures
            final(self).wf(),
            final(self).spec_width() == old(self).spec_width(),
            final(self).spec_height() == old(self).spec_height(),
            forall|x: int, y: int|
                0 <= x < old(self).spec_width() && 0 <= y < old(self).spec_height()
                    ==> #[trigger] final(self).pixel(x, y) == if dx <= x < dx + src.spec_width()
                    && dy <= y < dy + src.spec_height() {
                    src.pixel(x - dx, y - dy)
                } else {
                    old(self).pixel(x, y)
                },
    {
        let w = self.width;
        let h = self.height;
        if dy >= h || dx >= w {
            return ;
        }
        let yend: usize = if dy + src.height <= h {
            dy + src.height
        } else {
            h
        };
        let mut y: usize = dy;
        while y < yend
            invariant
                self.wf(),
                src.wf(),
                w == self.spec_width(),
                h == self.spec_height(),
                self.spec_width() == old(self).spec_width(),
                self.spec_height() == old(self).spec_height(),
                dx < w,
                dy <= y <= yend <= self.spec_height(),
                yend <= dy + src.spec_height(),
                yend == if dy + src.spec_height() <= h {
                    dy + src.spec_height()
                } else {
                    h as int
                },
                forall|xx: int, yy: int|
                    0 <= xx < self.spec_width() && 0 <= yy < self.spec_height()
                        ==> #[trigger] self.pixel(xx, yy) == if dx <= xx < dx + src.spec_width()
                        && dy <= yy < y {
                        src.pixel(xx - dx, yy - dy)
                    } else {
                        old(self).pixel(xx, yy)
                    },
            decreases yend - y,
        {
            let mut row: Vec<Rgba> = Vec::new();
            let mut x: usize = 0;
            while x < w
                invariant
                    self.wf(),
                    src.wf(),
                    w == self.spec_width(),
                    dx < w,
                    dy <= y < yend <= self.spec_height(),
                    yend <= dy + src.spec_height(),
                    x <= w,
                    row@.len() == x,
                    forall|xx: int|
                        0 <= xx < x ==> #[trigger] row@[xx] == if dx <= xx < dx
                            + src.spec_width() {
                            src.pixel(xx - dx, y - dy)
                        } else {
                            self.pixel(xx, y as int)
                        },
                decreases w - x,
            {
                if dx <= x && x - dx < src.width {
                    row.push(src.rows[y - dy][x - dx]);
                } else {
                    row.push(self.rows[y][x]);
                }
                x = x + 1;
            }
            let ghost rowv = row@;
            let ghost before = *self;
            self.rows.set(y, row);
            proof {
                assert forall|xx: int, yy: int|
                    0 <= xx < self.spec_width() && 0 <= yy
                        < self.spec_height() implies #[trigger] self.pixel(xx, yy) == if dx <= xx
                    < dx + src.spec_width() && dy <= yy < y + 1 {
                    src.pixel(xx - dx, yy - dy)
                } else {
                    old(self).pixel(xx, yy)
                } by {
                    if yy == y {
                        assert(self.pixel(xx, yy) == rowv[xx]);
                        assert(rowv[xx] == if dx <= xx < dx + src.spec_width() {
                            src.pixel(xx - dx, y - dy)
                        } else {
                            before.pixel(xx, y as int)
                        });
                    } else {
                        assert(self.pixel(xx, yy) == before.pixel(xx, yy));
                    }
                }
            }
            y = y + 1;
        }
    }

    /// Draws a run of barcode modules, each two pixels wide and `bh` pixels
    /// tall, with its left edge at `x0` and its top at `y0`: foreground
    /// color where a module is set, background where it is not.
    pub fn draw_modules(
        &mut self,
        modules: &Vec<u8>,
        x0: usize,
        y0: usize,
        bh: usize,
        fg: Rgba,
        bg: Rgba,
    )
        requires
            old(self).wf(),
            x0 + 2 * modules@.len() <= old(self).spec_width(),
            y0 + bh <= old(self).spec_height(),
        ensures
            final(self).wf(),
            final(self).spec_width() == old(self).spec_width(),
            final(self).spec_height() == old(self).spec_height(),
            forall|x: int, y: int|
                0 <= x < old(self).spec_width() && 0 <= y < old(self).spec_height()
                    ==> #[trigger] final(self).pixel(x, y) == if x0 <= x < x0 + 2
                    * modules@.len() && y0 <= y < y0 + bh {
                    spec_bar_pixel(modules@, fg, bg, x - x0)
                } else {
                    old(self).pixel(x, y)
                },
    {
        let n = modules.len();
        let mut i: usize = 0;
        while i < n
            invariant
                self.wf(),
                n == modules@.len(),
                self.spec_width() == old(self).spec_width(),
                self.spec_height() == old(self).spec_height(),
                x0 + 2 * n <= self.spec_width(),
                y0 + bh <= self.spec_height(),
                i <= n,
                forall|x: int, y: int|
                    0 <= x < self.spec_width() && 0 <= y < self.spec_height()
                        ==> #[trigger] self.pixel(x, y) == if x0 <= x < x0 + 2 * i && y0 <= y < y0
                        + bh {
                        spec_bar_pixel(modules@, fg, bg, x - x0)
                    } else {
                        old(self).pixel(x, y)
                    },
            decreases n - i,
        {
            let c = if modules[i] != 0 {
                fg
            } else {
                bg
            };
            self.fill_rect(x0 + 2 * i, y0, 2, bh, c);
            proof {
                assert forall|x: int, y: int|
                    0 <= x < self.spec_width() && 0 <= y < self.spec_height() implies #[trigger] self.pixel(
                    x,
                    y,
                ) == if x0 <= x < x0 + 2 * (i + 1) && y0 <= y < y0 + bh {
                    spec_bar_pixel(modules@, fg, bg, x - x0)
                } else {
                    old(self).pixel(x, y)
                } by {
                    if x0 + 2 * i <= x < x0 + 2 * i + 2 && y0 <= y < y0 + bh {
                        assert((x - x0) / 2 == i);
                    }
                }
            }
            i = i + 1;
        }
    }
}

} // verus!
