use vstd::prelude::*;

verus! {

/// One pixel: red, green, blue and alpha.
#[derive(Clone, Copy, Debug, PartialEq, Eq, Structural)]
pub struct Rgba {
    pub r: u8,
    pub g: u8,
    pub b: u8,
    pub a: u8,
}

/// The pixel of a blank bitmap: transparent black.
pub open spec fn blank() -> Rgba {
    Rgba { r: 0, g: 0, b: 0, a: 0 }
}

/// A decoded image: `width * height` pixels, row after row from the top.
#[derive(Debug)]
pub struct Bitmap {
    width: u32,
    height: u32,
    pixels: Vec<Rgba>,
}

/// Where the pixel `(x, y)` lies in the rows of a bitmap `width` wide.
pub open spec fn offset(width: int, x: int, y: int) -> int {
    y * width + x
}

/// Two pixels of a bitmap that lie at the same offset are the same pixel.
pub proof fn lemma_offset_injective(width: int, x1: int, y1: int, x2: int, y2: int)
    requires
        0 <= x1 < width,
        0 <= x2 < width,
        offset(width, x1, y1) == offset(width, x2, y2),
    ensures
        x1 == x2,
        y1 == y2,
{
    assert(y1 == y2) by (nonlinear_arith)
        requires
            0 <= x1 < width,
            0 <= x2 < width,
            y1 * width + x1 == y2 * width + x2,
    ;
}

/// A pixel inside a bitmap lies at an offset inside its rows.
pub proof fn lemma_offset_bound(width: int, height: int, x: int, y: int)
    requires
        0 <= x < width,
        0 <= y < height,
    ensures
        0 <= offset(width, x, y) < width * height,
{
    assert(0 <= y * width + x < width * height) by (nonlinear_arith)
        requires
            0 <= x < width,
            0 <= y < height,
    ;
}

impl Bitmap {
    /// The number of pixels in a row.
    pub closed spec fn w(&self) -> int {
        self.width as int
    }

    /// The number of rows.
    pub closed spec fn h(&self) -> int {
        self.height as int
    }

    /// The pixels, row after row.
    pub closed spec fn pixels(&self) -> Seq<Rgba> {
        self.pixels@
    }

    /// A bitmap holds exactly `w * h` pixels. `new` and `from_raw` make no
    /// other, and `copy_from` keeps it so.
    pub open spec fn wf(&self) -> bool {
        self.pixels().len() == self.w() * self.h()
    }

    /// The pixel in column `x` of row `y`.
    pub open spec fn pixel(&self, x: int, y: int) -> Rgba {
        self.pixels()[offset(self.w(), x, y)]
    }

    /// Whether `(x, y)` is a pixel of the bitmap.
    pub open spec fn holds(&self, x: int, y: int) -> bool {
        0 <= x < self.w() && 0 <= y < self.h()
    }

    /// Whether every pixel is blank.
    pub open spec fn is_blank(&self) -> bool {
        forall|i: int| 0 <= i < self.pixels().len() ==> self.pixels()[i] == blank()
    }

    /// A blank bitmap of the given size.
    pub fn new(width: u32, height: u32) -> (bitmap: Bitmap)
        requires
            width * height <= usize::MAX,
        ensures
            bitmap.wf(),
            bitmap.w() == width,
            bitmap.h() == height,
            bitmap.is_blank(),
    {
        let count: usize = width as usize * height as usize;
        let mut pixels: Vec<Rgba> = Vec::new();
        let mut i: usize = 0;
        while i < count
            invariant
                i <= count,
                pixels@.len() == i,
                forall|k: int| 0 <= k < i ==> pixels@[k] == blank(),
            decreases count - i,
        {
            pixels.push(Rgba { r: 0, g: 0, b: 0, a: 0 });
            i = i + 1;
        }
        Bitmap { width: width, height: height, pixels: pixels }
    }

    /// The bitmap of the given size that holds `pixels`, where there are
    /// exactly `width * height` of them.
    pub fn from_raw(width: u32, height: u32, pixels: Vec<Rgba>) -> (bitmap: Option<Bitmap>)
        ensures
            bitmap is Some <==> pixels@.len() == width * height,
            bitmap matches Some(b) ==> b.wf() && b.w() == width && b.h() == height && b.pixels()
                == pixels@,
    {
        assert(width * height <= 0xffff_ffff * 0xffff_ffff) by (nonlinear_arith)
            requires
                0 <= width <= 0xffff_ffff,
                0 <= height <= 0xffff_ffff,
        ;
        let needed: u64 = width as u64 * height as u64;
        if pixels.len() as u64 == needed {
            Some(Bitmap { width: width, height: height, pixels: pixels })
        } else {
            None
        }
    }

    /// The number of pixels in a row.
    pub fn width(&self) -> (width: u32)
        ensures
            width == self.w(),
    {
        self.width
    }

    /// The number of rows.
    pub fn height(&self) -> (height: u32)
        ensures
            height == self.h(),
    {
        self.height
    }

    /// The pixels, row after row.
    pub fn as_raw(&self) -> (pixels: &Vec<Rgba>)
        ensures
            pixels@ == self.pixels(),
    {
        &self.pixels
    }

    /// The pixel in column `x` of row `y`, or `None` outside the bitmap.
    pub fn get_pixel(&self, x: u32, y: u32) -> (pixel: Option<Rgba>)
        requires
            self.wf(),
        ensures
            self.holds(x as int, y as int) ==> pixel == Some(self.pixel(x as int, y as int)),
            !self.holds(x as int, y as int) ==> pixel is None,
    {
        if x < self.width && y < self.height {
            let count: usize = self.pixels.len();
            proof {
                lemma_offset_bound(self.width as int, self.height as int, x as int, y as int);
            }
            let at: usize = y as usize * self.width as usize + x as usize;
            Some(self.pixels[at])
        } else {
            None
        }
    }

    /// Copies `src` into the bitmap, its top left pixel to `(x, y)`, pixel for
    /// pixel. Where `src` would reach over an edge nothing is copied and the
    /// result is `false`.
    pub fn copy_from(&mut self, src: &Bitmap, x: u32, y: u32) -> (fits: bool)
        requires
            old(self).wf(),
            src.wf(),
        ensures
            fits <==> x + src.w() <= old(self).w() && y + src.h() <= old(self).h(),
            final(self).wf(),
            final(self).w() == old(self).w(),
            final(self).h() == old(self).h(),
            !fits ==> final(self).pixels() == old(self).pixels(),
            fits ==> forall|px: int, py: int| #[trigger]
                final(self).holds(px, py) ==> final(self).pixel(px, py) == if x <= px < x + src.w()
                    && y <= py < y + src.h() {
                    src.pixel(px - x, py - y)
                } else {
                    old(self).pixel(px, py)
                },
    {
        let width = self.width;
        let height = self.height;
        if x as u64 + src.width as u64 > width as u64 || y as u64 + src.height as u64
            > height as u64 {
            return false;
        }
        let ghost before = *self;
        let count: usize = self.pixels.len();
        let src_count: usize = src.pixels.len();
        let mut row: u32 = 0;
        while row < src.height
            invariant
                row <= src.height,
                x + src.width <= width,
                y + src.height <= height,
                self.width == width,
                self.height == height,
                self.pixels@.len() == width * height,
                self.pixels@.len() == count,
                src.pixels@.len() == src.width * src.height,
                src.pixels@.len() == src_count,
                before.width == width,
                before.height == height,
                before.pixels@.len() == width * height,
                forall|px: int, py: int|
                    0 <= px < width && 0 <= py < height ==> #[trigger] self.pixels@[offset(
                        width as int,
                        px,
                        py,
                    )] == if x <= px < x + src.width && y <= py < y + row {
                        src.pixels@[offset(src.width as int, px - x, py - y)]
                    } else {
                        before.pixels@[offset(width as int, px, py)]
                    },
            decreases src.height - row,
        {
            let mut col: u32 = 0;
            while col < src.width
                invariant
                    row < src.height,
                    col <= src.width,
                    x + src.width <= width,
                    y + src.height <= height,
                    self.width == width,
                    self.height == height,
                    self.pixels@.len() == width * height,
                    self.pixels@.len() == count,
                    src.pixels@.len() == src.width * src.height,
                    src.pixels@.len() == src_count,
                    before.width == width,
                    before.height == height,
                    before.pixels@.len() == width * height,
                    forall|px: int, py: int|
                        0 <= px < width && 0 <= py < height ==> #[trigger] self.pixels@[offset(
                            width as int,
                            px,
                            py,
                        )] == if x <= px < x + src.width && (y <= py < y + row || (py == y + row
                            && px < x + col)) {
                            src.pixels@[offset(src.width as int, px - x, py - y)]
                        } else {
                            before.pixels@[offset(width as int, px, py)]
                        },
                decreases src.width - col,
            {
                proof {
                    lemma_offset_bound(
                        src.width as int,
                        src.height as int,
                        col as int,
                        row as int,
                    );
                    lemma_offset_bound(
                        width as int,
                        height as int,
                        x + col,
                        y + row,
                    );
                }
                let from: usize = row as usize * src.width as usize + col as usize;
                let to: usize = (y as usize + row as usize) * width as usize + (x as usize
                    + col as usize);
                let pixel = src.pixels[from];
                let ghost stale = self.pixels@;
                self.pixels.set(to, pixel);
                proof {
                    assert forall|px: int, py: int|
                        0 <= px < width && 0 <= py < height implies #[trigger] self.pixels@[offset(
                        width as int,
                        px,
                        py,
                    )] == if x <= px < x + src.width && (y <= py < y + row || (py == y + row && px
                        < x + col + 1)) {
                        src.pixels@[offset(src.width as int, px - x, py - y)]
                    } else {
                        before.pixels@[offset(width as int, px, py)]
                    } by {
                        lemma_offset_bound(width as int, height as int, px, py);
                        if offset(width as int, px, py) == to {
                            lemma_offset_injective(width as int, px, py, x + col, y + row);
                        } else {
                            assert(self.pixels@[offset(width as int, px, py)] == stale[offset(
                                width as int,
                                px,
                                py,
                            )]);
                        }
                    }
                }
                col = col + 1;
            }
            row = row + 1;
        }
        true
    }
}

} // verus!
