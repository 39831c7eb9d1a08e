use vstd::prelude::*;
use vstd::arithmetic::div_mod::lemma_fundamental_div_mod_converse;

verus! {

/// One four-channel texel of the pheromone field, a byte per channel.
#[derive(Clone, Copy, Debug, PartialEq, Eq, Structural)]
pub struct Color {
    pub r: u8,
    pub g: u8,
    pub b: u8,
    pub a: u8,
}

impl Color {
    pub fn new(r: u8, g: u8, b: u8, a: u8) -> (c: Color)
        ensures
            c == (Color { r, g, b, a }),
    {
        Color { r, g, b, a }
    }

    /// Opaque red: the trail of searching ants, and the colour of nests.
    pub fn red() -> (c: Color)
        ensures
            c == (Color { r: 255, g: 0, b: 0, a: 255 }),
    {
        Color { r: 255, g: 0, b: 0, a: 255 }
    }

    /// Opaque green: the trail of food sources.
    pub fn green() -> (c: Color)
        ensures
            c == (Color { r: 0, g: 255, b: 0, a: 255 }),
    {
        Color { r: 0, g: 255, b: 0, a: 255 }
    }

    /// Opaque blue: the colour of ants.
    pub fn blue() -> (c: Color)
        ensures
            c == (Color { r: 0, g: 0, b: 255, a: 255 }),
    {
        Color { r: 0, g: 0, b: 255, a: 255 }
    }
}

/// The colour channel that carries the most signal: 0 for red, 1 for green,
/// 2 for blue, the first of them on a tie.
pub open spec fn dominant(c: Color) -> int {
    if c.r >= c.g && c.r >= c.b {
        0
    } else if c.g >= c.b {
        1
    } else {
        2
    }
}

/// Returns the dominant colour channel of `c`.
pub fn dominant_channel(c: Color) -> (r: usize)
    ensures
        r == dominant(c),
{
    if c.r >= c.g && c.r >= c.b {
        0
    } else if c.g >= c.b {
        1
    } else {
        2
    }
}

/// Pixel encodings a field may be built from.
#[derive(Clone, Copy, Debug, PartialEq, Eq, Structural)]
pub enum PixelFormat {
    Bgra8Unorm,
    Bgra8UnormSrgb,
    Rgba8Unorm,
    Rgba8UnormSrgb,
    Other,
}

/// Whether `format` stores four one-byte channels per pixel.
pub open spec fn four_byte_format(format: PixelFormat) -> bool {
    format != PixelFormat::Other
}

/// Whether the field can be read from pixels in `format`.
pub fn is_vec4_u8_format(format: PixelFormat) -> (r: bool)
    ensures
        r == four_byte_format(format),
{
    match format {
        PixelFormat::Bgra8Unorm | PixelFormat::Bgra8UnormSrgb | PixelFormat::Rgba8Unorm
        | PixelFormat::Rgba8UnormSrgb => true,
        PixelFormat::Other => false,
    }
}

/// Why raw pixels could not become a field.
#[derive(Clone, Copy, Debug, PartialEq, Eq, Structural)]
pub enum FieldError {
    /// The pixels are not four one-byte channels each.
    UnsupportedFormat,
    /// The byte count is not four per cell of the given size.
    SizeMismatch,
}

/// The four cells around a point: row `cy` on top, row `cy + 1` below.
#[derive(Clone, Copy, Debug, PartialEq, Eq, Structural)]
pub struct Corners {
    pub top_left: Color,
    pub top_right: Color,
    pub bottom_left: Color,
    pub bottom_right: Color,
}

/// The texel at cell `(x, y)` of a row-major grid `width` cells wide.
pub open spec fn cell_of(cells: Seq<Color>, width: int, x: int, y: int) -> Color {
    cells[y * width + x]
}

/// The texel stored in bytes `4 * k .. 4 * k + 4`.
pub open spec fn texel_of(bytes: Seq<u8>, k: int) -> Color {
    Color { r: bytes[4 * k], g: bytes[4 * k + 1], b: bytes[4 * k + 2], a: bytes[4 * k + 3] }
}

/// Whether cell `(i, j)` lies in the `size` by `size` square centred on
/// cell `(x, y)`: the square starts `size / 2` cells before the centre.
pub open spec fn in_square(x: int, y: int, size: int, i: int, j: int) -> bool {
    &&& x - size / 2 <= i < x - size / 2 + size
    &&& y - size / 2 <= j < y - size / 2 + size
}

proof fn lemma_index_in_grid(width: int, height: int, x: int, y: int)
    requires
        0 <= x < width,
        0 <= y < height,
    ensures
        0 <= y * width + x < width * height,
{
    assert(0 <= y * width) by (nonlinear_arith)
        requires
            0 <= y,
            0 <= width,
    ;
    assert(y * width + x < width * height) by (nonlinear_arith)
        requires
            0 <= x < width,
            0 <= y < height,
    ;
}

proof fn lemma_index_unique(width: int, x: int, y: int, i: int, j: int)
    requires
        0 <= x < width,
        0 <= i < width,
        0 <= y,
        0 <= j,
        y * width + x == j * width + i,
    ensures
        x == i,
        y == j,
{
    let k = y * width + x;
    lemma_fundamental_div_mod_converse(k, width, y, x);
    lemma_fundamental_div_mod_converse(k, width, j, i);
}

/// `v` held within `0 ..= limit`.
pub open spec fn clamp_to(v: int, limit: int) -> int {
    if v <= 0 {
        0
    } else if v >= limit {
        limit
    } else {
        v
    }
}

/// The cells `start .. start + size` clipped to `0 .. limit`, as a range.
fn clip(start: i128, size: u32, limit: usize) -> (r: (usize, usize))
    requires
        -0x1_0000_0000_0000_0000 <= start <= 0x1_0000_0000_0000_0000,
    ensures
        r.0 <= r.1 <= limit,
        r.0 == clamp_to(start as int, limit as int),
        r.1 == if clamp_to(start + size, limit as int) <= r.0 {
            r.0 as int
        } else {
            clamp_to(start + size, limit as int)
        },
{
    let end = start + size as i128;
    let lo: usize = if start <= 0 {
        0
    } else if start >= limit as i128 {
        limit
    } else {
        start as usize
    };
    let hi: usize = if end <= lo as i128 {
        lo
    } else if end >= limit as i128 {
        limit
    } else {
        end as usize
    };
    (lo, hi)
}

/// A dense grid of four-channel intensities that agents deposit trails into
/// and read signal from.
pub struct PheromoneField {
    width: usize,
    height: usize,
    cells: Vec<Color>,
}

impl PheromoneField {
    /// The grid holds one texel per cell, row by row.
    pub closed spec fn wf(&self) -> bool {
        self.cells@.len() == self.width * self.height
    }

    pub closed spec fn spec_width(&self) -> int {
        self.width as int
    }

    pub closed spec fn spec_height(&self) -> int {
        self.height as int
    }

    /// The texel at cell `(x, y)`.
    pub closed spec fn cell(&self, x: int, y: int) -> Color {
        cell_of(self.cells@, self.width as int, x, y)
    }

    /// Whether `(x, y)` is a cell of the grid.
    pub open spec fn contains(&self, x: int, y: int) -> bool {
        0 <= x < self.spec_width() && 0 <= y < self.spec_height()
    }

    /// Whether a point whose integer part is `(cx, cy)` has a complete
    /// two by two neighbourhood to interpolate from.
    pub open spec fn can_sample(&self, cx: int, cy: int) -> bool {
        0 <= cx && cx + 1 < self.spec_width() && 0 <= cy && cy + 1 < self.spec_height()
    }

    /// Whether `new` is this field with the `size` by `size` square centred on
    /// `(x, y)` painted `color`, clipped to the grid.
    pub open spec fn deposited(&self, new: &PheromoneField, x: int, y: int, color: Color, size: int) -> bool {
        &&& new.wf()
        &&& new.spec_width() == self.spec_width()
        &&& new.spec_height() == self.spec_height()
        &&& forall|i: int, j: int|
            self.contains(i, j) ==> #[trigger] new.cell(i, j) == if in_square(x, y, size, i, j) {
                color
            } else {
                self.cell(i, j)
            }
    }

    /// A `width` by `height` field with every cell set to `background`.
    pub fn new(width: usize, height: usize, background: Color) -> (f: PheromoneField)
        requires
            width * height <= usize::MAX,
        ensures
            f.wf(),
            f.spec_width() == width,
            f.spec_height() == height,
            forall|x: int, y: int| f.contains(x, y) ==> #[trigger] f.cell(x, y) == background,
    {
        let n = width * height;
        let mut cells: Vec<Color> = Vec::new();
        let mut k: usize = 0;
        while k < n
            invariant
                k <= n,
                cells@.len() == k,
                forall|i: int| 0 <= i < k ==> #[trigger] cells@[i] == background,
            decreases n - k,
        {
            cells.push(background);
            k = k + 1;
        }
        let f = PheromoneField { width, height, cells };
        assert forall|x: int, y: int| f.contains(x, y) implies #[trigger] f.cell(x, y) == background by {
            lemma_index_in_grid(width as int, height as int, x, y);
        }
        f
    }

    /// Builds a field from raw pixels, four bytes per cell, row by row. Fails
    /// on a pixel encoding other than four one-byte channels, and on a byte
    /// count that does not match the size.
    pub fn from_bytes(width: usize, height: usize, format: PixelFormat, bytes: &Vec<u8>) -> (r: Result<
        PheromoneField,
        FieldError,
    >)
        ensures
            !four_byte_format(format) ==> r == Err::<PheromoneField, FieldError>(
                FieldError::UnsupportedFormat,
            ),
            four_byte_format(format) && bytes@.len() != 4 * (width * height) ==> r == Err::<
                PheromoneField,
                FieldError,
            >(FieldError::SizeMismatch),
            four_byte_format(format) && bytes@.len() == 4 * (width * height) ==> r is Ok,
            r matches Ok(f) ==> {
                &&& f.wf()
                &&& f.spec_width() == width
                &&& f.spec_height() == height
                &&& forall|x: int, y: int|
                    f.contains(x, y) ==> #[trigger] f.cell(x, y) == texel_of(
                        bytes@,
                        y * width + x,
                    )
            },
    {
        if !is_vec4_u8_format(format) {
            return Err(FieldError::UnsupportedFormat);
        }
        let len = bytes.len();
        let n = match width.checked_mul(height) {
            Some(n) => n,
            None => {
                proof {
                    assert(4 * (width * height) > usize::MAX) by (nonlinear_arith)
                        requires
                            width * height > usize::MAX,
                    ;
                }
                return Err(FieldError::SizeMismatch);
            },
        };
        if len / 4 != n || len % 4 != 0 {
            return Err(FieldError::SizeMismatch);
        }
        proof {
            assert(bytes@.len() == 4 * n);
        }
        let mut cells: Vec<Color> = Vec::new();
        let mut k: usize = 0;
        while k < n
            invariant
                k <= n,
                n == width * height,
                bytes@.len() == 4 * n,
                4 * n <= usize::MAX,
                cells@.len() == k,
                forall|i: int| 0 <= i < k ==> #[trigger] cells@[i] == texel_of(bytes@, i),
            decreases n - k,
        {
            let i = 4 * k;
            cells.push(Color { r: bytes[i], g: bytes[i + 1], b: bytes[i + 2], a: bytes[i + 3] });
            k = k + 1;
        }
        let f = PheromoneField { width, height, cells };
        assert forall|x: int, y: int| f.contains(x, y) implies #[trigger] f.cell(x, y) == texel_of(
            bytes@,
            y * width + x,
        ) by {
            lemma_index_in_grid(width as int, height as int, x, y);
        }
        Ok(f)
    }

    pub fn width(&self) -> (r: usize)
        ensures
            r == self.spec_width(),
    {
        self.width
    }

    pub fn height(&self) -> (r: usize)
        ensures
            r == self.spec_height(),
    {
        self.height
    }

    /// The texel at cell `(x, y)`, or `None` outside the grid.
    pub fn pixel(&self, x: i64, y: i64) -> (r: Option<Color>)
        requires
            self.wf(),
        ensures
            self.contains(x as int, y as int) ==> r == Some(self.cell(x as int, y as int)),
            !self.contains(x as int, y as int) ==> r is None,
    {
        if x < 0 || y < 0 || x as u64 >= self.width as u64 || y as u64 >= self.height as u64 {
            return None;
        }
        let (xu, yu) = (x as usize, y as usize);
        let _ = self.cells.len();
        proof {
            lemma_index_in_grid(self.width as int, self.height as int, x as int, y as int);
        }
        Some(self.cells[yu * self.width + xu])
    }

    /// The two by two neighbourhood whose top-left cell is `(cx, cy)`, the
    /// integer part of a sample point; `None` where the neighbourhood leaves
    /// the grid, so the last row and column never start one.
    pub fn corners(&self, cx: i64, cy: i64) -> (r: Option<Corners>)
        requires
            self.wf(),
        ensures
            self.can_sample(cx as int, cy as int) <==> r is Some,
            r matches Some(q) ==> q == (Corners {
                top_left: self.cell(cx as int, cy as int),
                top_right: self.cell(cx + 1, cy as int),
                bottom_left: self.cell(cx as int, cy + 1),
                bottom_right: self.cell(cx + 1, cy + 1),
            }),
    {
        if cx < 0 || cy < 0 {
            return None;
        }
        let (lx, ty) = (cx as u64, cy as u64);
        if lx >= self.width as u64 || lx + 1 >= self.width as u64 || ty >= self.height as u64 || ty + 1
            >= self.height as u64 {
            return None;
        }
        let (lx, ty) = (lx as usize, ty as usize);
        let w = self.width;
        let _ = self.cells.len();
        proof {
            lemma_index_in_grid(w as int, self.height as int, lx as int, ty as int);
            lemma_index_in_grid(w as int, self.height as int, lx + 1, ty as int);
            lemma_index_in_grid(w as int, self.height as int, lx as int, ty + 1);
            lemma_index_in_grid(w as int, self.height as int, lx + 1, ty + 1);
        }
        Some(
            Corners {
                top_left: self.cells[ty * w + lx],
                top_right: self.cells[ty * w + lx + 1],
                bottom_left: self.cells[(ty + 1) * w + lx],
                bottom_right: self.cells[(ty + 1) * w + lx + 1],
            },
        )
    }

    /// Paints the `size` by `size` square centred on cell `(x, y)` with
    /// `color`, clipped to the grid; cells outside it keep their texel.
    pub fn deposit(&mut self, x: i64, y: i64, color: Color, size: u32)
        requires
            old(self).wf(),
        ensures
            old(self).deposited(&*final(self), x as int, y as int, color, size as int),
    {
        let half = (size / 2) as i128;
        let (lo_x, hi_x) = clip(x as i128 - half, size, self.width);
        let (lo_y, hi_y) = clip(y as i128 - half, size, self.height);
        let ghost start = self.cells@;
        let w = self.width;
        let h = self.height;
        let _ = self.cells.len();
        let mut j = lo_y;
        while j < hi_y
            invariant
                self.wf(),
                w == self.width,
                h == self.height,
                w == old(self).width,
                h == old(self).height,
                start == old(self).cells@,
                self.cells@.len() <= usize::MAX,
                lo_x <= hi_x <= w,
                hi_y <= h,
                lo_y <= j <= hi_y,
                forall|a: int, b: int|
                    0 <= a < w && 0 <= b < h ==> #[trigger] cell_of(self.cells@, w as int, a, b)
                        == if lo_x <= a < hi_x && lo_y <= b < j {
                        color
                    } else {
                        cell_of(start, w as int, a, b)
                    },
            decreases hi_y - j,
        {
            let mut i = lo_x;
            while i < hi_x
                invariant
                    self.wf(),
                    w == self.width,
                    h == self.height,
                    self.cells@.len() <= usize::MAX,
                    hi_x <= w,
                    lo_y <= j < hi_y,
                    hi_y <= h,
                    lo_x <= i <= hi_x,
                    forall|a: int, b: int|
                        0 <= a < w && 0 <= b < h ==> #[trigger] cell_of(self.cells@, w as int, a, b)
                            == if (lo_x <= a < hi_x && lo_y <= b < j) || (b == j && lo_x <= a < i) {
                            color
                        } else {
                            cell_of(start, w as int, a, b)
                        },
                decreases hi_x - i,
            {
                proof {
                    lemma_index_in_grid(w as int, h as int, i as int, j as int);
                }
                let ghost before = self.cells@;
                self.cells.set(j * w + i, color);
                proof {
                    assert forall|a: int, b: int| 0 <= a < w && 0 <= b < h implies #[trigger] cell_of(
                        self.cells@,
                        w as int,
                        a,
                        b,
                    ) == if (a == i && b == j) {
                        color
                    } else {
                        cell_of(before, w as int, a, b)
                    } by {
                        lemma_index_in_grid(w as int, h as int, a, b);
                        if b * w + a == j * w + i {
                            lemma_index_unique(w as int, a, b, i as int, j as int);
                        }
                    }
                }
                i = i + 1;
            }
            j = j + 1;
        }
    }
}

/// Sampling reaches as far as the grid allows: a point whose integer part is
/// the second-to-last column and row has a complete neighbourhood, and one a
/// unit further along either axis has none.
pub proof fn lemma_sampling_edge(field: &PheromoneField)
    requires
        field.wf(),
        field.spec_width() >= 2,
        field.spec_height() >= 2,
    ensures
        field.can_sample(field.spec_width() - 2, field.spec_height() - 2),
        !field.can_sample(field.spec_width() - 1, field.spec_height() - 2),
        !field.can_sample(field.spec_width() - 2, field.spec_height() - 1),
{
}

/// Reading a deposit back: right after a trail of `color` is deposited
/// around a cell of the grid, before any smoothing, that cell holds `color`,
/// so the dominant channel read there is the deposited colour's.
pub proof fn lemma_deposit_read_back(
    before: &PheromoneField,
    after: &PheromoneField,
    x: int,
    y: int,
    color: Color,
    size: int,
)
    requires
        before.wf(),
        before.contains(x, y),
        size >= 1,
        before.deposited(after, x, y, color, size),
    ensures
        after.cell(x, y) == color,
        dominant(after.cell(x, y)) == dominant(color),
{
    assert(in_square(x, y, size, x, y));
    assert(after.cell(x, y) == color);
}

} // verus!
