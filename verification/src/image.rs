//! Indexed-color images, palettes, glyphs and fonts.

use vstd::prelude::*;

verus! {

/// An RGBA quadruple.
pub type Rgba = (u8, u8, u8, u8);

/// One of the sixteen palette entries a pixel can hold; `C0` is transparent.
#[derive(Clone, Copy, Debug, PartialEq, Eq, Structural)]
pub enum Color {
    C0,
    C1,
    C2,
    C3,
    C4,
    C5,
    C6,
    C7,
    C8,
    C9,
    Ca,
    Cb,
    Cc,
    Cd,
    Ce,
    Cf,
}

/// The palette entry that a color stands for.
pub open spec fn color_code(c: Color) -> nat {
    match c {
        Color::C0 => 0,
        Color::C1 => 1,
        Color::C2 => 2,
        Color::C3 => 3,
        Color::C4 => 4,
        Color::C5 => 5,
        Color::C6 => 6,
        Color::C7 => 7,
        Color::C8 => 8,
        Color::C9 => 9,
        Color::Ca => 10,
        Color::Cb => 11,
        Color::Cc => 12,
        Color::Cd => 13,
        Color::Ce => 14,
        Color::Cf => 15,
    }
}

/// The color whose palette entry is `i`, for `i` below sixteen.
pub open spec fn color_of_code(i: nat) -> Color {
    if i == 0 {
        Color::C0
    } else if i == 1 {
        Color::C1
    } else if i == 2 {
        Color::C2
    } else if i == 3 {
        Color::C3
    } else if i == 4 {
        Color::C4
    } else if i == 5 {
        Color::C5
    } else if i == 6 {
        Color::C6
    } else if i == 7 {
        Color::C7
    } else if i == 8 {
        Color::C8
    } else if i == 9 {
        Color::C9
    } else if i == 10 {
        Color::Ca
    } else if i == 11 {
        Color::Cb
    } else if i == 12 {
        Color::Cc
    } else if i == 13 {
        Color::Cd
    } else if i == 14 {
        Color::Ce
    } else {
        Color::Cf
    }
}

impl Color {
    /// The index of this color's palette entry.
    pub fn index(self) -> (i: usize)
        ensures
            i == color_code(self),
            i < 16,
    {
        match self {
            Color::C0 => 0,
            Color::C1 => 1,
            Color::C2 => 2,
            Color::C3 => 3,
            Color::C4 => 4,
            Color::C5 => 5,
            Color::C6 => 6,
            Color::C7 => 7,
            Color::C8 => 8,
            Color::C9 => 9,
            Color::Ca => 10,
            Color::Cb => 11,
            Color::Cc => 12,
            Color::Cd => 13,
            Color::Ce => 14,
            Color::Cf => 15,
        }
    }

    /// The color whose palette entry is `i`.
    pub fn from_index(i: usize) -> (c: Color)
        requires
            i < 16,
        ensures
            c == color_of_code(i as nat),
            color_code(c) == i,
    {
        if i == 0 {
            Color::C0
        } else if i == 1 {
            Color::C1
        } else if i == 2 {
            Color::C2
        } else if i == 3 {
            Color::C3
        } else if i == 4 {
            Color::C4
        } else if i == 5 {
            Color::C5
        } else if i == 6 {
            Color::C6
        } else if i == 7 {
            Color::C7
        } else if i == 8 {
            Color::C8
        } else if i == 9 {
            Color::C9
        } else if i == 10 {
            Color::Ca
        } else if i == 11 {
            Color::Cb
        } else if i == 12 {
            Color::Cc
        } else if i == 13 {
            Color::Cd
        } else if i == 14 {
            Color::Ce
        } else {
            Color::Cf
        }
    }
}

/// Each color's code names it back.
pub proof fn lemma_color_code_roundtrip(c: Color)
    ensures
        color_of_code(color_code(c)) == c,
        color_code(c) < 16,
{
}

//---------------------------------------------------------------------------//

/// A palette: the RGBA value of each of the sixteen colors.
pub struct Palette {
    rgba: Vec<Rgba>,
}

/// The entries of the built-in palette, in color order.
pub open spec fn default_palette_entries() -> Seq<Rgba> {
    seq![
        (0u8, 0u8, 0u8, 0u8),
        (0u8, 0u8, 0u8, 255u8),
        (127u8, 0u8, 0u8, 255u8),
        (255u8, 0u8, 0u8, 255u8),
        (0u8, 127u8, 0u8, 255u8),
        (0u8, 255u8, 0u8, 255u8),
        (127u8, 127u8, 0u8, 255u8),
        (255u8, 255u8, 0u8, 255u8),
        (0u8, 0u8, 127u8, 255u8),
        (0u8, 0u8, 255u8, 255u8),
        (127u8, 0u8, 127u8, 255u8),
        (255u8, 0u8, 255u8, 255u8),
        (0u8, 127u8, 127u8, 255u8),
        (0u8, 255u8, 255u8, 255u8),
        (127u8, 127u8, 127u8, 255u8),
        (255u8, 255u8, 255u8, 255u8),
    ]
}

impl View for Palette {
    type V = Seq<Rgba>;

    closed spec fn view(&self) -> Seq<Rgba> {
        self.rgba@
    }
}

impl Palette {
    pub open spec fn wf(&self) -> bool {
        self@.len() == 16
    }

    /// The built-in palette.
    pub fn default() -> (p: Palette)
        ensures
            p.wf(),
            p@ == default_palette_entries(),
    {
        let rgba = vec![
            (0u8, 0u8, 0u8, 0u8),
            (0u8, 0u8, 0u8, 255u8),
            (127u8, 0u8, 0u8, 255u8),
            (255u8, 0u8, 0u8, 255u8),
            (0u8, 127u8, 0u8, 255u8),
            (0u8, 255u8, 0u8, 255u8),
            (127u8, 127u8, 0u8, 255u8),
            (255u8, 255u8, 0u8, 255u8),
            (0u8, 0u8, 127u8, 255u8),
            (0u8, 0u8, 255u8, 255u8),
            (127u8, 0u8, 127u8, 255u8),
            (255u8, 0u8, 255u8, 255u8),
            (0u8, 127u8, 127u8, 255u8),
            (0u8, 255u8, 255u8, 255u8),
            (127u8, 127u8, 127u8, 255u8),
            (255u8, 255u8, 255u8, 255u8),
        ];
        let p = Palette { rgba };
        assert(p@ =~= default_palette_entries());
        p
    }

    /// A palette with the given sixteen entries.
    pub fn from_entries(rgba: Vec<Rgba>) -> (p: Palette)
        requires
            rgba@.len() == 16,
        ensures
            p.wf(),
            p@ == rgba@,
    {
        Palette { rgba }
    }

    /// The RGBA value of `color`.
    pub fn get(&self, color: Color) -> (v: Rgba)
        requires
            self.wf(),
        ensures
            v == self@[color_code(color) as int],
    {
        self.rgba[color.index()]
    }

    /// Sets the RGBA value of `color`.
    pub fn set(&mut self, color: Color, value: Rgba)
        requires
            old(self).wf(),
        ensures
            final(self).wf(),
            final(self)@ == old(self)@.update(color_code(color) as int, value),
    {
        let i = color.index();
        self.rgba.set(i, value);
    }

    /// An equal copy.
    pub fn duplicate(&self) -> (p: Palette)
        ensures
            p@ == self@,
    {
        let mut rgba: Vec<Rgba> = Vec::new();
        let n = self.rgba.len();
        for i in 0..n
            invariant
                n == self.rgba@.len(),
                rgba@ == self.rgba@.subrange(0, i as int),
        {
            rgba.push(self.rgba[i]);
            assert(rgba@ =~= self.rgba@.subrange(0, i + 1));
        }
        assert(rgba@ =~= self.rgba@);
        Palette { rgba }
    }
}


//---------------------------------------------------------------------------//

/// The mathematical content of an image: its size, its pixels by row and then
/// by column, and the tag and metadata that travel with it.
#[verifier::ext_equal]
pub ghost struct ImageView {
    pub width: nat,
    pub height: nat,
    pub pixels: Seq<Seq<Color>>,
    pub tag: Seq<char>,
    pub metadata: Seq<i16>,
}

/// The pixel grid of the given size whose pixel at `(col, row)` is `f(col, row)`.
pub open spec fn make_pixels(width: nat, height: nat, f: spec_fn(int, int) -> Color) -> Seq<Seq<Color>> {
    Seq::new(height, |row: int| Seq::new(width, |col: int| f(col, row)))
}

/// A transparent image of the given size, without tag or metadata.
pub open spec fn blank_image(width: nat, height: nat) -> ImageView {
    ImageView {
        width,
        height,
        pixels: make_pixels(width, height, |c: int, r: int| Color::C0),
        tag: Seq::empty(),
        metadata: Seq::empty(),
    }
}

impl ImageView {
    /// The pixel rows match the size.
    pub open spec fn wf(self) -> bool {
        &&& self.pixels.len() == self.height
        &&& forall|r: int| 0 <= r < self.height ==> #[trigger] self.pixels[r].len() == self.width
    }

    pub open spec fn in_bounds(self, col: int, row: int) -> bool {
        0 <= col < self.width && 0 <= row < self.height
    }

    /// The pixel at column `col` and row `row`.
    pub open spec fn at(self, col: int, row: int) -> Color {
        self.pixels[row][col]
    }

    /// The same image with the pixels of `f` and the given size.
    pub open spec fn with_pixels(self, width: nat, height: nat, f: spec_fn(int, int) -> Color) -> ImageView {
        ImageView { width, height, pixels: make_pixels(width, height, f), ..self }
    }

    pub open spec fn with_tag(self, tag: Seq<char>) -> ImageView {
        ImageView { tag, ..self }
    }

    pub open spec fn with_metadata(self, metadata: Seq<i16>) -> ImageView {
        ImageView { metadata, ..self }
    }

    /// The same image with the pixel at `(col, row)` set to `color`.
    pub open spec fn with_pixel(self, col: int, row: int, color: Color) -> ImageView {
        self.with_pixels(
            self.width,
            self.height,
            |c: int, r: int| if c == col && r == row { color } else { self.at(c, r) },
        )
    }

    /// Every pixel made transparent.
    pub open spec fn cleared(self) -> ImageView {
        self.with_pixels(self.width, self.height, |c: int, r: int| Color::C0)
    }

    /// The pixels inside the rectangle at `(left, top)` of the given size set
    /// to `color`; the rest of the rectangle lies off the image.
    pub open spec fn filled_rect(self, left: int, top: int, width: nat, height: nat, color: Color) -> ImageView {
        self.with_pixels(
            self.width,
            self.height,
            |c: int, r: int|
                if left <= c < left + width && top <= r < top + height {
                    color
                } else {
                    self.at(c, r)
                },
        )
    }

    /// `src` drawn with its top-left corner at `(left, top)`: every pixel of
    /// `src` that is not transparent and lands on this image replaces the pixel
    /// under it.
    pub open spec fn drawn(self, src: ImageView, left: int, top: int) -> ImageView {
        self.with_pixels(
            self.width,
            self.height,
            |c: int, r: int|
                if src.in_bounds(c - left, r - top) && src.at(c - left, r - top) != Color::C0 {
                    src.at(c - left, r - top)
                } else {
                    self.at(c, r)
                },
        )
    }

    /// The image cut or extended to the given size, from its top-left corner;
    /// new pixels are transparent.
    pub open spec fn cropped(self, width: nat, height: nat) -> ImageView {
        self.with_pixels(
            width,
            height,
            |c: int, r: int| if self.in_bounds(c, r) { self.at(c, r) } else { Color::C0 },
        )
    }

    /// The image mirrored left to right.
    pub open spec fn flipped_horz(self) -> ImageView {
        self.with_pixels(self.width, self.height, |c: int, r: int| self.at(self.width - 1 - c, r))
    }

    /// The image mirrored top to bottom.
    pub open spec fn flipped_vert(self) -> ImageView {
        self.with_pixels(self.width, self.height, |c: int, r: int| self.at(c, self.height - 1 - r))
    }

    /// The image turned a quarter clockwise: the pixel at `(x, y)` moves to
    /// `(height - 1 - y, x)`.
    pub open spec fn rotated_cw(self) -> ImageView {
        self.with_pixels(self.height, self.width, |c: int, r: int| self.at(r, self.height - 1 - c))
    }

    /// The image turned a quarter counterclockwise: the pixel at `(x, y)`
    /// moves to `(y, width - 1 - x)`.
    pub open spec fn rotated_ccw(self) -> ImageView {
        self.with_pixels(self.height, self.width, |c: int, r: int| self.at(self.width - 1 - r, c))
    }
}

/// Byte `j` of an RGBA value: red, green, blue, then alpha.
pub open spec fn rgba_component(v: Rgba, j: int) -> u8 {
    if j == 0 {
        v.0
    } else if j == 1 {
        v.1
    } else if j == 2 {
        v.2
    } else {
        v.3
    }
}

/// Where byte `j` of the pixel at `(col, row)` stands in RGBA data of an
/// image `width` pixels wide: four bytes per pixel, row after row.
pub open spec fn rgba_index(width: nat, col: int, row: int, j: int) -> int {
    4 * (row * width + col) + j
}

/// Pixels in row-major order come one after the other.
proof fn lemma_row_major_before(w: int, c: int, r: int, col: int, row: int)
    by (nonlinear_arith)
    requires
        0 <= c < w,
        0 <= col <= w,
        0 <= r,
        r < row || (r == row && c < col),
    ensures
        r * w + c < row * w + col,
{
}

/// An image of indexed colors, with a tag and numeric metadata.
pub struct Image {
    width: u32,
    height: u32,
    rows: Vec<Vec<Color>>,
    tag: String,
    metadata: Vec<i16>,
}

impl View for Image {
    type V = ImageView;

    closed spec fn view(&self) -> ImageView {
        ImageView {
            width: self.width as nat,
            height: self.height as nat,
            pixels: self.rows@.map_values(|row: Vec<Color>| row@),
            tag: self.tag@,
            metadata: self.metadata@,
        }
    }
}

/// A copy of `v`.
fn copy_metadata(v: &Vec<i16>) -> (r: Vec<i16>)
    ensures
        r@ == v@,
{
    let mut r: Vec<i16> = Vec::new();
    let n = v.len();
    for i in 0..n
        invariant
            n == v@.len(),
            r@ == v@.subrange(0, i as int),
    {
        r.push(v[i]);
        assert(r@ =~= v@.subrange(0, i + 1));
    }
    assert(r@ =~= v@);
    r
}

impl Image {
    /// The image is well formed: its rows match its size.
    pub open spec fn wf(&self) -> bool {
        self@.wf()
    }

    /// The rows hold the view's pixels.
    proof fn lemma_rows(&self)
        requires
            self.wf(),
        ensures
            self.rows@.len() == self.height,
            forall|r: int| 0 <= r < self.height ==> #[trigger] self.rows@[r]@ == self@.pixels[r],
            forall|r: int| 0 <= r < self.height ==> #[trigger] self.rows@[r]@.len() == self.width,
    {
        assert forall|r: int| 0 <= r < self.height implies #[trigger] self.rows@[r]@ == self@.pixels[r] by {
        }
        assert forall|r: int| 0 <= r < self.height implies #[trigger] self.rows@[r]@.len() == self.width by {
            assert(self.rows@[r]@ == self@.pixels[r]);
        }
    }

    /// Builds an image of the given size whose pixels are those of
    /// `expected`, given that `expected` has that size.
    proof fn lemma_rows_match(rows: Seq<Vec<Color>>, pixels: Seq<Seq<Color>>)
        requires
            rows.len() == pixels.len(),
            forall|r: int| 0 <= r < rows.len() ==> #[trigger] rows[r]@ == pixels[r],
        ensures
            rows.map_values(|row: Vec<Color>| row@) =~= pixels,
    {
    }

    /// A transparent image of the given size.
    pub fn new(width: u32, height: u32) -> (img: Image)
        ensures
            img.wf(),
            img@ == blank_image(width as nat, height as nat),
    {
        let ghost pixels = make_pixels(width as nat, height as nat, |c: int, r: int| Color::C0);
        let mut rows: Vec<Vec<Color>> = Vec::new();
        for r in 0..height
            invariant
                pixels == make_pixels(width as nat, height as nat, |c: int, r: int| Color::C0),
                rows@.len() == r,
                forall|i: int| 0 <= i < r ==> #[trigger] rows@[i]@ == pixels[i],
        {
            let mut row: Vec<Color> = Vec::new();
            for c in 0..width
                invariant
                    r < height,
                    pixels == make_pixels(width as nat, height as nat, |c: int, r: int| Color::C0),
                    row@ == Seq::new(c as nat, |k: int| Color::C0),
            {
                row.push(Color::C0);
                assert(row@ =~= Seq::new((c + 1) as nat, |k: int| Color::C0));
            }
            assert(row@ =~= pixels[r as int]);
            rows.push(row);
        }
        proof {
            Self::lemma_rows_match(rows@, pixels);
        }
        let img = Image { width, height, rows, tag: String::new(), metadata: Vec::new() };
        assert(img@ =~= blank_image(width as nat, height as nat));
        img
    }

    pub fn width(&self) -> (w: u32)
        ensures
            w == self@.width,
    {
        self.width
    }

    pub fn height(&self) -> (h: u32)
        ensures
            h == self@.height,
    {
        self.height
    }

    /// The pixel at column `col` and row `row`.
    pub fn get(&self, col: u32, row: u32) -> (c: Color)
        requires
            self.wf(),
            col < self@.width,
            row < self@.height,
        ensures
            c == self@.at(col as int, row as int),
    {
        self.rows[row as usize][col as usize]
    }

    /// Sets the pixel at column `col` and row `row`.
    pub fn set(&mut self, col: u32, row: u32, color: Color)
        requires
            old(self).wf(),
            col < old(self)@.width,
            row < old(self)@.height,
        ensures
            final(self).wf(),
            final(self)@ == old(self)@.with_pixel(col as int, row as int, color),
    {
        let ghost old_view = self@;
        proof {
            self.lemma_rows();
        }
        self.rows[row as usize].set(col as usize, color);
        proof {
            let expected = old_view.with_pixel(col as int, row as int, color);
            assert forall|r: int| 0 <= r < self.height implies #[trigger] self.rows@[r]@ == expected.pixels[r] by {
                assert(self.rows@[r]@ =~= expected.pixels[r]);
            }
            assert(self.rows@.len() == expected.pixels.len());
            Self::lemma_rows_match(self.rows@, expected.pixels);
            assert(self@ =~= expected);
        }
    }

    /// The image's tag.
    pub fn tag(&self) -> (t: &String)
        ensures
            t@ == self@.tag,
    {
        &self.tag
    }

    pub fn set_tag(&mut self, tag: String)
        requires
            old(self).wf(),
        ensures
            final(self).wf(),
            final(self)@ == old(self)@.with_tag(tag@),
    {
        self.tag = tag;
    }

    /// The image's metadata.
    pub fn metadata(&self) -> (m: &Vec<i16>)
        ensures
            m@ == self@.metadata,
    {
        &self.metadata
    }

    pub fn set_metadata(&mut self, metadata: Vec<i16>)
        requires
            old(self).wf(),
        ensures
            final(self).wf(),
            final(self)@ == old(self)@.with_metadata(metadata@),
    {
        self.metadata = metadata;
    }

    /// Makes every pixel transparent.
    pub fn clear(&mut self)
        requires
            old(self).wf(),
        ensures
            final(self).wf(),
            final(self)@ == old(self)@.cleared(),
    {
        let ghost expected = self@.cleared();
        proof {
            self.lemma_rows();
        }
        let new_width: u32 = self.width;
        let new_height: u32 = self.height;
        let mut rows: Vec<Vec<Color>> = Vec::new();
        for r in 0..new_height
            invariant
                self.wf(),
                self.rows@.len() == self.height,
                forall|i: int| 0 <= i < self.height ==> #[trigger] self.rows@[i]@ == self@.pixels[i],
                forall|i: int| 0 <= i < self.height ==> #[trigger] self.rows@[i]@.len() == self.width,
                expected == self@.cleared(),
                expected.width == new_width,
                expected.height == new_height,
                rows@.len() == r,
                forall|i: int| 0 <= i < r ==> #[trigger] rows@[i]@ == expected.pixels[i],
        {
            let mut row: Vec<Color> = Vec::new();
            for c in 0..new_width
                invariant
                    self.wf(),
                    self.rows@.len() == self.height,
                    forall|i: int| 0 <= i < self.height ==> #[trigger] self.rows@[i]@ == self@.pixels[i],
                    forall|i: int| 0 <= i < self.height ==> #[trigger] self.rows@[i]@.len() == self.width,
                    expected == self@.cleared(),
                    expected.width == new_width,
                    expected.height == new_height,
                    r < new_height,
                    row@ == expected.pixels[r as int].subrange(0, c as int),
            {
                let pixel: Color = Color::C0;
                row.push(pixel);
                assert(row@ =~= expected.pixels[r as int].subrange(0, c + 1));
            }
            assert(row@ =~= expected.pixels[r as int]);
            rows.push(row);
        }
        proof {
            Self::lemma_rows_match(rows@, expected.pixels);
        }
        self.width = new_width;
        self.height = new_height;
        self.rows = rows;
        assert(self@ =~= expected);
    }

    /// Sets to `color` the pixels inside the rectangle at `(left, top)` of the given size.
    pub fn fill_rect(&mut self, left: i32, top: i32, width: u32, height: u32, color: Color)
        requires
            old(self).wf(),
        ensures
            final(self).wf(),
            final(self)@ == old(self)@.filled_rect(left as int, top as int, width as nat, height as nat, color),
    {
        let ghost expected = self@.filled_rect(left as int, top as int, width as nat, height as nat, color);
        proof {
            self.lemma_rows();
        }
        let new_width: u32 = self.width;
        let new_height: u32 = self.height;
        let mut rows: Vec<Vec<Color>> = Vec::new();
        for r in 0..new_height
            invariant
                self.wf(),
                self.rows@.len() == self.height,
                forall|i: int| 0 <= i < self.height ==> #[trigger] self.rows@[i]@ == self@.pixels[i],
                forall|i: int| 0 <= i < self.height ==> #[trigger] self.rows@[i]@.len() == self.width,
                expected == self@.filled_rect(left as int, top as int, width as nat, height as nat, color),
                expected.width == new_width,
                expected.height == new_height,
                rows@.len() == r,
                forall|i: int| 0 <= i < r ==> #[trigger] rows@[i]@ == expected.pixels[i],
        {
            let mut row: Vec<Color> = Vec::new();
            for c in 0..new_width
                invariant
                    self.wf(),
                    self.rows@.len() == self.height,
                    forall|i: int| 0 <= i < self.height ==> #[trigger] self.rows@[i]@ == self@.pixels[i],
                    forall|i: int| 0 <= i < self.height ==> #[trigger] self.rows@[i]@.len() == self.width,
                    expected == self@.filled_rect(left as int, top as int, width as nat, height as nat, color),
                    expected.width == new_width,
                    expected.height == new_height,
                    r < new_height,
                    row@ == expected.pixels[r as int].subrange(0, c as int),
            {
                let pixel: Color = if (c as i64) >= (left as i64) && (c as i64) < (left as i64) + (width as i64)
                    && (r as i64) >= (top as i64) && (r as i64) < (top as i64) + (height as i64) {
                    color
                } else {
                    self.rows[r as usize][c as usize]
                };
                row.push(pixel);
                assert(row@ =~= expected.pixels[r as int].subrange(0, c + 1));
            }
            assert(row@ =~= expected.pixels[r as int]);
            rows.push(row);
        }
        proof {
            Self::lemma_rows_match(rows@, expected.pixels);
        }
        self.width = new_width;
        self.height = new_height;
        self.rows = rows;
        assert(self@ =~= expected);
    }

    /// Draws `src` with its top-left corner at `(left, top)`; transparent pixels of `src` leave the pixels under them.
    pub fn draw(&mut self, src: &Image, left: i32, top: i32)
        requires
            old(self).wf(),
            src.wf(),
        ensures
            final(self).wf(),
            final(self)@ == old(self)@.drawn(src@, left as int, top as int),
    {
        let ghost expected = self@.drawn(src@, left as int, top as int);
        proof {
            self.lemma_rows();
        }
        let new_width: u32 = self.width;
        let new_height: u32 = self.height;
        let mut rows: Vec<Vec<Color>> = Vec::new();
        for r in 0..new_height
            invariant
                self.wf(),
                src.wf(),
                self.rows@.len() == self.height,
                forall|i: int| 0 <= i < self.height ==> #[trigger] self.rows@[i]@ == self@.pixels[i],
                forall|i: int| 0 <= i < self.height ==> #[trigger] self.rows@[i]@.len() == self.width,
                expected == self@.drawn(src@, left as int, top as int),
                expected.width == new_width,
                expected.height == new_height,
                rows@.len() == r,
                forall|i: int| 0 <= i < r ==> #[trigger] rows@[i]@ == expected.pixels[i],
        {
            let mut row: Vec<Color> = Vec::new();
            for c in 0..new_width
                invariant
                    self.wf(),
                    src.wf(),
                    self.rows@.len() == self.height,
                    forall|i: int| 0 <= i < self.height ==> #[trigger] self.rows@[i]@ == self@.pixels[i],
                    forall|i: int| 0 <= i < self.height ==> #[trigger] self.rows@[i]@.len() == self.width,
                    expected == self@.drawn(src@, left as int, top as int),
                    expected.width == new_width,
                    expected.height == new_height,
                    r < new_height,
                    row@ == expected.pixels[r as int].subrange(0, c as int),
            {
                let pixel: Color = {
                    let sc: i64 = (c as i64) - (left as i64);
                    let sr: i64 = (r as i64) - (top as i64);
                    if sc >= 0 && sc < (src.width as i64) && sr >= 0 && sr < (src.height as i64) {
                        let s = src.get(sc as u32, sr as u32);
                        if s != Color::C0 {
                            s
                        } else {
                            self.rows[r as usize][c as usize]
                        }
                    } else {
                        self.rows[r as usize][c as usize]
                    }
                };
                row.push(pixel);
                assert(row@ =~= expected.pixels[r as int].subrange(0, c + 1));
            }
            assert(row@ =~= expected.pixels[r as int]);
            rows.push(row);
        }
        proof {
            Self::lemma_rows_match(rows@, expected.pixels);
        }
        self.width = new_width;
        self.height = new_height;
        self.rows = rows;
        assert(self@ =~= expected);
    }

    /// The image cut or extended to the given size from its top-left corner; new pixels are transparent.
    pub fn crop(&self, width: u32, height: u32) -> (img: Image)
        requires
            self.wf(),
        ensures
            img.wf(),
            img@ == self@.cropped(width as nat, height as nat),
    {
        let ghost expected = self@.cropped(width as nat, height as nat);
        proof {
            self.lemma_rows();
        }
        let new_width: u32 = width;
        let new_height: u32 = height;
        let mut rows: Vec<Vec<Color>> = Vec::new();
        for r in 0..new_height
            invariant
                self.wf(),
                self.rows@.len() == self.height,
                forall|i: int| 0 <= i < self.height ==> #[trigger] self.rows@[i]@ == self@.pixels[i],
                forall|i: int| 0 <= i < self.height ==> #[trigger] self.rows@[i]@.len() == self.width,
                expected == self@.cropped(width as nat, height as nat),
                expected.width == new_width,
                expected.height == new_height,
                rows@.len() == r,
                forall|i: int| 0 <= i < r ==> #[trigger] rows@[i]@ == expected.pixels[i],
        {
            let mut row: Vec<Color> = Vec::new();
            for c in 0..new_width
                invariant
                    self.wf(),
                    self.rows@.len() == self.height,
                    forall|i: int| 0 <= i < self.height ==> #[trigger] self.rows@[i]@ == self@.pixels[i],
                    forall|i: int| 0 <= i < self.height ==> #[trigger] self.rows@[i]@.len() == self.width,
                    expected == self@.cropped(width as nat, height as nat),
                    expected.width == new_width,
                    expected.height == new_height,
                    r < new_height,
                    row@ == expected.pixels[r as int].subrange(0, c as int),
            {
                let pixel: Color = if c < self.width && r < self.height {
                    self.rows[r as usize][c as usize]
                } else {
                    Color::C0
                };
                row.push(pixel);
                assert(row@ =~= expected.pixels[r as int].subrange(0, c + 1));
            }
            assert(row@ =~= expected.pixels[r as int]);
            rows.push(row);
        }
        proof {
            Self::lemma_rows_match(rows@, expected.pixels);
        }
        let img = Image {
            width: new_width,
            height: new_height,
            rows,
            tag: self.tag.clone(),
            metadata: copy_metadata(&self.metadata),
        };
        assert(img@ =~= expected);
        img
    }

    /// The image mirrored left to right.
    pub fn flip_horz(&self) -> (img: Image)
        requires
            self.wf(),
        ensures
            img.wf(),
            img@ == self@.flipped_horz(),
    {
        let ghost expected = self@.flipped_horz();
        proof {
            self.lemma_rows();
        }
        let new_width: u32 = self.width;
        let new_height: u32 = self.height;
        let mut rows: Vec<Vec<Color>> = Vec::new();
        for r in 0..new_height
            invariant
                self.wf(),
                self.rows@.len() == self.height,
                forall|i: int| 0 <= i < self.height ==> #[trigger] self.rows@[i]@ == self@.pixels[i],
                forall|i: int| 0 <= i < self.height ==> #[trigger] self.rows@[i]@.len() == self.width,
                expected == self@.flipped_horz(),
                expected.width == new_width,
                expected.height == new_height,
                rows@.len() == r,
                forall|i: int| 0 <= i < r ==> #[trigger] rows@[i]@ == expected.pixels[i],
        {
            let mut row: Vec<Color> = Vec::new();
            for c in 0..new_width
                invariant
                    self.wf(),
                    self.rows@.len() == self.height,
                    forall|i: int| 0 <= i < self.height ==> #[trigger] self.rows@[i]@ == self@.pixels[i],
                    forall|i: int| 0 <= i < self.height ==> #[trigger] self.rows@[i]@.len() == self.width,
                    expected == self@.flipped_horz(),
                    expected.width == new_width,
                    expected.height == new_height,
                    r < new_height,
                    row@ == expected.pixels[r as int].subrange(0, c as int),
            {
                let pixel: Color = self.rows[r as usize][(self.width - 1 - c) as usize];
                row.push(pixel);
                assert(row@ =~= expected.pixels[r as int].subrange(0, c + 1));
            }
            assert(row@ =~= expected.pixels[r as int]);
            rows.push(row);
        }
        proof {
            Self::lemma_rows_match(rows@, expected.pixels);
        }
        let img = Image {
            width: new_width,
            height: new_height,
            rows,
            tag: self.tag.clone(),
            metadata: copy_metadata(&self.metadata),
        };
        assert(img@ =~= expected);
        img
    }

    /// The image mirrored top to bottom.
    pub fn flip_vert(&self) -> (img: Image)
        requires
            self.wf(),
        ensures
            img.wf(),
            img@ == self@.flipped_vert(),
    {
        let ghost expected = self@.flipped_vert();
        proof {
            self.lemma_rows();
        }
        let new_width: u32 = self.width;
        let new_height: u32 = self.height;
        let mut rows: Vec<Vec<Color>> = Vec::new();
        for r in 0..new_height
            invariant
                self.wf(),
                self.rows@.len() == self.height,
                forall|i: int| 0 <= i < self.height ==> #[trigger] self.rows@[i]@ == self@.pixels[i],
                forall|i: int| 0 <= i < self.height ==> #[trigger] self.rows@[i]@.len() == self.width,
                expected == self@.flipped_vert(),
                expected.width == new_width,
                expected.height == new_height,
                rows@.len() == r,
                forall|i: int| 0 <= i < r ==> #[trigger] rows@[i]@ == expected.pixels[i],
        {
            let mut row: Vec<Color> = Vec::new();
            for c in 0..new_width
                invariant
                    self.wf(),
                    self.rows@.len() == self.height,
                    forall|i: int| 0 <= i < self.height ==> #[trigger] self.rows@[i]@ == self@.pixels[i],
                    forall|i: int| 0 <= i < self.height ==> #[trigger] self.rows@[i]@.len() == self.width,
                    expected == self@.flipped_vert(),
                    expected.width == new_width,
                    expected.height == new_height,
                    r < new_height,
                    row@ == expected.pixels[r as int].subrange(0, c as int),
            {
                let pixel: Color = self.rows[(self.height - 1 - r) as usize][c as usize];
                row.push(pixel);
                assert(row@ =~= expected.pixels[r as int].subrange(0, c + 1));
            }
            assert(row@ =~= expected.pixels[r as int]);
            rows.push(row);
        }
        proof {
            Self::lemma_rows_match(rows@, expected.pixels);
        }
        let img = Image {
            width: new_width,
            height: new_height,
            rows,
            tag: self.tag.clone(),
            metadata: copy_metadata(&self.metadata),
        };
        assert(img@ =~= expected);
        img
    }

    /// The image turned a quarter clockwise.
    pub fn rotate_cw(&self) -> (img: Image)
        requires
            self.wf(),
        ensures
            img.wf(),
            img@ == self@.rotated_cw(),
    {
        let ghost expected = self@.rotated_cw();
        proof {
            self.lemma_rows();
        }
        let new_width: u32 = self.height;
        let new_height: u32 = self.width;
        let mut rows: Vec<Vec<Color>> = Vec::new();
        for r in 0..new_height
            invariant
                self.wf(),
                self.rows@.len() == self.height,
                forall|i: int| 0 <= i < self.height ==> #[trigger] self.rows@[i]@ == self@.pixels[i],
                forall|i: int| 0 <= i < self.height ==> #[trigger] self.rows@[i]@.len() == self.width,
                expected == self@.rotated_cw(),
                expected.width == new_width,
                expected.height == new_height,
                rows@.len() == r,
                forall|i: int| 0 <= i < r ==> #[trigger] rows@[i]@ == expected.pixels[i],
        {
            let mut row: Vec<Color> = Vec::new();
            for c in 0..new_width
                invariant
                    self.wf(),
                    self.rows@.len() == self.height,
                    forall|i: int| 0 <= i < self.height ==> #[trigger] self.rows@[i]@ == self@.pixels[i],
                    forall|i: int| 0 <= i < self.height ==> #[trigger] self.rows@[i]@.len() == self.width,
                    expected == self@.rotated_cw(),
                    expected.width == new_width,
                    expected.height == new_height,
                    r < new_height,
                    row@ == expected.pixels[r as int].subrange(0, c as int),
            {
                let pixel: Color = self.rows[(self.height - 1 - c) as usize][r as usize];
                row.push(pixel);
                assert(row@ =~= expected.pixels[r as int].subrange(0, c + 1));
            }
            assert(row@ =~= expected.pixels[r as int]);
            rows.push(row);
        }
        proof {
            Self::lemma_rows_match(rows@, expected.pixels);
        }
        let img = Image {
            width: new_width,
            height: new_height,
            rows,
            tag: self.tag.clone(),
            metadata: copy_metadata(&self.metadata),
        };
        assert(img@ =~= expected);
        img
    }

    /// The image turned a quarter counterclockwise.
    pub fn rotate_ccw(&self) -> (img: Image)
        requires
            self.wf(),
        ensures
            img.wf(),
            img@ == self@.rotated_ccw(),
    {
        let ghost expected = self@.rotated_ccw();
        proof {
            self.lemma_rows();
        }
        let new_width: u32 = self.height;
        let new_height: u32 = self.width;
        let mut rows: Vec<Vec<Color>> = Vec::new();
        for r in 0..new_height
            invariant
                self.wf(),
                self.rows@.len() == self.height,
                forall|i: int| 0 <= i < self.height ==> #[trigger] self.rows@[i]@ == self@.pixels[i],
                forall|i: int| 0 <= i < self.height ==> #[trigger] self.rows@[i]@.len() == self.width,
                expected == self@.rotated_ccw(),
                expected.width == new_width,
                expected.height == new_height,
                rows@.len() == r,
                forall|i: int| 0 <= i < r ==> #[trigger] rows@[i]@ == expected.pixels[i],
        {
            let mut row: Vec<Color> = Vec::new();
            for c in 0..new_width
                invariant
                    self.wf(),
                    self.rows@.len() == self.height,
                    forall|i: int| 0 <= i < self.height ==> #[trigger] self.rows@[i]@ == self@.pixels[i],
                    forall|i: int| 0 <= i < self.height ==> #[trigger] self.rows@[i]@.len() == self.width,
                    expected == self@.rotated_ccw(),
                    expected.width == new_width,
                    expected.height == new_height,
                    r < new_height,
                    row@ == expected.pixels[r as int].subrange(0, c as int),
            {
                let pixel: Color = self.rows[c as usize][(self.width - 1 - r) as usize];
                row.push(pixel);
                assert(row@ =~= expected.pixels[r as int].subrange(0, c + 1));
            }
            assert(row@ =~= expected.pixels[r as int]);
            rows.push(row);
        }
        proof {
            Self::lemma_rows_match(rows@, expected.pixels);
        }
        let img = Image {
            width: new_width,
            height: new_height,
            rows,
            tag: self.tag.clone(),
            metadata: copy_metadata(&self.metadata),
        };
        assert(img@ =~= expected);
        img
    }

    /// The RGBA data of the image under `palette`: the four bytes of each
    /// pixel's palette entry, row after row and left to right in a row.
    pub fn rgba_data(&self, palette: &Palette) -> (data: Vec<u8>)
        requires
            self.wf(),
            palette.wf(),
        ensures
            data@.len() == 4 * (self@.height * self@.width),
            forall|col: int, row: int, j: int|
                self@.in_bounds(col, row) && 0 <= j < 4 ==> data@[#[trigger] rgba_index(self@.width, col, row, j)]
                    == rgba_component(palette@[color_code(self@.at(col, row)) as int], j),
    {
        proof {
            self.lemma_rows();
        }
        let w = self.width;
        let h = self.height;
        let mut data: Vec<u8> = Vec::new();
        for row in 0..h
            invariant
                self.wf(),
                palette.wf(),
                w == self@.width,
                h == self@.height,
                self.rows@.len() == h,
                forall|r: int| 0 <= r < h ==> #[trigger] self.rows@[r]@ == self@.pixels[r],
                forall|r: int| 0 <= r < h ==> #[trigger] self.rows@[r]@.len() == w,
                data@.len() == 4 * (row * w),
                forall|c: int, r: int, j: int|
                    0 <= r < row && 0 <= c < w && 0 <= j < 4 ==> data@[#[trigger] rgba_index(w as nat, c, r, j)]
                        == rgba_component(palette@[color_code(self@.at(c, r)) as int], j),
        {
            let cols = &self.rows[row as usize];
            assert(cols@ == self@.pixels[row as int]);
            for col in 0..w
                invariant
                    self.wf(),
                    palette.wf(),
                    w == self@.width,
                    h == self@.height,
                    row < h,
                    cols@ == self@.pixels[row as int],
                    cols@.len() == w,
                    data@.len() == 4 * (row * w + col),
                    forall|c: int, r: int, j: int|
                        ((0 <= r < row && 0 <= c < w) || (r == row && 0 <= c < col)) && 0 <= j < 4
                            ==> data@[#[trigger] rgba_index(w as nat, c, r, j)]
                            == rgba_component(palette@[color_code(self@.at(c, r)) as int], j),
            {
                let v = palette.get(cols[col as usize]);
                let ghost before = data@;
                data.push(v.0);
                data.push(v.1);
                data.push(v.2);
                data.push(v.3);
                proof {
                    assert forall|c: int, r: int, j: int|
                        ((0 <= r < row && 0 <= c < w) || (r == row && 0 <= c < col + 1)) && 0 <= j < 4
                            implies data@[#[trigger] rgba_index(w as nat, c, r, j)]
                            == rgba_component(palette@[color_code(self@.at(c, r)) as int], j) by {
                        if r == row && c == col {
                            assert(self@.at(c, r) == cols@[col as int]);
                        } else {
                            lemma_row_major_before(w as int, c, r, col as int, row as int);
                            assert(data@[rgba_index(w as nat, c, r, j)] == before[rgba_index(w as nat, c, r, j)]);
                        }
                    }
                }
            }
            assert((row + 1) * w == row * w + w) by (nonlinear_arith);
        }
        assert(h * w == w * h) by (nonlinear_arith);
        data
    }

    /// An equal copy.
    pub fn duplicate(&self) -> (img: Image)
        requires
            self.wf(),
        ensures
            img.wf(),
            img@ == self@,
    {
        let mut rows: Vec<Vec<Color>> = Vec::new();
        for r in 0..self.height
            invariant
                self.wf(),
                rows@.len() == r,
                forall|i: int| 0 <= i < r ==> #[trigger] rows@[i]@ == self@.pixels[i],
        {
            let mut row: Vec<Color> = Vec::new();
            for c in 0..self.width
                invariant
                    self.wf(),
                    r < self@.height,
                    row@ == self@.pixels[r as int].subrange(0, c as int),
            {
                row.push(self.rows[r as usize][c as usize]);
                assert(row@ =~= self@.pixels[r as int].subrange(0, c + 1));
            }
            assert(row@ =~= self@.pixels[r as int]);
            rows.push(row);
        }
        proof {
            Self::lemma_rows_match(rows@, self@.pixels);
        }
        let img = Image {
            width: self.width,
            height: self.height,
            rows,
            tag: self.tag.clone(),
            metadata: copy_metadata(&self.metadata),
        };
        assert(img@ =~= self@);
        img
    }
}


//---------------------------------------------------------------------------//

/// The mathematical content of a glyph.
#[verifier::ext_equal]
pub ghost struct GlyphView {
    pub image: ImageView,
    pub left_edge: int,
    pub right_edge: int,
}

/// A character's image, with the edges that place it on a line of text.
pub struct Glyph {
    image: Image,
    left_edge: i32,
    right_edge: i32,
}

impl View for Glyph {
    type V = GlyphView;

    closed spec fn view(&self) -> GlyphView {
        GlyphView { image: self.image@, left_edge: self.left_edge as int, right_edge: self.right_edge as int }
    }
}

impl Glyph {
    pub open spec fn wf(&self) -> bool {
        self@.image.wf()
    }

    pub fn new(image: Image, left_edge: i32, right_edge: i32) -> (g: Glyph)
        ensures
            g@.image == image@,
            g@.left_edge == left_edge,
            g@.right_edge == right_edge,
    {
        Glyph { image, left_edge, right_edge }
    }

    pub fn image(&self) -> (img: &Image)
        ensures
            img@ == self@.image,
    {
        &self.image
    }

    /// The glyph's image, to be changed in place.
    pub fn image_mut(&mut self) -> (img: &mut Image)
        ensures
            img@ == old(self)@.image,
            final(self)@ == (GlyphView { image: final(img)@, ..old(self)@ }),
    {
        &mut self.image
    }

    pub fn left_edge(&self) -> (e: i32)
        ensures
            e == self@.left_edge,
    {
        self.left_edge
    }

    pub fn right_edge(&self) -> (e: i32)
        ensures
            e == self@.right_edge,
    {
        self.right_edge
    }

    pub fn set_left_edge(&mut self, edge: i32)
        ensures
            final(self)@ == (GlyphView { left_edge: edge as int, ..old(self)@ }),
    {
        self.left_edge = edge;
    }

    pub fn set_right_edge(&mut self, edge: i32)
        ensures
            final(self)@ == (GlyphView { right_edge: edge as int, ..old(self)@ }),
    {
        self.right_edge = edge;
    }

    /// An equal copy.
    pub fn duplicate(&self) -> (g: Glyph)
        requires
            self.wf(),
        ensures
            g@ == self@,
            g.wf(),
    {
        Glyph { image: self.image.duplicate(), left_edge: self.left_edge, right_edge: self.right_edge }
    }
}

//---------------------------------------------------------------------------//

/// The mathematical content of a font: its glyphs in increasing order of
/// character, the glyph for characters it lacks, the baseline and the height
/// of its glyphs.
#[verifier::ext_equal]
pub ghost struct FontView {
    pub glyphs: Seq<(char, GlyphView)>,
    pub default_glyph: GlyphView,
    pub baseline: int,
    pub glyph_height: nat,
}

impl FontView {
    /// The characters come in strictly increasing order and every glyph
    /// image is well formed.
    pub open spec fn wf(self) -> bool {
        &&& forall|i: int, j: int| 0 <= i < j < self.glyphs.len() ==> (#[trigger] self.glyphs[i]).0 < (#[trigger] self.glyphs[j]).0
        &&& forall|i: int| 0 <= i < self.glyphs.len() ==> (#[trigger] self.glyphs[i]).1.image.wf()
        &&& self.default_glyph.image.wf()
    }

    /// The characters that have a glyph of their own, in increasing order.
    pub open spec fn chars(self) -> Seq<char> {
        self.glyphs.map_values(|p: (char, GlyphView)| p.0)
    }

    /// Whether `chr` has a glyph of its own.
    pub open spec fn has(self, chr: char) -> bool {
        exists|i: int| 0 <= i < self.glyphs.len() && (#[trigger] self.glyphs[i]).0 == chr
    }

    /// Where `chr` stands among the glyphs.
    pub open spec fn position(self, chr: char) -> int {
        choose|i: int| 0 <= i < self.glyphs.len() && (#[trigger] self.glyphs[i]).0 == chr
    }

    /// `k` splits the glyphs into those of characters below `chr` and the rest.
    pub open spec fn is_lower_bound(self, chr: char, k: int) -> bool {
        &&& 0 <= k <= self.glyphs.len()
        &&& forall|i: int| 0 <= i < k ==> (#[trigger] self.glyphs[i]).0 < chr
        &&& forall|i: int| k <= i < self.glyphs.len() ==> (#[trigger] self.glyphs[i]).0 >= chr
    }

    /// Where a glyph for `chr` goes to keep the characters in order.
    pub open spec fn lower_bound(self, chr: char) -> int {
        choose|k: int| self.is_lower_bound(chr, k)
    }

    /// The font with `g` as the glyph of `chr` itself.
    pub open spec fn with_char_glyph(self, chr: char, g: GlyphView) -> FontView {
        if self.has(chr) {
            FontView { glyphs: self.glyphs.update(self.lower_bound(chr), (chr, g)), ..self }
        } else {
            FontView { glyphs: self.glyphs.insert(self.lower_bound(chr), (chr, g)), ..self }
        }
    }

    /// The font without a glyph of its own for `chr`.
    pub open spec fn without_char(self, chr: char) -> FontView {
        if self.has(chr) {
            FontView { glyphs: self.glyphs.remove(self.lower_bound(chr)), ..self }
        } else {
            self
        }
    }

    /// The font with `g` in place of the glyph drawn for `chr`.
    pub open spec fn with_glyph_at(self, chr: char, g: GlyphView) -> FontView {
        if self.has(chr) {
            FontView { glyphs: self.glyphs.update(self.position(chr), (chr, g)), ..self }
        } else {
            FontView { default_glyph: g, ..self }
        }
    }

    /// The glyph drawn for `chr`: its own, or the default one.
    pub open spec fn glyph(self, chr: char) -> GlyphView {
        if self.has(chr) {
            self.glyphs[self.position(chr)].1
        } else {
            self.default_glyph
        }
    }
}

/// The width of `text` written in `font`: for each character, its glyph's
/// right edge less its left edge.
pub open spec fn text_width_of(font: FontView, text: Seq<char>) -> int
    decreases text.len(),
{
    if text.len() == 0 {
        0
    } else {
        text_width_of(font, text.drop_last()) + font.glyph(text.last()).right_edge - font.glyph(text.last()).left_edge
    }
}

/// A font: a glyph for each of some characters, and a default glyph.
pub struct Font {
    glyphs: Vec<(char, Glyph)>,
    default_glyph: Glyph,
    baseline: i32,
    glyph_height: u32,
}

impl View for Font {
    type V = FontView;

    closed spec fn view(&self) -> FontView {
        FontView {
            glyphs: self.glyphs@.map_values(|p: (char, Glyph)| (p.0, p.1@)),
            default_glyph: self.default_glyph@,
            baseline: self.baseline as int,
            glyph_height: self.glyph_height as nat,
        }
    }
}

impl Font {
    pub open spec fn wf(&self) -> bool {
        self@.wf()
    }

    /// In a well-formed font a character stands at one place only.
    pub proof fn lemma_position_unique(v: FontView, chr: char, i: int)
        requires
            v.wf(),
            0 <= i < v.glyphs.len(),
            v.glyphs[i].0 == chr,
        ensures
            v.has(chr),
            v.position(chr) == i,
            v.glyph(chr) == v.glyphs[i].1,
    {
        let p = v.position(chr);
        assert(v.glyphs[p].0 == chr);
        if p < i {
            assert(v.glyphs[p].0 < v.glyphs[i].0);
        } else if i < p {
            assert(v.glyphs[i].0 < v.glyphs[p].0);
        }
    }

    /// Putting a well-formed glyph in place of another keeps a font well formed.
    pub proof fn lemma_with_glyph_at_wf(v: FontView, chr: char, g: GlyphView)
        requires
            v.wf(),
            g.image.wf(),
        ensures
            v.with_glyph_at(chr, g).wf(),
    {
        if v.has(chr) {
            let p = v.position(chr);
            let w = v.with_glyph_at(chr, g);
            assert forall|i: int, j: int| 0 <= i < j < w.glyphs.len() implies (#[trigger] w.glyphs[i]).0 < (#[trigger] w.glyphs[j]).0 by {
                assert(v.glyphs[i].0 < v.glyphs[j].0);
            }
        }
    }

    /// A font with no glyph of its own and glyphs of the given height; its
    /// default glyph is empty.
    pub fn with_glyph_height(glyph_height: u32) -> (f: Font)
        ensures
            f.wf(),
            f@.glyphs.len() == 0,
            f@.glyph_height == glyph_height,
            f@.baseline == 0,
            f@.default_glyph == (GlyphView { image: blank_image(0, glyph_height as nat), left_edge: 0, right_edge: 0 }),
    {
        let f = Font {
            glyphs: Vec::new(),
            default_glyph: Glyph::new(Image::new(0, glyph_height), 0, 0),
            baseline: 0,
            glyph_height,
        };
        assert(f@.glyphs =~= Seq::<(char, GlyphView)>::empty());
        f
    }

    pub fn glyph_height(&self) -> (h: u32)
        ensures
            h == self@.glyph_height,
    {
        self.glyph_height
    }

    pub fn baseline(&self) -> (b: i32)
        ensures
            b == self@.baseline,
    {
        self.baseline
    }

    pub fn set_baseline(&mut self, baseline: i32)
        requires
            old(self).wf(),
        ensures
            final(self).wf(),
            final(self)@ == (FontView { baseline: baseline as int, ..old(self)@ }),
    {
        self.baseline = baseline;
        assert(self@ =~= (FontView { baseline: baseline as int, ..old(self)@ }));
    }

    pub fn default_glyph(&self) -> (g: &Glyph)
        ensures
            g@ == self@.default_glyph,
    {
        &self.default_glyph
    }

    /// The default glyph, to be changed in place.
    pub fn default_glyph_mut(&mut self) -> (g: &mut Glyph)
        ensures
            g@ == old(self)@.default_glyph,
            final(self)@ == (FontView { default_glyph: final(g)@, ..old(self)@ }),
    {
        &mut self.default_glyph
    }

    pub fn set_default_glyph(&mut self, glyph: Glyph)
        requires
            old(self).wf(),
            glyph.wf(),
        ensures
            final(self).wf(),
            final(self)@ == (FontView { default_glyph: glyph@, ..old(self)@ }),
    {
        self.default_glyph = glyph;
        assert(self@ =~= (FontView { default_glyph: glyph@, ..old(self)@ }));
    }

    /// The number of characters with a glyph of their own.
    pub fn num_chars(&self) -> (n: usize)
        ensures
            n == self@.glyphs.len(),
    {
        self.glyphs.len()
    }

    /// The `i`-th character with a glyph of its own, in increasing order.
    pub fn char_at(&self, i: usize) -> (c: char)
        requires
            i < self@.glyphs.len(),
        ensures
            c == self@.glyphs[i as int].0,
    {
        self.glyphs[i].0
    }

    /// The characters with a glyph of their own, in increasing order.
    pub fn chars(&self) -> (cs: Vec<char>)
        ensures
            cs@ == self@.chars(),
    {
        let mut cs: Vec<char> = Vec::new();
        let n = self.glyphs.len();
        for i in 0..n
            invariant
                n == self@.glyphs.len(),
                cs@ == self@.chars().subrange(0, i as int),
        {
            cs.push(self.glyphs[i].0);
            assert(cs@ =~= self@.chars().subrange(0, i + 1));
        }
        assert(cs@ =~= self@.chars());
        cs
    }

    /// Where `chr` stands among the glyphs, if it has one.
    pub fn find(&self, chr: char) -> (r: Option<usize>)
        requires
            self.wf(),
        ensures
            r is None <==> !self@.has(chr),
            r matches Some(i) ==> i < self@.glyphs.len() && self@.glyphs[i as int].0 == chr
                && self@.position(chr) == i,
    {
        let n = self.glyphs.len();
        for i in 0..n
            invariant
                self.wf(),
                n == self@.glyphs.len(),
                forall|j: int| 0 <= j < i ==> (#[trigger] self@.glyphs[j]).0 != chr,
        {
            if self.glyphs[i].0 == chr {
                proof {
                    assert(self@.glyphs[i as int].0 == chr);
                    Self::lemma_position_unique(self@, chr, i as int);
                }
                return Some(i);
            }
        }
        None
    }

    /// The lower bound of a character is unique, and it is where the
    /// character stands when the font has it.
    pub proof fn lemma_lower_bound(v: FontView, chr: char, k: int)
        requires
            v.wf(),
            v.is_lower_bound(chr, k),
        ensures
            v.lower_bound(chr) == k,
            v.has(chr) <==> (k < v.glyphs.len() && v.glyphs[k].0 == chr),
            v.has(chr) ==> v.position(chr) == k,
    {
        let j = v.lower_bound(chr);
        assert(v.is_lower_bound(chr, j));
        if j < k {
            assert(v.glyphs[j].0 >= chr);
            assert(v.glyphs[j].0 < chr);
        } else if k < j {
            assert(v.glyphs[k].0 >= chr);
            assert(v.glyphs[k].0 < chr);
        }
        if v.has(chr) {
            let p = v.position(chr);
            assert(v.glyphs[p].0 == chr);
            if p < k {
                assert(v.glyphs[p].0 < chr);
            } else if p > k {
                assert(v.glyphs[k].0 >= chr);
                assert(v.glyphs[k].0 < v.glyphs[p].0);
            }
        }
        if k < v.glyphs.len() && v.glyphs[k].0 == chr {
            assert(v.has(chr));
        }
    }

    /// Where a glyph for `chr` goes among the glyphs.
    fn lower_bound_index(&self, chr: char) -> (k: usize)
        requires
            self.wf(),
        ensures
            self@.is_lower_bound(chr, k as int),
            self@.lower_bound(chr) == k,
    {
        let n = self.glyphs.len();
        let mut k: usize = 0;
        while k < n
            invariant
                self.wf(),
                n == self@.glyphs.len(),
                k <= n,
                forall|i: int| 0 <= i < k ==> (#[trigger] self@.glyphs[i]).0 < chr,
            ensures
                k <= n,
                forall|i: int| 0 <= i < k ==> (#[trigger] self@.glyphs[i]).0 < chr,
                k < n ==> self@.glyphs[k as int].0 >= chr,
            decreases n - k,
        {
            if self.glyphs[k].0 >= chr {
                break;
            }
            k = k + 1;
        }
        proof {
            if k < n {
                assert forall|i: int| k <= i < n implies (#[trigger] self@.glyphs[i]).0 >= chr by {
                    if i > k {
                        assert(self@.glyphs[k as int].0 < self@.glyphs[i].0);
                    }
                }
            }
            Self::lemma_lower_bound(self@, chr, k as int);
        }
        k
    }

    /// Gives `chr` the glyph `glyph` of its own, in place of any it had.
    pub fn set_char_glyph(&mut self, chr: char, glyph: Glyph)
        requires
            old(self).wf(),
            glyph.wf(),
        ensures
            final(self).wf(),
            final(self)@ == old(self)@.with_char_glyph(chr, glyph@),
    {
        let k = self.lower_bound_index(chr);
        let ghost v = self@;
        proof {
            Self::lemma_lower_bound(v, chr, k as int);
        }
        let ghost gv = glyph@;
        if k < self.glyphs.len() && self.glyphs[k].0 == chr {
            self.glyphs.set(k, (chr, glyph));
            assert(self@.glyphs =~= v.glyphs.update(k as int, (chr, gv)));
        } else {
            self.glyphs.insert(k, (chr, glyph));
            assert(self@.glyphs =~= v.glyphs.insert(k as int, (chr, gv)));
            assert forall|i: int, j: int| 0 <= i < j < self@.glyphs.len() implies (#[trigger] self@.glyphs[i]).0 < (#[trigger] self@.glyphs[j]).0 by {
                if j < k {
                    assert(v.glyphs[i].0 < v.glyphs[j].0);
                } else if i < k && j == k {
                } else if i < k && j > k {
                    assert(v.glyphs[i].0 < chr);
                    assert(v.glyphs[j - 1].0 >= chr);
                } else if i == k {
                    assert(v.glyphs[j - 1].0 >= chr);
                } else {
                    assert(v.glyphs[i - 1].0 < v.glyphs[j - 1].0);
                }
            }
        }
        assert(self@ =~= v.with_char_glyph(chr, gv));
    }

    /// Takes away the glyph of `chr` itself, if it has one.
    pub fn remove_char_glyph(&mut self, chr: char)
        requires
            old(self).wf(),
        ensures
            final(self).wf(),
            final(self)@ == old(self)@.without_char(chr),
    {
        let k = self.lower_bound_index(chr);
        let ghost v = self@;
        proof {
            Self::lemma_lower_bound(v, chr, k as int);
        }
        if k < self.glyphs.len() && self.glyphs[k].0 == chr {
            self.glyphs.remove(k);
            assert(self@.glyphs =~= v.glyphs.remove(k as int));
            assert forall|i: int, j: int| 0 <= i < j < self@.glyphs.len() implies (#[trigger] self@.glyphs[i]).0 < (#[trigger] self@.glyphs[j]).0 by {
                if j < k {
                    assert(v.glyphs[i].0 < v.glyphs[j].0);
                } else if i < k {
                    assert(v.glyphs[i].0 < v.glyphs[j + 1].0);
                } else {
                    assert(v.glyphs[i + 1].0 < v.glyphs[j + 1].0);
                }
            }
        }
        assert(self@ =~= v.without_char(chr));
    }

    /// An equal copy.
    pub fn duplicate(&self) -> (f: Font)
        requires
            self.wf(),
        ensures
            f.wf(),
            f@ == self@,
    {
        let mut glyphs: Vec<(char, Glyph)> = Vec::new();
        let n = self.glyphs.len();
        for i in 0..n
            invariant
                self.wf(),
                n == self@.glyphs.len(),
                glyphs@.len() == i,
                forall|j: int| 0 <= j < i ==> (#[trigger] glyphs@[j]).0 == self@.glyphs[j].0
                    && glyphs@[j].1@ == self@.glyphs[j].1,
        {
            let entry = &self.glyphs[i];
            assert(self@.glyphs[i as int].1.image.wf());
            glyphs.push((entry.0, entry.1.duplicate()));
        }
        let f = Font {
            glyphs,
            default_glyph: self.default_glyph.duplicate(),
            baseline: self.baseline,
            glyph_height: self.glyph_height,
        };
        assert(f@.glyphs =~= self@.glyphs);
        assert(f@ =~= self@);
        f
    }

    /// The glyph of `chr` itself, if it has one.
    pub fn get_char_glyph(&self, chr: char) -> (g: Option<&Glyph>)
        requires
            self.wf(),
        ensures
            g is None <==> !self@.has(chr),
            g matches Some(g) ==> g@ == self@.glyph(chr),
    {
        match self.find(chr) {
            Some(i) => {
                proof {
                    Self::lemma_position_unique(self@, chr, i as int);
                }
                Some(&self.glyphs[i].1)
            },
            None => None,
        }
    }

    /// The glyph drawn for `chr`: its own, or the default one.
    pub fn glyph(&self, chr: char) -> (g: &Glyph)
        requires
            self.wf(),
        ensures
            g@ == self@.glyph(chr),
    {
        match self.find(chr) {
            Some(i) => {
                proof {
                    Self::lemma_position_unique(self@, chr, i as int);
                }
                &self.glyphs[i].1
            },
            None => &self.default_glyph,
        }
    }

    /// The width of `text` written in this font.
    pub fn text_width(&self, text: &str) -> (w: i64)
        requires
            self.wf(),
            text@.len() <= 0x7fff_ffff,
        ensures
            w == text_width_of(self@, text@),
    {
        let cs = crate::util::chars_of(text);
        let mut w: i64 = 0;
        for i in 0..cs.len()
            invariant
                self.wf(),
                cs@ == text@,
                cs@.len() <= 0x7fff_ffff,
                w == text_width_of(self@, cs@.subrange(0, i as int)),
                -0x1_0000_0000 * i <= w <= 0x1_0000_0000 * i,
        {
            let g = self.glyph(cs[i]);
            let d = (g.right_edge() as i64) - (g.left_edge() as i64);
            assert(cs@.subrange(0, i + 1).drop_last() =~= cs@.subrange(0, i as int));
            assert(cs@.subrange(0, i + 1).last() == cs@[i as int]);
            w = w + d;
        }
        assert(cs@.subrange(0, cs@.len() as int) =~= cs@);
        w
    }

    /// The glyph drawn for `chr`, to be changed in place: its own, or the
    /// default one.
    pub fn glyph_mut(&mut self, chr: char) -> (g: &mut Glyph)
        requires
            old(self).wf(),
        ensures
            g@ == old(self)@.glyph(chr),
            final(self)@ == old(self)@.with_glyph_at(chr, final(g)@),
    {
        match self.find(chr) {
            Some(i) => {
                proof {
                    Self::lemma_position_unique(self@, chr, i as int);
                }
                &mut self.glyphs[i].1
            },
            None => &mut self.default_glyph,
        }
    }
}


//---------------------------------------------------------------------------//

/// Images and palettes as they are read from or written to a file.
pub struct Collection {
    pub images: Vec<Image>,
    pub palettes: Vec<Palette>,
}

impl Collection {
    /// A collection with no images and no palettes.
    pub fn new() -> (c: Collection)
        ensures
            c.images@.len() == 0,
            c.palettes@.len() == 0,
    {
        Collection { images: Vec::new(), palettes: Vec::new() }
    }

    /// Every image and every palette is well formed.
    pub open spec fn wf(&self) -> bool {
        &&& forall|i: int| 0 <= i < self.images@.len() ==> (#[trigger] self.images@[i]).wf()
        &&& forall|i: int| 0 <= i < self.palettes@.len() ==> (#[trigger] self.palettes@[i]).wf()
    }
}

} // verus!

verus! {

/// Mirroring an image twice, either way, gives it back.
pub proof fn lemma_flip_twice(img: ImageView)
    requires
        img.wf(),
    ensures
        img.flipped_horz().flipped_horz() =~~= img,
        img.flipped_vert().flipped_vert() =~~= img,
{
}

/// A quarter turn one way and a quarter turn back give the image back.
pub proof fn lemma_rotate_back(img: ImageView)
    requires
        img.wf(),
    ensures
        img.rotated_cw().rotated_ccw() =~~= img,
        img.rotated_ccw().rotated_cw() =~~= img,
{
}

/// Cropping keeps the pixels of the part that remains.
pub proof fn lemma_crop_keeps(img: ImageView, width: nat, height: nat, col: int, row: int)
    requires
        img.wf(),
        0 <= col < width,
        0 <= row < height,
        img.in_bounds(col, row),
    ensures
        img.cropped(width, height).at(col, row) == img.at(col, row),
        img.cropped(width, height).wf(),
{
}

} // verus!
