//! The raster side of the canvas: a plain RGB bitmap, the verified
//! conversions between boards and bitmaps, and trusted wrappers around
//! the image crate's pixel transforms.

use vstd::arithmetic::div_mod::lemma_fundamental_div_mod_converse;
use vstd::prelude::*;

use crate::grid::{white, Board, Cell, Rgb, MAX_DIM};

verus! {

/// Imported bitmaps wider or taller than this are scaled down first.
pub const IMPORT_LIMIT: u32 = 100;

/// The height bound used when an oversized import is scaled down.
pub const IMPORT_HEIGHT_LIMIT: u32 = 50;

/// One channel of the pixel at `(x, y)` in row-major RGB byte data of
/// row length `w`: channel `c` is 0 for red, 1 for green, 2 for blue.
pub open spec fn px(data: Seq<u8>, w: int, x: int, y: int, c: int) -> u8 {
    data[3 * (y * w + x) + c]
}

/// The full color of the pixel at `(x, y)` in row-major RGB byte data.
pub open spec fn pixel_rgb(data: Seq<u8>, w: int, x: int, y: int) -> Rgb {
    Rgb { r: px(data, w, x, y, 0), g: px(data, w, x, y, 1), b: px(data, w, x, y, 2) }
}

/// A plain raster image: row-major RGB bytes, three per pixel.
pub struct Bitmap {
    pub width: u32,
    pub height: u32,
    pub data: Vec<u8>,
}

impl Bitmap {
    /// The bitmap invariant: exactly three bytes per pixel.
    pub open spec fn wf(&self) -> bool {
        self.data@.len() == 3 * (self.width as int) * (self.height as int)
    }

    /// Whether `(x, y)` lies inside the bitmap.
    pub open spec fn px_in_range(&self, x: int, y: int) -> bool {
        0 <= x < self.width && 0 <= y < self.height
    }

    /// The color of the pixel at `(x, y)`.
    pub open spec fn pixel_at(&self, x: int, y: int) -> Rgb {
        pixel_rgb(self.data@, self.width as int, x, y)
    }

    /// An all-black bitmap of the given size.
    pub fn new(width: u32, height: u32) -> (r: Bitmap)
        requires
            3 * (width as int) * (height as int) <= usize::MAX,
        ensures
            r.wf(),
            r.width == width,
            r.height == height,
            forall|i: int| 0 <= i < r.data@.len() ==> r.data@[i] == 0u8,
    {
        proof {
            assert((width as int) * (height as int) * 3 == 3 * (width as int) * (height as int)
                && 0 <= (width as int) * (height as int)) by (nonlinear_arith);
        }
        let wh: usize = (width as usize) * (height as usize);
        let n: usize = wh * 3;
        let mut data: Vec<u8> = Vec::new();
        let mut i: usize = 0;
        while i < n
            invariant
                i <= n,
                data@.len() == i,
                forall|j: int| 0 <= j < i ==> data@[j] == 0u8,
            decreases n - i,
        {
            data.push(0u8);
            i += 1;
        }
        Bitmap { width, height, data }
    }

    /// The color of the pixel at `(x, y)`. Never panics in range.
    pub fn get_pixel(&self, x: u32, y: u32) -> (r: Rgb)
        requires
            self.wf(),
            self.px_in_range(x as int, y as int),
        ensures
            r == self.pixel_at(x as int, y as int),
    {
        proof {
            lemma_px_index_bounds(
                self.width as int,
                self.height as int,
                x as int,
                y as int,
            );
        }
        let n: usize = self.data.len();
        proof {
            assert(3 * (y * (self.width as int) + x) + 2 < n);
        }
        let i: usize = 3usize * ((y as usize) * (self.width as usize) + (x as usize));
        Rgb { r: self.data[i], g: self.data[i + 1], b: self.data[i + 2] }
    }

    /// Overwrites the pixel at `(x, y)`; a silent no-op off the bitmap.
    pub fn set_pixel(&mut self, x: u32, y: u32, color: Rgb)
        requires
            old(self).wf(),
        ensures
            final(self).wf(),
            final(self).width == old(self).width,
            final(self).height == old(self).height,
            old(self).px_in_range(x as int, y as int) ==> forall|xx: int, yy: int, c: int|
                old(self).px_in_range(xx, yy) && 0 <= c < 3 ==> px(
                    final(self).data@,
                    final(self).width as int,
                    xx,
                    yy,
                    c,
                ) == if xx == x && yy == y {
                    rgb_channel(color, c)
                } else {
                    px(old(self).data@, old(self).width as int, xx, yy, c)
                },
            !old(self).px_in_range(x as int, y as int) ==> final(self).data@ == old(self).data@,
    {
        if x < self.width && y < self.height {
            proof {
                lemma_px_index_bounds(
                    self.width as int,
                    self.height as int,
                    x as int,
                    y as int,
                );
            }
            let n: usize = self.data.len();
            proof {
                assert(3 * (y * (self.width as int) + x) + 2 < n);
            }
            let i: usize = 3usize * ((y as usize) * (self.width as usize) + (x as usize));
            self.data.set(i, color.r);
            self.data.set(i + 1, color.g);
            self.data.set(i + 2, color.b);
            proof {
                let w = self.width as int;
                let h = self.height as int;
                assert forall|xx: int, yy: int, c: int|
                    0 <= xx < w && 0 <= yy < h && 0 <= c < 3 implies px(self.data@, w, xx, yy, c)
                    == (if xx == x && yy == y {
                    rgb_channel(color, c)
                } else {
                    px(old(self).data@, w, xx, yy, c)
                }) by {
                    lemma_px_index_bounds(w, h, xx, yy);
                    if !(xx == x && yy == y) {
                        assert(3 * (yy * w + xx) + c < 3 * (y * w + x) || 3 * (y * w + x) + 2 < 3
                            * (yy * w + xx) + c) by (nonlinear_arith)
                            requires
                                0 <= x < w,
                                0 <= y < h,
                                0 <= xx < w,
                                0 <= yy < h,
                                0 <= c < 3,
                                xx != x || yy != y,
                        ;
                    }
                }
            }
        }
    }
}

/// The bitmap a board exports to: the board's width, twice its height,
/// and each cell's background written to the two pixel rows it covers.
pub open spec fn image_of(width: int, height: int, cells: Seq<Cell>) -> Seq<u8> {
    Seq::new(
        (6 * width * height) as nat,
        |i: int|
            {
                let p = i / 3;
                let c = i % 3;
                let x = p % width;
                let yy = p / width;
                rgb_channel(cells[(yy / 2) * width + x].backcolor, c)
            },
    )
}

/// The grid height a fresh bitmap import produces: half the pixel rows,
/// truncating, but never less than one row.
pub open spec fn fresh_height(h: int) -> int {
    if h / 2 == 0 {
        1
    } else {
        h / 2
    }
}

/// `board` is the fresh load of a `w` by `h` bitmap holding `data`:
/// default foreground and symbol, backgrounds sampled from the bitmap's
/// even pixel rows.
pub open spec fn fresh_loaded(board: Board, data: Seq<u8>, w: int, h: int) -> bool {
    &&& board.width == w
    &&& board.height == fresh_height(h)
    &&& forall|x: int, y: int|
        board.in_range(x, y) ==> board.cell_at(x, y) == (Cell {
            color: white(),
            backcolor: pixel_rgb(data, w, x, 2 * y),
            symbol: ' ',
        })
}

/// Reading a byte of `image_of` at a pixel coordinate yields the channel
/// of the covering cell's background.
pub proof fn lemma_image_of_px(width: int, height: int, cells: Seq<Cell>, x: int, yy: int, c: int)
    requires
        0 < width,
        0 < height,
        0 <= x < width,
        0 <= yy < 2 * height,
        0 <= c < 3,
        cells.len() == width * height,
    ensures
        0 <= 3 * (yy * width + x) + c < 6 * width * height,
        0 <= (yy / 2) * width + x < cells.len(),
        px(image_of(width, height, cells), width, x, yy, c) == rgb_channel(
            cells[(yy / 2) * width + x].backcolor,
            c,
        ),
{
    let p = yy * width + x;
    let i = 3 * p + c;
    assert(0 <= p && p < width * (2 * height) && 0 <= i && i < 6 * width * height) by (
    nonlinear_arith)
        requires
            p == yy * width + x,
            i == 3 * p + c,
            0 <= x < width,
            0 <= yy < 2 * height,
            0 <= c < 3,
    ;
    lemma_fundamental_div_mod_converse(i, 3, p, c);
    lemma_fundamental_div_mod_converse(p, width, yy, x);
    assert(0 <= yy / 2 < height) by {
        vstd::arithmetic::div_mod::lemma_fundamental_div_mod(yy, 2);
    }
    assert(0 <= (yy / 2) * width + x < width * height) by (nonlinear_arith)
        requires
            0 <= x < width,
            0 <= yy / 2 < height,
    ;
}

/// A board exported to a bitmap: width kept, height doubled, backgrounds
/// duplicated into pixel rows `2y` and `2y + 1`.
pub fn board_to_bitmap(board: &Board) -> (r: Bitmap)
    requires
        board.wf(),
    ensures
        r.wf(),
        r.width == board.width,
        r.height == 2 * board.height,
        r.data@ == image_of(board.width as int, board.height as int, board.cells@),
{
    let w: usize = board.width;
    let h: usize = board.height;
    let ghost target = image_of(w as int, h as int, board.cells@);
    proof {
        assert(w * (2 * h) <= MAX_DIM * (2 * MAX_DIM) && 3 * (w * (2 * h)) == 6 * w * h && (2 * h)
            * (w as int) == (w as int) * (2 * h)) by (nonlinear_arith)
            requires
                0 < w <= MAX_DIM,
                0 < h <= MAX_DIM,
        ;
    }
    let total: usize = w * (2 * h);
    let mut data: Vec<u8> = Vec::new();
    let mut p: usize = 0;
    while p < total
        invariant
            p <= total,
            board.wf(),
            w == board.width,
            h == board.height,
            total == w * (2 * h),
            3 * total == 6 * w * h,
            target == image_of(w as int, h as int, board.cells@),
            target.len() == 3 * total,
            data@.len() == 3 * p,
            forall|j: int| 0 <= j < 3 * p ==> data@[j] == target[j],
        decreases total - p,
    {
        let x: usize = p % w;
        let yy: usize = p / w;
        let y: usize = yy / 2;
        proof {
            vstd::arithmetic::div_mod::lemma_fundamental_div_mod(p as int, w as int);
            vstd::arithmetic::div_mod::lemma_fundamental_div_mod(yy as int, 2);
            assert(yy < 2 * h) by (nonlinear_arith)
                requires
                    p < total,
                    total == w * (2 * h),
                    0 < w,
                    p == (w as int) * (yy as int) + x,
                    0 <= x < w,
            ;
            board.lemma_index_of_in_bounds(x as int, y as int);
            lemma_image_of_px(w as int, h as int, board.cells@, x as int, yy as int, 0);
            lemma_image_of_px(w as int, h as int, board.cells@, x as int, yy as int, 1);
            lemma_image_of_px(w as int, h as int, board.cells@, x as int, yy as int, 2);
            assert(yy * w + x == p) by (nonlinear_arith)
                requires
                    p == (w as int) * (yy as int) + x,
            ;
        }
        let cell = board.cells[y * w + x];
        data.push(cell.backcolor.r);
        data.push(cell.backcolor.g);
        data.push(cell.backcolor.b);
        p += 1;
    }
    proof {
        assert(data@ =~= target);
        assert(3 * ((w as int) * (2 * (h as int))) == 3 * (w as int) * (2 * (h as int)))
            by (nonlinear_arith);
    }
    Bitmap { width: w as u32, height: (2 * h) as u32, data }
}

/// A fresh board loaded from a bitmap: the bitmap's width, half its
/// pixel rows (at least one), backgrounds from the even rows, default
/// foreground and symbol everywhere.
pub fn fresh_board_from_bitmap(bmp: &Bitmap) -> (board: Board)
    requires
        bmp.wf(),
        0 < bmp.width <= MAX_DIM,
        0 < bmp.height,
        fresh_height(bmp.height as int) <= MAX_DIM,
    ensures
        board.wf(),
        fresh_loaded(board, bmp.data@, bmp.width as int, bmp.height as int),
{
    let w: usize = bmp.width as usize;
    let half: u32 = bmp.height / 2;
    let gh: usize = if half == 0 {
        1
    } else {
        half as usize
    };
    proof {
        vstd::arithmetic::div_mod::lemma_fundamental_div_mod(bmp.height as int, 2);
        assert(w * gh <= MAX_DIM * MAX_DIM) by (nonlinear_arith)
            requires
                0 < w <= MAX_DIM,
                0 < gh <= MAX_DIM,
        ;
    }
    let n: usize = w * gh;
    let mut cells: Vec<Cell> = Vec::new();
    let mut i: usize = 0;
    while i < n
        invariant
            i <= n,
            n == w * gh,
            0 < w == bmp.width,
            0 < gh == fresh_height(bmp.height as int),
            gh == 1 || 2 * gh <= bmp.height,
            0 < bmp.height,
            bmp.wf(),
            cells@.len() == i,
            forall|j: int|
                0 <= j < i ==> cells@[j] == (Cell {
                    color: white(),
                    backcolor: pixel_rgb(bmp.data@, bmp.width as int, j % (w as int), 2 * (j / (
                    w as int))),
                    symbol: ' ',
                }),
        decreases n - i,
    {
        let x: usize = i % w;
        let y: usize = i / w;
        proof {
            vstd::arithmetic::div_mod::lemma_fundamental_div_mod(i as int, w as int);
            assert(y < gh) by (nonlinear_arith)
                requires
                    i < n,
                    n == w * gh,
                    0 < w,
                    i == (w as int) * (y as int) + x,
                    0 <= x < w,
            ;
        }
        let pixel = bmp.get_pixel(x as u32, 2 * (y as u32));
        cells.push(Cell { color: Rgb { r: 255, g: 255, b: 255 }, backcolor: pixel, symbol: ' ' });
        i += 1;
    }
    let board = Board { width: w, height: gh, cells };
    proof {
        assert forall|x: int, y: int| board.in_range(x, y) implies board.cell_at(x, y) == (Cell {
            color: white(),
            backcolor: pixel_rgb(bmp.data@, bmp.width as int, x, 2 * y),
            symbol: ' ',
        }) by {
            let j = y * (w as int) + x;
            assert(0 <= j < (w as int) * (gh as int)) by (nonlinear_arith)
                requires
                    j == y * (w as int) + x,
                    0 <= x < w,
                    0 <= y < gh,
            ;
            lemma_fundamental_div_mod_converse(j, w as int, y, x);
        }
    }
    board
}

/// Overwrites every background from the bitmap's even pixel rows; the
/// foregrounds and symbols stay. The bitmap must cover the board: the
/// same width and twice the height.
pub fn overwrite_backgrounds(board: &mut Board, bmp: &Bitmap)
    requires
        old(board).wf(),
        bmp.wf(),
        bmp.width == old(board).width,
        bmp.height == 2 * old(board).height,
    ensures
        final(board).wf(),
        final(board).width == old(board).width,
        final(board).height == old(board).height,
        final(board).cells@.len() == old(board).cells@.len(),
        forall|x: int, y: int|
            old(board).in_range(x, y) ==> final(board).cell_at(x, y) == (Cell {
                color: old(board).cell_at(x, y).color,
                backcolor: pixel_rgb(bmp.data@, bmp.width as int, x, 2 * y),
                symbol: old(board).cell_at(x, y).symbol,
            }),
{
    let w: usize = board.width;
    let n: usize = board.cells.len();
    let mut i: usize = 0;
    while i < n
        invariant
            i <= n,
            board.wf(),
            w == board.width,
            board.width == old(board).width,
            board.height == old(board).height,
            n == board.cells@.len(),
            board.cells@.len() == old(board).cells@.len(),
            bmp.wf(),
            bmp.width == w,
            bmp.height == 2 * board.height,
            forall|j: int|
                0 <= j < i ==> board.cells@[j] == (Cell {
                    color: old(board).cells@[j].color,
                    backcolor: pixel_rgb(bmp.data@, w as int, j % (w as int), 2 * (j / (
                    w as int))),
                    symbol: old(board).cells@[j].symbol,
                }),
            forall|j: int| i <= j < n ==> board.cells@[j] == old(board).cells@[j],
        decreases n - i,
    {
        let x: usize = i % w;
        let y: usize = i / w;
        proof {
            vstd::arithmetic::div_mod::lemma_fundamental_div_mod(i as int, w as int);
            assert(y < board.height) by (nonlinear_arith)
                requires
                    i < n,
                    n == w * board.height,
                    0 < w,
                    i == (w as int) * (y as int) + x,
                    0 <= x < w,
            ;
        }
        let pixel = bmp.get_pixel(x as u32, 2 * (y as u32));
        let old_cell = board.cells[i];
        board.cells.set(
            i,
            Cell { color: old_cell.color, backcolor: pixel, symbol: old_cell.symbol },
        );
        i += 1;
    }
    proof {
        assert forall|x: int, y: int| old(board).in_range(x, y) implies board.cell_at(x, y)
            == (Cell {
            color: old(board).cell_at(x, y).color,
            backcolor: pixel_rgb(bmp.data@, bmp.width as int, x, 2 * y),
            symbol: old(board).cell_at(x, y).symbol,
        }) by {
            let j = y * (w as int) + x;
            let bh = old(board).height as int;
            assert(0 <= j < (w as int) * bh) by (nonlinear_arith)
                requires
                    j == y * (w as int) + x,
                    0 <= x < w,
                    0 <= y < bh,
            ;
            lemma_fundamental_div_mod_converse(j, w as int, y, x);
        }
    }
}

/// The gray level the image crate's grayscale conversion gives a color:
/// an integer sRGB luma, `(2126 r + 7152 g + 722 b) / 10000`.
pub open spec fn luma8(color: Rgb) -> u8 {
    ((2126 * color.r + 7152 * color.g + 722 * color.b) / 10000) as u8
}

/// One channel brightened by `value`, clamped to a byte.
pub open spec fn bright_channel(ch: u8, value: int) -> u8 {
    if ch + value < 0 {
        0
    } else if ch + value > 255 {
        255
    } else {
        (ch + value) as u8
    }
}

/// A color brightened channel by channel.
pub open spec fn bright_rgb(color: Rgb, value: int) -> Rgb {
    Rgb {
        r: bright_channel(color.r, value),
        g: bright_channel(color.g, value),
        b: bright_channel(color.b, value),
    }
}

/// Cells with their backgrounds brightened; foregrounds and symbols stay.
pub open spec fn brightened_cells(cells: Seq<Cell>, value: int) -> Seq<Cell> {
    cells.map_values(
        |c: Cell| Cell { color: c.color, backcolor: bright_rgb(c.backcolor, value), symbol: c.symbol },
    )
}

/// What the image crate's hue rotation returns for row-major RGB bytes
/// of the given dimensions; it mixes channels through trigonometry, so
/// the bytes are named rather than spelled out.
pub uninterp spec fn hue_rotated(data: Seq<u8>, width: int, height: int, degrees: int) -> Seq<u8>;

/// What the image crate's aspect-preserving thumbnail scaling returns
/// for row-major RGB bytes of the given dimensions and bounds.
pub uninterp spec fn thumbnail_data(
    data: Seq<u8>,
    width: int,
    height: int,
    max_width: int,
    max_height: int,
) -> Seq<u8>;

/// Relies on image::imageops::flip_horizontal: the output has the same
/// dimensions and holds each input row reversed.
#[verifier::external_body]
pub(crate) fn flip_h_raw(width: u32, height: u32, data: Vec<u8>) -> (r: Vec<u8>)
    requires
        data@.len() == 3 * width * height,
    ensures
        r@.len() == data@.len(),
        forall|x: int, y: int, c: int|
            0 <= x < width && 0 <= y < height && 0 <= c < 3 ==> px(r@, width as int, x, y, c)
                == px(data@, width as int, width - 1 - x, y, c),
{
    let img = image::RgbImage::from_raw(width, height, data).unwrap();
    image::imageops::flip_horizontal(&img).into_raw()
}

/// Relies on image::imageops::flip_vertical: the output has the same
/// dimensions and holds the input rows in reverse order.
#[verifier::external_body]
pub(crate) fn flip_v_raw(width: u32, height: u32, data: Vec<u8>) -> (r: Vec<u8>)
    requires
        data@.len() == 3 * width * height,
    ensures
        r@.len() == data@.len(),
        forall|x: int, y: int, c: int|
            0 <= x < width && 0 <= y < height && 0 <= c < 3 ==> px(r@, width as int, x, y, c)
                == px(data@, width as int, x, height - 1 - y, c),
{
    let img = image::RgbImage::from_raw(width, height, data).unwrap();
    image::imageops::flip_vertical(&img).into_raw()
}

/// Relies on image::imageops::rotate90: the output is the input turned a
/// quarter turn clockwise, so its dimensions are swapped and its pixel
/// `(x, y)` is the input's `(y, height - 1 - x)`.
#[verifier::external_body]
pub(crate) fn rotate90_raw(width: u32, height: u32, data: Vec<u8>) -> (r: Bitmap)
    requires
        data@.len() == 3 * width * height,
    ensures
        r.wf(),
        r.width == height,
        r.height == width,
        forall|x: int, y: int, c: int|
            0 <= x < height && 0 <= y < width && 0 <= c < 3 ==> px(r.data@, height as int, x, y, c)
                == px(data@, width as int, y, height - 1 - x, c),
{
    let img = image::RgbImage::from_raw(width, height, data).unwrap();
    let out = image::imageops::rotate90(&img);
    Bitmap { width: height, height: width, data: out.into_raw() }
}

/// Relies on image::imageops::grayscale and the crate's gray-to-RGB
/// conversion: every pixel becomes its integer sRGB luma, replicated
/// into all three channels.
#[verifier::external_body]
pub(crate) fn grayscale_raw(width: u32, height: u32, data: Vec<u8>) -> (r: Vec<u8>)
    requires
        data@.len() == 3 * width * height,
    ensures
        r@.len() == data@.len(),
        forall|x: int, y: int, c: int|
            0 <= x < width && 0 <= y < height && 0 <= c < 3 ==> px(r@, width as int, x, y, c)
                == luma8(pixel_rgb(data@, width as int, x, y)),
{
    let img = image::RgbImage::from_raw(width, height, data).unwrap();
    let gray = image::imageops::grayscale(&img);
    image::DynamicImage::ImageLuma8(gray).into_rgb8().into_raw()
}

/// Relies on image::imageops::colorops::brighten: every channel moves by
/// `value`, clamped to the byte range.
#[verifier::external_body]
pub(crate) fn brighten_raw(width: u32, height: u32, data: Vec<u8>, value: i32) -> (r: Vec<u8>)
    requires
        data@.len() == 3 * width * height,
    ensures
        r@.len() == data@.len(),
        forall|x: int, y: int, c: int|
            0 <= x < width && 0 <= y < height && 0 <= c < 3 ==> px(r@, width as int, x, y, c)
                == bright_channel(px(data@, width as int, x, y, c), value as int),
{
    let img = image::RgbImage::from_raw(width, height, data).unwrap();
    image::imageops::colorops::brighten(&img, value).into_raw()
}

/// Relies on image::imageops::colorops::huerotate: the result depends on
/// the bytes, the dimensions and the angle alone, and keeps the buffer
/// size.
#[verifier::external_body]
pub(crate) fn huerotate_raw(width: u32, height: u32, data: Vec<u8>, value: i32) -> (r: Vec<u8>)
    requires
        data@.len() == 3 * width * height,
    ensures
        r@.len() == data@.len(),
        r@ == hue_rotated(data@, width as int, height as int, value as int),
{
    let img = image::RgbImage::from_raw(width, height, data).unwrap();
    image::imageops::colorops::huerotate(&img, value).into_raw()
}

/// Relies on image::DynamicImage::thumbnail: an aspect-preserving scale
/// down to fit the given bounds, never empty, whose pixels depend on the
/// input bytes, dimensions and bounds alone.
#[verifier::external_body]
pub(crate) fn thumbnail_raw(bmp: &Bitmap, max_width: u32, max_height: u32) -> (r: Bitmap)
    requires
        bmp.wf(),
        0 < bmp.width,
        0 < bmp.height,
        0 < max_width,
        0 < max_height,
    ensures
        r.wf(),
        1 <= r.width <= max_width,
        1 <= r.height <= max_height,
        r.data@ == thumbnail_data(
            bmp.data@,
            bmp.width as int,
            bmp.height as int,
            max_width as int,
            max_height as int,
        ),
{
    let img = image::RgbImage::from_raw(bmp.width, bmp.height, bmp.data.clone()).unwrap();
    let out = image::DynamicImage::ImageRgb8(img).thumbnail(max_width, max_height).into_rgb8();
    let (w, h) = out.dimensions();
    Bitmap { width: w, height: h, data: out.into_raw() }
}

/// Law: the bitmap round trip loses no background color. Exporting a
/// board and sampling the exported bitmap's even pixel rows, as a
/// matching-overlay import does, reads back exactly each cell's
/// background.
pub proof fn lemma_image_round_trip(width: int, height: int, cells: Seq<Cell>, x: int, y: int)
    requires
        0 < width,
        0 < height,
        cells.len() == width * height,
        0 <= x < width,
        0 <= y < height,
    ensures
        pixel_rgb(image_of(width, height, cells), width, x, 2 * y) == cells[y * width
            + x].backcolor,
{
    lemma_image_of_px(width, height, cells, x, 2 * y, 0);
    lemma_image_of_px(width, height, cells, x, 2 * y, 1);
    lemma_image_of_px(width, height, cells, x, 2 * y, 2);
    lemma_fundamental_div_mod_converse(2 * y, 2, y, 0);
}

/// The channel `c` of a color: 0 is red, 1 is green, 2 is blue.
pub open spec fn rgb_channel(color: Rgb, c: int) -> u8 {
    if c == 0 {
        color.r
    } else if c == 1 {
        color.g
    } else {
        color.b
    }
}

/// Byte indices of in-range pixels stay inside the data buffer.
proof fn lemma_px_index_bounds(w: int, h: int, x: int, y: int)
    requires
        0 <= x < w,
        0 <= y < h,
    ensures
        0 <= 3 * (y * w + x) && 3 * (y * w + x) + 2 < 3 * w * h,
{
    assert(0 <= 3 * (y * w + x) && 3 * (y * w + x) + 2 < 3 * w * h) by (nonlinear_arith)
        requires
            0 <= x < w,
            0 <= y < h,
    ;
}

} // verus!
