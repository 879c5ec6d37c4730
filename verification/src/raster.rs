//! Images and the grid of pixels behind their bytes.

use vstd::arithmetic::div_mod::*;
use vstd::prelude::*;

verus! {

/// One pixel: red, green, blue, alpha.
pub type Pixel = [u8; 4];

/// An image as a row-major run of RGBA bytes.
#[derive(Clone, Debug, PartialEq, Eq)]
pub struct RgbaImage {
    pub width: u32,
    pub height: u32,
    pub bytes: Vec<u8>,
}

impl RgbaImage {
    /// Both sides are positive and the bytes fill the grid exactly.
    pub open spec fn is_valid(&self) -> bool {
        &&& self.width > 0
        &&& self.height > 0
        &&& self.bytes@.len() == self.width * self.height * 4
    }
}

/// The pixel that starts at byte `4 * index`.
pub open spec fn pixel_at(bytes: Seq<u8>, index: int) -> Pixel {
    [bytes[4 * index], bytes[4 * index + 1], bytes[4 * index + 2], bytes[4 * index + 3]]
}

/// The pixels that `bytes` holds, four bytes each.
pub open spec fn pixels_of(bytes: Seq<u8>) -> Seq<Pixel> {
    Seq::new((bytes.len() / 4) as nat, |index: int| pixel_at(bytes, index))
}

/// Where the pixel in column `x` and row `y` stands in a grid `width` wide.
pub open spec fn cell(x: int, y: int, width: int) -> int {
    y * width + x
}

/// A grid that has a cell has two positive sides.
pub proof fn lemma_sides(width: int, height: int)
    requires
        0 < width * height,
        0 <= width,
        0 <= height,
    ensures
        0 < width,
        0 < height,
{
    assert(0 < width && 0 < height) by (nonlinear_arith)
        requires
            0 < width * height,
            0 <= width,
            0 <= height,
    ;
}

/// A position in the grid has a column, a row, and is found again from them.
pub proof fn lemma_position(index: int, width: int, height: int)
    requires
        0 <= index < width * height,
        width > 0,
    ensures
        0 <= index % width < width,
        0 <= index / width < height,
        cell(index % width, index / width, width) == index,
{
    lemma_fundamental_div_mod(index, width);
    lemma_mod_bound(index, width);
    let (q, r): (int, int) = (index / width, index % width);
    assert(width * q == q * width) by (nonlinear_arith);
    assert(0 <= q < height) by (nonlinear_arith)
        requires
            index == width * q + r,
            0 <= r < width,
            0 <= index < width * height,
            width > 0,
    ;
}

/// A column and a row give a position in the grid, which has that column and that row.
pub proof fn lemma_cell(x: int, y: int, width: int, height: int)
    requires
        0 <= x < width,
        0 <= y < height,
    ensures
        0 <= y * width <= cell(x, y, width) < width * height,
        cell(x, y, width) % width == x,
        cell(x, y, width) / width == y,
{
    assert(0 <= y * width <= y * width + x < width * height) by (nonlinear_arith)
        requires
            0 <= x < width,
            0 <= y < height,
    ;
    lemma_fundamental_div_mod_converse(cell(x, y, width), width, y, x);
}

/// Splits the bytes of an image into pixels and gives the sides of the grid.
/// An image whose bytes do not fill a positive grid has no pixels.
pub fn pixels(image: &RgbaImage) -> (grid: Option<(usize, usize, Vec<Pixel>)>)
    ensures
        grid is Some <==> image.is_valid(),
        grid matches Some((width, height, pixels)) ==> {
            &&& width == image.width
            &&& height == image.height
            &&& pixels@ == pixels_of(image.bytes@)
            &&& pixels@.len() == width * height
        },
{
    let length: usize = image.bytes.len();
    proof {
        let (w, h): (int, int) = (image.width as int, image.height as int);
        assert(0 <= w * h <= 0xffff_ffff * 0xffff_ffff) by (nonlinear_arith)
            requires
                0 <= w <= 0xffff_ffff,
                0 <= h <= 0xffff_ffff,
        ;
        assert(w * h == 0 <==> w == 0 || h == 0) by (nonlinear_arith);
    }
    let area: u64 = image.width as u64 * image.height as u64;
    if area == 0 || length % 4 != 0 || (length / 4) as u64 != area {
        return None;
    }
    let count: usize = length / 4;
    let mut pixels: Vec<Pixel> = Vec::new();
    let mut index: usize = 0;
    while index < count
        invariant
            count == image.bytes@.len() / 4,
            count * 4 <= usize::MAX,
            index <= count,
            pixels@ == pixels_of(image.bytes@).take(index as int),
        decreases count - index,
    {
        let start: usize = index * 4;
        pixels.push(
            [
                image.bytes[start],
                image.bytes[start + 1],
                image.bytes[start + 2],
                image.bytes[start + 3],
            ],
        );
        index += 1;
    }
    Some((image.width as usize, image.height as usize, pixels))
}

} // verus!
