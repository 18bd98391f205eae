//! Rasters of 8-bit RGBA pixels and their scanline filter.
//!
//! Every row is written as the filter type Sub followed by the row's bytes,
//! each less the byte of the same channel in the pixel to its left. The first
//! pixel of a row is kept as it is.

use crate::encoder::PngEncoder;
use vstd::prelude::*;

verus! {

/// The bytes of one RGBA pixel.
pub const BYTES_PER_PIXEL: usize = 4;

/// The filter type that starts every row.
pub const FILTER_SUB: u8 = 1;

/// A raster of `width` by `height` RGBA pixels, row by row, eight bits per
/// channel. Both sides are positive and there are exactly four bytes per
/// pixel.
pub struct RawImage {
    width: u32,
    height: u32,
    pixels: Vec<u8>,
}

/// What a raster is: its sides and its bytes.
pub struct RawImageView {
    pub width: nat,
    pub height: nat,
    pub pixels: Seq<u8>,
}

impl RawImageView {
    /// Both sides are positive and the bytes are four per pixel.
    pub open spec fn well_formed(self) -> bool {
        &&& self.width > 0
        &&& self.height > 0
        &&& self.pixels.len() == self.width * self.height * 4
    }

    /// The bytes of one row.
    pub open spec fn stride(self) -> int {
        4 * (self.width as int)
    }

    /// The bytes of row `y`.
    pub open spec fn row(self, y: int) -> Seq<u8> {
        self.pixels.subrange(y * self.stride(), (y + 1) * self.stride())
    }
}

impl View for RawImage {
    type V = RawImageView;

    closed spec fn view(&self) -> RawImageView {
        RawImageView {
            width: self.width as nat,
            height: self.height as nat,
            pixels: self.pixels@,
        }
    }
}

/// A row after the Sub filter: the first pixel unchanged, every later byte
/// less the byte four places before it, modulo 256.
pub open spec fn sub_filtered_row(row: Seq<u8>) -> Seq<u8> {
    Seq::new(
        row.len(),
        |x: int|
            if x < BYTES_PER_PIXEL as int {
                row[x]
            } else {
                ((row[x] - row[x - BYTES_PER_PIXEL as int]) % 256) as u8
            },
    )
}

/// The first `rows` rows of `image`, each as its filter type and its filtered
/// bytes.
pub open spec fn filtered_rows(image: RawImageView, rows: int) -> Seq<u8>
    decreases rows,
{
    if rows <= 0 {
        Seq::empty()
    } else {
        filtered_rows(image, rows - 1) + seq![FILTER_SUB] + sub_filtered_row(image.row(rows - 1))
    }
}

/// The filtered bytes of the whole of `image`.
pub open spec fn filtered(image: RawImageView) -> Seq<u8> {
    filtered_rows(image, image.height as int)
}

/// Every filtered row takes one byte more than the row itself.
pub proof fn lemma_filtered_rows_len(image: RawImageView, rows: int)
    requires
        image.well_formed(),
        0 <= rows <= image.height,
    ensures
        filtered_rows(image, rows).len() == rows * (image.stride() + 1),
    decreases rows,
{
    if rows > 0 {
        lemma_filtered_rows_len(image, rows - 1);
        lemma_row_bounds(image, rows - 1);
        let stride = image.stride();
        assert(sub_filtered_row(image.row(rows - 1)).len() == stride);
        assert(filtered_rows(image, rows).len() == filtered_rows(image, rows - 1).len() + 1
            + stride);
        assert(rows * (stride + 1) == (rows - 1) * (stride + 1) + (stride + 1))
            by (nonlinear_arith);
    } else {
        assert(rows * (image.stride() + 1) == 0) by (nonlinear_arith)
            requires
                rows == 0,
        ;
    }
}

/// Row `y` of a raster lies within its bytes.
pub proof fn lemma_row_bounds(image: RawImageView, y: int)
    requires
        image.well_formed(),
        0 <= y < image.height,
    ensures
        0 <= y * image.stride(),
        (y + 1) * image.stride() == y * image.stride() + image.stride(),
        (y + 1) * image.stride() <= image.pixels.len(),
        image.row(y).len() == image.stride(),
{
    let stride = image.stride();
    let width = image.width as int;
    let height = image.height as int;
    assert(0 <= y * stride) by (nonlinear_arith)
        requires
            0 <= y,
            0 <= stride,
    ;
    assert((y + 1) * stride == y * stride + stride) by (nonlinear_arith);
    assert((y + 1) * stride <= height * stride) by (nonlinear_arith)
        requires
            y + 1 <= height,
            0 <= stride,
    ;
    assert(height * stride == width * height * 4) by (nonlinear_arith)
        requires
            stride == 4 * width,
    ;
}

impl RawImage {
    #[verifier::type_invariant]
    spec fn well_formed(&self) -> bool {
        self@.well_formed()
    }

    /// The raster of `width` by `height` pixels with the bytes `pixels`, where
    /// both sides are positive and `pixels` holds four bytes for each pixel.
    pub fn new(width: u32, height: u32, pixels: Vec<u8>) -> (image: Option<RawImage>)
        ensures
            image is Some <==> width > 0 && height > 0 && pixels@.len() == width * height * 4,
            image matches Some(raster) ==> raster@ == (RawImageView {
                width: width as nat,
                height: height as nat,
                pixels: pixels@,
            }),
    {
        if width == 0 || height == 0 {
            return None;
        }
        assert(width * height * 4 <= 0xFFFF_FFFF * 0xFFFF_FFFF * 4) by (nonlinear_arith)
            requires
                0 <= width <= 0xFFFF_FFFF,
                0 <= height <= 0xFFFF_FFFF,
        ;
        let expected: u128 = (width as u128) * (height as u128) * 4;
        if pixels.len() as u128 != expected {
            return None;
        }
        Some(RawImage { width, height, pixels })
    }

    /// The number of pixels in a row.
    pub fn width(&self) -> (width: u32)
        ensures
            width == self@.width,
            self@.well_formed(),
    {
        proof {
            use_type_invariant(self);
        }
        self.width
    }

    /// The number of rows.
    pub fn height(&self) -> (height: u32)
        ensures
            height == self@.height,
            self@.well_formed(),
    {
        proof {
            use_type_invariant(self);
        }
        self.height
    }

    /// The bytes of the pixels, row by row.
    pub fn pixels(&self) -> (pixels: &[u8])
        ensures
            pixels@ == self@.pixels,
            self@.well_formed(),
    {
        proof {
            use_type_invariant(self);
        }
        self.pixels.as_slice()
    }
}

impl PngEncoder {
    /// The filtered bytes of `image`, whose sides are those of the encoder.
    pub fn apply_filters(&self, image: &RawImage) -> (filtered_data: Vec<u8>)
        requires
            image@.width == self.width,
            image@.height == self.height,
        ensures
            filtered_data@ == filtered(image@),
            filtered_data@.len() == self.height * (4 * self.width + 1),
    {
        let pixels = image.pixels();
        let ghost raster = image@;
        proof {
            lemma_filtered_rows_len(raster, raster.height as int);
            lemma_row_bounds(raster, 0);
            assert(raster.stride() <= pixels.len());
        }
        let stride: usize = self.width as usize * BYTES_PER_PIXEL;
        let mut filtered_data: Vec<u8> = Vec::new();
        let mut row_start: usize = 0;
        let mut y: u32 = 0;
        while y < self.height
            invariant
                raster.well_formed(),
                raster.width == self.width,
                raster.height == self.height,
                pixels@ == raster.pixels,
                stride == raster.stride(),
                y <= self.height,
                row_start == y * stride,
                filtered_data@ == filtered_rows(raster, y as int),
            decreases self.height - y,
        {
            proof {
                lemma_row_bounds(raster, y as int);
            }
            let ghost row = raster.row(y as int);
            let ghost before = filtered_data@;
            proof {
                assert(y as int * raster.stride() == row_start);
                assert((y as int + 1) * raster.stride() == row_start + stride);
                assert(row == pixels@.subrange(row_start as int, row_start + stride));
            }
            filtered_data.push(FILTER_SUB);
            let mut x: usize = 0;
            while x < stride
                invariant
                    pixels@ == raster.pixels,
                    row == pixels@.subrange(row_start as int, row_start + stride),
                    row_start + stride <= pixels.len(),
                    x <= stride,
                    filtered_data@ == before + seq![FILTER_SUB] + sub_filtered_row(row).take(
                        x as int,
                    ),
                decreases stride - x,
            {
                let byte: u8 = pixels[row_start + x];
                let value: u8 = if x < BYTES_PER_PIXEL {
                    byte
                } else {
                    byte.wrapping_sub(pixels[row_start + x - BYTES_PER_PIXEL])
                };
                filtered_data.push(value);
                proof {
                    assert(row[x as int] == byte);
                    assert(filtered_data@ =~= before + seq![FILTER_SUB] + sub_filtered_row(
                        row,
                    ).take(x + 1));
                }
                x += 1;
            }
            proof {
                assert(sub_filtered_row(row).take(stride as int) =~= sub_filtered_row(row));
            }
            row_start += stride;
            y += 1;
        }
        filtered_data
    }
}

} // verus!
