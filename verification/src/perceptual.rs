//! The perceptual hash: which of the low frequencies of a picture are above
//! their median.
//!
//! The hash is made in three steps. The picture is made gray and stretched
//! to a multiple of the shape of the hash. Its cosine transform is taken
//! along the columns and then along the rows. Of the transform the top-left
//! block in the shape of the hash is kept, and each bit says whether its
//! coefficient is above the median of the block. The first step and the
//! cutting of the block are found here.

use crate::convert::{
    can_sample, converts_to, sample_fits, ColorSpace, Convert, GrayImage, Raster, RgbImage,
};
use crate::imghash::{can_hold, max_bits};
use vstd::prelude::*;

verus! {

/// The settings of the perceptual hash.
pub struct PerceptualHasher {
    /// Number of columns of the hash.
    pub width: u32,
    /// Number of rows of the hash.
    pub height: u32,
    /// How many times the shape of the hash the picture is stretched to
    /// before its transform is taken.
    pub factor: u32,
    /// The weights with which the picture is made gray.
    pub color_space: ColorSpace,
}

/// The top-left block of `columns` by `rows` cells of a row-major matrix
/// with rows of `stride` cells.
pub open spec fn top_left<T>(matrix: Seq<T>, stride: int, columns: int, rows: int) -> Seq<T> {
    Seq::new((columns * rows) as nat, |i: int| matrix[(i / columns) * stride + i % columns])
}

impl PerceptualHasher {
    /// Number of columns of the stretched picture.
    pub open spec fn sample_width(&self) -> nat {
        (self.width * self.factor) as nat
    }

    /// Number of rows of the stretched picture.
    pub open spec fn sample_height(&self) -> nat {
        (self.height * self.factor) as nat
    }

    /// Whether the hasher, as it is set, takes the picture.
    pub open spec fn accepts(&self, img: Raster<(u8, u8, u8)>) -> bool {
        &&& self.sample_width() <= u32::MAX
        &&& self.sample_height() <= u32::MAX
        &&& sample_fits(img.width, self.sample_width(), self.sample_height())
        &&& self.width * self.height <= max_bits()
    }

    /// Whether the hasher, as it is set, takes the picture.
    pub fn can_hash(&self, img: &RgbImage) -> (ok: bool)
        ensures
            ok == self.accepts(img@),
    {
        assert(self.width * self.factor <= u32::MAX * u32::MAX) by (nonlinear_arith);
        assert(self.height * self.factor <= u32::MAX * u32::MAX) by (nonlinear_arith);
        let wide: u64 = (self.width as u64) * (self.factor as u64);
        let high: u64 = (self.height as u64) * (self.factor as u64);
        wide <= u32::MAX as u64 && high <= u32::MAX as u64 && can_sample(
            img.width(),
            wide as u32,
            high as u32,
        ) && can_hold(self.width, self.height)
    }

    /// The picture made gray and stretched to `factor` times the shape of
    /// the hash.
    pub fn sample(&self, img: &RgbImage) -> (sample: GrayImage)
        requires
            self.accepts(img@),
        ensures
            converts_to(img@, self.sample_width(), self.sample_height(), self.color_space, sample@),
    {
        self.convert(img, self.width * self.factor, self.height * self.factor, self.color_space)
    }

    /// The low frequencies of a transform of the stretched picture: its
    /// top-left block in the shape of the hash.
    pub fn low_frequencies<T: Copy>(&self, spectrum: &[T]) -> (block: Vec<T>)
        requires
            self.factor > 0,
            spectrum@.len() == self.sample_width() * self.sample_height(),
        ensures
            block@ == top_left(
                spectrum@,
                self.sample_width() as int,
                self.width as int,
                self.height as int,
            ),
    {
        let len = spectrum.len();
        let columns = self.width as usize;
        let rows = self.height as usize;
        let ghost stride_int = self.sample_width() as int;
        proof {
            lemma_block_inside(
                self.width as int,
                self.height as int,
                self.factor as int,
            );
        }
        let mut block: Vec<T> = Vec::new();
        if columns == 0 || rows == 0 {
            assert(columns * rows == 0) by (nonlinear_arith)
                requires
                    columns == 0 || rows == 0,
            ;
            assert(block@ =~= top_left(spectrum@, stride_int, columns as int, rows as int));
            return block;
        }
        assert(columns * self.factor <= len) by (nonlinear_arith)
            requires
                len == (columns * self.factor) * (rows * self.factor),
                rows > 0,
                self.factor > 0,
        ;
        let stride = columns * (self.factor as usize);
        let mut r: usize = 0;
        while r < rows
            invariant
                columns == self.width,
                rows == self.height,
                columns > 0,
                stride == stride_int,
                stride >= columns,
                len == spectrum@.len(),
                rows * stride <= len,
                r <= rows,
                block@.len() == r * columns,
                forall|i: int|
                    0 <= i < block@.len() ==> block@[i] == top_left(
                        spectrum@,
                        stride_int,
                        columns as int,
                        rows as int,
                    )[i],
            decreases rows - r,
        {
            let mut c: usize = 0;
            while c < columns
                invariant
                    columns == self.width,
                    rows == self.height,
                    columns > 0,
                    stride == stride_int,
                    stride >= columns,
                    len == spectrum@.len(),
                    rows * stride <= len,
                    r < rows,
                    c <= columns,
                    block@.len() == r * columns + c,
                    forall|i: int|
                        0 <= i < block@.len() ==> block@[i] == top_left(
                            spectrum@,
                            stride_int,
                            columns as int,
                            rows as int,
                        )[i],
                decreases columns - c,
            {
                proof {
                    lemma_block_index(
                        r as int,
                        c as int,
                        columns as int,
                        rows as int,
                        stride as int,
                    );
                }
                block.push(spectrum[r * stride + c]);
                c += 1;
            }
            proof {
                assert(r * columns + columns == (r + 1) * columns) by (nonlinear_arith);
            }
            r += 1;
        }
        proof {
            assert(rows * columns == columns * rows) by (nonlinear_arith);
        }
        assert(block@ =~= top_left(spectrum@, stride_int, columns as int, rows as int));
        block
    }
}

impl Convert for PerceptualHasher {

}

impl Default for PerceptualHasher {
    /// A hash of eight by eight bits, a picture stretched to four times
    /// that, and the weights of Rec. 601.
    fn default() -> (hasher: PerceptualHasher)
        ensures
            hasher.width == 8,
            hasher.height == 8,
            hasher.factor == 4,
            hasher.color_space == ColorSpace::REC601,
    {
        PerceptualHasher { width: 8, height: 8, factor: 4, color_space: ColorSpace::REC601 }
    }
}

/// A block in the shape of the hash lies inside the stretched picture.
proof fn lemma_block_inside(width: int, height: int, factor: int)
    requires
        0 <= width,
        0 <= height,
        0 < factor,
    ensures
        width <= width * factor,
        height * (width * factor) <= (width * factor) * (height * factor),
{
    assert(width <= width * factor) by (nonlinear_arith)
        requires
            0 <= width,
            0 < factor,
    ;
    assert(height * (width * factor) <= (width * factor) * (height * factor)) by (nonlinear_arith)
        requires
            0 <= width,
            0 <= height,
            0 < factor,
    ;
}

/// Where cell `(r, c)` of the block stands in the block and in the matrix.
proof fn lemma_block_index(r: int, c: int, columns: int, rows: int, stride: int)
    requires
        0 <= r < rows,
        0 <= c < columns,
        columns <= stride,
    ensures
        (r * columns + c) / columns == r,
        (r * columns + c) % columns == c,
        0 <= r * columns + c < columns * rows,
        0 <= r * stride <= r * stride + c < rows * stride,
{
    vstd::arithmetic::div_mod::lemma_fundamental_div_mod_converse(r * columns + c, columns, r, c);
    assert(0 <= r * columns + c < columns * rows) by (nonlinear_arith)
        requires
            0 <= r < rows,
            0 <= c < columns,
    ;
    assert(0 <= r * stride && r * stride + c < rows * stride) by (nonlinear_arith)
        requires
            0 <= r < rows,
            0 <= c < columns,
            columns <= stride,
    ;
}

} // verus!
