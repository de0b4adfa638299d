//! The difference hash: where a row gets brighter from one pixel to the next.

use crate::convert::{
    can_sample, converts_to, sample_fits, ColorSpace, Convert, GrayImage, Raster, RgbImage,
};
use crate::imghash::{can_hold, max_bits, BitMatrix, ImageHash};
use crate::ImageHasher;
use vstd::prelude::*;

verus! {

/// The settings of the difference hash.
pub struct DifferenceHasher {
    /// Number of columns of the hash.
    pub width: u32,
    /// Number of rows of the hash.
    pub height: u32,
    /// The weights with which the picture is made gray.
    pub color_space: ColorSpace,
}

/// For a picture of `width + 1` columns, and for each pixel but the last of
/// each row, whether the pixel to its right is brighter.
pub open spec fn difference_bits(pixels: Seq<u8>, width: nat, height: nat) -> Seq<bool> {
    Seq::new(
        width * height,
        |i: int|
            {
                let row = i / (width as int);
                let column = i % (width as int);
                pixels[row * (width + 1) + column] < pixels[row * (width + 1) + column + 1]
            },
    )
}

/// The difference hash of a sampled picture: one column less than the
/// picture has, and for each pair of neighbours in a row whether the right
/// one is brighter.
pub open spec fn difference_matrix(sample: Raster<u8>) -> BitMatrix {
    BitMatrix {
        width: (sample.width - 1) as nat,
        height: sample.height,
        bits: difference_bits(sample.pixels, (sample.width - 1) as nat, sample.height),
    }
}

impl DifferenceHasher {
    /// The difference hash of a picture that is gray and sampled already,
    /// with one column more than the hash is to have.
    pub fn hash_from_sample(sample: &GrayImage) -> (hash: ImageHash)
        requires
            sample@.width > 1,
            sample@.height > 0,
            (sample@.width - 1) * sample@.height <= max_bits(),
        ensures
            hash@.well_formed(),
            hash@ == difference_matrix(sample@),
    {
        let pixels = sample.as_bytes();
        let stride = sample.width() as usize;
        let width = stride - 1;
        let height = sample.height() as usize;
        let len = pixels.len();
        let mut bits: Vec<bool> = Vec::new();
        let mut r: usize = 0;
        while r < height
            invariant
                stride == sample@.width,
                width == stride - 1,
                width > 0,
                height == sample@.height,
                pixels@ == sample@.pixels,
                len == pixels@.len(),
                    len == stride * height,
                r <= height,
                bits@.len() == r * width,
                forall|i: int|
                    0 <= i < bits@.len() ==> bits@[i] == difference_bits(
                        pixels@,
                        width as nat,
                        height as nat,
                    )[i],
            decreases height - r,
        {
            let mut c: usize = 0;
            while c < width
                invariant
                    stride == sample@.width,
                    width == stride - 1,
                    width > 0,
                    height == sample@.height,
                    pixels@ == sample@.pixels,
                    len == pixels@.len(),
                    len == stride * height,
                    r < height,
                    c <= width,
                    bits@.len() == r * width + c,
                    forall|i: int|
                        0 <= i < bits@.len() ==> bits@[i] == difference_bits(
                            pixels@,
                            width as nat,
                            height as nat,
                        )[i],
                decreases width - c,
            {
                proof {
                    lemma_pair_index(r as int, c as int, width as int, height as int);
                    assert(len == (width + 1) * height);
                    assert(r * stride == r * (width + 1));
                }
                let at = r * stride + c;
                bits.push(pixels[at] < pixels[at + 1]);
                c += 1;
            }
            proof {
                assert(r * width + width == (r + 1) * width) by (nonlinear_arith);
            }
            r += 1;
        }
        proof {
            assert(height * width == width * height) by (nonlinear_arith);
        }
        assert(bits@ =~= difference_bits(pixels@, width as nat, height as nat));
        ImageHash::from_bool_iter(bits, sample.width() - 1, sample.height())
    }
}

impl Convert for DifferenceHasher {

}

impl ImageHasher for DifferenceHasher {
    open spec fn accepts(&self, img: Raster<(u8, u8, u8)>) -> bool {
        &&& self.width > 0
        &&& self.width < u32::MAX
        &&& sample_fits(img.width, (self.width + 1) as nat, self.height as nat)
        &&& self.width * self.height <= max_bits()
    }

    open spec fn yields(&self, img: Raster<(u8, u8, u8)>, hash: BitMatrix) -> bool {
        exists|sample: Raster<u8>| #[trigger]
            converts_to(img, (self.width + 1) as nat, self.height as nat, self.color_space, sample)
                && hash == difference_matrix(sample)
    }

    fn can_hash(&self, img: &RgbImage) -> (ok: bool) {
        self.width > 0 && self.width < u32::MAX && can_sample(
            img.width(),
            self.width + 1,
            self.height,
        ) && can_hold(self.width, self.height)
    }

    /// The difference hash of a picture: the picture is made gray and
    /// stretched to the shape of the hash and one column more; each bit
    /// then says whether the pixel to the right of its own is brighter.
    fn hash_from_img(&self, img: &RgbImage) -> (hash: ImageHash) {
        let sample = self.convert(img, self.width + 1, self.height, self.color_space);
        let hash = DifferenceHasher::hash_from_sample(&sample);
        assert(converts_to(
            img@,
            (self.width + 1) as nat,
            self.height as nat,
            self.color_space,
            sample@,
        ));
        hash
    }
}

impl Default for DifferenceHasher {
    /// A hash of eight by eight bits under the weights of Rec. 601.
    fn default() -> (hasher: DifferenceHasher)
        ensures
            hasher.width == 8,
            hasher.height == 8,
            hasher.color_space == ColorSpace::REC601,
    {
        DifferenceHasher { width: 8, height: 8, color_space: ColorSpace::REC601 }
    }
}

/// Where the pair of pixels for cell `(r, c)` of the hash stands in a
/// picture of `width + 1` columns.
proof fn lemma_pair_index(r: int, c: int, width: int, height: int)
    requires
        0 <= r < height,
        0 <= c < width,
    ensures
        (r * width + c) / width == r,
        (r * width + c) % width == c,
        0 <= r * width + c < width * height,
        0 <= r * (width + 1) <= r * (width + 1) + c,
        r * (width + 1) + c + 1 < (width + 1) * height,
{
    vstd::arithmetic::div_mod::lemma_fundamental_div_mod_converse(r * width + c, width, r, c);
    assert(0 <= r * (width + 1) && r * (width + 1) + c + 1 < (width + 1) * height)
        by (nonlinear_arith)
        requires
            0 <= r < height,
            0 <= c < width,
    ;
    assert(0 <= r * width + c < width * height) by (nonlinear_arith)
        requires
            0 <= r < height,
            0 <= c < width,
    ;
}

} // verus!
