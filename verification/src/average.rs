//! The average hash: which pixels are brighter than the mean.

use crate::convert::{
    can_sample, converts_to, sample_fits, ColorSpace, Convert, GrayImage, Raster, RgbImage,
};
use crate::imghash::{can_hold, max_bits, BitMatrix, ImageHash};
use crate::ImageHasher;
use vstd::prelude::*;

verus! {

/// The settings of the average hash.
pub struct AverageHasher {
    /// Number of columns of the hash.
    pub width: u32,
    /// Number of rows of the hash.
    pub height: u32,
    /// The weights with which the picture is made gray.
    pub color_space: ColorSpace,
}

/// The sum of the values.
pub open spec fn total(values: Seq<u8>) -> nat
    decreases values.len(),
{
    if values.len() == 0 {
        0
    } else {
        total(values.drop_last()) + values.last() as nat
    }
}

/// The mean of the values, without its fraction.
pub open spec fn mean(values: Seq<u8>) -> nat {
    total(values) / values.len()
}

/// For each value, whether it is above the mean of all.
pub open spec fn average_bits(values: Seq<u8>) -> Seq<bool> {
    Seq::new(values.len(), |i: int| values[i] > mean(values))
}

/// That the mean is taken without its fraction changes no bit: a value is
/// above the whole part of the mean just when it is above the mean itself.
pub proof fn lemma_mean_without_fraction(values: Seq<u8>, i: int)
    requires
        0 <= i < values.len(),
    ensures
        average_bits(values)[i] <==> values[i] * values.len() > total(values),
{
    let n = values.len() as int;
    let t = total(values) as int;
    let p = values[i] as int;
    vstd::arithmetic::div_mod::lemma_fundamental_div_mod(t, n);
    assert(p > t / n <==> p * n > t) by (nonlinear_arith)
        requires
            n > 0,
            t == n * (t / n) + t % n,
            0 <= t % n < n,
    ;
}

/// The average hash of a sampled picture: its shape, and for each pixel
/// whether it is above the mean of all.
pub open spec fn average_matrix(sample: Raster<u8>) -> BitMatrix {
    BitMatrix { width: sample.width, height: sample.height, bits: average_bits(sample.pixels) }
}

impl AverageHasher {
    /// The average hash of a picture that is gray and sampled already.
    pub fn hash_from_sample(sample: &GrayImage) -> (hash: ImageHash)
        requires
            sample@.width > 0,
            sample@.height > 0,
            sample@.pixels.len() <= max_bits(),
        ensures
            hash@.well_formed(),
            hash@ == average_matrix(sample@),
    {
        let pixels = sample.as_bytes();
        let n = pixels.len();
        let mut sum: u128 = 0;
        let mut i: usize = 0;
        while i < n
            invariant
                n == pixels@.len(),
                i <= n,
                sum == total(pixels@.subrange(0, i as int)),
                sum <= 255 * i,
            decreases n - i,
        {
            assert(pixels@.subrange(0, i + 1).drop_last() =~= pixels@.subrange(0, i as int));
            sum += pixels[i] as u128;
            i += 1;
        }
        assert(pixels@.subrange(0, n as int) =~= pixels@);
        assert(n > 0) by (nonlinear_arith)
            requires
                n == sample@.width * sample@.height,
                sample@.width > 0,
                sample@.height > 0,
        ;
        let level: u128 = sum / (n as u128);
        let mut bits: Vec<bool> = Vec::new();
        let mut j: usize = 0;
        while j < n
            invariant
                n == pixels@.len(),
                j <= n,
                level == mean(pixels@),
                bits@.len() == j,
                forall|k: int| 0 <= k < j ==> bits@[k] == (pixels@[k] > mean(pixels@)),
            decreases n - j,
        {
            bits.push(pixels[j] as u128 > level);
            j += 1;
        }
        assert(bits@ =~= average_bits(pixels@));
        ImageHash::from_bool_iter(bits, sample.width(), sample.height())
    }
}

impl Convert for AverageHasher {

}

impl ImageHasher for AverageHasher {
    open spec fn accepts(&self, img: Raster<(u8, u8, u8)>) -> bool {
        &&& sample_fits(img.width, self.width as nat, self.height as nat)
        &&& self.width * self.height <= max_bits()
    }

    open spec fn yields(&self, img: Raster<(u8, u8, u8)>, hash: BitMatrix) -> bool {
        exists|sample: Raster<u8>| #[trigger]
            converts_to(img, self.width as nat, self.height as nat, self.color_space, sample)
                && hash == average_matrix(sample)
    }

    fn can_hash(&self, img: &RgbImage) -> (ok: bool) {
        can_sample(img.width(), self.width, self.height) && can_hold(self.width, self.height)
    }

    /// The average hash of a picture: the picture is made gray and
    /// stretched to the shape of the hash; each bit then says whether its
    /// pixel is above the mean of all.
    fn hash_from_img(&self, img: &RgbImage) -> (hash: ImageHash) {
        let sample = self.convert(img, self.width, self.height, self.color_space);
        let hash = AverageHasher::hash_from_sample(&sample);
        assert(converts_to(img@, self.width as nat, self.height as nat, self.color_space, sample@));
        hash
    }
}

impl Default for AverageHasher {
    /// A hash of eight by eight bits under the weights of Rec. 601.
    fn default() -> (hasher: AverageHasher)
        ensures
            hasher.width == 8,
            hasher.height == 8,
            hasher.color_space == ColorSpace::REC601,
    {
        AverageHasher { width: 8, height: 8, color_space: ColorSpace::REC601 }
    }
}

} // verus!
