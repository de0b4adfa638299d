//! The median hash: which pixels are brighter than the median.

use crate::convert::{
    can_sample, converts_to, sample_fits, ColorSpace, Convert, GrayImage, Raster, RgbImage,
};
use crate::imghash::{can_hold, max_bits, BitMatrix, ImageHash};
use crate::ImageHasher;
use vstd::prelude::*;
use vstd::relations::{sorted_by, total_ordering};
use vstd::seq_lib::{lemma_sorted_unique, to_multiset_len};

verus! {

/// The settings of the median hash.
pub struct MedianHasher {
    /// Number of columns of the hash.
    pub width: u32,
    /// Number of rows of the hash.
    pub height: u32,
    /// The weights with which the picture is made gray.
    pub color_space: ColorSpace,
}

/// The order of bytes by their size.
pub open spec fn at_most() -> spec_fn(u8, u8) -> bool {
    |a: u8, b: u8| a <= b
}

/// The values in ascending order.
pub open spec fn ascending(values: Seq<u8>) -> Seq<u8> {
    values.sort_by(at_most())
}

/// The ascending order of the values holds the same values, each as often,
/// and none before a smaller one; no other sequence does.
pub proof fn lemma_ascending(values: Seq<u8>)
    ensures
        ascending(values).len() == values.len(),
        ascending(values).to_multiset() == values.to_multiset(),
        sorted_by(ascending(values), at_most()),
        forall|other: Seq<u8>|
            other.to_multiset() == values.to_multiset() && sorted_by(other, at_most()) ==> other
                == ascending(values),
{
    assert(total_ordering(at_most()));
    values.lemma_sort_by_ensures(at_most());
    to_multiset_len(ascending(values));
    to_multiset_len(values);
    assert forall|other: Seq<u8>|
        other.to_multiset() == values.to_multiset() && sorted_by(other, at_most()) implies other
        == ascending(values) by {
        lemma_sorted_unique(other, ascending(values), at_most());
    }
}

/// Twice the median of the values: twice the middle one of their ascending
/// order, or, where their number is even, the sum of the two in the middle.
pub open spec fn twice_median(values: Seq<u8>) -> int {
    let sorted = ascending(values);
    let n = values.len() as int;
    if n % 2 == 1 {
        2 * sorted[n / 2]
    } else {
        sorted[n / 2 - 1] + sorted[n / 2]
    }
}

/// For each value, whether it is above the median of all.
pub open spec fn median_bits(values: Seq<u8>) -> Seq<bool> {
    Seq::new(values.len(), |i: int| 2 * values[i] > twice_median(values))
}

/// The median hash of a sampled picture: its shape, and for each pixel
/// whether it is above the median of all.
pub open spec fn median_matrix(sample: Raster<u8>) -> BitMatrix {
    BitMatrix { width: sample.width, height: sample.height, bits: median_bits(sample.pixels) }
}

/// `sort_unstable` of slices, on bytes: the values that were there, in
/// ascending order.
#[verifier::external_body]
fn sort_bytes(values: &mut Vec<u8>)
    ensures
        final(values)@.to_multiset() == old(values)@.to_multiset(),
        sorted_by(final(values)@, at_most()),
{
    values.sort_unstable();
}

/// Twice the median of the values, of which there is at least one.
pub fn doubled_median(values: &Vec<u8>) -> (twice: u16)
    requires
        values@.len() > 0,
    ensures
        twice == twice_median(values@),
{
    let n = values.len();
    let mut sorted: Vec<u8> = Vec::new();
    let mut i: usize = 0;
    while i < n
        invariant
            n == values@.len(),
            i <= n,
            sorted@ == values@.subrange(0, i as int),
        decreases n - i,
    {
        sorted.push(values[i]);
        i += 1;
    }
    assert(sorted@ =~= values@);
    sort_bytes(&mut sorted);
    proof {
        lemma_ascending(values@);
    }
    if n % 2 == 1 {
        2 * (sorted[n / 2] as u16)
    } else {
        sorted[n / 2 - 1] as u16 + sorted[n / 2] as u16
    }
}

impl MedianHasher {
    /// The median hash of a picture that is gray and sampled already.
    pub fn hash_from_sample(sample: &GrayImage) -> (hash: ImageHash)
        requires
            sample@.width > 0,
            sample@.height > 0,
            sample@.pixels.len() <= max_bits(),
        ensures
            hash@.well_formed(),
            hash@ == median_matrix(sample@),
    {
        let pixels = sample.as_bytes();
        let n = pixels.len();
        assert(n > 0) by (nonlinear_arith)
            requires
                n == sample@.width * sample@.height,
                sample@.width > 0,
                sample@.height > 0,
        ;
        let twice = doubled_median(pixels);
        let mut bits: Vec<bool> = Vec::new();
        let mut j: usize = 0;
        while j < n
            invariant
                n == pixels@.len(),
                j <= n,
                twice == twice_median(pixels@),
                bits@.len() == j,
                forall|k: int| 0 <= k < j ==> bits@[k] == (2 * pixels@[k] > twice_median(pixels@)),
            decreases n - j,
        {
            bits.push(2 * (pixels[j] as u16) > twice);
            j += 1;
        }
        assert(bits@ =~= median_bits(pixels@));
        ImageHash::from_bool_iter(bits, sample.width(), sample.height())
    }
}

impl Convert for MedianHasher {

}

impl ImageHasher for MedianHasher {
    open spec fn accepts(&self, img: Raster<(u8, u8, u8)>) -> bool {
        &&& sample_fits(img.width, self.width as nat, self.height as nat)
        &&& self.width * self.height <= max_bits()
    }

    open spec fn yields(&self, img: Raster<(u8, u8, u8)>, hash: BitMatrix) -> bool {
        exists|sample: Raster<u8>| #[trigger]
            converts_to(img, self.width as nat, self.height as nat, self.color_space, sample)
                && hash == median_matrix(sample)
    }

    fn can_hash(&self, img: &RgbImage) -> (ok: bool) {
        can_sample(img.width(), self.width, self.height) && can_hold(self.width, self.height)
    }

    /// The median hash of a picture: the picture is made gray and stretched
    /// to the shape of the hash; each bit then says whether its pixel is
    /// above the median of all.
    fn hash_from_img(&self, img: &RgbImage) -> (hash: ImageHash) {
        let sample = self.convert(img, self.width, self.height, self.color_space);
        let hash = MedianHasher::hash_from_sample(&sample);
        assert(converts_to(img@, self.width as nat, self.height as nat, self.color_space, sample@));
        hash
    }
}

impl Default for MedianHasher {
    /// A hash of eight by eight bits under the weights of Rec. 601.
    fn default() -> (hasher: MedianHasher)
        ensures
            hasher.width == 8,
            hasher.height == 8,
            hasher.color_space == ColorSpace::REC601,
    {
        MedianHasher { width: 8, height: 8, color_space: ColorSpace::REC601 }
    }
}

} // verus!
