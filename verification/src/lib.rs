//! Perceptual image hashing: bit-matrix fingerprints, their hexadecimal
//! codec and Hamming distance, and the hashers that derive them.

use crate::convert::{Raster, RgbImage};
use crate::imghash::BitMatrix;
use vstd::prelude::*;

pub mod average;
mod bits;
pub mod codec;
pub mod convert;
pub mod difference;
pub mod imghash;
pub mod math;
pub mod median;
pub mod perceptual;

pub use crate::convert::ColorSpace;
pub use crate::imghash::ImageHash;

verus! {

/// A way to make a hash from a picture.
pub trait ImageHasher {
    /// Whether the hasher, as it is set, takes the picture.
    spec fn accepts(&self, img: Raster<(u8, u8, u8)>) -> bool;

    /// Whether `hash` may be the hash that the hasher gives for the picture.
    spec fn yields(&self, img: Raster<(u8, u8, u8)>, hash: BitMatrix) -> bool;

    /// Whether the hasher, as it is set, takes the picture.
    fn can_hash(&self, img: &RgbImage) -> (ok: bool)
        ensures
            ok == self.accepts(img@),
    ;

    /// The hash of a picture.
    fn hash_from_img(&self, img: &RgbImage) -> (hash: ImageHash)
        requires
            self.accepts(img@),
        ensures
            hash@.well_formed(),
            self.yields(img@, hash@),
    ;
}

} // verus!
