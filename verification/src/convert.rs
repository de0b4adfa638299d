//! Pictures as plain pixel values, their grayscale and their resampling.

use vstd::prelude::*;

verus! {

/// The set of luma weights with which a colour becomes a gray value.
#[derive(Debug, Clone, Copy, PartialEq, Eq, Structural)]
pub enum ColorSpace {
    /// Rec. 709: 0.2126, 0.7152 and 0.0722.
    REC709,
    /// Rec. 601: 0.299, 0.587 and 0.114.
    REC601,
}

/// The number that the weights of a colour space are parts of.
pub open spec fn weight_scale() -> int {
    10_000
}

impl ColorSpace {
    /// The weights of red, green and blue, in parts of `weight_scale()`.
    pub open spec fn weights(self) -> (int, int, int) {
        match self {
            ColorSpace::REC709 => (2126, 7152, 722),
            ColorSpace::REC601 => (2990, 5870, 1140),
        }
    }

    /// The weights of red, green and blue, in parts of ten thousand. They
    /// sum to the whole.
    pub fn coefficients(&self) -> (w: (u32, u32, u32))
        ensures
            (w.0 as int, w.1 as int, w.2 as int) == self.weights(),
            w.0 + w.1 + w.2 == weight_scale(),
    {
        match self {
            ColorSpace::REC709 => (2126, 7152, 722),
            ColorSpace::REC601 => (2990, 5870, 1140),
        }
    }
}

/// The gray value of a colour: the weighted sum of its channels, rounded to
/// the nearest whole number, a half going up.
pub open spec fn luma_of(space: ColorSpace, pixel: (u8, u8, u8)) -> u8 {
    let w = space.weights();
    ((w.0 * pixel.0 + w.1 * pixel.1 + w.2 * pixel.2 + weight_scale() / 2) / weight_scale()) as u8
}

/// The gray value of the colour with channels `r`, `g` and `b`.
pub fn luma(space: ColorSpace, r: u8, g: u8, b: u8) -> (y: u8)
    ensures
        y == luma_of(space, (r, g, b)),
{
    let w = space.coefficients();
    let sum: u32 = w.0 * (r as u32) + w.1 * (g as u32) + w.2 * (b as u32);
    assert(sum <= 255 * 10_000) by (nonlinear_arith)
        requires
            sum == w.0 * r + w.1 * g + w.2 * b,
            w.0 + w.1 + w.2 == 10_000,
            r <= 255,
            g <= 255,
            b <= 255,
    ;
    let rounded: u32 = (sum + 5_000) / 10_000;
    rounded as u8
}

/// What a picture stands for: a shape and its pixels, row after row.
pub struct Raster<P> {
    /// Number of columns.
    pub width: nat,
    /// Number of rows.
    pub height: nat,
    /// The pixels in row-major order.
    pub pixels: Seq<P>,
}

impl<P> Raster<P> {
    /// There is one pixel for every cell.
    pub open spec fn well_formed(self) -> bool {
        self.pixels.len() == self.width * self.height
    }
}

/// A picture with a red, a green and a blue channel of eight bits each.
#[derive(Debug)]
pub struct RgbImage {
    width: u32,
    height: u32,
    pixels: Vec<(u8, u8, u8)>,
}

impl View for RgbImage {
    type V = Raster<(u8, u8, u8)>;

    closed spec fn view(&self) -> Raster<(u8, u8, u8)> {
        Raster { width: self.width as nat, height: self.height as nat, pixels: self.pixels@ }
    }
}

impl RgbImage {
    #[verifier::type_invariant]
    spec fn shaped(self) -> bool {
        self@.well_formed()
    }

    /// Makes a picture of `width` columns and `height` rows from its pixels
    /// in row-major order, if there is one pixel for every cell.
    pub fn new(width: u32, height: u32, pixels: Vec<(u8, u8, u8)>) -> (img: Option<RgbImage>)
        ensures
            match img {
                Some(img) => {
                    &&& pixels@.len() == width * height
                    &&& img@ == (Raster {
                        width: width as nat,
                        height: height as nat,
                        pixels: pixels@,
                    })
                },
                None => pixels@.len() != width * height,
            },
    {
        assert(width * height <= u32::MAX * u32::MAX) by (nonlinear_arith);
        if pixels.len() as u64 == (width as u64) * (height as u64) {
            Some(RgbImage { width, height, pixels })
        } else {
            None
        }
    }

    /// Number of columns.
    pub fn width(&self) -> (w: u32)
        ensures
            w == self@.width,
            self@.well_formed(),
    {
        proof {
            use_type_invariant(self);
        }
        self.width
    }

    /// Number of rows.
    pub fn height(&self) -> (h: u32)
        ensures
            h == self@.height,
            self@.well_formed(),
    {
        proof {
            use_type_invariant(self);
        }
        self.height
    }
}

/// A picture with one gray channel of eight bits.
#[derive(Debug)]
pub struct GrayImage {
    width: u32,
    height: u32,
    pixels: Vec<u8>,
}

impl View for GrayImage {
    type V = Raster<u8>;

    closed spec fn view(&self) -> Raster<u8> {
        Raster { width: self.width as nat, height: self.height as nat, pixels: self.pixels@ }
    }
}

impl GrayImage {
    #[verifier::type_invariant]
    spec fn shaped(self) -> bool {
        self@.well_formed()
    }

    /// Makes a picture of `width` columns and `height` rows from its gray
    /// values in row-major order, if there is one value for every cell.
    pub fn new(width: u32, height: u32, pixels: Vec<u8>) -> (img: Option<GrayImage>)
        ensures
            match img {
                Some(img) => {
                    &&& pixels@.len() == width * height
                    &&& img@ == (Raster {
                        width: width as nat,
                        height: height as nat,
                        pixels: pixels@,
                    })
                },
                None => pixels@.len() != width * height,
            },
    {
        assert(width * height <= u32::MAX * u32::MAX) by (nonlinear_arith);
        if pixels.len() as u64 == (width as u64) * (height as u64) {
            Some(GrayImage { width, height, pixels })
        } else {
            None
        }
    }

    /// Number of columns.
    pub fn width(&self) -> (w: u32)
        ensures
            w == self@.width,
            self@.well_formed(),
    {
        proof {
            use_type_invariant(self);
        }
        self.width
    }

    /// Number of rows.
    pub fn height(&self) -> (h: u32)
        ensures
            h == self@.height,
            self@.well_formed(),
    {
        proof {
            use_type_invariant(self);
        }
        self.height
    }

    /// The gray values in row-major order.
    pub fn as_bytes(&self) -> (bytes: &Vec<u8>)
        ensures
            bytes@ == self@.pixels,
            self@.well_formed(),
    {
        proof {
            use_type_invariant(self);
        }
        &self.pixels
    }
}

/// The grayscale of a picture: the same shape, each pixel by its gray value.
pub open spec fn grayscale_of(img: Raster<(u8, u8, u8)>, space: ColorSpace) -> Raster<u8> {
    Raster {
        width: img.width,
        height: img.height,
        pixels: Seq::new(img.pixels.len(), |i: int| luma_of(space, img.pixels[i])),
    }
}

/// Whether `out` may be what `img` becomes when its grayscale under `space` is
/// stretched to `width` columns and `height` rows: it has that shape, and
/// where `img` has it too, it is the grayscale itself.
pub open spec fn converts_to(
    img: Raster<(u8, u8, u8)>,
    width: nat,
    height: nat,
    space: ColorSpace,
    out: Raster<u8>,
) -> bool {
    &&& out.well_formed()
    &&& out.width == width
    &&& out.height == height
    &&& img.width == width && img.height == height ==> out == grayscale_of(img, space)
}

/// Whether a picture `source_width` wide can be resampled to `width` columns
/// and `height` rows: neither side is zero, and the buffers of the filter
/// can be allocated.
pub open spec fn sample_fits(source_width: nat, width: nat, height: nat) -> bool {
    &&& width > 0
    &&& height > 0
    &&& 16 * source_width * height <= isize::MAX
    &&& width * height <= isize::MAX
}

/// Whether a picture `source_width` wide can be resampled to `width` columns
/// and `height` rows.
pub fn can_sample(source_width: u32, width: u32, height: u32) -> (fits: bool)
    ensures
        fits == sample_fits(source_width as nat, width as nat, height as nat),
{
    if width == 0 || height == 0 {
        return false;
    }
    assert(source_width * height <= u32::MAX * u32::MAX) by (nonlinear_arith);
    assert(width * height <= u32::MAX * u32::MAX) by (nonlinear_arith);
    let lanes: u64 = (source_width as u64) * (height as u64);
    let cells: u64 = (width as u64) * (height as u64);
    let limit: u64 = (isize::MAX as u64);
    assert(16 * source_width * height == 16 * (source_width * height)) by (nonlinear_arith);
    lanes <= limit / 16 && cells <= limit
}

/// `image::DynamicImage::resize_exact` on an 8-bit gray picture, with the
/// Lanczos filter of window three. The result has the shape asked for; what
/// its values are is the filter's business, but for a picture that has that
/// shape already, which comes back as it is.
#[verifier::external_body]
fn resample(pixels: &Vec<u8>, width: u32, height: u32, new_width: u32, new_height: u32) -> (out:
    Vec<u8>)
    requires
        pixels@.len() == width * height,
        sample_fits(width as nat, new_width as nat, new_height as nat),
    ensures
        out@.len() == new_width * new_height,
        new_width == width && new_height == height ==> out@ == pixels@,
{
    let gray = image::GrayImage::from_raw(width, height, pixels.clone()).unwrap();
    image::DynamicImage::ImageLuma8(gray)
        .resize_exact(new_width, new_height, image::imageops::FilterType::Lanczos3)
        .as_bytes()
        .to_vec()
}

/// The preparation that every hasher starts with.
pub trait Convert {
    /// The grayscale of `img` under the weights of `space`.
    fn grayscale(&self, img: &RgbImage, space: ColorSpace) -> (gray: GrayImage)
        ensures
            gray@ == grayscale_of(img@, space),
    {
        let width = img.width();
        let height = img.height();
        let mut pixels: Vec<u8> = Vec::new();
        let mut i: usize = 0;
        while i < img.pixels.len()
            invariant
                i <= img.pixels@.len(),
                pixels@.len() == i,
                forall|j: int| 0 <= j < i ==> pixels@[j] == luma_of(space, img.pixels@[j]),
            decreases img.pixels@.len() - i,
        {
            let p = img.pixels[i];
            pixels.push(luma(space, p.0, p.1, p.2));
            i += 1;
        }
        assert(pixels@ =~= grayscale_of(img@, space).pixels);
        GrayImage { width, height, pixels }
    }

    /// The grayscale of `img` under the weights of `color_space`, stretched
    /// to `width` columns and `height` rows.
    fn convert(&self, img: &RgbImage, width: u32, height: u32, color_space: ColorSpace) -> (out:
        GrayImage)
        requires
            sample_fits(img@.width, width as nat, height as nat),
        ensures
            converts_to(img@, width as nat, height as nat, color_space, out@),
    {
        let gray = self.grayscale(img, color_space);
        let pixels = resample(gray.as_bytes(), gray.width(), gray.height(), width, height);
        GrayImage { width, height, pixels }
    }
}

} // verus!
