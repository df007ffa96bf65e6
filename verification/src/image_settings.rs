//! Settings and byte-plane helpers for deriving density data from images.
//!
//! Image decoding itself stays outside the library: callers hand in the raw
//! interleaved bytes of a decoded image, and the helpers here select or
//! combine the channel that serves as the density source.

use vstd::prelude::*;

verus! {

/// Source image preprocessing mode: which channel of the image becomes the
/// density map.
#[derive(Clone, Copy, Debug, PartialEq, Eq, Structural)]
pub enum ImageDensitySource {
    /// Luminosity.
    Luma,
    /// Luminosity times alpha.
    LumaAlpha,
    /// Red channel.
    Red,
    /// Green channel.
    Green,
    /// Blue channel.
    Blue,
    /// Alpha channel.
    Alpha,
}

impl Default for ImageDensitySource {
    /// Luminosity scaled by alpha.
    fn default() -> (r: ImageDensitySource)
        ensures
            r is LumaAlpha,
    {
        ImageDensitySource::LumaAlpha
    }
}

impl ImageDensitySource {
    /// The channel offset within interleaved four-byte pixels, for the plain
    /// channel sources.
    pub fn rgba_offset(&self) -> (r: Option<usize>)
        ensures
            self is Red ==> r == Some(0usize),
            self is Green ==> r == Some(1usize),
            self is Blue ==> r == Some(2usize),
            self is Alpha ==> r == Some(3usize),
            self is Luma || self is LumaAlpha ==> r is None,
    {
        match self {
            ImageDensitySource::Red => Some(0),
            ImageDensitySource::Green => Some(1),
            ImageDensitySource::Blue => Some(2),
            ImageDensitySource::Alpha => Some(3),
            _ => None,
        }
    }
}

/// Settings of density image generation.
#[derive(Clone, Copy, Debug, PartialEq, Eq, Structural)]
pub struct GenerateDensityImageSettings {
    /// Image density source.
    pub density_source: ImageDensitySource,
    /// Scale of the image: the image is downsampled to its size divided by
    /// the scale, and the density map upscales coordinates by it again.
    pub scale: usize,
}

impl GenerateDensityImageSettings {
    /// The default scale: no downsampling.
    pub fn default_scale() -> (r: usize)
        ensures
            r == 1,
    {
        1
    }
}

impl Default for GenerateDensityImageSettings {
    /// Luminosity times alpha, unscaled.
    fn default() -> (r: GenerateDensityImageSettings)
        ensures
            r.density_source is LumaAlpha,
            r.scale == 1,
    {
        GenerateDensityImageSettings {
            density_source: ImageDensitySource::LumaAlpha,
            scale: GenerateDensityImageSettings::default_scale(),
        }
    }
}

/// One byte plane of interleaved four-byte pixels.
pub fn extract_rgba_channel(data: &Vec<u8>, offset: usize) -> (r: Vec<u8>)
    requires
        offset < 4,
        data@.len() % 4 == 0,
    ensures
        r@.len() == data@.len() / 4,
        forall|i: int| 0 <= i < r@.len() ==> #[trigger] r@[i] == data@[4 * i + offset],
{
    let total = data.len();
    let n = total / 4;
    let mut r: Vec<u8> = Vec::new();
    let mut i: usize = 0;
    while i < n
        invariant
            total == data@.len(),
            n == data@.len() / 4,
            data@.len() % 4 == 0,
            offset < 4,
            i <= n,
            r@.len() == i,
            forall|l: int| 0 <= l < i ==> #[trigger] r@[l] == data@[4 * l + offset],
        decreases n - i,
    {
        proof {
            assert(4 * i + offset < data@.len()) by (nonlinear_arith)
                requires
                    i < n,
                    n == data@.len() / 4,
                    data@.len() % 4 == 0,
                    offset < 4,
                    data@.len() >= 0;
            assert(4 * i + offset <= total);
        }
        r.push(data[4 * i + offset]);
        i = i + 1;
    }
    r
}

/// Combine interleaved luminosity and alpha pairs into one density byte per
/// pixel: the product of the two normalized channels, as a byte, rounded
/// down.
pub fn combine_luma_alpha(data: &Vec<u8>) -> (r: Vec<u8>)
    requires
        data@.len() % 2 == 0,
    ensures
        r@.len() == data@.len() / 2,
        forall|i: int|
            0 <= i < r@.len() ==> #[trigger] r@[i] as int == (data@[2 * i] * data@[2 * i + 1])
                / 255,
{
    let total = data.len();
    let n = total / 2;
    let mut r: Vec<u8> = Vec::new();
    let mut i: usize = 0;
    while i < n
        invariant
            total == data@.len(),
            n == data@.len() / 2,
            data@.len() % 2 == 0,
            i <= n,
            r@.len() == i,
            forall|l: int|
                0 <= l < i ==> #[trigger] r@[l] as int == (data@[2 * l] * data@[2 * l + 1]) / 255,
        decreases n - i,
    {
        proof {
            assert(2 * i + 1 < data@.len()) by (nonlinear_arith)
                requires
                    i < n,
                    n == data@.len() / 2,
                    data@.len() % 2 == 0,
                    data@.len() >= 0;
            assert(2 * i + 1 <= total);
        }
        let l = data[2 * i] as u16;
        let a = data[2 * i + 1] as u16;
        proof {
            assert(l * a <= 255 * 255) by (nonlinear_arith)
                requires l <= 255, a <= 255;
            assert((l * a) / 255 <= 255) by (nonlinear_arith)
                requires l * a <= 255 * 255;
        }
        let v = ((l * a) / 255) as u8;
        r.push(v);
        i = i + 1;
    }
    r
}

} // verus!
