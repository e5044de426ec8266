//! Bitmaps captured from windows, and their PNG serialisation.
//!
//! A bitmap stores one `0xAABBGGRR` word per pixel, row-major.  Capture
//! hands the library raw `0x00RRGGBB` words; the channel swizzle that turns
//! them into stored pixels is specified bit for bit.  Encoding flattens the
//! pixels to little-endian RGBA bytes in verified code; only the PNG
//! compression itself is delegated to the outside encoder.

use vstd::prelude::*;
use vstd::bytes::{spec_u32_to_le_bytes, u32_to_le_bytes};
use crate::error::Error;

verus! {

/// A captured image: `0xAABBGGRR` pixels, row-major, `width * height` of
/// them.
#[derive(Clone, Debug)]
pub struct Bitmap {
    pub width: u32,
    pub height: u32,
    /// 0xAABBGGRR, length = width * height
    pub data: Vec<u32>,
}

/// The stored pixel for a raw `0x00RRGGBB` capture word: alpha forced
/// opaque, red and blue channels exchanged.
pub open spec fn spec_swizzle(p: u32) -> u32 {
    0xff000000u32 | ((p & 0xff) << 16) | (p & 0xff00) | ((p & 0xff0000) >> 16)
}

/// Exchange red and blue and force the alpha channel opaque, turning one
/// raw capture word into one stored pixel.
pub fn swizzle_pixel(p: u32) -> (r: u32)
    ensures
        r == spec_swizzle(p),
{
    0xff000000u32 | ((p & 0xff) << 16) | (p & 0xff00) | ((p & 0xff0000) >> 16)
}

/// The little-endian RGBA byte flattening of a pixel sequence.
pub open spec fn spec_rgba_bytes(s: Seq<u32>) -> Seq<u8>
    decreases s.len(),
{
    if s.len() == 0 {
        Seq::empty()
    } else {
        spec_rgba_bytes(s.drop_last()) + spec_u32_to_le_bytes(s.last())
    }
}

/// Each pixel contributes exactly four bytes.
pub proof fn lemma_rgba_bytes_len(s: Seq<u32>)
    ensures
        spec_rgba_bytes(s).len() == 4 * s.len(),
    decreases s.len(),
{
    if s.len() > 0 {
        lemma_rgba_bytes_len(s.drop_last());
        vstd::bytes::lemma_auto_spec_u32_to_from_le_bytes();
    }
}

/// Flatten pixels to their little-endian RGBA bytes.
pub fn rgba_bytes(pixels: &Vec<u32>) -> (r: Vec<u8>)
    ensures
        r@ == spec_rgba_bytes(pixels@),
        r@.len() == 4 * pixels@.len(),
{
    let mut out: Vec<u8> = Vec::new();
    let mut i: usize = 0;
    proof {
        assert(pixels@.take(0int) =~= Seq::<u32>::empty());
    }
    while i < pixels.len()
        invariant
            i <= pixels.len(),
            out@ == spec_rgba_bytes(pixels@.take(i as int)),
        decreases pixels.len() - i,
    {
        let mut quad = u32_to_le_bytes(pixels[i]);
        out.append(&mut quad);
        proof {
            assert(pixels@.take(i + 1int).drop_last() =~= pixels@.take(i as int));
            assert(pixels@.take(i + 1int).last() == pixels@[i as int]);
        }
        i = i + 1;
    }
    proof {
        assert(pixels@.take(pixels@.len() as int) =~= pixels@);
        lemma_rgba_bytes_len(pixels@);
    }
    out
}

/// The PNG stream the outside encoder produces for the given dimensions
/// and RGBA bytes.  It depends on the arguments alone.
pub uninterp spec fn png_bytes_of(width: u32, height: u32, rgba: Seq<u8>) -> Seq<u8>;

/// Relies on png::Encoder, png::Writer::write_image_data and the implicit
/// end-of-stream written when the writer drops: an eight-bit RGBA image is
/// encoded from exactly `4 * width * height` bytes, deterministically in
/// the inputs, and the header is refused exactly when a dimension is zero.
#[verifier::external_body]
fn encode_rgba(width: u32, height: u32, rgba: &Vec<u8>) -> (r: Result<Vec<u8>, Error>)
    requires
        rgba@.len() == 4 * (width as int) * (height as int),
    ensures
        width > 0 && height > 0 ==> r is Ok && r->Ok_0@ == png_bytes_of(width, height, rgba@),
        width == 0 || height == 0 ==> r is Err,
{
    let mut out: Vec<u8> = Vec::new();
    let ok = {
        let mut enc = png::Encoder::new(&mut out, width, height);
        enc.set_color(png::ColorType::Rgba);
        enc.set_depth(png::BitDepth::Eight);
        match enc.write_header() {
            Ok(mut writer) => writer.write_image_data(rgba.as_slice()).is_ok(),
            Err(_) => false,
        }
    };
    if ok { Ok(out) } else { Err(Error::UnsupportedBitmapFormat) }
}

impl Bitmap {
    /// A well-shaped bitmap holds one pixel word per cell.
    pub open spec fn wf(self) -> bool {
        self.data@.len() == (self.width as int) * (self.height as int)
    }

    /// The PNG stream for this bitmap.  Succeeds exactly on well-shaped,
    /// non-empty bitmaps; an empty or mis-sized one is refused rather than
    /// handed to the encoder.
    pub fn png_data(&self) -> (r: Result<Vec<u8>, Error>)
        ensures
            self.wf() && self.width > 0 && self.height > 0 ==> r is Ok
                && r->Ok_0@ == png_bytes_of(self.width, self.height, spec_rgba_bytes(self.data@)),
            !(self.wf() && self.width > 0 && self.height > 0) ==> r
                == Err::<Vec<u8>, Error>(Error::UnsupportedBitmapFormat),
    {
        if self.width == 0 || self.height == 0 {
            return Err(Error::UnsupportedBitmapFormat);
        }
        let w = self.width as u64;
        let h = self.height as u64;
        proof {
            assert((w as int) * (h as int) < 0x10000000000000000int) by (nonlinear_arith)
                requires
                    w <= 0xffffffffu64,
                    h <= 0xffffffffu64,
            ;
        }
        if (self.data.len() as u64) != w * h {
            return Err(Error::UnsupportedBitmapFormat);
        }
        proof {
            assert(self.data@.len() == (self.width as int) * (self.height as int));
        }
        let bytes = rgba_bytes(&self.data);
        proof {
            assert(4 * ((self.width as int) * (self.height as int)) == 4 * (self.width as int)
                * (self.height as int)) by (nonlinear_arith);
        }
        encode_rgba(self.width, self.height, &bytes)
    }
}

} // verus!
