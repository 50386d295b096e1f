//! Image decoding: depth maps and grayscale color images.
//!
//! Depth images are decoded at their full declared bit depth (no silent
//! reduction to 8 bits) and the raw byte stream is then reinterpreted as
//! big-endian 16-bit samples in row-major order.  Color images are decoded
//! and converted to 8-bit grayscale.  Depth sensors store calibrated
//! distance as full-range unsigned 16-bit values, so the bit-depth
//! transformation is pinned explicitly.

use vstd::prelude::*;

use png::HasParameters;

use crate::errors::TrackError;

verus! {

/// A dense grid of 16-bit depth samples, row-major.
#[derive(Debug)]
pub struct DepthMatrix {
    pub width: usize,
    pub height: usize,
    pub data: Vec<u16>,
}

impl DepthMatrix {
    /// The sample grid holds exactly one value per pixel.
    pub open spec fn wf(&self) -> bool {
        self.data@.len() == self.width * self.height
    }
}

/// A dense grid of 8-bit grayscale samples, row-major.
#[derive(Debug)]
pub struct ColorMatrix {
    pub width: usize,
    pub height: usize,
    pub data: Vec<u8>,
}

impl ColorMatrix {
    /// The sample grid holds exactly one value per pixel.
    pub open spec fn wf(&self) -> bool {
        self.data@.len() == self.width * self.height
    }
}

/// What decoding a lossless bitmap at its full declared bit depth yields:
/// width, height and the raw decoded byte stream, or nothing when the bytes
/// cannot be decoded.  The result is a function of the input bytes alone.
pub uninterp spec fn png_identity_decode(b: Seq<u8>) -> Option<(nat, nat, Seq<u8>)>;

/// What decoding an image to 8-bit grayscale yields: width, height and one
/// byte per pixel, row-major, or nothing when the bytes cannot be decoded.
/// The result is a function of the input bytes alone.
pub uninterp spec fn png_gray8_decode(b: Seq<u8>) -> Option<(nat, nat, Seq<u8>)>;

/// Relies on png::Decoder, with png::Transformations::IDENTITY so that the
/// decoder keeps the full declared bit depth (its default strips 16-bit
/// samples down to 8).  The decoded frame depends on the input bytes alone.
#[verifier::external_body]
fn decode_png_identity(bytes: &Vec<u8>) -> (r: Option<(u32, u32, Vec<u8>)>)
    ensures
        r is Some <==> png_identity_decode(bytes@) is Some,
        r matches Some(t) ==> png_identity_decode(bytes@) == Some(
            (t.0 as nat, t.1 as nat, t.2@),
        ),
{
    let mut decoder = png::Decoder::new(bytes.as_slice());
    decoder.set(png::Transformations::IDENTITY);
    let (info, mut reader) = match decoder.read_info() {
        Ok(pair) => pair,
        Err(_) => return None,
    };
    let mut buf = vec![0u8; info.buffer_size()];
    match reader.next_frame(&mut buf) {
        Ok(()) => Some((info.width, info.height, buf)),
        Err(_) => None,
    }
}

/// Relies on image::load with the PNG format and DynamicImage::to_luma: the
/// image is decoded and converted to 8-bit grayscale, and the resulting
/// buffer holds exactly width * height samples, row-major.  The decoded
/// image depends on the input bytes alone.
#[verifier::external_body]
fn decode_png_gray8(bytes: &Vec<u8>) -> (r: Option<(u32, u32, Vec<u8>)>)
    ensures
        r is Some <==> png_gray8_decode(bytes@) is Some,
        r matches Some(t) ==> png_gray8_decode(bytes@) == Some(
            (t.0 as nat, t.1 as nat, t.2@),
        ),
        r matches Some(t) ==> t.2@.len() == t.0 * t.1,
{
    let img = match image::load(
        std::io::Cursor::new(bytes.as_slice()),
        image::ImageFormat::PNG,
    ) {
        Ok(decoded) => decoded,
        Err(_) => return None,
    };
    let gray = img.to_luma();
    let (w, h) = gray.dimensions();
    Some((w, h, gray.into_raw()))
}

/// The raw byte stream reinterpreted as big-endian 16-bit words.
pub open spec fn be_words(raw: Seq<u8>) -> Seq<u16> {
    Seq::new(
        (raw.len() / 2) as nat,
        |i: int| ((raw[2 * i] as int) * 256 + (raw[2 * i + 1] as int)) as u16,
    )
}

/// What depth decoding yields: the full-bit-depth decode must produce
/// exactly two bytes per pixel, which are then read as big-endian samples.
pub open spec fn spec_depth_decode(b: Seq<u8>) -> Result<(nat, nat, Seq<u16>), TrackError> {
    match png_identity_decode(b) {
        None => Err(TrackError::DepthDecodeError),
        Some(t) => if t.2.len() == 2 * t.0 * t.1 {
            Ok((t.0, t.1, be_words(t.2)))
        } else {
            Err(TrackError::DepthDecodeError)
        },
    }
}

/// What color decoding yields.
pub open spec fn spec_color_decode(b: Seq<u8>) -> Result<(nat, nat, Seq<u8>), TrackError> {
    match png_gray8_decode(b) {
        None => Err(TrackError::ColorDecodeError),
        Some(t) => Ok(t),
    }
}

/// Decodes compressed depth-image bytes into a 16-bit sample grid, keeping
/// every sample's full value.
pub fn decode_depth(bytes: &Vec<u8>) -> (r: Result<DepthMatrix, TrackError>)
    ensures
        r is Ok <==> spec_depth_decode(bytes@) is Ok,
        r matches Ok(m) ==> spec_depth_decode(bytes@) == Ok::<_, TrackError>(
            (m.width as nat, m.height as nat, m.data@),
        ) && m.wf(),
        r matches Err(e) ==> spec_depth_decode(bytes@) == Err::<
            (nat, nat, Seq<u16>),
            TrackError,
        >(e),
{
    let decoded = decode_png_identity(bytes);
    match decoded {
        None => Err(TrackError::DepthDecodeError),
        Some((w, h, raw)) => {
            let wi: u64 = w as u64;
            let hi64: u64 = h as u64;
            proof {
                assert((wi as int) * (hi64 as int) < 0x100000000 * 0x100000000)
                    by (nonlinear_arith)
                    requires
                        wi < 0x100000000,
                        hi64 < 0x100000000;
            }
            let wh: u128 = (wi as u128) * (hi64 as u128);
            proof {
                assert((2 * (wi as int)) * (hi64 as int) == 2 * ((wi as int) * (
                hi64 as int))) by (nonlinear_arith);
            }
            let rlen: usize = raw.len();
            let rl: u128 = rlen as u128;
            if rl % 2 == 0 && rl / 2 == wh {
                let cnt: usize = rlen / 2;
                let mut data: Vec<u16> = Vec::new();
                let mut i: usize = 0;
                while i < cnt
                    invariant
                        i <= cnt,
                        rlen == raw@.len(),
                        2 * cnt <= rlen <= 2 * cnt + 1,
                        data@.len() == i,
                        forall|k: int| 0 <= k < i ==> data@[k] == be_words(raw@)[k],
                    decreases cnt - i,
                {
                    let hi = raw[2 * i];
                    let lo = raw[2 * i + 1];
                    let sample: u16 = (hi as u16) * 256 + (lo as u16);
                    data.push(sample);
                    i += 1;
                }
                proof {
                    assert(data@ =~= be_words(raw@));
                }
                Ok(DepthMatrix { width: w as usize, height: h as usize, data })
            } else {
                Err(TrackError::DepthDecodeError)
            }
        },
    }
}

/// Decodes compressed color-image bytes into an 8-bit grayscale grid.
pub fn decode_color(bytes: &Vec<u8>) -> (r: Result<ColorMatrix, TrackError>)
    ensures
        r is Ok <==> spec_color_decode(bytes@) is Ok,
        r matches Ok(m) ==> spec_color_decode(bytes@) == Ok::<_, TrackError>(
            (m.width as nat, m.height as nat, m.data@),
        ) && m.wf(),
        r matches Err(e) ==> spec_color_decode(bytes@) == Err::<
            (nat, nat, Seq<u8>),
            TrackError,
        >(e),
{
    match decode_png_gray8(bytes) {
        None => Err(TrackError::ColorDecodeError),
        Some((w, h, data)) => Ok(ColorMatrix { width: w as usize, height: h as usize, data }),
    }
}

} // verus!
