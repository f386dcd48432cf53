//! Loading a framebuffer from an encoded PNG: the decoder is an outside
//! call whose result is named, and the constructors around it are verified.

use vstd::prelude::*;

use crate::partitioned_rasterizer::fresh_canvas;
use crate::rasterizer::{Canvas, Rasterizer};

verus! {

/// What PNG decoding yields for a byte string: the image's width, height and
/// row-major RGBA bytes, or nothing when the bytes are not a decodable PNG.
/// The result depends on the bytes alone.
pub uninterp spec fn png_decode(bytes: Seq<u8>) -> Option<(nat, nat, Seq<u8>)>;

/// Relies on lodepng::decode32: decodes a PNG byte string to a 32-bit RGBA
/// bitmap whose buffer holds exactly width x height pixels (four bytes each).
#[verifier::external_body]
fn decode32_bytes(bytes: &[u8]) -> (r: Option<(usize, usize, Vec<u8>)>)
    ensures
        r is Some <==> png_decode(bytes@) is Some,
        r matches Some(t) ==> png_decode(bytes@) == Some((t.0 as nat, t.1 as nat, t.2@))
            && t.2@.len() == t.0 * t.1 * 4,
{
    match lodepng::decode32(bytes) {
        Ok(img) => {
            let raw: Vec<u8> = rgb::ComponentBytes::as_bytes(img.buffer.as_slice()).to_vec();
            Some((img.width, img.height, raw))
        },
        Err(_) => None,
    }
}

impl Rasterizer {
    /// A rasterizer over a caller-supplied RGBA buffer, with the default
    /// drawing state; rejected when the buffer does not hold exactly
    /// width x height pixels.
    pub fn from_buffer(width: usize, height: usize, buffer: Vec<u8>) -> (r: Result<
        Rasterizer,
        String,
    >)
        ensures
            r is Ok <==> buffer@.len() == width * height * 4,
            r matches Ok(rr) ==> rr.wf() && rr@ == (Canvas {
                buf: buffer@,
                ..fresh_canvas(width as nat, height as nat, 0, 0)
            }),
    {
        proof {
            assert((width * height) * 4 == width * height * 4) by (nonlinear_arith);
        }
        let blen = buffer.len();
        let pixels = width.checked_mul(height);
        let wanted = match pixels {
            Some(p) => p.checked_mul(4),
            None => None,
        };
        match wanted {
            Some(len) if buffer.len() == len => {
                let mut r = Rasterizer::new(width, height);
                proof {
                    assert(r@ =~= fresh_canvas(width as nat, height as nat, 0, 0));
                }
                r.color = buffer;
                Ok(r)
            },
            _ => Err("image buffer does not hold width x height RGBA pixels".to_owned()),
        }
    }

    /// Decode an encoded PNG into a fresh rasterizer with the default
    /// drawing state; fails exactly when the bytes are not a decodable PNG.
    pub fn new_from_image_bytes(bytes: &[u8]) -> (r: Result<Rasterizer, String>)
        ensures
            r is Ok <==> png_decode(bytes@) is Some,
            r matches Ok(rr) ==> rr.wf() && png_decode(bytes@) == Some(
                (rr@.width, rr@.height, rr@.buf),
            ) && rr@ == (Canvas { buf: rr@.buf, ..fresh_canvas(rr@.width, rr@.height, 0, 0) }),
    {
        match decode32_bytes(bytes) {
            Some((width, height, buffer)) => {
                let r = Rasterizer::from_buffer(width, height, buffer);
                match r {
                    Ok(rr) => Ok(rr),
                    Err(e) => Err(e),
                }
            },
            None => Err("the bytes are not a decodable PNG image".to_owned()),
        }
    }
}

} // verus!
