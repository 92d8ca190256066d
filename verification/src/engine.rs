use vstd::prelude::*;
use image::GenericImageView;

use crate::fit::{fit_dimensions, spec_fit};
use crate::params::{valid_dims, ThumbnailParams};
use crate::tone::{apply_tone, spec_tone};

verus! {

#[verifier::external_type_specification]
#[verifier::external_body]
pub struct ExDynamicImage(image::DynamicImage);

#[verifier::external_type_specification]
#[verifier::external_body]
pub struct ExImageError(image::ImageError);

/// The failure modes of a render.
#[derive(Clone, Copy, Debug, PartialEq, Eq, Structural)]
pub enum EngineError {
    /// A caller error: a non-positive target dimension.
    InvalidParameters,
    /// The identifier did not resolve to a readable source.
    SourceNotFound,
    /// The source bytes are not a supported, valid image.
    DecodeFailure,
    /// The transformed raster could not be serialized.
    EncodeFailure,
    /// The background execution unit failed before returning a result.
    WorkContextFailure,
}

/// Whether image::load_from_memory parses these bytes into a raster: a
/// deterministic function of the bytes alone, named rather than stated.
pub uninterp spec fn decodable(bytes: Seq<u8>) -> bool;

/// The dimensions of the raster those bytes decode to, meaningful only when
/// `decodable` holds: likewise a function of the bytes alone.
pub uninterp spec fn decoded_dims(bytes: Seq<u8>) -> (u32, u32);

/// The PNG serialization of an RGB raster with the given dimensions and
/// sample buffer: a deterministic function of its arguments, named rather
/// than written out.
pub uninterp spec fn png_of(w: u32, h: u32, samples: Seq<u8>) -> Seq<u8>;

/// The dimensions a request's thumbnail receives for a source raster of the
/// given size: the aspect-preserving fit into the requested box.
pub open spec fn spec_target_dims(src: (u32, u32), p: ThumbnailParams) -> (int, int) {
    spec_fit(src.0 as int, src.1 as int, p.width as int, p.height as int)
}

/// Relies on image::load_from_memory and GenericImageView::dimensions:
/// parsing succeeds or fails on the bytes alone, on unsupported or corrupt
/// encodings with an error, and the decoded raster's dimensions are a
/// function of the bytes too.
#[verifier::external_body]
fn decode_image(bytes: &[u8]) -> (r: Result<(image::DynamicImage, u32, u32), image::ImageError>)
    ensures
        r is Ok <==> decodable(bytes@),
        r matches Ok(t) ==> (t.1, t.2) == decoded_dims(bytes@),
{
    match image::load_from_memory(bytes) {
        Ok(img) => {
            let (w, h) = img.dimensions();
            Ok((img, w, h))
        },
        Err(e) => Err(e),
    }
}

/// Relies on image::DynamicImage::thumbnail_exact, to_rgb8 and
/// image::ImageBuffer::into_raw: the raster scaled to exactly `w` × `h`
/// with a fast integer filter, flattened to RGB samples — three bytes per
/// pixel, row-major, in a buffer of exactly that size.
#[verifier::external_body]
fn resize_to_rgb(img: &image::DynamicImage, w: u32, h: u32) -> (r: Vec<u8>)
    requires
        1 <= w,
        1 <= h,
    ensures
        r@.len() == 3 * (w as nat) * (h as nat),
{
    img.thumbnail_exact(w, h).to_rgb8().into_raw()
}

/// Relies on image::codecs::png::PngEncoder through DynamicImage::write_to:
/// RGB8 is a supported PNG layout, the buffer-length check is met by the
/// precondition, and an in-memory cursor has no failing write, so encoding
/// cannot fail here; the produced bytes are a function of the dimensions
/// and samples alone. RgbImage::from_raw succeeds since the buffer holds
/// exactly the samples the dimensions require.
#[verifier::external_body]
fn encode_rgb8_png(w: u32, h: u32, samples: Vec<u8>) -> (r: Vec<u8>)
    requires
        1 <= w,
        1 <= h,
        samples@.len() == 3 * (w as nat) * (h as nat),
    ensures
        r@ == png_of(w, h, samples@),
{
    let img = image::RgbImage::from_raw(w, h, samples).unwrap();
    let mut cursor = std::io::Cursor::new(Vec::new());
    image::DynamicImage::ImageRgb8(img).write_to(&mut cursor, image::ImageOutputFormat::Png).unwrap();
    cursor.into_inner()
}

/// The thumbnail engine: decodes the source bytes, scales the raster to fit
/// the requested box while preserving its aspect ratio, applies the
/// request's tonal pass to the RGB samples, and encodes the result as PNG.
/// The caller resolves the identifier and hands the source in as plain
/// bytes, `None` when it did not resolve to a readable file.
///
/// Non-positive dimensions are rejected before anything else is attempted;
/// an unresolved source is reported before any decode. The render succeeds
/// exactly when the source decodes to a raster with positive dimensions,
/// and then returns the complete PNG encoding of the fitted, tone-processed
/// samples — never partial output.
pub fn create_thumbnail(source: Option<&Vec<u8>>, params: &ThumbnailParams) -> (r: Result<
    Vec<u8>,
    EngineError,
>)
    ensures
        (r == Err::<Vec<u8>, EngineError>(EngineError::InvalidParameters)) <==> !valid_dims(
            *params,
        ),
        valid_dims(*params) ==> ((r == Err::<Vec<u8>, EngineError>(EngineError::SourceNotFound))
            <==> source is None),
        valid_dims(*params) ==> (source matches Some(b) ==> ((r is Ok) <==> (decodable(b@)
            && decoded_dims(b@).0 > 0 && decoded_dims(b@).1 > 0))),
        valid_dims(*params) ==> (source matches Some(b) ==> ((r == Err::<Vec<u8>, EngineError>(
            EngineError::DecodeFailure,
        )) <==> !(decodable(b@) && decoded_dims(b@).0 > 0 && decoded_dims(b@).1 > 0))),
        valid_dims(*params) ==> (source matches Some(b) ==> (r matches Ok(v) ==> exists|raw: Seq<u8>|
            raw.len() == 3 * spec_target_dims(decoded_dims(b@), *params).0 * spec_target_dims(
                decoded_dims(b@),
                *params,
            ).1 && v@ == png_of(
                spec_target_dims(decoded_dims(b@), *params).0 as u32,
                spec_target_dims(decoded_dims(b@), *params).1 as u32,
                spec_tone(raw, *params),
            ))),
        r != Err::<Vec<u8>, EngineError>(EngineError::EncodeFailure),
        r != Err::<Vec<u8>, EngineError>(EngineError::WorkContextFailure),
{
    if params.width == 0 || params.height == 0 {
        return Err(EngineError::InvalidParameters);
    }
    let bytes = match source {
        Some(b) => b,
        None => {
            return Err(EngineError::SourceNotFound);
        },
    };
    let (img, sw, sh) = match decode_image(bytes.as_slice()) {
        Ok(t) => t,
        Err(_) => {
            return Err(EngineError::DecodeFailure);
        },
    };
    if sw == 0 || sh == 0 {
        return Err(EngineError::DecodeFailure);
    }
    let dims = fit_dimensions(sw, sh, params.width, params.height);
    let raw = resize_to_rgb(&img, dims.0, dims.1);
    let toned = apply_tone(&raw, params);
    let out = encode_rgb8_png(dims.0, dims.1, toned);
    proof {
        let td = spec_target_dims(decoded_dims(bytes@), *params);
        assert(td == ((dims.0 as int), (dims.1 as int)));
        assert(raw@.len() == 3 * td.0 * td.1);
        assert(out@ == png_of(td.0 as u32, td.1 as u32, spec_tone(raw@, *params)));
    }
    Ok(out)
}

} // verus!
