//! Cover pictures: PNG data is re-encoded as JPEG before it goes into a tag.
use vstd::prelude::*;
use image::{ImageError, ImageFormat};
use std::io::Cursor;

verus! {

#[verifier::external_type_specification]
#[verifier::external_body]
pub struct ExImageError(ImageError);

/// Whether `image::load_from_memory` decodes the bytes into an image. This
/// depends on the bytes alone: the format is guessed from them, and the
/// crate's process-wide decoding hooks, which could change the answer, are
/// never registered by this program.
pub uninterp spec fn image_decodes(data: Seq<u8>) -> bool;

/// The bytes that `DynamicImage::write_to` writes in the JPEG format for the
/// image that `image::load_from_memory` decodes from `data`; what it wrote
/// before a failure, when the encoding fails.
pub uninterp spec fn jpeg_reencoding(data: Seq<u8>) -> Seq<u8>;

/// Calls `image::load_from_memory` and, on the image it decodes,
/// `DynamicImage::write_to` with the JPEG format on an in-memory buffer.
/// It fails exactly when decoding fails; a failed encoding is ignored and
/// what was written so far is given back. Both steps depend on the bytes alone.
#[verifier::external_body]
fn reencode_jpeg(data: &[u8]) -> (r: Result<Vec<u8>, ImageError>)
    ensures
        r is Ok == image_decodes(data@),
        r matches Ok(v) ==> v@ == jpeg_reencoding(data@),
{
    match image::load_from_memory(data) {
        Ok(picture) => {
            let mut out: Vec<u8> = Vec::new();
            let _ = picture.write_to(&mut Cursor::new(&mut out), ImageFormat::Jpeg);
            Ok(out)
        },
        Err(e) => Err(e),
    }
}

/// Why a cover picture could not be used.
#[derive(Debug, PartialEq, Eq)]
pub enum CoverError {
    /// The bytes are not an image that can be decoded.
    NotAnImage,
}

/// The picture in `data` re-encoded as JPEG; an error when the bytes do not
/// decode as an image.
pub fn check_png(data: &Vec<u8>) -> (r: Result<Vec<u8>, CoverError>)
    ensures
        r is Ok == image_decodes(data@),
        r matches Ok(v) ==> v@ == jpeg_reencoding(data@),
        r matches Err(e) ==> e == CoverError::NotAnImage,
{
    match reencode_jpeg(data.as_slice()) {
        Ok(jpeg) => Ok(jpeg),
        Err(_) => Err(CoverError::NotAnImage),
    }
}

/// The first byte of PNG data.
pub open spec fn png_lead_byte() -> u8 {
    137
}

/// Whether picture data is PNG data, judged by its first byte.
pub fn is_png(data: &Vec<u8>) -> (b: bool)
    requires
        data.len() > 0,
    ensures
        b == (data@[0] == png_lead_byte()),
{
    data[0] == 137
}

/// The cover as it goes into a tag: PNG data re-encoded as JPEG, other data
/// unchanged; `None` when PNG data does not decode.
pub fn cover_picture(data: Vec<u8>) -> (r: Option<Vec<u8>>)
    requires
        data.len() > 0,
    ensures
        data@[0] != png_lead_byte() ==> r == Some(data),
        data@[0] == png_lead_byte() ==> (r is Some == image_decodes(data@)),
        data@[0] == png_lead_byte() && r is Some ==> r->0@ == jpeg_reencoding(data@),
{
    if is_png(&data) {
        match check_png(&data) {
            Ok(jpeg) => Some(jpeg),
            Err(_) => None,
        }
    } else {
        Some(data)
    }
}

} // verus!
