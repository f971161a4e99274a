//! Raster image conversion through the image crate: the input is decoded in
//! the format its extension names and encoded in the target's.
use vstd::prelude::*;
use crate::text::{bytes_view, extend_chars, prefixed, push_str, str_chars, string_from_chars};

verus! {

/// The raster formats this converter reads and writes.
#[derive(Clone, Copy, PartialEq, Eq, Structural)]
pub enum ImageKind {
    Png,
    Jpeg,
    Gif,
    Bmp,
    WebP,
    Tiff,
    Avif,
    Ico,
    Qoi,
    Tga,
    Hdr,
    Dds,
    OpenExr,
}

/// The raster format an extension names.
pub open spec fn image_kind(f: Seq<char>) -> Option<ImageKind> {
    if f == "png"@ {
        Some(ImageKind::Png)
    } else if f == "jpg"@ || f == "jpeg"@ {
        Some(ImageKind::Jpeg)
    } else if f == "gif"@ {
        Some(ImageKind::Gif)
    } else if f == "bmp"@ {
        Some(ImageKind::Bmp)
    } else if f == "webp"@ {
        Some(ImageKind::WebP)
    } else if f == "tiff"@ || f == "tif"@ {
        Some(ImageKind::Tiff)
    } else if f == "avif"@ {
        Some(ImageKind::Avif)
    } else if f == "ico"@ {
        Some(ImageKind::Ico)
    } else if f == "qoi"@ {
        Some(ImageKind::Qoi)
    } else if f == "tga"@ {
        Some(ImageKind::Tga)
    } else if f == "hdr"@ {
        Some(ImageKind::Hdr)
    } else if f == "dds"@ {
        Some(ImageKind::Dds)
    } else if f == "exr"@ {
        Some(ImageKind::OpenExr)
    } else {
        None
    }
}

/// The raster format an extension names, or the message for one that names
/// none.
pub fn parse_format(fmt: &str) -> (r: Result<ImageKind, String>)
    ensures
        r matches Ok(k) ==> image_kind(fmt@) == Some(k),
        r matches Err(m) ==> image_kind(fmt@) is None && m@ == "Unsupported image format: "@ + fmt@,
{
    let f = str_chars(fmt);
    if crate::text::eq_str(&f, "png") {
        Ok(ImageKind::Png)
    } else if crate::text::eq_str(&f, "jpg") || crate::text::eq_str(&f, "jpeg") {
        Ok(ImageKind::Jpeg)
    } else if crate::text::eq_str(&f, "gif") {
        Ok(ImageKind::Gif)
    } else if crate::text::eq_str(&f, "bmp") {
        Ok(ImageKind::Bmp)
    } else if crate::text::eq_str(&f, "webp") {
        Ok(ImageKind::WebP)
    } else if crate::text::eq_str(&f, "tiff") || crate::text::eq_str(&f, "tif") {
        Ok(ImageKind::Tiff)
    } else if crate::text::eq_str(&f, "avif") {
        Ok(ImageKind::Avif)
    } else if crate::text::eq_str(&f, "ico") {
        Ok(ImageKind::Ico)
    } else if crate::text::eq_str(&f, "qoi") {
        Ok(ImageKind::Qoi)
    } else if crate::text::eq_str(&f, "tga") {
        Ok(ImageKind::Tga)
    } else if crate::text::eq_str(&f, "hdr") {
        Ok(ImageKind::Hdr)
    } else if crate::text::eq_str(&f, "dds") {
        Ok(ImageKind::Dds)
    } else if crate::text::eq_str(&f, "exr") {
        Ok(ImageKind::OpenExr)
    } else {
        let mut msg: Vec<char> = Vec::new();
        push_str(&mut msg, "Unsupported image format: ");
        extend_chars(&mut msg, &f);
        Err(string_from_chars(&msg))
    }
}

#[verifier::external_type_specification]
#[verifier::external_body]
pub struct ExDynamicImage(image::DynamicImage);

/// An image decoded by the image crate, with the bytes and the format it was
/// decoded from.
pub struct DecodedImage {
    img: image::DynamicImage,
    source: Ghost<(Seq<u8>, ImageKind)>,
}

impl DecodedImage {
    /// The bytes and the format the image was decoded from.
    pub closed spec fn source(&self) -> (Seq<u8>, ImageKind) {
        self.source@
    }
}

#[verifier::external_type_specification]
#[verifier::external_body]
pub struct ExImageFormat(image::ImageFormat);

/// The `image::ImageFormat` variant of each format, one for one.
#[verifier::external_body]
fn image_format(kind: ImageKind) -> image::ImageFormat {
    match kind {
        ImageKind::Png => image::ImageFormat::Png, ImageKind::Jpeg => image::ImageFormat::Jpeg,
        ImageKind::Gif => image::ImageFormat::Gif, ImageKind::Bmp => image::ImageFormat::Bmp,
        ImageKind::WebP => image::ImageFormat::WebP, ImageKind::Tiff => image::ImageFormat::Tiff,
        ImageKind::Avif => image::ImageFormat::Avif, ImageKind::Ico => image::ImageFormat::Ico,
        ImageKind::Qoi => image::ImageFormat::Qoi, ImageKind::Tga => image::ImageFormat::Tga,
        ImageKind::Hdr => image::ImageFormat::Hdr, ImageKind::Dds => image::ImageFormat::Dds,
        ImageKind::OpenExr => image::ImageFormat::OpenExr,
    }
}

/// The display text of the error with which `ImageReader::decode` refuses
/// `bytes` read as `format`, or `None` where it decodes them.
pub uninterp spec fn image_decode_error(bytes: Seq<u8>, format: ImageKind) -> Option<Seq<char>>;

/// What `DynamicImage::write_to` writes for the image decoded from `bytes`
/// read as `from`, encoded as `to`: the bytes, or the display text of the
/// error.
pub uninterp spec fn image_encoded(bytes: Seq<u8>, from: ImageKind, to: ImageKind) -> Result<Seq<u8>, Seq<char>>;

/// What `DynamicImage::write_with_encoder` with a `JpegEncoder` of the given
/// quality writes for the image decoded from `bytes` read as `from`.
pub uninterp spec fn jpeg_encoded(bytes: Seq<u8>, from: ImageKind, quality: u8) -> Result<Seq<u8>, Seq<char>>;

/// Calls `image::ImageReader::with_format` on a cursor over the bytes with
/// the matching `image::ImageFormat`, then `ImageReader::decode`.
#[verifier::external_body]
fn decode_with_format(input: &[u8], kind: ImageKind) -> (r: Result<image::DynamicImage, String>)
    ensures
        r is Ok <==> image_decode_error(input@, kind) is None,
        r matches Err(m) ==> image_decode_error(input@, kind) == Some(m@),
{
    let format = image_format(kind);
    image::ImageReader::with_format(std::io::Cursor::new(input), format).decode().map_err(|e| e.to_string())
}

/// Calls `DynamicImage::write_to` into an in-memory cursor with the matching
/// `image::ImageFormat`.
#[verifier::external_body]
fn encode_as(img: &DecodedImage, kind: ImageKind) -> (r: Result<Vec<u8>, String>)
    ensures
        bytes_view(r) == image_encoded(img.source().0, img.source().1, kind),
{
    let format = image_format(kind);
    let mut output = Vec::new();
    match img.img.write_to(&mut std::io::Cursor::new(&mut output), format) {
        Ok(()) => Ok(output),
        Err(e) => Err(e.to_string()),
    }
}

/// Calls `DynamicImage::write_with_encoder` with
/// `image::codecs::jpeg::JpegEncoder::new_with_quality` over an in-memory
/// cursor.
#[verifier::external_body]
fn encode_jpeg(img: &DecodedImage, quality: u8) -> (r: Result<Vec<u8>, String>)
    ensures
        bytes_view(r) == jpeg_encoded(img.source().0, img.source().1, quality),
{
    let mut output = Vec::new();
    let encoder = image::codecs::jpeg::JpegEncoder::new_with_quality(std::io::Cursor::new(&mut output), quality);
    match img.img.write_with_encoder(encoder) {
        Ok(()) => Ok(output),
        Err(e) => Err(e.to_string()),
    }
}

/// The JPEG quality used where none is asked for.
pub open spec fn default_jpeg_quality() -> u8 {
    85
}

/// The result of converting an image from the format `from` names to the
/// format `to` names.
pub open spec fn image_result(input: Seq<u8>, from: Seq<char>, to: Seq<char>, quality: Option<u8>) -> Result<Seq<u8>, Seq<char>> {
    match image_kind(from) {
        None => Err("Unsupported image format: "@ + from),
        Some(fk) => match image_kind(to) {
            None => Err("Unsupported image format: "@ + to),
            Some(tk) => match image_decode_error(input, fk) {
                Some(m) => Err("Failed to decode "@ + from + " image: "@ + m),
                None => if tk == ImageKind::Jpeg {
                    let q = match quality {
                        Some(q) => q,
                        None => default_jpeg_quality(),
                    };
                    match jpeg_encoded(input, fk, q) {
                        Ok(b) => Ok(b),
                        Err(m) => Err("Failed to encode JPEG: "@ + m),
                    }
                } else {
                    match image_encoded(input, fk, tk) {
                        Ok(b) => Ok(b),
                        Err(m) => Err("Failed to encode "@ + to + ": "@ + m),
                    }
                },
            },
        },
    }
}

/// Converts an image between raster formats; JPEG output uses the given
/// quality, 85 where none is given.
pub fn convert_image(input: &[u8], from: &str, to: &str, quality: Option<u8>) -> (r: Result<Vec<u8>, String>)
    ensures
        bytes_view(r) == image_result(input@, from@, to@, quality),
{
    let in_format = parse_format(from)?;
    let out_format = parse_format(to)?;
    let decoded = match decode_with_format(input, in_format) {
        Ok(img) => img,
        Err(m) => {
            let mut msg: Vec<char> = Vec::new();
            push_str(&mut msg, "Failed to decode ");
            push_str(&mut msg, from);
            push_str(&mut msg, " image: ");
            push_str(&mut msg, m.as_str());
            proof {
                assert(msg@ =~= "Failed to decode "@ + from@ + " image: "@ + m@);
            }
            return Err(string_from_chars(&msg));
        },
    };
    let img = DecodedImage { img: decoded, source: Ghost((input@, in_format)) };
    match out_format {
        ImageKind::Jpeg => {
            let q = match quality {
                Some(q) => q,
                None => 85,
            };
            match encode_jpeg(&img, q) {
                Ok(b) => Ok(b),
                Err(m) => Err(prefixed("Failed to encode JPEG: ", &m)),
            }
        },
        _ => match encode_as(&img, out_format) {
            Ok(b) => Ok(b),
            Err(m) => {
                let mut msg: Vec<char> = Vec::new();
                push_str(&mut msg, "Failed to encode ");
                push_str(&mut msg, to);
                push_str(&mut msg, ": ");
                push_str(&mut msg, m.as_str());
                proof {
                    assert(msg@ =~= "Failed to encode "@ + to@ + ": "@ + m@);
                }
                Err(string_from_chars(&msg))
            },
        },
    }
}

} // verus!
