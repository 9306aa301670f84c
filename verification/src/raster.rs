//! Raster decoding, resizing and encoding, through the image crate: byte
//! sniffing, dimension probing, orientation transforms, and the batched
//! generation of resized variants with re-embedded metadata.

use vstd::prelude::*;

use image::ImageDecoder;

use crate::exif::{insert_exif_segment, spec_spliced};
use crate::image_processor::{Codec, ImageError, SourceFormat, VariantSpec};

verus! {

#[verifier::external_type_specification]
#[verifier::external_body]
pub struct ExDynamicImage(image::DynamicImage);

#[verifier::external_type_specification]
#[verifier::external_body]
pub struct ExImageFormat(image::ImageFormat);

/// The codec that byte sniffing attributes to a buffer, when it
/// recognizes one.
pub uninterp spec fn sniffed_codec_of(bytes: Seq<u8>) -> Option<Codec>;

/// Relies on image::guess_format: sniffs the codec from magic bytes; the
/// result depends on the bytes alone.
#[verifier::external_body]
pub fn guess_codec(bytes: &Vec<u8>) -> (r: Option<Codec>)
    ensures
        r == sniffed_codec_of(bytes@),
{
    match image::guess_format(bytes) {
        Ok(image::ImageFormat::Jpeg) => Some(Codec::Jpeg),
        Ok(image::ImageFormat::Png) => Some(Codec::Png),
        Ok(image::ImageFormat::Gif) => Some(Codec::Gif),
        Ok(image::ImageFormat::Bmp) => Some(Codec::Bmp),
        Ok(image::ImageFormat::Tiff) => Some(Codec::Tiff),
        Ok(image::ImageFormat::WebP) => Some(Codec::WebP),
        Ok(_) => Some(Codec::Other),
        Err(_) => None,
    }
}

/// The pixel dimensions a header probe reads from a buffer, when its
/// format can be read.
pub uninterp spec fn probed_dims_of(bytes: Seq<u8>) -> Option<(u32, u32)>;

/// Relies on image::io::Reader::into_dimensions: reads the size from the
/// image header without a full decode; the result depends on the bytes
/// alone.
#[verifier::external_body]
pub fn probe_dimensions(bytes: &Vec<u8>) -> (r: Option<(u32, u32)>)
    ensures
        r == probed_dims_of(bytes@),
{
    let reader = image::io::Reader::new(std::io::Cursor::new(bytes.as_slice()));
    reader.with_guessed_format().ok().and_then(|rd| rd.into_dimensions().ok())
}

/// The animation canvas size a GIF decoder reads from a buffer.
pub uninterp spec fn gif_dims_of(bytes: Seq<u8>) -> Option<(u32, u32)>;

/// Relies on image::codecs::gif::GifDecoder: reads the GIF canvas size;
/// the result depends on the bytes alone.
#[verifier::external_body]
pub fn gif_dimensions(bytes: &Vec<u8>) -> (r: Option<(u32, u32)>)
    ensures
        r == gif_dims_of(bytes@),
{
    image::codecs::gif::GifDecoder::new(std::io::Cursor::new(bytes.as_slice())).ok().map(
        |d| d.dimensions(),
    )
}

/// Whether a buffer decodes as a full image.
pub uninterp spec fn image_decodes(bytes: Seq<u8>) -> bool;

/// Relies on image::load_from_memory: decodes the full image; success
/// depends on the bytes alone.
#[verifier::external_body]
pub fn load_image(bytes: &Vec<u8>) -> (r: Result<image::DynamicImage, String>)
    ensures
        r is Ok <==> image_decodes(bytes@),
{
    image::load_from_memory(bytes.as_slice()).map_err(|e| e.to_string())
}

/// Relies on image::DynamicImage::fliph.
#[verifier::external_body]
fn img_fliph(img: image::DynamicImage) -> image::DynamicImage {
    img.fliph()
}

/// Relies on image::DynamicImage::flipv.
#[verifier::external_body]
fn img_flipv(img: image::DynamicImage) -> image::DynamicImage {
    img.flipv()
}

/// Relies on image::DynamicImage::rotate90.
#[verifier::external_body]
fn img_rotate90(img: image::DynamicImage) -> image::DynamicImage {
    img.rotate90()
}

/// Relies on image::DynamicImage::rotate180.
#[verifier::external_body]
fn img_rotate180(img: image::DynamicImage) -> image::DynamicImage {
    img.rotate180()
}

/// Relies on image::DynamicImage::rotate270.
#[verifier::external_body]
fn img_rotate270(img: image::DynamicImage) -> image::DynamicImage {
    img.rotate270()
}

/// Relies on image::DynamicImage::resize with the Lanczos3 filter:
/// resizes preserving aspect ratio within the given bounds.
#[verifier::external_body]
pub fn resize_image(img: &image::DynamicImage, w: u32, h: u32) -> (r: image::DynamicImage) {
    img.resize(w, h, image::imageops::FilterType::Lanczos3)
}

/// Relies on image::codecs::jpeg::JpegEncoder: encodes at the given
/// quality.
#[verifier::external_body]
fn encode_jpeg(img: &image::DynamicImage, quality: u8) -> (r: Result<Vec<u8>, String>) {
    let mut buf = Vec::new();
    let mut encoder = image::codecs::jpeg::JpegEncoder::new_with_quality(&mut buf, quality);
    encoder.encode_image(img).map_err(|e| e.to_string())?;
    Ok(buf)
}

/// Relies on image::DynamicImage::write_to: encodes to the given format.
#[verifier::external_body]
fn encode_to_format(img: &image::DynamicImage, format: image::ImageFormat) -> (r: Result<
    Vec<u8>,
    String,
>) {
    let mut buf = Vec::new();
    let mut cursor = std::io::Cursor::new(&mut buf);
    let out = image::ImageOutputFormat::from(format);
    img.write_to(&mut cursor, out).map_err(|e| e.to_string())?;
    Ok(buf)
}

/// Relies on the image::ImageFormat variants: the format for each codec
/// the pipeline writes; every codec but the unrecognized one has a
/// format.
#[verifier::external_body]
fn image_format_of(codec: Codec) -> (r: Option<image::ImageFormat>)
    ensures
        r is Some <==> !(codec matches Codec::Other),
{
    match codec {
        Codec::Jpeg => Some(image::ImageFormat::Jpeg),
        Codec::Png => Some(image::ImageFormat::Png),
        Codec::Gif => Some(image::ImageFormat::Gif),
        Codec::Bmp => Some(image::ImageFormat::Bmp),
        Codec::Tiff => Some(image::ImageFormat::Tiff),
        Codec::WebP => Some(image::ImageFormat::WebP),
        Codec::Other => None,
    }
}

/// Applies the orientation transform a metadata orientation code calls
/// for, so the pixel data ends up upright.
pub fn apply_orientation(img: image::DynamicImage, orientation: u16) -> (r: image::DynamicImage) {
    if orientation == 2 {
        img_fliph(img)
    } else if orientation == 3 {
        img_rotate180(img)
    } else if orientation == 4 {
        img_flipv(img)
    } else if orientation == 5 {
        img_fliph(img_rotate90(img))
    } else if orientation == 6 {
        img_rotate90(img)
    } else if orientation == 7 {
        img_fliph(img_rotate270(img))
    } else if orientation == 8 {
        img_rotate270(img)
    } else {
        img
    }
}

/// Encodes an image to the given codec; for JPEG, the metadata block is
/// spliced into the encoded stream afterwards.
pub fn encode_image(
    img: &image::DynamicImage,
    codec: Codec,
    exif_bytes: &Option<Vec<u8>>,
    jpeg_quality: u8,
) -> (r: Result<Vec<u8>, ImageError>)
    ensures
        ({
            match (r, codec, exif_bytes) {
                (Result::Ok(v), Codec::Jpeg, Option::Some(e)) => exists|enc: Seq<u8>|
                    v@ == #[trigger] spec_spliced(enc, e@),
                _ => true,
            }
        }),
        (codec matches Codec::Other) <==> (r matches Err(ImageError::UnsupportedFormat)),
{
    match codec {
        Codec::Jpeg => {
            let encoded = encode_jpeg(img, jpeg_quality);
            match encoded {
                Result::Ok(buf) => {
                    let mut buf = buf;
                    match exif_bytes {
                        Option::Some(e) => {
                            let ghost enc = buf@;
                            insert_exif_segment(&mut buf, e);
                            proof {
                                assert(buf@ == spec_spliced(enc, e@));
                            }
                        },
                        Option::None => {},
                    }
                    Result::Ok(buf)
                },
                Result::Err(e) => Result::Err(ImageError::Decode(e)),
            }
        },
        _ => {
            match image_format_of(codec) {
                Option::Some(format) => {
                    match encode_to_format(img, format) {
                        Result::Ok(buf) => Result::Ok(buf),
                        Result::Err(e) => Result::Err(ImageError::Decode(e)),
                    }
                },
                Option::None => Result::Err(ImageError::UnsupportedFormat),
            }
        },
    }
}

/// Renders the bytes of one planned variant: resize, then encode with
/// metadata re-embedding.
pub fn render_variant(
    source: &image::DynamicImage,
    job: &VariantSpec,
    codec: Codec,
    exif_bytes: &Option<Vec<u8>>,
    jpeg_quality: u8,
) -> (r: Result<Vec<u8>, ImageError>) {
    let resized = resize_image(source, job.width, job.height);
    encode_image(&resized, codec, exif_bytes, jpeg_quality)
}

/// Renders a whole batch of variants from one source: the source is
/// decoded once and oriented upright, then every variant is resized and
/// encoded from that one decode. The result pairs each planned output
/// path with its encoded bytes, or the error that variant hit; a source
/// that cannot be decoded fails as a whole.
pub fn render_variants_batch(
    bytes: &Vec<u8>,
    codec: Codec,
    orientation: Option<u16>,
    jobs: &Vec<VariantSpec>,
    exif_bytes: &Option<Vec<u8>>,
    jpeg_quality: u8,
) -> (r: Result<Vec<(String, Result<Vec<u8>, ImageError>)>, ImageError>)
    ensures
        match r {
            Result::Ok(v) => v@.len() == jobs@.len() && forall|i: int|
                0 <= i < v@.len() ==> v@[i].0@ == jobs@[i].path@,
            Result::Err(e) => e matches ImageError::Decode(_),
        },
        r is Ok <==> image_decodes(bytes@),
{
    let mut image = match load_image(bytes) {
        Result::Ok(img) => img,
        Result::Err(e) => {
            return Result::Err(ImageError::Decode(e));
        },
    };
    match orientation {
        Option::Some(o) => {
            image = apply_orientation(image, o);
        },
        Option::None => {},
    }
    let mut out: Vec<(String, Result<Vec<u8>, ImageError>)> = Vec::new();
    let mut i: usize = 0;
    while i < jobs.len()
        invariant
            i <= jobs@.len(),
            out@.len() == i,
            forall|k: int| 0 <= k < i ==> out@[k].0@ == jobs@[k].path@,
        decreases jobs@.len() - i,
    {
        let encoded = render_variant(&image, &jobs[i], codec, exif_bytes, jpeg_quality);
        let path = jobs[i].path.clone();
        assert(path@ == jobs@[i as int].path@);
        out.push((path, encoded));
        i = i + 1;
    }
    Result::Ok(out)
}

/// Classifies a source: SVG by reference or content sniffing, else the
/// sniffed raster codec, else the codec the file extension suggests;
/// the format is unsupported if and only if none of these applies.
pub fn detect_format(reference: &str, bytes: &Vec<u8>) -> (r: Result<SourceFormat, ImageError>)
    ensures
        ({
            let l = crate::strutil::spec_ascii_lower_seq(reference@);
            let svg = crate::strutil::spec_has_at(l, ".svg"@, l.len() - 4)
                || crate::image_processor::spec_window_has_svg(
                crate::image_processor::spec_svg_window(bytes@),
            );
            if svg {
                r == Result::<SourceFormat, ImageError>::Ok(SourceFormat::Svg)
            } else {
                match sniffed_codec_of(bytes@) {
                    Option::Some(c) => r == Result::<SourceFormat, ImageError>::Ok(
                        SourceFormat::Raster(c),
                    ),
                    Option::None => ({
                        let q = reference@.subrange(
                            0,
                            crate::image_processor::spec_first_stop2(reference@, '?', '?'),
                        );
                        let f = q.subrange(
                            crate::image_processor::spec_after_last2(q, '/', '/'),
                            q.len() as int,
                        );
                        let e = crate::image_processor::spec_ext(f);
                        let has = crate::image_processor::spec_has_ext(f) && e.len() > 0;
                        let el = crate::strutil::spec_ascii_lower_seq(e);
                        if has && (el == "jpg"@ || el == "jpeg"@) {
                            r == Result::<SourceFormat, ImageError>::Ok(
                                SourceFormat::Raster(Codec::Jpeg),
                            )
                        } else if has && el == "png"@ {
                            r == Result::<SourceFormat, ImageError>::Ok(
                                SourceFormat::Raster(Codec::Png),
                            )
                        } else if has && el == "webp"@ {
                            r == Result::<SourceFormat, ImageError>::Ok(
                                SourceFormat::Raster(Codec::WebP),
                            )
                        } else {
                            r == Result::<SourceFormat, ImageError>::Err(
                                ImageError::UnsupportedFormat,
                            )
                        }
                    }),
                }
            }
        }),
{
    if crate::image_processor::looks_like_svg(reference, bytes) {
        return Result::Ok(SourceFormat::Svg);
    }
    match guess_codec(bytes) {
        Option::Some(codec) => Result::Ok(SourceFormat::Raster(codec)),
        Option::None => {
            match crate::image_processor::path_extension_from_str(reference) {
                Option::Some(ext) => {
                    match crate::image_processor::image_format_from_extension(ext.as_str()) {
                        Option::Some(codec) => Result::Ok(SourceFormat::Raster(codec)),
                        Option::None => Result::Err(ImageError::UnsupportedFormat),
                    }
                },
                Option::None => Result::Err(ImageError::UnsupportedFormat),
            }
        },
    }
}

} // verus!
