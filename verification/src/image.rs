//! Choosing how an image is converted.

use vstd::prelude::*;
use crate::formats::Format;

verus! {

/// The work an image conversion takes; the pixels themselves are decoded,
/// rendered and encoded by the image libraries.
#[derive(Debug, Clone, Copy, PartialEq, Eq, Structural)]
pub enum ImageJob {
    /// Render an SVG and save the raster as PNG.
    SvgToPng,
    /// Render an SVG, then re-encode the raster in the target format.
    SvgToRaster,
    /// Decode a raster image and encode it as AVIF.
    RasterToAvif,
    /// Decode a raster image, save it as PNG, then optimize the PNG.
    RasterToPng,
    /// Decode a raster image and save it in the target format.
    RasterToRaster,
}

/// Why an image conversion was refused.
#[derive(Debug, Clone, Copy, PartialEq, Eq, Structural)]
pub enum ImageError {
    /// Decoding HEIF needs the libheif backend, which this build lacks.
    HeifUnavailable,
}

/// The job an image conversion takes.
pub open spec fn spec_plan(src: Format, target: Format) -> Result<ImageJob, ImageError> {
    if src == Format::Heif {
        Err(ImageError::HeifUnavailable)
    } else if src == Format::Svg {
        if target == Format::Png { Ok(ImageJob::SvgToPng) } else { Ok(ImageJob::SvgToRaster) }
    } else if target == Format::Avif {
        Ok(ImageJob::RasterToAvif)
    } else if target == Format::Png {
        Ok(ImageJob::RasterToPng)
    } else {
        Ok(ImageJob::RasterToRaster)
    }
}

/// Chooses the job of an image conversion: HEIF input is refused, SVG is
/// rendered, AVIF and PNG targets get their own encoders, and everything
/// else is re-encoded.
pub fn plan(src: &Format, target: &Format) -> (r: Result<ImageJob, ImageError>)
    ensures
        r == spec_plan(*src, *target),
{
    if *src == Format::Heif {
        Err(ImageError::HeifUnavailable)
    } else if *src == Format::Svg {
        if *target == Format::Png { Ok(ImageJob::SvgToPng) } else { Ok(ImageJob::SvgToRaster) }
    } else if *target == Format::Avif {
        Ok(ImageJob::RasterToAvif)
    } else if *target == Format::Png {
        Ok(ImageJob::RasterToPng)
    } else {
        Ok(ImageJob::RasterToRaster)
    }
}

/// How an image conversion is chosen: only HEIF input is refused; an SVG
/// source, and only an SVG source, is rendered; the result is saved as PNG
/// as it comes exactly when the target is PNG; any other source with an
/// AVIF target goes to the AVIF encoder.
pub proof fn lemma_image_plan(src: Format, target: Format)
    ensures
        spec_plan(src, target) is Err <==> src == Format::Heif,
        spec_plan(src, target) matches Ok(job) ==> ((job is SvgToPng || job is SvgToRaster) <==> src == Format::Svg),
        spec_plan(src, target) matches Ok(job) ==> ((job is SvgToPng || job is RasterToPng) <==> target == Format::Png),
        spec_plan(src, target) matches Ok(job) ==> (job is RasterToAvif <==> (src != Format::Svg && target == Format::Avif)),
{
}

/// The message a refused image conversion reports.
pub fn image_error_message(e: &ImageError) -> (r: String)
    ensures
        r@ == "HEIF support requires building with --features heif"@,
{
    match e {
        ImageError::HeifUnavailable => String::from_str("HEIF support requires building with --features heif"),
    }
}

/// Why rendering an SVG failed.
#[derive(Debug)]
pub enum SvgError {
    /// The SVG could not be parsed; the parser's message.
    Parse(String),
    /// No canvas of the image's size could be made (a zero or huge size).
    Canvas,
    /// The rendered canvas could not be encoded as PNG; the encoder's message.
    Encode(String),
}

/// What an SVG conversion hands on: the rendered PNG bytes, either to be
/// written as they are (a PNG target) or to be re-encoded in the target
/// format by the image codecs.
#[derive(Debug)]
pub enum SvgRaster {
    Png(Vec<u8>),
    Reencode(Vec<u8>),
}

/// Bytes that begin with the eight-byte PNG signature.
pub open spec fn png_signed(b: Seq<u8>) -> bool {
    b.len() >= 8 && b.subrange(0, 8) == seq![0x89u8, 0x50u8, 0x4Eu8, 0x47u8, 0x0Du8, 0x0Au8, 0x1Au8, 0x0Au8]
}

/// The width and height that a PNG's header chunk gives, each a 32-bit
/// big-endian number right after the signature and the chunk's length and
/// type.
pub open spec fn png_ihdr_size(b: Seq<u8>) -> (u32, u32) {
    (
        ((b[16] as int) * 16777216 + (b[17] as int) * 65536 + (b[18] as int) * 256 + (b[19] as int)) as u32,
        ((b[20] as int) * 16777216 + (b[21] as int) * 65536 + (b[22] as int) * 256 + (b[23] as int)) as u32,
    )
}

/// The canvas an SVG document asks for, as `resvg::usvg::Tree::from_data`
/// with default options parses it and `to_int_size` rounds its size to
/// whole pixels; `None` where the parser rejects the bytes.
pub uninterp spec fn svg_canvas(svg: Seq<u8>) -> Option<(u32, u32)>;

/// Renders an SVG document to PNG bytes: `resvg::usvg::Tree::from_data`
/// with default options, a `tiny_skia::Pixmap` of the tree's size rounded
/// to whole pixels, `resvg::render` with the identity transform, and
/// `Pixmap::encode_png`. Whether the bytes parse, and the canvas size, are
/// functions of the bytes and are named by `svg_canvas`; the PNG encoder
/// writes the signature and then the header chunk with the pixmap's width
/// and height. Nothing is stated of the pixels: the default options
/// resolve images that the SVG references by reading them from disk.
#[verifier::external_body]
fn svg_render_png(svg: &[u8]) -> (r: Result<Vec<u8>, SvgError>)
    ensures
        (r matches Err(SvgError::Parse(_))) <==> svg_canvas(svg@) is None,
        r matches Ok(png) ==> png_signed(png@) && png@.len() >= 24 && svg_canvas(svg@) == Some(png_ihdr_size(png@)),
{
    let tree = match resvg::usvg::Tree::from_data(svg, &resvg::usvg::Options::default()) {
        Ok(t) => t,
        Err(e) => return Err(SvgError::Parse(e.to_string())),
    };
    let size = tree.size().to_int_size();
    let mut pixmap = match tiny_skia::Pixmap::new(size.width(), size.height()) {
        Some(p) => p,
        None => return Err(SvgError::Canvas),
    };
    resvg::render(&tree, tiny_skia::Transform::default(), &mut pixmap.as_mut());
    pixmap.encode_png().map_err(|e| SvgError::Encode(e.to_string()))
}

/// What an SVG conversion hands on, given the outcome of rendering: a PNG
/// target takes the rendered bytes as they are, any other target has them
/// re-encoded; a failed rendering fails the conversion.
pub fn svg_raster_of(rendered: Result<Vec<u8>, SvgError>, target: &Format) -> (r: Result<SvgRaster, SvgError>)
    ensures
        match rendered {
            Ok(png) => if *target == Format::Png {
                r matches Ok(SvgRaster::Png(b)) && b@ == png@
            } else {
                r matches Ok(SvgRaster::Reencode(b)) && b@ == png@
            },
            Err(e) => r matches Err(f) && f == e,
        },
{
    match rendered {
        Ok(png) => if *target == Format::Png {
            Ok(SvgRaster::Png(png))
        } else {
            Ok(SvgRaster::Reencode(png))
        },
        Err(e) => Err(e),
    }
}

/// Renders an SVG document for a raster target: PNG bytes to write as they
/// are for a PNG target, PNG bytes to re-encode for any other.
pub fn svg_to_raster(svg: &[u8], target: &Format) -> (r: Result<SvgRaster, SvgError>)
    ensures
        (r matches Err(SvgError::Parse(_))) <==> svg_canvas(svg@) is None,
        r matches Ok(SvgRaster::Png(b)) ==> *target == Format::Png && png_signed(b@) && b@.len() >= 24
            && svg_canvas(svg@) == Some(png_ihdr_size(b@)),
        r matches Ok(SvgRaster::Reencode(b)) ==> *target != Format::Png && png_signed(b@) && b@.len() >= 24
            && svg_canvas(svg@) == Some(png_ihdr_size(b@)),
{
    let rendered = svg_render_png(svg);
    svg_raster_of(rendered, target)
}

/// The message a failed SVG rendering reports.
pub fn svg_error_message(e: &SvgError) -> (r: String)
    ensures
        r@ == match *e {
            SvgError::Parse(m) => m@,
            SvgError::Canvas => "Failed to create pixmap"@,
            SvgError::Encode(m) => m@,
        },
{
    match e {
        SvgError::Parse(m) => m.clone(),
        SvgError::Canvas => String::from_str("Failed to create pixmap"),
        SvgError::Encode(m) => m.clone(),
    }
}

} // verus!
