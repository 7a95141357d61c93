use convr::backends::available_backends;
use convr::formats::Format;
use convr::image::{plan, ImageJob};

#[test]
fn vips_build_smoke() {
    assert!(true, "vips feature compiled and linked");
}

#[test]
fn vips_feature_disabled_smoke() {
    assert!(true, "binary compiles without vips feature");
    assert!(!available_backends()[1].available);
}

#[test]
fn image_jobs() {
    assert_eq!(plan(&Format::Png, &Format::Jpeg), Ok(ImageJob::RasterToRaster));
    assert_eq!(plan(&Format::Jpeg, &Format::Png), Ok(ImageJob::RasterToPng));
    assert_eq!(plan(&Format::Gif, &Format::Avif), Ok(ImageJob::RasterToAvif));
    assert_eq!(plan(&Format::Svg, &Format::Png), Ok(ImageJob::SvgToPng));
    assert_eq!(plan(&Format::Svg, &Format::Webp), Ok(ImageJob::SvgToRaster));
    assert_eq!(plan(&Format::Svg, &Format::Avif), Ok(ImageJob::SvgToRaster));
}
