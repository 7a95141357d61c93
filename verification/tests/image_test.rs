use convr::formats::Format;
use convr::image::{svg_error_message, svg_raster_of, svg_to_raster, SvgError, SvgRaster};

const SVG: &[u8] = br#"<svg xmlns="http://www.w3.org/2000/svg" width="4" height="3"><rect width="4" height="3" fill="red"/></svg>"#;
const SIGNATURE: [u8; 8] = [0x89, 0x50, 0x4E, 0x47, 0x0D, 0x0A, 0x1A, 0x0A];

#[test]
fn svg_renders_to_png_bytes() {
    match svg_to_raster(SVG, &Format::Png).unwrap() {
        SvgRaster::Png(b) => {
            assert_eq!(&b[..8], &SIGNATURE);
            assert_eq!(&b[16..24], &[0, 0, 0, 4, 0, 0, 0, 3]);
        }
        other => panic!("unexpected {other:?}"),
    }
    match svg_to_raster(SVG, &Format::Jpeg).unwrap() {
        SvgRaster::Reencode(b) => assert_eq!(&b[..8], &SIGNATURE),
        other => panic!("unexpected {other:?}"),
    }
}

#[test]
fn broken_svg_is_refused() {
    let err = svg_to_raster(b"not an svg", &Format::Png).unwrap_err();
    assert!(matches!(err, SvgError::Parse(_)));
    assert!(!svg_error_message(&err).is_empty());
    assert_eq!(svg_error_message(&SvgError::Canvas), "Failed to create pixmap");
}

#[test]
fn rendered_bytes_take_the_target_branch() {
    let bytes = vec![1u8, 2, 3];
    assert!(matches!(svg_raster_of(Ok(bytes.clone()), &Format::Png), Ok(SvgRaster::Png(b)) if b == bytes));
    assert!(matches!(svg_raster_of(Ok(bytes.clone()), &Format::Webp), Ok(SvgRaster::Reencode(b)) if b == bytes));
    assert!(matches!(svg_raster_of(Err(SvgError::Canvas), &Format::Png), Err(SvgError::Canvas)));
}
