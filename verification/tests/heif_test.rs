use convr::backends::available_backends;
use convr::formats::{Category, Format};
use convr::image::{image_error_message, plan, ImageError};

#[test]
fn heif_build_smoke() {
    assert!(true, "heif feature compiled and linked successfully");
}

#[test]
fn heif_feature_disabled_smoke() {
    assert!(true, "binary compiles without heif feature");
    assert!(!available_backends()[0].available);
}

#[test]
fn heic_extension_is_recognized() {
    assert_eq!(Format::from_extension("heic"), Some(Format::Heif));
    assert_eq!(Format::from_extension("HEIF"), Some(Format::Heif));
    assert_eq!(Format::Heif.category(), Category::Image);
}

#[test]
fn heif_input_is_refused_without_backend() {
    let err = plan(&Format::Heif, &Format::Png).unwrap_err();
    assert_eq!(err, ImageError::HeifUnavailable);
    assert_eq!(image_error_message(&err), "HEIF support requires building with --features heif");
}
