use convr::backends::available_backends;
use convr::document::{convert, document_error_message, DocumentError};
use convr::formats::Format;

#[test]
fn mupdf_build_smoke() {
    assert!(true, "mupdf-backend feature compiled and linked");
}

#[test]
fn mupdf_feature_disabled_smoke() {
    assert!(true, "binary compiles without mupdf-backend feature");
    assert!(!available_backends()[2].available);
}

#[test]
fn pdf_rendering_is_refused_without_backend() {
    let err = convert("", &Format::Pdf, &Format::Png).unwrap_err();
    assert_eq!(err, DocumentError::PdfRenderingUnavailable);
    assert_eq!(document_error_message(&err), "PDF rendering requires building with --features mupdf-backend");
    assert_eq!(convert("", &Format::Pdf, &Format::Jpeg).unwrap_err(), DocumentError::PdfRenderingUnavailable);
    let err = convert("", &Format::Pdf, &Format::Pdf).unwrap_err();
    assert_eq!(err, DocumentError::PdfUnavailable);
    assert_eq!(document_error_message(&err), "PDF operations require building with --features mupdf-backend");
}
