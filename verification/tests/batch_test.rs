use convr::batch::{
    decimal_text, expand_inputs, output_file_name, report_line, require_inputs, summarize, FileOutcome,
};
use convr::detect::{detect, detect_with};
use convr::formats::Format;

const PNG: [u8; 8] = [0x89, 0x50, 0x4E, 0x47, 0x0D, 0x0A, 0x1A, 0x0A];

#[test]
fn expand_keeps_unmatched_patterns_literally() {
    let globbed: Vec<(String, Result<Vec<String>, String>)> = vec![
        ("a.md".to_string(), Ok(vec![])),
        ("*.png".to_string(), Ok(vec!["1.png".to_string(), "2.png".to_string()])),
    ];
    assert_eq!(expand_inputs(globbed), Ok(vec!["a.md".to_string(), "1.png".to_string(), "2.png".to_string()]));
}

#[test]
fn expand_stops_at_a_bad_pattern() {
    let globbed: Vec<(String, Result<Vec<String>, String>)> = vec![
        ("a".to_string(), Ok(vec![])),
        ("[".to_string(), Err("bad pattern".to_string())),
        ("b".to_string(), Err("later".to_string())),
    ];
    assert_eq!(expand_inputs(globbed), Err("bad pattern".to_string()));
}

#[test]
fn output_names() {
    assert_eq!(output_file_name("photo", &Format::Jpeg), "photo.jpg");
    assert_eq!(output_file_name("notes.v2", &Format::Markdown), "notes.v2.md");
    assert_eq!(output_file_name("", &Format::Yaml), ".yaml");
}

#[test]
fn report_lines() {
    assert_eq!(report_line("x.bin", &FileOutcome::Skipped), "  skip  x.bin (unknown format)");
    assert_eq!(report_line("a.md", &FileOutcome::Converted("a.html".to_string())), "  ok    a.md -> a.html");
    assert_eq!(report_line("b.csv", &FileOutcome::Failed("boom".to_string())), "  error b.csv : boom");
}

#[test]
fn summaries() {
    let ok = vec![FileOutcome::Converted("a".to_string()), FileOutcome::Skipped];
    assert_eq!(summarize(&ok), Ok("Done. Converted 2 file(s).".to_string()));
    let mut bad: Vec<FileOutcome> = (0..10).map(|_| FileOutcome::Converted("o".to_string())).collect();
    bad.push(FileOutcome::Failed("e".to_string()));
    bad.push(FileOutcome::Failed("f".to_string()));
    assert_eq!(summarize(&bad), Err("2 file(s) failed to convert".to_string()));
    assert_eq!(summarize(&vec![]), Ok("Done. Converted 0 file(s).".to_string()));
}

#[test]
fn decimals() {
    assert_eq!(decimal_text(0), "0");
    assert_eq!(decimal_text(7), "7");
    assert_eq!(decimal_text(1234), "1234");
    assert_eq!(decimal_text(usize::MAX), usize::MAX.to_string());
}

#[test]
fn inputs_are_required() {
    assert_eq!(require_inputs::<String>(&vec![]), Err("No input files found".to_string()));
    assert_eq!(require_inputs(&vec!["a".to_string()]), Ok(()));
}

#[test]
fn detection_prefers_the_extension() {
    assert_eq!(detect(Some("md"), Some(&PNG)), Some(Format::Markdown));
    assert_eq!(detect(Some("MD"), None), Some(Format::Markdown));
}

#[test]
fn detection_falls_back_to_magic_bytes() {
    assert_eq!(detect(Some("dat"), Some(&PNG)), Some(Format::Png));
    assert_eq!(detect(None, Some(&[0xFF, 0xD8, 0xFF, 0xAA])), Some(Format::Jpeg));
    assert_eq!(detect(None, Some(b"%PDF-1.7\n")), Some(Format::Pdf));
    assert_eq!(detect(None, Some(b"plain words")), None);
    assert_eq!(detect(Some("dat"), None), None);
    assert_eq!(detect(None, None), None);
}

#[test]
fn detection_from_given_names() {
    assert_eq!(detect_with(Some("x"), Some("tif")), Some(Format::Tiff));
    assert_eq!(detect_with(None, Some("zip")), None);
    assert_eq!(detect_with(Some("csv"), Some("png")), Some(Format::Csv));
}

#[test]
fn output_names_are_detected_as_their_target() {
    for target in [Format::Png, Format::Jpeg, Format::Markdown, Format::Yaml, Format::Heif] {
        let name = output_file_name("report.final", &target);
        let extension = name.rsplit('.').next().unwrap();
        assert_eq!(detect(Some(extension), None), Some(target));
    }
}
