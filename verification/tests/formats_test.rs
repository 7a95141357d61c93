use convr::batch::target_format;
use convr::formats::{Category, Format};

const ALL: [Format; 19] = [
    Format::Png, Format::Jpeg, Format::Webp, Format::Avif, Format::Gif, Format::Bmp, Format::Tiff,
    Format::Ico, Format::Svg, Format::Heif, Format::Markdown, Format::Html, Format::Pdf,
    Format::PlainText, Format::Json, Format::Yaml, Format::Toml, Format::Csv, Format::Xml,
];

#[test]
fn extensions_are_recognized() {
    assert_eq!(Format::from_extension("png"), Some(Format::Png));
    assert_eq!(Format::from_extension("jpg"), Some(Format::Jpeg));
    assert_eq!(Format::from_extension("jpeg"), Some(Format::Jpeg));
    assert_eq!(Format::from_extension("tif"), Some(Format::Tiff));
    assert_eq!(Format::from_extension("markdown"), Some(Format::Markdown));
    assert_eq!(Format::from_extension("htm"), Some(Format::Html));
    assert_eq!(Format::from_extension("txt"), Some(Format::PlainText));
    assert_eq!(Format::from_extension("yml"), Some(Format::Yaml));
    assert_eq!(Format::from_extension("docx"), None);
    assert_eq!(Format::from_extension(""), None);
}

#[test]
fn extensions_ignore_case() {
    assert_eq!(Format::from_extension("PNG"), Some(Format::Png));
    assert_eq!(Format::from_extension("JpEg"), Some(Format::Jpeg));
    assert_eq!(Format::from_name("YAML"), Some(Format::Yaml));
    // The Kelvin sign lowercases to an ASCII `k` under Unicode rules.
    assert_eq!(Format::from_extension("MAR\u{212A}DOWN"), Some(Format::Markdown));
}

#[test]
fn every_extension_round_trips() {
    for f in ALL {
        assert_eq!(Format::from_extension(f.extension()), Some(f));
        assert_eq!(Format::from_extension(&f.extension().to_uppercase()), Some(f));
    }
}

#[test]
fn canonical_extensions() {
    assert_eq!(Format::Jpeg.extension(), "jpg");
    assert_eq!(Format::Tiff.extension(), "tiff");
    assert_eq!(Format::Markdown.extension(), "md");
    assert_eq!(Format::PlainText.extension(), "txt");
    assert_eq!(Format::Yaml.extension(), "yaml");
    assert_eq!(Format::Heif.extension(), "heic");
}

#[test]
fn categories_partition_formats() {
    let images = ALL.iter().filter(|f| f.category() == Category::Image).count();
    let documents = ALL.iter().filter(|f| f.category() == Category::Document).count();
    let data = ALL.iter().filter(|f| f.category() == Category::Data).count();
    assert_eq!((images, documents, data), (10, 4, 5));
    assert_eq!(Format::Svg.category(), Category::Image);
    assert_eq!(Format::Pdf.category(), Category::Document);
    assert_eq!(Format::Csv.category(), Category::Data);
}

#[test]
fn names_match_variants() {
    assert_eq!(Format::PlainText.name(), "PlainText");
    assert_eq!(Format::Json.name(), "Json");
    assert_eq!(Category::Document.name(), "Document");
}

#[test]
fn target_format_from_command_line() {
    assert_eq!(target_format("YAML"), Ok(Format::Yaml));
    assert_eq!(target_format("docx"), Err("Unknown target format: docx".to_string()));
}

#[test]
fn recognized_names_stay_recognized_when_lowercased() {
    for name in ["PNG", "Jpeg", "MarkDown", "yml", "HEIC"] {
        let f = Format::from_extension(name);
        assert!(f.is_some());
        assert_eq!(Format::from_extension(&name.to_lowercase()), f);
    }
    assert_eq!(Format::from_extension("\u{FF30}NG"), None);
}
