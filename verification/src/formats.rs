//! The formats the converter knows, their file extensions and categories.

use vstd::prelude::*;
use crate::text::{ascii_lower, ascii_upper, is_ascii_text, str_eq, to_lowercase, unicode_lowercase};

verus! {

/// A file format the converter reads or writes.
#[derive(Debug, Clone, Copy, PartialEq, Eq, Structural)]
pub enum Format {
    // Images
    Png, Jpeg, Webp, Avif, Gif, Bmp, Tiff, Ico, Svg, Heif,
    // Documents
    Markdown, Html, Pdf, PlainText,
    // Data
    Json, Yaml, Toml, Csv, Xml,
}

/// The family a format belongs to; conversions stay inside one family.
#[derive(Debug, Clone, Copy, PartialEq, Eq, Structural)]
pub enum Category {
    Image,
    Document,
    Data,
}

impl Category {
    /// The name of a category as diagnostics print it.
    pub open spec fn spec_name(self) -> Seq<char> {
        match self {
            Category::Image => "Image"@,
            Category::Document => "Document"@,
            Category::Data => "Data"@,
        }
    }

    /// The name of this category as diagnostics print it.
    pub fn name(&self) -> (r: &'static str)
        ensures
            r@ == self.spec_name(),
    {
        match self {
            Category::Image => "Image",
            Category::Document => "Document",
            Category::Data => "Data",
        }
    }
}

impl Format {
    /// The format named by an already lowercased extension, if any.
    pub open spec fn spec_from_lower(s: Seq<char>) -> Option<Format> {
        if s == "png"@ { Some(Format::Png) }
        else if s == "jpg"@ || s == "jpeg"@ { Some(Format::Jpeg) }
        else if s == "webp"@ { Some(Format::Webp) }
        else if s == "avif"@ { Some(Format::Avif) }
        else if s == "gif"@ { Some(Format::Gif) }
        else if s == "bmp"@ { Some(Format::Bmp) }
        else if s == "tiff"@ || s == "tif"@ { Some(Format::Tiff) }
        else if s == "ico"@ { Some(Format::Ico) }
        else if s == "svg"@ { Some(Format::Svg) }
        else if s == "heic"@ || s == "heif"@ { Some(Format::Heif) }
        else if s == "md"@ || s == "markdown"@ { Some(Format::Markdown) }
        else if s == "html"@ || s == "htm"@ { Some(Format::Html) }
        else if s == "pdf"@ { Some(Format::Pdf) }
        else if s == "txt"@ { Some(Format::PlainText) }
        else if s == "json"@ { Some(Format::Json) }
        else if s == "yaml"@ || s == "yml"@ { Some(Format::Yaml) }
        else if s == "toml"@ { Some(Format::Toml) }
        else if s == "csv"@ { Some(Format::Csv) }
        else if s == "xml"@ { Some(Format::Xml) }
        else { None }
    }

    /// The format an extension names: the extension is lowercased by the
    /// Unicode lowercase mapping, then looked up.
    pub open spec fn spec_from_extension(ext: Seq<char>) -> Option<Format> {
        Self::spec_from_lower(unicode_lowercase(ext))
    }

    /// The canonical extension of a format.
    pub open spec fn spec_extension(self) -> Seq<char> {
        match self {
            Format::Png => "png"@,
            Format::Jpeg => "jpg"@,
            Format::Webp => "webp"@,
            Format::Avif => "avif"@,
            Format::Gif => "gif"@,
            Format::Bmp => "bmp"@,
            Format::Tiff => "tiff"@,
            Format::Ico => "ico"@,
            Format::Svg => "svg"@,
            Format::Heif => "heic"@,
            Format::Markdown => "md"@,
            Format::Html => "html"@,
            Format::Pdf => "pdf"@,
            Format::PlainText => "txt"@,
            Format::Json => "json"@,
            Format::Yaml => "yaml"@,
            Format::Toml => "toml"@,
            Format::Csv => "csv"@,
            Format::Xml => "xml"@,
        }
    }

    /// The name of a format as diagnostics print it.
    pub open spec fn spec_name(self) -> Seq<char> {
        match self {
            Format::Png => "Png"@,
            Format::Jpeg => "Jpeg"@,
            Format::Webp => "Webp"@,
            Format::Avif => "Avif"@,
            Format::Gif => "Gif"@,
            Format::Bmp => "Bmp"@,
            Format::Tiff => "Tiff"@,
            Format::Ico => "Ico"@,
            Format::Svg => "Svg"@,
            Format::Heif => "Heif"@,
            Format::Markdown => "Markdown"@,
            Format::Html => "Html"@,
            Format::Pdf => "Pdf"@,
            Format::PlainText => "PlainText"@,
            Format::Json => "Json"@,
            Format::Yaml => "Yaml"@,
            Format::Toml => "Toml"@,
            Format::Csv => "Csv"@,
            Format::Xml => "Xml"@,
        }
    }

    /// The category of a format.
    pub open spec fn spec_category(self) -> Category {
        match self {
            Format::Png | Format::Jpeg | Format::Webp | Format::Avif | Format::Gif
            | Format::Bmp | Format::Tiff | Format::Ico | Format::Svg | Format::Heif => Category::Image,
            Format::Markdown | Format::Html | Format::Pdf | Format::PlainText => Category::Document,
            Format::Json | Format::Yaml | Format::Toml | Format::Csv | Format::Xml => Category::Data,
        }
    }

    /// Recognizes a file extension, whatever its letter case.
    pub fn from_extension(ext: &str) -> (r: Option<Format>)
        ensures
            r == Self::spec_from_extension(ext@),
            is_ascii_text(ext@) ==> r == Self::spec_from_lower(ascii_lower(ext@)),
            r is Some ==> Self::spec_from_extension(unicode_lowercase(ext@)) == r,
    {
        let lower = to_lowercase(ext);
        proof {
            lemma_recognized_names_are_lowercase(lower@);
        }
        let s = lower.as_str();
        if str_eq(s, "png") { Some(Format::Png) }
        else if str_eq(s, "jpg") || str_eq(s, "jpeg") { Some(Format::Jpeg) }
        else if str_eq(s, "webp") { Some(Format::Webp) }
        else if str_eq(s, "avif") { Some(Format::Avif) }
        else if str_eq(s, "gif") { Some(Format::Gif) }
        else if str_eq(s, "bmp") { Some(Format::Bmp) }
        else if str_eq(s, "tiff") || str_eq(s, "tif") { Some(Format::Tiff) }
        else if str_eq(s, "ico") { Some(Format::Ico) }
        else if str_eq(s, "svg") { Some(Format::Svg) }
        else if str_eq(s, "heic") || str_eq(s, "heif") { Some(Format::Heif) }
        else if str_eq(s, "md") || str_eq(s, "markdown") { Some(Format::Markdown) }
        else if str_eq(s, "html") || str_eq(s, "htm") { Some(Format::Html) }
        else if str_eq(s, "pdf") { Some(Format::Pdf) }
        else if str_eq(s, "txt") { Some(Format::PlainText) }
        else if str_eq(s, "json") { Some(Format::Json) }
        else if str_eq(s, "yaml") || str_eq(s, "yml") { Some(Format::Yaml) }
        else if str_eq(s, "toml") { Some(Format::Toml) }
        else if str_eq(s, "csv") { Some(Format::Csv) }
        else if str_eq(s, "xml") { Some(Format::Xml) }
        else { None }
    }

    /// Recognizes a format by name; names are the same words as extensions.
    pub fn from_name(name: &str) -> (r: Option<Format>)
        ensures
            r == Self::spec_from_extension(name@),
            is_ascii_text(name@) ==> r == Self::spec_from_lower(ascii_lower(name@)),
            r is Some ==> Self::spec_from_extension(unicode_lowercase(name@)) == r,
    {
        Self::from_extension(name)
    }

    /// The extension used for files written in this format.
    pub fn extension(&self) -> (r: &'static str)
        ensures
            r@ == self.spec_extension(),
    {
        match self {
            Format::Png => "png",
            Format::Jpeg => "jpg",
            Format::Webp => "webp",
            Format::Avif => "avif",
            Format::Gif => "gif",
            Format::Bmp => "bmp",
            Format::Tiff => "tiff",
            Format::Ico => "ico",
            Format::Svg => "svg",
            Format::Heif => "heic",
            Format::Markdown => "md",
            Format::Html => "html",
            Format::Pdf => "pdf",
            Format::PlainText => "txt",
            Format::Json => "json",
            Format::Yaml => "yaml",
            Format::Toml => "toml",
            Format::Csv => "csv",
            Format::Xml => "xml",
        }
    }

    /// The name of this format as diagnostics print it.
    pub fn name(&self) -> (r: &'static str)
        ensures
            r@ == self.spec_name(),
    {
        match self {
            Format::Png => "Png",
            Format::Jpeg => "Jpeg",
            Format::Webp => "Webp",
            Format::Avif => "Avif",
            Format::Gif => "Gif",
            Format::Bmp => "Bmp",
            Format::Tiff => "Tiff",
            Format::Ico => "Ico",
            Format::Svg => "Svg",
            Format::Heif => "Heif",
            Format::Markdown => "Markdown",
            Format::Html => "Html",
            Format::Pdf => "Pdf",
            Format::PlainText => "PlainText",
            Format::Json => "Json",
            Format::Yaml => "Yaml",
            Format::Toml => "Toml",
            Format::Csv => "Csv",
            Format::Xml => "Xml",
        }
    }

    /// The category of this format.
    pub fn category(&self) -> (r: Category)
        ensures
            r == self.spec_category(),
    {
        match self {
            Format::Png | Format::Jpeg | Format::Webp | Format::Avif | Format::Gif
            | Format::Bmp | Format::Tiff | Format::Ico | Format::Svg | Format::Heif => Category::Image,
            Format::Markdown | Format::Html | Format::Pdf | Format::PlainText => Category::Document,
            Format::Json | Format::Yaml | Format::Toml | Format::Csv | Format::Xml => Category::Data,
        }
    }
}


/// Every format's own extension is ASCII lowercase text that `from_extension`
/// recognizes as that same format: a file written with `extension()` is
/// detected again as the format it was written in.
pub proof fn lemma_extension_round_trip(f: Format)
    ensures
        is_ascii_text(f.spec_extension()),
        f.spec_extension().len() > 0,
        forall|i: int| 0 <= i < f.spec_extension().len() ==> #[trigger] f.spec_extension()[i] != '.',
        ascii_lower(f.spec_extension()) == f.spec_extension(),
        Format::spec_from_lower(ascii_lower(f.spec_extension())) == Some(f),
{
    reveal_strlit("png");
    reveal_strlit("jpg");
    reveal_strlit("jpeg");
    reveal_strlit("webp");
    reveal_strlit("avif");
    reveal_strlit("gif");
    reveal_strlit("bmp");
    reveal_strlit("tiff");
    reveal_strlit("tif");
    reveal_strlit("ico");
    reveal_strlit("svg");
    reveal_strlit("heic");
    reveal_strlit("heif");
    reveal_strlit("md");
    reveal_strlit("markdown");
    reveal_strlit("html");
    reveal_strlit("htm");
    reveal_strlit("pdf");
    reveal_strlit("txt");
    reveal_strlit("json");
    reveal_strlit("yaml");
    reveal_strlit("yml");
    reveal_strlit("toml");
    reveal_strlit("csv");
    reveal_strlit("xml");
    let e = f.spec_extension();
    assert(ascii_lower(e) =~= e);
    match f {
        Format::Png => {
        },
        Format::Jpeg => {
            assert(e[0] != "png"@[0]);
        },
        Format::Webp => {
            assert(e.len() != "png"@.len());
            assert(e.len() != "jpg"@.len());
            assert(e[0] != "jpeg"@[0]);
        },
        Format::Avif => {
            assert(e.len() != "png"@.len());
            assert(e.len() != "jpg"@.len());
            assert(e[0] != "jpeg"@[0]);
            assert(e[0] != "webp"@[0]);
        },
        Format::Gif => {
            assert(e[0] != "png"@[0]);
            assert(e[0] != "jpg"@[0]);
            assert(e.len() != "jpeg"@.len());
            assert(e.len() != "webp"@.len());
            assert(e.len() != "avif"@.len());
        },
        Format::Bmp => {
            assert(e[0] != "png"@[0]);
            assert(e[0] != "jpg"@[0]);
            assert(e.len() != "jpeg"@.len());
            assert(e.len() != "webp"@.len());
            assert(e.len() != "avif"@.len());
            assert(e[0] != "gif"@[0]);
        },
        Format::Tiff => {
            assert(e.len() != "png"@.len());
            assert(e.len() != "jpg"@.len());
            assert(e[0] != "jpeg"@[0]);
            assert(e[0] != "webp"@[0]);
            assert(e[0] != "avif"@[0]);
            assert(e.len() != "gif"@.len());
            assert(e.len() != "bmp"@.len());
        },
        Format::Ico => {
            assert(e[0] != "png"@[0]);
            assert(e[0] != "jpg"@[0]);
            assert(e.len() != "jpeg"@.len());
            assert(e.len() != "webp"@.len());
            assert(e.len() != "avif"@.len());
            assert(e[0] != "gif"@[0]);
            assert(e[0] != "bmp"@[0]);
            assert(e.len() != "tiff"@.len());
            assert(e[0] != "tif"@[0]);
        },
        Format::Svg => {
            assert(e[0] != "png"@[0]);
            assert(e[0] != "jpg"@[0]);
            assert(e.len() != "jpeg"@.len());
            assert(e.len() != "webp"@.len());
            assert(e.len() != "avif"@.len());
            assert(e[0] != "gif"@[0]);
            assert(e[0] != "bmp"@[0]);
            assert(e.len() != "tiff"@.len());
            assert(e[0] != "tif"@[0]);
            assert(e[0] != "ico"@[0]);
        },
        Format::Heif => {
            assert(e.len() != "png"@.len());
            assert(e.len() != "jpg"@.len());
            assert(e[0] != "jpeg"@[0]);
            assert(e[0] != "webp"@[0]);
            assert(e[0] != "avif"@[0]);
            assert(e.len() != "gif"@.len());
            assert(e.len() != "bmp"@.len());
            assert(e[0] != "tiff"@[0]);
            assert(e.len() != "tif"@.len());
            assert(e.len() != "ico"@.len());
            assert(e.len() != "svg"@.len());
        },
        Format::Markdown => {
            assert(e.len() != "png"@.len());
            assert(e.len() != "jpg"@.len());
            assert(e.len() != "jpeg"@.len());
            assert(e.len() != "webp"@.len());
            assert(e.len() != "avif"@.len());
            assert(e.len() != "gif"@.len());
            assert(e.len() != "bmp"@.len());
            assert(e.len() != "tiff"@.len());
            assert(e.len() != "tif"@.len());
            assert(e.len() != "ico"@.len());
            assert(e.len() != "svg"@.len());
            assert(e.len() != "heic"@.len());
            assert(e.len() != "heif"@.len());
        },
        Format::Html => {
            assert(e.len() != "png"@.len());
            assert(e.len() != "jpg"@.len());
            assert(e[0] != "jpeg"@[0]);
            assert(e[0] != "webp"@[0]);
            assert(e[0] != "avif"@[0]);
            assert(e.len() != "gif"@.len());
            assert(e.len() != "bmp"@.len());
            assert(e[0] != "tiff"@[0]);
            assert(e.len() != "tif"@.len());
            assert(e.len() != "ico"@.len());
            assert(e.len() != "svg"@.len());
            assert(e[1] != "heic"@[1]);
            assert(e[1] != "heif"@[1]);
            assert(e.len() != "md"@.len());
            assert(e.len() != "markdown"@.len());
        },
        Format::Pdf => {
            assert(e[1] != "png"@[1]);
            assert(e[0] != "jpg"@[0]);
            assert(e.len() != "jpeg"@.len());
            assert(e.len() != "webp"@.len());
            assert(e.len() != "avif"@.len());
            assert(e[0] != "gif"@[0]);
            assert(e[0] != "bmp"@[0]);
            assert(e.len() != "tiff"@.len());
            assert(e[0] != "tif"@[0]);
            assert(e[0] != "ico"@[0]);
            assert(e[0] != "svg"@[0]);
            assert(e.len() != "heic"@.len());
            assert(e.len() != "heif"@.len());
            assert(e.len() != "md"@.len());
            assert(e.len() != "markdown"@.len());
            assert(e.len() != "html"@.len());
            assert(e[0] != "htm"@[0]);
        },
        Format::PlainText => {
            assert(e[0] != "png"@[0]);
            assert(e[0] != "jpg"@[0]);
            assert(e.len() != "jpeg"@.len());
            assert(e.len() != "webp"@.len());
            assert(e.len() != "avif"@.len());
            assert(e[0] != "gif"@[0]);
            assert(e[0] != "bmp"@[0]);
            assert(e.len() != "tiff"@.len());
            assert(e[1] != "tif"@[1]);
            assert(e[0] != "ico"@[0]);
            assert(e[0] != "svg"@[0]);
            assert(e.len() != "heic"@.len());
            assert(e.len() != "heif"@.len());
            assert(e.len() != "md"@.len());
            assert(e.len() != "markdown"@.len());
            assert(e.len() != "html"@.len());
            assert(e[0] != "htm"@[0]);
            assert(e[0] != "pdf"@[0]);
        },
        Format::Json => {
            assert(e.len() != "png"@.len());
            assert(e.len() != "jpg"@.len());
            assert(e[1] != "jpeg"@[1]);
            assert(e[0] != "webp"@[0]);
            assert(e[0] != "avif"@[0]);
            assert(e.len() != "gif"@.len());
            assert(e.len() != "bmp"@.len());
            assert(e[0] != "tiff"@[0]);
            assert(e.len() != "tif"@.len());
            assert(e.len() != "ico"@.len());
            assert(e.len() != "svg"@.len());
            assert(e[0] != "heic"@[0]);
            assert(e[0] != "heif"@[0]);
            assert(e.len() != "md"@.len());
            assert(e.len() != "markdown"@.len());
            assert(e[0] != "html"@[0]);
            assert(e.len() != "htm"@.len());
            assert(e.len() != "pdf"@.len());
            assert(e.len() != "txt"@.len());
        },
        Format::Yaml => {
            assert(e.len() != "png"@.len());
            assert(e.len() != "jpg"@.len());
            assert(e[0] != "jpeg"@[0]);
            assert(e[0] != "webp"@[0]);
            assert(e[0] != "avif"@[0]);
            assert(e.len() != "gif"@.len());
            assert(e.len() != "bmp"@.len());
            assert(e[0] != "tiff"@[0]);
            assert(e.len() != "tif"@.len());
            assert(e.len() != "ico"@.len());
            assert(e.len() != "svg"@.len());
            assert(e[0] != "heic"@[0]);
            assert(e[0] != "heif"@[0]);
            assert(e.len() != "md"@.len());
            assert(e.len() != "markdown"@.len());
            assert(e[0] != "html"@[0]);
            assert(e.len() != "htm"@.len());
            assert(e.len() != "pdf"@.len());
            assert(e.len() != "txt"@.len());
            assert(e[0] != "json"@[0]);
        },
        Format::Toml => {
            assert(e.len() != "png"@.len());
            assert(e.len() != "jpg"@.len());
            assert(e[0] != "jpeg"@[0]);
            assert(e[0] != "webp"@[0]);
            assert(e[0] != "avif"@[0]);
            assert(e.len() != "gif"@.len());
            assert(e.len() != "bmp"@.len());
            assert(e[1] != "tiff"@[1]);
            assert(e.len() != "tif"@.len());
            assert(e.len() != "ico"@.len());
            assert(e.len() != "svg"@.len());
            assert(e[0] != "heic"@[0]);
            assert(e[0] != "heif"@[0]);
            assert(e.len() != "md"@.len());
            assert(e.len() != "markdown"@.len());
            assert(e[0] != "html"@[0]);
            assert(e.len() != "htm"@.len());
            assert(e.len() != "pdf"@.len());
            assert(e.len() != "txt"@.len());
            assert(e[0] != "json"@[0]);
            assert(e[0] != "yaml"@[0]);
            assert(e.len() != "yml"@.len());
        },
        Format::Csv => {
            assert(e[0] != "png"@[0]);
            assert(e[0] != "jpg"@[0]);
            assert(e.len() != "jpeg"@.len());
            assert(e.len() != "webp"@.len());
            assert(e.len() != "avif"@.len());
            assert(e[0] != "gif"@[0]);
            assert(e[0] != "bmp"@[0]);
            assert(e.len() != "tiff"@.len());
            assert(e[0] != "tif"@[0]);
            assert(e[0] != "ico"@[0]);
            assert(e[0] != "svg"@[0]);
            assert(e.len() != "heic"@.len());
            assert(e.len() != "heif"@.len());
            assert(e.len() != "md"@.len());
            assert(e.len() != "markdown"@.len());
            assert(e.len() != "html"@.len());
            assert(e[0] != "htm"@[0]);
            assert(e[0] != "pdf"@[0]);
            assert(e[0] != "txt"@[0]);
            assert(e.len() != "json"@.len());
            assert(e.len() != "yaml"@.len());
            assert(e[0] != "yml"@[0]);
            assert(e.len() != "toml"@.len());
        },
        Format::Xml => {
            assert(e[0] != "png"@[0]);
            assert(e[0] != "jpg"@[0]);
            assert(e.len() != "jpeg"@.len());
            assert(e.len() != "webp"@.len());
            assert(e.len() != "avif"@.len());
            assert(e[0] != "gif"@[0]);
            assert(e[0] != "bmp"@[0]);
            assert(e.len() != "tiff"@.len());
            assert(e[0] != "tif"@[0]);
            assert(e[0] != "ico"@[0]);
            assert(e[0] != "svg"@[0]);
            assert(e.len() != "heic"@.len());
            assert(e.len() != "heif"@.len());
            assert(e.len() != "md"@.len());
            assert(e.len() != "markdown"@.len());
            assert(e.len() != "html"@.len());
            assert(e[0] != "htm"@[0]);
            assert(e[0] != "pdf"@[0]);
            assert(e[0] != "txt"@[0]);
            assert(e.len() != "json"@.len());
            assert(e.len() != "yaml"@.len());
            assert(e[0] != "yml"@[0]);
            assert(e.len() != "toml"@.len());
            assert(e[0] != "csv"@[0]);
        },
    }
}

/// Every name the format table recognizes is ASCII lowercase text.
proof fn lemma_recognized_names_are_lowercase(s: Seq<char>)
    ensures
        Format::spec_from_lower(s) is Some ==> is_ascii_text(s) && ascii_lower(s) == s,
{
    reveal_strlit("png");
    reveal_strlit("jpg");
    reveal_strlit("jpeg");
    reveal_strlit("webp");
    reveal_strlit("avif");
    reveal_strlit("gif");
    reveal_strlit("bmp");
    reveal_strlit("tiff");
    reveal_strlit("tif");
    reveal_strlit("ico");
    reveal_strlit("svg");
    reveal_strlit("heic");
    reveal_strlit("heif");
    reveal_strlit("md");
    reveal_strlit("markdown");
    reveal_strlit("html");
    reveal_strlit("htm");
    reveal_strlit("pdf");
    reveal_strlit("txt");
    reveal_strlit("json");
    reveal_strlit("yaml");
    reveal_strlit("yml");
    reveal_strlit("toml");
    reveal_strlit("csv");
    reveal_strlit("xml");
    if Format::spec_from_lower(s) is Some {
        assert(ascii_lower(s) =~= s);
    }
}

/// The alternative spellings name the same format as the extension that
/// format writes: `jpeg`, `tif`, `heif`, `markdown`, `htm` and `yml`.
pub proof fn lemma_extension_aliases()
    ensures
        Format::spec_from_lower("jpeg"@) == Some(Format::Jpeg) && Format::Jpeg.spec_extension() == "jpg"@,
        Format::spec_from_lower("tif"@) == Some(Format::Tiff) && Format::Tiff.spec_extension() == "tiff"@,
        Format::spec_from_lower("heif"@) == Some(Format::Heif) && Format::Heif.spec_extension() == "heic"@,
        Format::spec_from_lower("markdown"@) == Some(Format::Markdown) && Format::Markdown.spec_extension() == "md"@,
        Format::spec_from_lower("htm"@) == Some(Format::Html) && Format::Html.spec_extension() == "html"@,
        Format::spec_from_lower("yml"@) == Some(Format::Yaml) && Format::Yaml.spec_extension() == "yaml"@,
{
    reveal_strlit("png");
    reveal_strlit("jpg");
    reveal_strlit("jpeg");
    reveal_strlit("webp");
    reveal_strlit("avif");
    reveal_strlit("gif");
    reveal_strlit("bmp");
    reveal_strlit("tiff");
    reveal_strlit("tif");
    reveal_strlit("ico");
    reveal_strlit("svg");
    reveal_strlit("heic");
    reveal_strlit("heif");
    reveal_strlit("md");
    reveal_strlit("markdown");
    reveal_strlit("html");
    reveal_strlit("htm");
    reveal_strlit("pdf");
    reveal_strlit("txt");
    reveal_strlit("json");
    reveal_strlit("yaml");
    reveal_strlit("yml");
    assert("jpeg"@.len() != "png"@.len());
    assert("jpeg"@.len() != "jpg"@.len());
    assert("tif"@[0] != "png"@[0]);
    assert("tif"@[0] != "jpg"@[0]);
    assert("tif"@.len() != "jpeg"@.len());
    assert("tif"@.len() != "webp"@.len());
    assert("tif"@.len() != "avif"@.len());
    assert("tif"@[0] != "gif"@[0]);
    assert("tif"@[0] != "bmp"@[0]);
    assert("tif"@.len() != "tiff"@.len());
    assert("heif"@.len() != "png"@.len());
    assert("heif"@.len() != "jpg"@.len());
    assert("heif"@[0] != "jpeg"@[0]);
    assert("heif"@[0] != "webp"@[0]);
    assert("heif"@[0] != "avif"@[0]);
    assert("heif"@.len() != "gif"@.len());
    assert("heif"@.len() != "bmp"@.len());
    assert("heif"@[0] != "tiff"@[0]);
    assert("heif"@.len() != "tif"@.len());
    assert("heif"@.len() != "ico"@.len());
    assert("heif"@.len() != "svg"@.len());
    assert("heif"@[3] != "heic"@[3]);
    assert("markdown"@.len() != "png"@.len());
    assert("markdown"@.len() != "jpg"@.len());
    assert("markdown"@.len() != "jpeg"@.len());
    assert("markdown"@.len() != "webp"@.len());
    assert("markdown"@.len() != "avif"@.len());
    assert("markdown"@.len() != "gif"@.len());
    assert("markdown"@.len() != "bmp"@.len());
    assert("markdown"@.len() != "tiff"@.len());
    assert("markdown"@.len() != "tif"@.len());
    assert("markdown"@.len() != "ico"@.len());
    assert("markdown"@.len() != "svg"@.len());
    assert("markdown"@.len() != "heic"@.len());
    assert("markdown"@.len() != "heif"@.len());
    assert("markdown"@.len() != "md"@.len());
    assert("htm"@[0] != "png"@[0]);
    assert("htm"@[0] != "jpg"@[0]);
    assert("htm"@.len() != "jpeg"@.len());
    assert("htm"@.len() != "webp"@.len());
    assert("htm"@.len() != "avif"@.len());
    assert("htm"@[0] != "gif"@[0]);
    assert("htm"@[0] != "bmp"@[0]);
    assert("htm"@.len() != "tiff"@.len());
    assert("htm"@[0] != "tif"@[0]);
    assert("htm"@[0] != "ico"@[0]);
    assert("htm"@[0] != "svg"@[0]);
    assert("htm"@.len() != "heic"@.len());
    assert("htm"@.len() != "heif"@.len());
    assert("htm"@.len() != "md"@.len());
    assert("htm"@.len() != "markdown"@.len());
    assert("htm"@.len() != "html"@.len());
    assert("yml"@[0] != "png"@[0]);
    assert("yml"@[0] != "jpg"@[0]);
    assert("yml"@.len() != "jpeg"@.len());
    assert("yml"@.len() != "webp"@.len());
    assert("yml"@.len() != "avif"@.len());
    assert("yml"@[0] != "gif"@[0]);
    assert("yml"@[0] != "bmp"@[0]);
    assert("yml"@.len() != "tiff"@.len());
    assert("yml"@[0] != "tif"@[0]);
    assert("yml"@[0] != "ico"@[0]);
    assert("yml"@[0] != "svg"@[0]);
    assert("yml"@.len() != "heic"@.len());
    assert("yml"@.len() != "heif"@.len());
    assert("yml"@.len() != "md"@.len());
    assert("yml"@.len() != "markdown"@.len());
    assert("yml"@.len() != "html"@.len());
    assert("yml"@[0] != "htm"@[0]);
    assert("yml"@[0] != "pdf"@[0]);
    assert("yml"@[0] != "txt"@[0]);
    assert("yml"@.len() != "json"@.len());
    assert("yml"@.len() != "yaml"@.len());
}

/// Recognition ignores ASCII letter case: an ASCII name and its uppercase
/// (or any other casing that lowercases to the same text) name the same format.
pub proof fn lemma_from_extension_ignores_ascii_case(s: Seq<char>)
    requires
        is_ascii_text(s),
    ensures
        is_ascii_text(ascii_upper(s)),
        Format::spec_from_lower(ascii_lower(ascii_upper(s))) == Format::spec_from_lower(ascii_lower(s)),
{
    assert(ascii_lower(ascii_upper(s)) =~= ascii_lower(s));
}

/// A format belongs to exactly the category `category()` reports, and the
/// three categories split the formats: images, documents and data formats.
pub proof fn lemma_categories(f: Format)
    ensures
        (f.spec_category() == Category::Image) <==> (f == Format::Png || f == Format::Jpeg
            || f == Format::Webp || f == Format::Avif || f == Format::Gif || f == Format::Bmp
            || f == Format::Tiff || f == Format::Ico || f == Format::Svg || f == Format::Heif),
        (f.spec_category() == Category::Document) <==> (f == Format::Markdown || f == Format::Html
            || f == Format::Pdf || f == Format::PlainText),
        (f.spec_category() == Category::Data) <==> (f == Format::Json || f == Format::Yaml
            || f == Format::Toml || f == Format::Csv || f == Format::Xml),
{
}

} // verus!
