//! Data-format conversions: which syntaxes a conversion reads and writes,
//! and why one fails.

use vstd::prelude::*;
use crate::formats::Format;
use crate::json::{Json, Value, from_serde, json_of, to_serde};
use serde_json::Value as LibJson;
use crate::csv_data::{csv_rows, csv_to_json, json_to_csv, spec_csv_to_json, spec_json_to_csv};
use crate::xml_data::{XmlOutcome, json_to_xml, spec_xml_to_json, xml_declaration, xml_of, xml_to_json, xml_tokens};

verus! {

/// A data syntax the converter reads or writes.
#[derive(Debug, Clone, Copy, PartialEq, Eq, Structural)]
pub enum DataSyntax {
    Json,
    Yaml,
    Toml,
    Csv,
    Xml,
}

/// Why a data conversion failed.
#[derive(Debug)]
pub enum DataError {
    /// The source format is not a data format.
    UnsupportedSource(Format),
    /// The target format is not a data format; the format it names is the
    /// conversion's source.
    UnsupportedTarget(Format),
    /// The CSV reader rejected the input; its message.
    Csv(String),
    /// The XML reader rejected the input; its message.
    Xml(String),
    /// The XML input closed no top-level element.
    XmlNoRoot,
    /// CSV output needs a JSON array.
    CsvNeedsArray,
    /// CSV output takes its header from an object as first element.
    CsvNeedsObject,
    /// CSV output met an array element that is not an object.
    CsvNonObject,
    /// The JSON, YAML or TOML library rejected the input; its message.
    Parse(DataSyntax, String),
    /// The JSON, YAML or TOML library could not write the value; its message.
    Serialize(DataSyntax, String),
}

/// The data syntax of a format, if it is a data format.
pub open spec fn spec_syntax(f: Format) -> Option<DataSyntax> {
    match f {
        Format::Json => Some(DataSyntax::Json),
        Format::Yaml => Some(DataSyntax::Yaml),
        Format::Toml => Some(DataSyntax::Toml),
        Format::Csv => Some(DataSyntax::Csv),
        Format::Xml => Some(DataSyntax::Xml),
        _ => None,
    }
}

/// Exactly the data formats have a data syntax, each its own: JSON, YAML,
/// TOML, CSV and XML are read and written as themselves.
pub proof fn lemma_data_syntaxes(f: Format)
    ensures
        spec_syntax(f) is Some <==> f.spec_category() == crate::formats::Category::Data,
        f == Format::Json <==> spec_syntax(f) == Some(DataSyntax::Json),
        f == Format::Yaml <==> spec_syntax(f) == Some(DataSyntax::Yaml),
        f == Format::Toml <==> spec_syntax(f) == Some(DataSyntax::Toml),
        f == Format::Csv <==> spec_syntax(f) == Some(DataSyntax::Csv),
        f == Format::Xml <==> spec_syntax(f) == Some(DataSyntax::Xml),
{
}

/// The syntax a conversion reads.
pub fn source_syntax(src: &Format) -> (r: Result<DataSyntax, DataError>)
    ensures
        match spec_syntax(*src) {
            Some(s) => r matches Ok(t) && t == s,
            None => r matches Err(DataError::UnsupportedSource(f)) && f == *src,
        },
{
    match src {
        Format::Json => Ok(DataSyntax::Json),
        Format::Yaml => Ok(DataSyntax::Yaml),
        Format::Toml => Ok(DataSyntax::Toml),
        Format::Csv => Ok(DataSyntax::Csv),
        Format::Xml => Ok(DataSyntax::Xml),
        _ => Err(DataError::UnsupportedSource(*src)),
    }
}

/// The syntax a conversion writes; a refusal names the source format.
pub fn target_syntax(src: &Format, target: &Format) -> (r: Result<DataSyntax, DataError>)
    ensures
        match spec_syntax(*target) {
            Some(s) => r matches Ok(t) && t == s,
            None => r matches Err(DataError::UnsupportedTarget(f)) && f == *src,
        },
{
    match target {
        Format::Json => Ok(DataSyntax::Json),
        Format::Yaml => Ok(DataSyntax::Yaml),
        Format::Toml => Ok(DataSyntax::Toml),
        Format::Csv => Ok(DataSyntax::Csv),
        Format::Xml => Ok(DataSyntax::Xml),
        _ => Err(DataError::UnsupportedTarget(*src)),
    }
}

/// The message of each data error.
pub open spec fn spec_data_error_message(e: DataError) -> Seq<char> {
    match e {
        DataError::UnsupportedSource(f) => "Unsupported data source format: "@ + f.spec_name(),
        DataError::UnsupportedTarget(f) => "Unsupported data target format: "@ + f.spec_name(),
        DataError::Csv(m) => m@,
        DataError::Xml(m) => m@,
        DataError::XmlNoRoot => "Failed to parse XML"@,
        DataError::CsvNeedsArray => "JSON must be an array for CSV output"@,
        DataError::CsvNeedsObject => "Each JSON element must be an object"@,
        DataError::CsvNonObject => "Non-object in array"@,
        DataError::Parse(_, m) => m@,
        DataError::Serialize(_, m) => m@,
    }
}

/// The message a data error reports.
pub fn data_error_message(e: &DataError) -> (r: String)
    ensures
        r@ == spec_data_error_message(*e),
{
    match e {
        DataError::UnsupportedSource(f) => {
            let mut m = String::from_str("Unsupported data source format: ");
            m.append(f.name());
            m
        },
        DataError::UnsupportedTarget(f) => {
            let mut m = String::from_str("Unsupported data target format: ");
            m.append(f.name());
            m
        },
        DataError::Csv(m) => m.clone(),
        DataError::Xml(m) => m.clone(),
        DataError::XmlNoRoot => String::from_str("Failed to parse XML"),
        DataError::CsvNeedsArray => String::from_str("JSON must be an array for CSV output"),
        DataError::CsvNeedsObject => String::from_str("Each JSON element must be an object"),
        DataError::CsvNonObject => String::from_str("Non-object in array"),
        DataError::Parse(_, m) => m.clone(),
        DataError::Serialize(_, m) => m.clone(),
    }
}

/// What `serde_json::from_str` makes of a text, read as a JSON value: the
/// value, or the library's error message.
pub uninterp spec fn serde_json_parsed(text: Seq<char>) -> Result<Json, Seq<char>>;

/// What `serde_yaml::from_str` makes of a text, read as a JSON value.
pub uninterp spec fn serde_yaml_parsed(text: Seq<char>) -> Result<Json, Seq<char>>;

/// What `toml::from_str` makes of a text, as a TOML value turned into a
/// JSON value by `serde_json::to_value`.
pub uninterp spec fn toml_parsed(text: Seq<char>) -> Result<Json, Seq<char>>;

/// What `serde_json::to_string_pretty` writes for a value.
pub uninterp spec fn serde_json_pretty(j: Json) -> Result<Seq<char>, Seq<char>>;

/// What `serde_yaml::to_string` writes for a value.
pub uninterp spec fn serde_yaml_text(j: Json) -> Result<Seq<char>, Seq<char>>;

/// What `toml::to_string_pretty` writes for a value, once
/// `serde_json::from_value` has made it a TOML value.
pub uninterp spec fn toml_pretty(j: Json) -> Result<Seq<char>, Seq<char>>;

/// Parses JSON text with `serde_json::from_str` into the library's value
/// type, taken into the model. The outcome depends on the text alone and
/// is named.
#[verifier::external_body]
fn parse_json_text(text: &str) -> (r: Result<Value, String>)
    ensures
        match serde_json_parsed(text@) {
            Ok(j) => r matches Ok(v) && json_of(v) == j,
            Err(m) => r matches Err(e) && e@ == m,
        },
{
    serde_json::from_str::<LibJson>(text).map(from_serde).map_err(|e| e.to_string())
}

/// Parses YAML text with `serde_yaml::from_str` into the JSON library's
/// value type, taken into the model. The outcome depends on the text alone.
#[verifier::external_body]
fn parse_yaml_text(text: &str) -> (r: Result<Value, String>)
    ensures
        match serde_yaml_parsed(text@) {
            Ok(j) => r matches Ok(v) && json_of(v) == j,
            Err(m) => r matches Err(e) && e@ == m,
        },
{
    serde_yaml::from_str::<LibJson>(text).map(from_serde).map_err(|e| e.to_string())
}

/// Parses TOML text with `toml::from_str` into a TOML value, which
/// `serde_json::to_value` turns into the JSON library's value type, taken
/// into the model. The outcome depends on the text alone.
#[verifier::external_body]
fn parse_toml_text(text: &str) -> (r: Result<Value, String>)
    ensures
        match toml_parsed(text@) {
            Ok(j) => r matches Ok(v) && json_of(v) == j,
            Err(m) => r matches Err(e) && e@ == m,
        },
{
    let t: toml::Value = toml::from_str(text).map_err(|e: toml::de::Error| e.to_string())?;
    serde_json::to_value(t).map(from_serde).map_err(|e| e.to_string())
}

/// Writes a value as pretty JSON with `serde_json::to_string_pretty`. The
/// text depends on the value alone.
#[verifier::external_body]
fn write_json_pretty(v: &Value) -> (r: Result<String, String>)
    ensures
        match serde_json_pretty(json_of(*v)) {
            Ok(t) => r matches Ok(s) && s@ == t,
            Err(m) => r matches Err(e) && e@ == m,
        },
{
    serde_json::to_string_pretty(&to_serde(v)?).map_err(|e| e.to_string())
}

/// Writes a value as YAML with `serde_yaml::to_string`. The text depends
/// on the value alone.
#[verifier::external_body]
fn write_yaml(v: &Value) -> (r: Result<String, String>)
    ensures
        match serde_yaml_text(json_of(*v)) {
            Ok(t) => r matches Ok(s) && s@ == t,
            Err(m) => r matches Err(e) && e@ == m,
        },
{
    serde_yaml::to_string(&to_serde(v)?).map_err(|e| e.to_string())
}

/// Writes a value as TOML: `serde_json::from_value` makes it a TOML value
/// and `toml::to_string_pretty` writes it. The text depends on the value
/// alone.
#[verifier::external_body]
fn write_toml(v: &Value) -> (r: Result<String, String>)
    ensures
        match toml_pretty(json_of(*v)) {
            Ok(t) => r matches Ok(s) && s@ == t,
            Err(m) => r matches Err(e) && e@ == m,
        },
{
    let t: toml::Value = serde_json::from_value(to_serde(v)?).map_err(|e| e.to_string())?;
    toml::to_string_pretty(&t).map_err(|e| e.to_string())
}

/// A data conversion's failure as the contracts see it: the messages of
/// the CSV and XML readers are left out.
pub enum DataFailure {
    UnsupportedSource(Format),
    UnsupportedTarget(Format),
    Csv,
    Xml,
    XmlNoRoot,
    CsvNeedsArray,
    CsvNeedsObject,
    CsvNonObject,
    Parse(DataSyntax, Seq<char>),
    Serialize(DataSyntax, Seq<char>),
}

/// The failure an error stands for.
pub open spec fn failure_of(e: DataError) -> DataFailure {
    match e {
        DataError::UnsupportedSource(f) => DataFailure::UnsupportedSource(f),
        DataError::UnsupportedTarget(f) => DataFailure::UnsupportedTarget(f),
        DataError::Csv(_) => DataFailure::Csv,
        DataError::Xml(_) => DataFailure::Xml,
        DataError::XmlNoRoot => DataFailure::XmlNoRoot,
        DataError::CsvNeedsArray => DataFailure::CsvNeedsArray,
        DataError::CsvNeedsObject => DataFailure::CsvNeedsObject,
        DataError::CsvNonObject => DataFailure::CsvNonObject,
        DataError::Parse(s, m) => DataFailure::Parse(s, m@),
        DataError::Serialize(s, m) => DataFailure::Serialize(s, m@),
    }
}

/// The value a text in a data syntax reads as.
pub open spec fn spec_read(s: DataSyntax, content: Seq<char>) -> Result<Json, DataFailure> {
    match s {
        DataSyntax::Json => match serde_json_parsed(content) {
            Ok(j) => Ok(j),
            Err(m) => Err(DataFailure::Parse(DataSyntax::Json, m)),
        },
        DataSyntax::Yaml => match serde_yaml_parsed(content) {
            Ok(j) => Ok(j),
            Err(m) => Err(DataFailure::Parse(DataSyntax::Yaml, m)),
        },
        DataSyntax::Toml => match toml_parsed(content) {
            Ok(j) => Ok(j),
            Err(m) => Err(DataFailure::Parse(DataSyntax::Toml, m)),
        },
        DataSyntax::Csv => match spec_csv_to_json(csv_rows(content)) {
            Some(j) => Ok(j),
            None => Err(DataFailure::Csv),
        },
        DataSyntax::Xml => match spec_xml_to_json(xml_tokens(content)) {
            XmlOutcome::Tree(j) => Ok(j),
            XmlOutcome::NoRoot => Err(DataFailure::XmlNoRoot),
            XmlOutcome::Failed => Err(DataFailure::Xml),
        },
    }
}

/// The text a value is written as in a data syntax.
pub open spec fn spec_write(s: DataSyntax, j: Json) -> Result<Seq<char>, DataFailure> {
    match s {
        DataSyntax::Json => match serde_json_pretty(j) {
            Ok(t) => Ok(t),
            Err(m) => Err(DataFailure::Serialize(DataSyntax::Json, m)),
        },
        DataSyntax::Yaml => match serde_yaml_text(j) {
            Ok(t) => Ok(t),
            Err(m) => Err(DataFailure::Serialize(DataSyntax::Yaml, m)),
        },
        DataSyntax::Toml => match toml_pretty(j) {
            Ok(t) => Ok(t),
            Err(m) => Err(DataFailure::Serialize(DataSyntax::Toml, m)),
        },
        DataSyntax::Csv => match spec_json_to_csv(j) {
            Ok(t) => Ok(t),
            Err(e) => Err(failure_of(e)),
        },
        DataSyntax::Xml => Ok(xml_declaration() + xml_of("root"@, j)),
    }
}

/// A data conversion: the source syntax is chosen, the text read into a
/// value, the target syntax chosen, and the value written in it.
pub open spec fn spec_convert_data(content: Seq<char>, src: Format, target: Format) -> Result<Seq<char>, DataFailure> {
    match spec_syntax(src) {
        None => Err(DataFailure::UnsupportedSource(src)),
        Some(s) => match spec_read(s, content) {
            Err(f) => Err(f),
            Ok(j) => match spec_syntax(target) {
                None => Err(DataFailure::UnsupportedTarget(src)),
                Some(t) => spec_write(t, j),
            },
        },
    }
}

/// Converts the text of a data file from one syntax to another, through
/// the JSON value model.
pub fn convert_data(content: &str, src: &Format, target: &Format) -> (r: Result<String, DataError>)
    ensures
        match (r, spec_convert_data(content@, *src, *target)) {
            (Ok(out), Ok(t)) => out@ == t,
            (Err(e), Err(f)) => failure_of(e) == f,
            _ => false,
        },
{
    let syntax = match source_syntax(src) {
        Ok(s) => s,
        Err(e) => return Err(e),
    };
    let parsed = match syntax {
        DataSyntax::Json => match parse_json_text(content) {
            Ok(v) => Ok(v),
            Err(m) => Err(DataError::Parse(DataSyntax::Json, m)),
        },
        DataSyntax::Yaml => match parse_yaml_text(content) {
            Ok(v) => Ok(v),
            Err(m) => Err(DataError::Parse(DataSyntax::Yaml, m)),
        },
        DataSyntax::Toml => match parse_toml_text(content) {
            Ok(v) => Ok(v),
            Err(m) => Err(DataError::Parse(DataSyntax::Toml, m)),
        },
        DataSyntax::Csv => csv_to_json(content),
        DataSyntax::Xml => xml_to_json(content),
    };
    let value = match parsed {
        Ok(v) => v,
        Err(e) => return Err(e),
    };
    let out_syntax = match target_syntax(src, target) {
        Ok(s) => s,
        Err(e) => return Err(e),
    };
    match out_syntax {
        DataSyntax::Json => match write_json_pretty(&value) {
            Ok(t) => Ok(t),
            Err(m) => Err(DataError::Serialize(DataSyntax::Json, m)),
        },
        DataSyntax::Yaml => match write_yaml(&value) {
            Ok(t) => Ok(t),
            Err(m) => Err(DataError::Serialize(DataSyntax::Yaml, m)),
        },
        DataSyntax::Toml => match write_toml(&value) {
            Ok(t) => Ok(t),
            Err(m) => Err(DataError::Serialize(DataSyntax::Toml, m)),
        },
        DataSyntax::Csv => json_to_csv(&value),
        DataSyntax::Xml => Ok(json_to_xml(&value)),
    }
}

} // verus!
