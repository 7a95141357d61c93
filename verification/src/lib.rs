//! convr: a universal local file converter.
//!
//! The library holds the converter's decisions and text transformations:
//! format recognition, conversion routing, the data-format bridges
//! (CSV and XML to and from a JSON value model) and the document
//! transformations (HTML tag stripping, text escaping).

pub mod text;
pub mod formats;
pub mod document;
pub mod convert;
pub mod image;
pub mod backends;
pub mod json;
pub mod data;
pub mod csv_data;
pub mod xml_data;
pub mod detect;
pub mod batch;
