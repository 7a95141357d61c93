//! Routing a conversion to the converter family that handles it.

use vstd::prelude::*;
use crate::formats::{Category, Format};

verus! {

/// The converter family a conversion goes to.
#[derive(Debug, Clone, Copy, PartialEq, Eq, Structural)]
pub enum Route {
    Image,
    Data,
    Document,
}

/// Why a conversion between two formats was refused before any work.
#[derive(Debug, Clone, Copy, PartialEq, Eq, Structural)]
pub enum RouteError {
    /// Documents are not rendered to images.
    DocumentToImage,
    /// Images are not turned into documents.
    ImageToDocument,
    /// Any other pair of different categories.
    CrossCategory(Category, Category),
}

/// The route of a conversion: within a category it goes to that category's
/// converter; across categories it is refused.
pub open spec fn spec_route(src: Format, target: Format) -> Result<Route, RouteError> {
    match (src.spec_category(), target.spec_category()) {
        (Category::Image, Category::Image) => Ok(Route::Image),
        (Category::Data, Category::Data) => Ok(Route::Data),
        (Category::Document, Category::Document) => Ok(Route::Document),
        (Category::Document, Category::Image) => Err(RouteError::DocumentToImage),
        (Category::Image, Category::Document) => Err(RouteError::ImageToDocument),
        (s, t) => Err(RouteError::CrossCategory(s, t)),
    }
}

/// Chooses the converter for a conversion from `src` to `target`.
pub fn route(src: &Format, target: &Format) -> (r: Result<Route, RouteError>)
    ensures
        r == spec_route(*src, *target),
{
    match (src.category(), target.category()) {
        (Category::Image, Category::Image) => Ok(Route::Image),
        (Category::Data, Category::Data) => Ok(Route::Data),
        (Category::Document, Category::Document) => Ok(Route::Document),
        (Category::Document, Category::Image) => Err(RouteError::DocumentToImage),
        (Category::Image, Category::Document) => Err(RouteError::ImageToDocument),
        (s, t) => Err(RouteError::CrossCategory(s, t)),
    }
}

/// The message of each refusal.
pub open spec fn spec_route_error_message(e: RouteError) -> Seq<char> {
    match e {
        RouteError::DocumentToImage => "Document \u{2192} Image not supported yet"@,
        RouteError::ImageToDocument => "Image \u{2192} Document not supported yet"@,
        RouteError::CrossCategory(s, t) =>
            "Cross-category conversion "@ + s.spec_name() + " \u{2192} "@ + t.spec_name() + " not supported"@,
    }
}

/// The message a refused route reports.
pub fn route_error_message(e: &RouteError) -> (r: String)
    ensures
        r@ == spec_route_error_message(*e),
{
    match e {
        RouteError::DocumentToImage => String::from_str("Document \u{2192} Image not supported yet"),
        RouteError::ImageToDocument => String::from_str("Image \u{2192} Document not supported yet"),
        RouteError::CrossCategory(s, t) => {
            let mut m = String::from_str("Cross-category conversion ");
            m.append(s.name());
            m.append(" \u{2192} ");
            m.append(t.name());
            m.append(" not supported");
            m
        },
    }
}

/// A conversion is routed exactly when both formats share a category, and
/// then to that category's converter; every other pair is refused.
pub proof fn lemma_route_within_category(src: Format, target: Format)
    ensures
        spec_route(src, target) is Ok <==> src.spec_category() == target.spec_category(),
        spec_route(src, target) == Ok::<Route, RouteError>(Route::Image) <==> (src.spec_category() == Category::Image
            && target.spec_category() == Category::Image),
        spec_route(src, target) == Ok::<Route, RouteError>(Route::Data) <==> (src.spec_category() == Category::Data
            && target.spec_category() == Category::Data),
        spec_route(src, target) == Ok::<Route, RouteError>(Route::Document) <==> (src.spec_category() == Category::Document
            && target.spec_category() == Category::Document),
{
}

} // verus!
