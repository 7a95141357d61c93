//! Recognizing the format of an input file.

use vstd::prelude::*;
use crate::formats::Format;

verus! {

/// The extension that the `infer` crate's signature table gives for the
/// leading bytes of a file, if any signature matches.
pub uninterp spec fn magic_extension(bytes: Seq<u8>) -> Option<Seq<char>>;

/// Calls `infer::get` on the bytes and takes the extension of the type it
/// finds. The table of signatures it checks is long; its answer depends on
/// the bytes alone and is named, not stated.
#[verifier::external_body]
fn infer_extension(bytes: &[u8]) -> (r: Option<&'static str>)
    ensures
        match r {
            Some(e) => magic_extension(bytes@) == Some(e@),
            None => magic_extension(bytes@) is None,
        },
{
    match infer::get(bytes) {
        Some(kind) => Some(kind.extension()),
        None => None,
    }
}

/// The format a file is taken to be: the one its extension names, else the
/// one its leading bytes reveal.
pub open spec fn spec_detect_with(extension: Option<Seq<char>>, inferred: Option<Seq<char>>) -> Option<Format> {
    let by_extension = match extension {
        Some(e) => Format::spec_from_extension(e),
        None => None,
    };
    if by_extension is Some {
        by_extension
    } else {
        match inferred {
            Some(e) => Format::spec_from_extension(e),
            None => None,
        }
    }
}

/// The format of a file whose name has `extension` and whose contents the
/// signature table recognizes as `inferred` (each where known).
pub fn detect_with(extension: Option<&str>, inferred: Option<&str>) -> (r: Option<Format>)
    ensures
        r == spec_detect_with(
            match extension { Some(e) => Some(e@), None => None },
            match inferred { Some(e) => Some(e@), None => None },
        ),
{
    let by_extension = match extension {
        Some(e) => Format::from_extension(e),
        None => None,
    };
    if by_extension.is_some() {
        return by_extension;
    }
    match inferred {
        Some(e) => Format::from_extension(e),
        None => None,
    }
}

/// Detects the format of a file from its extension, falling back to the
/// signature of its contents (where they could be read).
pub fn detect(extension: Option<&str>, contents: Option<&[u8]>) -> (r: Option<Format>)
    ensures
        r == spec_detect_with(
            match extension { Some(e) => Some(e@), None => None },
            match contents { Some(b) => magic_extension(b@), None => None },
        ),
{
    let by_extension = detect_with(extension, None);
    if by_extension.is_some() {
        return by_extension;
    }
    match contents {
        Some(bytes) => {
            let inferred = infer_extension(bytes);
            detect_with(extension, inferred)
        },
        None => None,
    }
}

/// A recognized extension decides alone: the contents are consulted only
/// when the extension names no format.
pub proof fn lemma_extension_first(e: Seq<char>, inferred: Option<Seq<char>>)
    requires
        Format::spec_from_extension(e) is Some,
    ensures
        spec_detect_with(Some(e), inferred) == Format::spec_from_extension(e),
{
}

/// The contents decide only when the extension is missing or names no
/// format, and then the format their signature's extension names.
pub proof fn lemma_detect_fallback(extension: Option<Seq<char>>, inferred: Option<Seq<char>>)
    requires
        match extension {
            Some(e) => Format::spec_from_extension(e) is None,
            None => true,
        },
    ensures
        spec_detect_with(extension, inferred) == match inferred {
            Some(e) => Format::spec_from_extension(e),
            None => None::<Format>,
        },
{
}

} // verus!
