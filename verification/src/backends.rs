//! Which native library backends this build carries.

use vstd::prelude::*;

verus! {

/// A native backend and whether this build was made with it.
pub struct BackendInfo {
    pub name: &'static str,
    pub available: bool,
}

/// Reports the optional native backends: HEIF decoding (libheif), fast
/// raster processing (libvips) and PDF (MuPDF). This build carries none of
/// them, so each is reported unavailable.
pub fn available_backends() -> (r: Vec<BackendInfo>)
    ensures
        r@.len() == 3,
        r@[0].name@ == "heif"@,
        r@[1].name@ == "vips"@,
        r@[2].name@ == "mupdf"@,
        forall|i: int| 0 <= i < r@.len() ==> !(#[trigger] r@[i]).available,
{
    let mut v: Vec<BackendInfo> = Vec::new();
    v.push(BackendInfo { name: "heif", available: false });
    v.push(BackendInfo { name: "vips", available: false });
    v.push(BackendInfo { name: "mupdf", available: false });
    v
}

} // verus!
