//! The result of scanning a project: each image with its path relative to the root and
//! the atlas config paired with it.
use vstd::prelude::*;
use crate::atlas::{AtlasInfo, InfoView};
use crate::index::{AtlasIndex, ImageConfigs, atlas_for_image_with_index, image_atlas};

verus! {

/// One image of a project.
#[derive(Clone, Debug, PartialEq)]
pub struct ImageScanResult {
    pub path: String,
    pub relative_path: String,
    pub atlas: Option<AtlasInfo>,
}

/// An image found by the scan, with what its directory offers for pairing.
pub struct ImageSources {
    pub path: String,
    pub configs: ImageConfigs,
}

/// The view of an optional config.
pub open spec fn opt_info(o: Option<AtlasInfo>) -> Option<InfoView> {
    match o {
        Some(i) => Some(i@),
        None => None,
    }
}

/// The scan result for one image: its path, its path relative to the root, and the
/// config paired with it.
pub open spec fn scan_result_ok(
    r: ImageScanResult,
    root: Seq<char>,
    image: ImageSources,
    index: Seq<crate::index::EntryView>,
) -> bool {
    &&& r.path@ == image.path@
    &&& r.relative_path@ == crate::path::relative_path(root, image.path@)
    &&& opt_info(r.atlas) == image_atlas(index, image.path@, image.configs)
}

/// The scan results of a project's images, in the order given.
pub fn map_image_results(root: &str, images: &Vec<ImageSources>, index: &AtlasIndex) -> (r: Vec<
    ImageScanResult,
>)
    ensures
        r.len() == images.len(),
        forall|i: int| 0 <= i < r.len() ==> scan_result_ok(#[trigger] r@[i], root@, images@[i], index@),
{
    let rc = crate::text::chars_of(root);
    let mut out: Vec<ImageScanResult> = Vec::new();
    let mut k: usize = 0;
    while k < images.len()
        invariant
            k <= images.len(),
            rc@ == root@,
            out.len() == k,
            forall|i: int| 0 <= i < k ==> scan_result_ok(#[trigger] out@[i], root@, images@[i], index@),
        decreases images.len() - k,
    {
        let image = &images[k];
        let pc = crate::text::chars_of(image.path.as_str());
        let rel = crate::path::relative_path_exec(rc.as_slice(), pc.as_slice());
        let atlas = atlas_for_image_with_index(image.path.as_str(), index, &image.configs);
        let result = ImageScanResult {
            path: image.path.clone(),
            relative_path: crate::text::string_of(rel.as_slice()),
            atlas,
        };
        assert(scan_result_ok(result, root@, images@[k as int], index@));
        out.push(result);
        k = k + 1;
    }
    out
}

} // verus!
