//! Exporting images into a zip archive: what the archive entries are named.
use vstd::prelude::*;

verus! {

/// An image to export: its file and its path relative to the project root.
#[derive(Clone, Debug, PartialEq)]
pub struct ExportEntry {
    pub path: String,
    pub relative_path: String,
}

/// The name of an entry in the archive: the relative path with `\` turned into `/`.
pub open spec fn zip_name(relative_path: Seq<char>) -> Seq<char> {
    crate::text::replaced(relative_path, seq!['\\'], seq!['/'])
}

impl ExportEntry {
    /// The name under which this image is stored in the archive.
    pub fn zip_entry_name(&self) -> (r: String)
        ensures
            r@ == zip_name(self.relative_path@),
    {
        let rel = crate::text::chars_of(self.relative_path.as_str());
        let from = vec!['\\'];
        let to = vec!['/'];
        assert(from@ =~= seq!['\\']);
        assert(to@ =~= seq!['/']);
        let n = crate::text::replace(rel.as_slice(), from.as_slice(), to.as_slice());
        crate::text::string_of(n.as_slice())
    }
}

/// Every character of a relative path keeps its place in the archive entry's name, with
/// each `\` turned into `/`: the name is as long as the path and holds no `\`.
pub proof fn law_zip_name_swaps_backslashes(relative_path: Seq<char>)
    ensures
        zip_name(relative_path).len() == relative_path.len(),
        forall|i: int|
            0 <= i < relative_path.len() ==> #[trigger] zip_name(relative_path)[i] == (if relative_path[i]
                == '\\' {
                '/'
            } else {
                relative_path[i]
            }),
    decreases relative_path.len(),
{
    let p = relative_path;
    let from: Seq<char> = seq!['\\'];
    crate::text::lemma_find_from(p, from, 0);
    match crate::text::find_index(p, from) {
        Some(k) => {
            assert(crate::text::occurs_at(p, from, k));
            assert(p.subrange(k, k + 1)[0] == p[k]);
            let rest = p.skip(k + 1);
            law_zip_name_swaps_backslashes(rest);
            assert forall|i: int| 0 <= i < k implies p[i] != '\\' by {
                if p[i] == '\\' {
                    assert(p.subrange(i, i + 1) =~= from);
                    assert(crate::text::occurs_at(p, from, i));
                }
            }
        },
        None => {
            assert forall|i: int| 0 <= i < p.len() implies p[i] != '\\' by {
                if p[i] == '\\' {
                    assert(p.subrange(i, i + 1) =~= from);
                    assert(crate::text::occurs_at(p, from, i));
                }
            }
        },
    }
}

} // verus!
