//! The source page of a request: the listing of its directory, with the
//! requested file's text when there is one.
use vstd::prelude::*;
use crate::listing::{build_listing, entries_view, is_listing, no_children, DirectoryEntry, ManifestEntry};

verus! {

/// What the page shows of a release.
#[derive(Debug, PartialEq, Eq)]
pub struct MetaData {
    pub name: String,
    pub version: String,
    pub description: Option<String>,
    pub target_name: Option<String>,
    pub rustdoc_status: bool,
    pub default_target: Option<String>,
    pub doc_targets: Vec<String>,
    pub yanked: bool,
}

/// A stored release: what the page shows of it, and its flat manifest.
#[derive(Debug, PartialEq, Eq)]
pub struct Release {
    pub metadata: MetaData,
    pub files: Vec<ManifestEntry>,
}

/// The listing of one directory of a release.
#[derive(Debug, PartialEq, Eq)]
pub struct FileList {
    pub metadata: MetaData,
    pub files: Vec<DirectoryEntry>,
}

impl FileList {
    /// The listing of the directory `req_path` (empty for the root, else
    /// ending in `/`); `None` when the directory has no children.
    pub fn from_path(release: Release, req_path: &str) -> (r: Option<FileList>)
        ensures
            r is None <==> no_children(release.files@, req_path@),
            r matches Some(l) ==> l.metadata == release.metadata
                && is_listing(release.files@, req_path@, entries_view(l.files@)),
    {
        match build_listing(&release.files, req_path) {
            None => None,
            Some(files) => Some(FileList { metadata: release.metadata, files }),
        }
    }
}

/// Everything the source page shows.
#[derive(Debug, PartialEq, Eq)]
pub struct SourcePage {
    pub file_list: FileList,
    pub show_parent_link: bool,
    pub file_content: Option<String>,
    pub is_rust_source: bool,
}

/// The page for the directory `req_path` of `release` (`None`: no such
/// release), with the requested file's text; `None` when the directory is
/// unknown, whatever file text there is.
pub fn source_page(
    release: Option<Release>,
    req_path: &str,
    file_content: Option<String>,
    is_rust_source: bool,
) -> (r: Option<SourcePage>)
    ensures
        r is None <==> match release {
            None => true,
            Some(rel) => no_children(rel.files@, req_path@),
        },
        r matches Some(p) ==> release matches Some(rel) && {
            &&& p.file_list.metadata == rel.metadata
            &&& is_listing(rel.files@, req_path@, entries_view(p.file_list.files@))
            &&& p.show_parent_link == (req_path@.len() > 0)
            &&& p.file_content == file_content
            &&& p.is_rust_source == is_rust_source
        },
{
    let rel = match release {
        None => return None,
        Some(rel) => rel,
    };
    match FileList::from_path(rel, req_path) {
        None => None,
        Some(file_list) => Some(SourcePage {
            file_list,
            show_parent_link: !req_path.is_empty(),
            file_content,
            is_rust_source,
        }),
    }
}

} // verus!
