//! Snapshots of the filesystem, as the planners see it.
//!
//! The caller reads the filesystem and fills these in; the planners decide
//! from them alone. Paths are lists of components (see [`crate::path`]).

use vstd::prelude::*;

use crate::path::PathView;

verus! {

/// What a symlink in the target directory points to.
pub struct LinkInfo {
    /// The link's own content, as read from the link.
    pub target: Vec<String>,
    /// The canonical form of the path the link leads to (the link's content
    /// taken relative to the link's directory), or that path itself when it
    /// cannot be canonicalized.
    pub resolved: Vec<String>,
    /// Whether the path the link leads to is a directory.
    pub target_is_dir: bool,
}

/// What is at a path in the target directory.
pub struct TargetFacts {
    /// Whether the path exists, following symlinks.
    pub exists: bool,
    /// Whether the path itself is a symlink.
    pub is_symlink: bool,
    /// Whether the path is a directory, following symlinks.
    pub is_dir: bool,
    /// Where the symlink points, when the path is a symlink that could be read.
    pub link: Option<LinkInfo>,
}

/// The abstract value of a [`LinkInfo`].
pub struct LinkView {
    pub target: PathView,
    pub resolved: PathView,
    pub target_is_dir: bool,
}

/// The abstract value of a [`TargetFacts`].
pub struct TargetView {
    pub exists: bool,
    pub is_symlink: bool,
    pub is_dir: bool,
    pub link: Option<LinkView>,
}

impl View for TargetFacts {
    type V = TargetView;

    open spec fn view(&self) -> TargetView {
        TargetView {
            exists: self.exists,
            is_symlink: self.is_symlink,
            is_dir: self.is_dir,
            link: match self.link {
                Some(l) => Some(
                    LinkView {
                        target: l.target.deep_view(),
                        resolved: l.resolved.deep_view(),
                        target_is_dir: l.target_is_dir,
                    },
                ),
                None => None,
            },
        }
    }
}

/// An entry of the directory that a folded stow symlink leads to. Unfolding
/// the symlink replaces it by a real directory holding, for each such entry,
/// a symlink of the same name to the entry's canonical path.
pub struct FoldedItem {
    /// The entry's file name.
    pub name: String,
    /// The canonical path of the entry, or its path when it cannot be
    /// canonicalized.
    pub canonical: Vec<String>,
    /// Whether that path exists, following symlinks.
    pub exists: bool,
    /// Whether that path is a directory, following symlinks.
    pub is_dir: bool,
    /// The entries of that directory, when it is one (what unfolding the
    /// new symlink in turn would link).
    pub entries: Vec<FoldedItem>,
}

/// The entries of a package directory, as far as they could be read.
pub enum Listing {
    /// All entries.
    Read(Vec<PackageEntry>),
    /// The entries read before reading the next one failed.
    Partial(Vec<PackageEntry>, std::io::Error),
    /// The directory could not be opened.
    Unreadable(std::io::Error),
    /// The entry is not a directory that was listed.
    NotListed,
}

/// An entry of a package directory, with what is at the matching target path.
pub struct PackageEntry {
    /// The entry's file name.
    pub name: String,
    /// Whether the entry is a directory, following symlinks.
    pub is_dir: bool,
    /// Whether the entry itself is a symlink.
    pub is_symlink: bool,
    /// The canonical path of the entry, or its path when it cannot be
    /// canonicalized.
    pub canonical: Vec<String>,
    /// What is at the same name in the matching target directory.
    pub target: TargetFacts,
    /// When that target is a stow symlink to a directory: the entries of
    /// that directory, which unfolding it would link (otherwise empty).
    pub folded: Vec<FoldedItem>,
    /// The entry's own entries, when it is a directory.
    pub listing: Listing,
}

/// A package and what stowing or unstowing it would meet.
pub struct PackageScan {
    /// The package name.
    pub name: String,
    /// Whether the package is a directory of the stow directory.
    pub found: bool,
    /// The canonical package directory.
    pub package_dir: Vec<String>,
    /// The canonical target directory.
    pub target_dir: Vec<String>,
    /// The canonical stow directory: symlinks that lead inside it are stow's.
    pub stow_dir: Vec<String>,
    /// The entries of the package directory.
    pub listing: Listing,
}

} // verus!
