//! bestow: a symlink farm manager in the style of GNU Stow.
//!
//! The library holds the decisions: which symlinks to create or remove for a
//! package, where packages conflict with what is already in the target
//! directory, which directories become empty after unstowing, and the order in
//! which a whole run scans, executes and reports. The filesystem itself is seen
//! through plain snapshots that the caller gathers.

pub mod cleanup;
pub mod cli;
pub mod conflict;
pub mod execute;
pub mod ignore;
pub mod path;
pub mod runner;
pub mod scan;
pub mod stow;
pub mod stow_laws;
pub mod unfold_laws;
pub mod vecs;

use vstd::prelude::*;

use crate::conflict::{ConflictSet, ConflictView};
use crate::path::PathView;

verus! {

#[verifier::external_type_specification]
#[verifier::external_body]
pub struct ExIoError(std::io::Error);

/// The operation to perform.
#[derive(Debug, Clone, Copy, PartialEq, Eq, Structural)]
pub enum Operation {
    Stow,
    Unstow,
    Restow,
}

/// Configuration for a stow run.
#[derive(Debug, Clone)]
pub struct Config {
    pub stow_dir: Vec<String>,
    pub target_dir: Vec<String>,
    pub operation: Operation,
    pub dry_run: bool,
    pub adopt: bool,
    pub verbose: u8,
}

/// Why a run failed.
#[derive(Debug)]
pub enum StowError {
    /// An I/O operation failed at `path`.
    Io { path: Vec<String>, source: std::io::Error },
    /// The package is not a directory of the stow directory.
    PackageNotFound(String),
    /// A pattern is not a valid regular expression.
    InvalidPattern(regex::Error),
    /// Some package entries conflict with what is in the target directory.
    Conflicts(ConflictSet),
}

/// The abstract value of a [`StowError`].
pub enum StowErrorView {
    Io { path: PathView, source: std::io::Error },
    PackageNotFound(Seq<char>),
    InvalidPattern(regex::Error),
    Conflicts(Seq<ConflictView>),
}

impl DeepView for StowError {
    type V = StowErrorView;

    open spec fn deep_view(&self) -> StowErrorView {
        match self {
            StowError::Io { path, source } => StowErrorView::Io {
                path: path.deep_view(),
                source: *source,
            },
            StowError::PackageNotFound(name) => StowErrorView::PackageNotFound(name@),
            StowError::InvalidPattern(e) => StowErrorView::InvalidPattern(*e),
            StowError::Conflicts(cs) => StowErrorView::Conflicts(cs.items()),
        }
    }
}

} // verus!
