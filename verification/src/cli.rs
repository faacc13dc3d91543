//! The command line, as plain values.

use vstd::prelude::*;

use crate::path::{copy_path, parent, parent_of};
use crate::{Config, Operation};

verus! {

/// The command line of bestow.
pub struct Cli {
    /// Target directory where symlinks are created [default: parent of stow dir].
    pub target: Option<Vec<String>>,
    /// Stow directory containing packages [default: current directory].
    pub stow_dir: Option<Vec<String>>,
    /// Stow packages (the default action).
    pub stow: bool,
    /// Unstow (delete) packages.
    pub delete: bool,
    /// Restow packages (unstow, then stow).
    pub restow: bool,
    /// Dry run: simulate without making changes.
    pub dry_run: bool,
    /// Move existing target files into the package before stowing.
    pub adopt: bool,
    /// Ignore files matching these patterns.
    pub ignore: Vec<String>,
    /// Skip conflicts with already-stowed packages matching these patterns.
    pub defer: Vec<String>,
    /// Force override of conflicts matching these patterns.
    pub override_: Vec<String>,
    /// Verbosity (repeatable).
    pub verbose: u8,
    /// Packages to operate on.
    pub packages: Vec<String>,
}

/// The operation the flags ask for: restow wins over delete, which wins over
/// the default, stow.
pub open spec fn operation_of(stow: bool, delete: bool, restow: bool) -> Operation {
    if restow {
        Operation::Restow
    } else if delete {
        Operation::Unstow
    } else {
        Operation::Stow
    }
}

impl Cli {
    /// The operation the flags ask for.
    pub fn operation(&self) -> (op: Operation)
        ensures
            op == operation_of(self.stow, self.delete, self.restow),
    {
        if self.restow {
            Operation::Restow
        } else if self.delete {
            Operation::Unstow
        } else {
            Operation::Stow
        }
    }

    /// The target directory: the one given, else the parent of the stow
    /// directory (`None` when it has none).
    pub fn target_dir(&self, stow_dir: &Vec<String>) -> (r: Option<Vec<String>>)
        ensures
            match self.target {
                Some(t) => r matches Some(p) && p.deep_view() == t.deep_view(),
                None => match parent_of(stow_dir.deep_view()) {
                    Some(q) => r matches Some(p) && p.deep_view() == q,
                    None => r is None,
                },
            },
    {
        match &self.target {
            Some(t) => Some(copy_path(t)),
            None => parent(stow_dir),
        }
    }

    /// The run configuration for the given directories.
    pub fn config(&self, stow_dir: Vec<String>, target_dir: Vec<String>) -> (c: Config)
        ensures
            c.stow_dir == stow_dir,
            c.target_dir == target_dir,
            c.operation == operation_of(self.stow, self.delete, self.restow),
            c.dry_run == self.dry_run,
            c.adopt == self.adopt,
            c.verbose == self.verbose,
    {
        Config {
            stow_dir,
            target_dir,
            operation: self.operation(),
            dry_run: self.dry_run,
            adopt: self.adopt,
            verbose: self.verbose,
        }
    }
}

} // verus!
