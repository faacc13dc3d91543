//! Executing planned actions: each action becomes a list of filesystem
//! steps, decided from what is on disk when the action runs.

use vstd::prelude::*;

use crate::stow::{action_text, Action, ActionView};
use crate::path::{
    copy_path, join, join_name, link_destination, link_destination_of, parent, parent_of,
    relative_path, relative_path_of, PathView,
};

verus! {

/// One filesystem operation. The path of each step is the one reported when
/// the operation fails.
#[derive(Debug)]
pub enum FsStep {
    /// Create a directory and its missing parents.
    CreateDirAll { path: Vec<String> },
    /// Create a symlink at `dst` whose content is `src`.
    Symlink { src: Vec<String>, dst: Vec<String> },
    /// Remove a file or a symlink.
    RemoveFile { path: Vec<String> },
    /// Create one directory.
    CreateDir { path: Vec<String> },
    /// Move the file at `from` to `to`, replacing what is there.
    Rename { from: Vec<String>, to: Vec<String> },
    /// Reading `path` failed: stop with this error.
    Fail { path: Vec<String>, error: std::io::Error },
}

/// The abstract value of an [`FsStep`].
pub enum FsStepView {
    CreateDirAll { path: PathView },
    Symlink { src: PathView, dst: PathView },
    RemoveFile { path: PathView },
    CreateDir { path: PathView },
    Rename { from: PathView, to: PathView },
    Fail { path: PathView, error: std::io::Error },
}

impl DeepView for FsStep {
    type V = FsStepView;

    open spec fn deep_view(&self) -> FsStepView {
        match self {
            FsStep::CreateDirAll { path } => FsStepView::CreateDirAll { path: path.deep_view() },
            FsStep::Symlink { src, dst } => FsStepView::Symlink {
                src: src.deep_view(),
                dst: dst.deep_view(),
            },
            FsStep::RemoveFile { path } => FsStepView::RemoveFile { path: path.deep_view() },
            FsStep::CreateDir { path } => FsStepView::CreateDir { path: path.deep_view() },
            FsStep::Rename { from, to } => FsStepView::Rename {
                from: from.deep_view(),
                to: to.deep_view(),
            },
            FsStep::Fail { path, error } => FsStepView::Fail { path: path.deep_view(), error: *error },
        }
    }
}

/// The line reported before an action is executed: shown from verbosity 1.
pub open spec fn executed_line_of(a: ActionView, verbose: u8) -> Option<Seq<char>> {
    if verbose >= 1 {
        Some("[bestow] "@ + action_text(a))
    } else {
        None
    }
}

/// The line to write to standard error before executing `a`, if any.
pub fn executed_line(a: &Action, verbose: u8) -> (r: Option<String>)
    ensures
        match r {
            Some(s) => executed_line_of(a.deep_view(), verbose) == Some(s@),
            None => executed_line_of(a.deep_view(), verbose) is None,
        },
{
    if verbose >= 1 {
        let mut s = String::from_str("[bestow] ");
        s.append(a.describe().as_str());
        proof {
            reveal_strlit("[bestow] ");
        }
        Some(s)
    } else {
        None
    }
}

/// An entry of the directory that a folded symlink led to.
pub struct FoldedEntry {
    /// The entry's file name.
    pub name: String,
    /// The canonical path of the entry, or its path when it cannot be
    /// canonicalized.
    pub canonical: Vec<String>,
}

/// The directory that a folded symlink led to, as far as it could be read.
pub struct FoldedTarget {
    /// Whether it is a directory.
    pub is_dir: bool,
    /// The entries read.
    pub entries: Vec<FoldedEntry>,
    /// The failure that stopped reading it, if any.
    pub error: Option<std::io::Error>,
}

/// Steps to create a symlink at `dst` with content `src`: first the link's
/// parent directory when it is known not to exist (`parent_exists` is
/// `None` when `dst` has no parent).
pub open spec fn symlink_steps_of(src: PathView, dst: PathView, parent_exists: Option<bool>) -> Seq<
    FsStepView,
> {
    let link = FsStepView::Symlink { src, dst };
    match (parent_of(dst), parent_exists) {
        (Some(p), Some(false)) => seq![FsStepView::CreateDirAll { path: p }, link],
        _ => seq![link],
    }
}

/// Steps to create a symlink at `dst` with content `src`.
pub fn symlink_steps(src: &Vec<String>, dst: &Vec<String>, parent_exists: Option<bool>) -> (r: Vec<
    FsStep,
>)
    ensures
        r.deep_view() == symlink_steps_of(src.deep_view(), dst.deep_view(), parent_exists),
{
    let mut r: Vec<FsStep> = Vec::new();
    if let Some(false) = parent_exists {
        if let Some(p) = parent(dst) {
            r.push(FsStep::CreateDirAll { path: p });
        }
    }
    r.push(FsStep::Symlink { src: copy_path(src), dst: copy_path(dst) });
    assert(r.deep_view() =~= symlink_steps_of(src.deep_view(), dst.deep_view(), parent_exists));
    r
}

/// Steps to create a directory and its missing parents.
pub open spec fn create_dir_steps_of(path: PathView) -> Seq<FsStepView> {
    seq![FsStepView::CreateDirAll { path }]
}

/// Steps to create a directory and its missing parents.
pub fn create_dir_steps(path: &Vec<String>) -> (r: Vec<FsStep>)
    ensures
        r.deep_view() == create_dir_steps_of(path.deep_view()),
{
    let mut r: Vec<FsStep> = Vec::new();
    r.push(FsStep::CreateDirAll { path: copy_path(path) });
    assert(r.deep_view() =~= create_dir_steps_of(path.deep_view()));
    r
}

/// Steps to remove what is at `path`: a symlink or a regular file; nothing
/// else is touched.
pub open spec fn remove_steps_of(path: PathView, is_symlink: bool, is_file: bool) -> Seq<
    FsStepView,
> {
    if is_symlink || is_file {
        seq![FsStepView::RemoveFile { path }]
    } else {
        Seq::empty()
    }
}

/// Steps to remove what is at `path`.
pub fn remove_steps(path: &Vec<String>, is_symlink: bool, is_file: bool) -> (r: Vec<FsStep>)
    ensures
        r.deep_view() == remove_steps_of(path.deep_view(), is_symlink, is_file),
{
    let mut r: Vec<FsStep> = Vec::new();
    if is_symlink || is_file {
        r.push(FsStep::RemoveFile { path: copy_path(path) });
    }
    assert(r.deep_view() =~= remove_steps_of(path.deep_view(), is_symlink, is_file));
    r
}

/// Steps to adopt the file at `path`: it is moved to `into`, in the package,
/// in place of the package's own file.
pub open spec fn adopt_steps_of(path: PathView, into: PathView) -> Seq<FsStepView> {
    seq![FsStepView::Rename { from: path, to: into }]
}

/// Steps to adopt the file at `path` into the package at `into`.
pub fn adopt_steps(path: &Vec<String>, into: &Vec<String>) -> (r: Vec<FsStep>)
    ensures
        r.deep_view() == adopt_steps_of(path.deep_view(), into.deep_view()),
{
    let mut r: Vec<FsStep> = Vec::new();
    r.push(FsStep::Rename { from: copy_path(path), to: copy_path(into) });
    assert(r.deep_view() =~= adopt_steps_of(path.deep_view(), into.deep_view()));
    r
}

/// The symlinks that re-create the entries of the folded directory inside
/// the real directory `dir`, one per entry, in order.
pub open spec fn relink_steps_of(dir: PathView, entries: Seq<FoldedEntry>) -> Seq<FsStepView> {
    Seq::new(
        entries.len(),
        |i: int|
            FsStepView::Symlink {
                src: relative_path_of(
                    join_name(dir, entries[i].name@),
                    entries[i].canonical.deep_view(),
                ),
                dst: join_name(dir, entries[i].name@),
            },
    )
}

/// Steps to unfold the folded symlink at `dir` (content `link`): remove the
/// link, make `dir` a real directory, then, when the old target is a
/// directory, link each of its entries from `dir`, stopping where reading
/// it failed.
pub open spec fn unfold_steps_of(dir: PathView, link: PathView, target: FoldedTarget) -> Seq<
    FsStepView,
> {
    let start = seq![FsStepView::RemoveFile { path: dir }, FsStepView::CreateDir { path: dir }];
    if target.is_dir {
        start + relink_steps_of(dir, target.entries@) + match target.error {
            Some(e) => seq![FsStepView::Fail { path: link_destination_of(dir, link), error: e }],
            None => Seq::empty(),
        }
    } else {
        start
    }
}

/// Steps to unfold the folded symlink at `dir` whose content is `link`.
pub fn unfold_steps(dir: &Vec<String>, link: &Vec<String>, target: FoldedTarget) -> (r: Vec<
    FsStep,
>)
    ensures
        r.deep_view() == unfold_steps_of(dir.deep_view(), link.deep_view(), target),
{
    let ghost whole = target;
    let mut r: Vec<FsStep> = Vec::new();
    r.push(FsStep::RemoveFile { path: copy_path(dir) });
    r.push(FsStep::CreateDir { path: copy_path(dir) });
    let FoldedTarget { is_dir, entries, error } = target;
    if !is_dir {
        assert(r.deep_view() =~= unfold_steps_of(dir.deep_view(), link.deep_view(), whole));
        return r;
    }
    let ghost start = r.deep_view();
    let ghost links = relink_steps_of(dir.deep_view(), entries@);
    let mut i: usize = 0;
    while i < entries.len()
        invariant
            i <= entries.len(),
            links == relink_steps_of(dir.deep_view(), entries@),
            r.deep_view() == start + links.take(i as int),
        decreases entries.len() - i,
    {
        let e = &entries[i];
        let dst = join(dir, &e.name);
        let src = relative_path(&dst, &e.canonical);
        let ghost before = r.deep_view();
        r.push(FsStep::Symlink { src, dst });
        assert(r.deep_view() =~= before.push(links[i as int]));
        assert(links.take(i + 1) =~= links.take(i as int).push(links[i as int]));
        i = i + 1;
    }
    assert(links.take(entries.len() as int) =~= links);
    match error {
        Some(e) => {
            let ghost before = r.deep_view();
            r.push(FsStep::Fail { path: link_destination(dir, link), error: e });
            assert(r.deep_view() =~= before.push(
                FsStepView::Fail { path: link_destination_of(dir.deep_view(), link.deep_view()), error: e },
            ));
        },
        None => {},
    }
    assert(r.deep_view() =~= unfold_steps_of(dir.deep_view(), link.deep_view(), whole));
    r
}

/// Unfolding re-links every entry of the folded directory: the steps remove
/// the symlink at `dir` and make `dir` a real directory; then, when the old
/// target is a directory, come one symlink per entry read from it, in order,
/// the `i`-th at `dir` joined with the entry's name and leading (relative to
/// `dir`) to the entry's canonical path; then, if reading stopped on a
/// failure, that failure at the old target.
pub proof fn unfolding_relinks_every_entry(dir: PathView, link: PathView, target: FoldedTarget)
    ensures
        ({
            let s = unfold_steps_of(dir, link, target);
            let n = target.entries@.len();
            &&& s[0] == (FsStepView::RemoveFile { path: dir })
            &&& s[1] == (FsStepView::CreateDir { path: dir })
            &&& !target.is_dir ==> s.len() == 2
            &&& target.is_dir ==> {
                &&& s.len() == 2 + n + if target.error is Some {
                    1int
                } else {
                    0int
                }
                &&& forall|i: int|
                    0 <= i < n ==> #[trigger] s[2 + i] == (FsStepView::Symlink {
                        src: relative_path_of(
                            dir.push(target.entries@[i].name@),
                            target.entries@[i].canonical.deep_view(),
                        ),
                        dst: dir.push(target.entries@[i].name@),
                    })
                &&& (target.error matches Some(e) ==> s[2 + n as int] == (FsStepView::Fail {
                    path: link_destination_of(dir, link),
                    error: e,
                }))
            }
        }),
{
    let s = unfold_steps_of(dir, link, target);
    let n = target.entries@.len();
    if target.is_dir {
        let start = seq![FsStepView::RemoveFile { path: dir }, FsStepView::CreateDir { path: dir }];
        let links = relink_steps_of(dir, target.entries@);
        assert forall|i: int| 0 <= i < n implies #[trigger] s[2 + i] == FsStepView::Symlink {
            src: relative_path_of(
                dir.push(target.entries@[i].name@),
                target.entries@[i].canonical.deep_view(),
            ),
            dst: dir.push(target.entries@[i].name@),
        } by {
            assert(s[2 + i] == links[i]);
        }
    }
}

} // verus!
