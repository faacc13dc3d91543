//! Planning: from a package snapshot to the actions that stow or unstow it.

use vstd::prelude::*;

use crate::conflict::{ConflictKind, ConflictKindView, ConflictSet, ConflictView};
use crate::ignore::Patterns;
use crate::path::{
    copy_path, display_path, join, join_name, path_starts_with, path_text, relative_path,
    relative_path_of, same_path, starts_with, PathView,
};
use crate::scan::{
    FoldedItem, LinkInfo, LinkView, Listing, PackageEntry, PackageScan, TargetFacts, TargetView,
};
use crate::vecs::{push_deep, reversed};
use crate::{Config, StowError};

verus! {

/// A planned filesystem action, collected before any change is made.
#[derive(Debug, PartialEq, Eq)]
pub enum Action {
    /// Create a symlink at `dst` whose content is `src`.
    CreateSymlink { src: Vec<String>, dst: Vec<String> },
    /// Create a directory and its missing parents.
    CreateDir { path: Vec<String> },
    /// Remove the symlink (or, when overriding, the file) at `path`.
    RemoveSymlink { path: Vec<String> },
    /// Move the file at `path` into the package at `into`, replacing what
    /// is there.
    Adopt { path: Vec<String>, into: Vec<String> },
    /// Unfold a folded directory symlink into a real directory holding one
    /// symlink per entry of the directory it pointed to.
    Unfold { dir: Vec<String>, existing_link_target: Vec<String> },
}

/// The abstract value of an [`Action`].
pub enum ActionView {
    CreateSymlink { src: PathView, dst: PathView },
    CreateDir { path: PathView },
    RemoveSymlink { path: PathView },
    Adopt { path: PathView, into: PathView },
    Unfold { dir: PathView, existing_link_target: PathView },
}

impl DeepView for Action {
    type V = ActionView;

    open spec fn deep_view(&self) -> ActionView {
        match self {
            Action::CreateSymlink { src, dst } => ActionView::CreateSymlink {
                src: src.deep_view(),
                dst: dst.deep_view(),
            },
            Action::CreateDir { path } => ActionView::CreateDir { path: path.deep_view() },
            Action::RemoveSymlink { path } => ActionView::RemoveSymlink { path: path.deep_view() },
            Action::Adopt { path, into } => ActionView::Adopt {
                path: path.deep_view(),
                into: into.deep_view(),
            },
            Action::Unfold { dir, existing_link_target } => ActionView::Unfold {
                dir: dir.deep_view(),
                existing_link_target: existing_link_target.deep_view(),
            },
        }
    }
}

/// The line that describes an action.
pub open spec fn action_text(a: ActionView) -> Seq<char> {
    match a {
        ActionView::CreateSymlink { src, dst } => "symlink "@ + path_text(dst) + " -> "@ + path_text(
            src,
        ),
        ActionView::CreateDir { path } => "mkdir "@ + path_text(path),
        ActionView::RemoveSymlink { path } => "remove symlink "@ + path_text(path),
        ActionView::Adopt { path, into } => "adopt "@ + path_text(path) + " into "@ + path_text(
            into,
        ),
        ActionView::Unfold { dir, existing_link_target } => "unfold "@ + path_text(dir)
            + " (was -> "@ + path_text(existing_link_target) + ")"@,
    }
}

impl Action {
    /// The line that describes the action.
    pub fn describe(&self) -> (s: String)
        ensures
            s@ == action_text(self.deep_view()),
    {
        let mut s = String::new();
        match self {
            Action::CreateSymlink { src, dst } => {
                s.append("symlink ");
                s.append(display_path(dst).as_str());
                s.append(" -> ");
                s.append(display_path(src).as_str());
            },
            Action::CreateDir { path } => {
                s.append("mkdir ");
                s.append(display_path(path).as_str());
            },
            Action::RemoveSymlink { path } => {
                s.append("remove symlink ");
                s.append(display_path(path).as_str());
            },
            Action::Adopt { path, into } => {
                s.append("adopt ");
                s.append(display_path(path).as_str());
                s.append(" into ");
                s.append(display_path(into).as_str());
            },
            Action::Unfold { dir, existing_link_target } => {
                s.append("unfold ");
                s.append(display_path(dir).as_str());
                s.append(" (was -> ");
                s.append(display_path(existing_link_target).as_str());
                s.append(")");
            },
        }
        assert(s@ =~= action_text(self.deep_view()));
        s
    }
}

/// What planning a directory yields: the actions and the conflicts in the
/// order they are found, and the read failure that stopped it, if any.
pub struct Plan {
    pub actions: Seq<ActionView>,
    pub conflicts: Seq<ConflictView>,
    pub failure: Option<(PathView, std::io::Error)>,
}

/// Nothing to do.
pub open spec fn empty_plan() -> Plan {
    Plan { actions: Seq::empty(), conflicts: Seq::empty(), failure: None }
}

/// Just these actions.
pub open spec fn act(actions: Seq<ActionView>) -> Plan {
    Plan { actions, conflicts: Seq::empty(), failure: None }
}

/// Just one conflict.
pub open spec fn conflict_at(target: PathView, kind: ConflictKindView) -> Plan {
    Plan { actions: Seq::empty(), conflicts: seq![ConflictView { target, kind }], failure: None }
}

/// Reading `path` failed with `e`.
pub open spec fn fail_at(path: PathView, e: std::io::Error) -> Plan {
    Plan { actions: Seq::empty(), conflicts: Seq::empty(), failure: Some((path, e)) }
}

/// `p`, then `q` unless `p` stopped on a failure.
pub open spec fn then(p: Plan, q: Plan) -> Plan {
    if p.failure is Some {
        p
    } else {
        Plan {
            actions: p.actions + q.actions,
            conflicts: p.conflicts + q.conflicts,
            failure: q.failure,
        }
    }
}

/// Whether the target is a symlink that leads into the stow directory.
pub open spec fn owned_by_stow(t: TargetView, stow_dir: PathView) -> bool {
    &&& t.is_symlink
    &&& match t.link {
        Some(l) => path_starts_with(l.resolved, stow_dir),
        None => false,
    }
}

/// Where a readable symlink leads (canonical when possible).
pub open spec fn resolved_of(t: TargetView) -> PathView {
    match t.link {
        Some(l) => l.resolved,
        None => Seq::empty(),
    }
}

/// A symlink at `dst` leading to `src`, relative to the link's directory.
pub open spec fn create_link(dst: PathView, src: PathView) -> ActionView {
    ActionView::CreateSymlink { src: relative_path_of(dst, src), dst }
}

/// Remove what is at `dst`, then link it to `src`.
pub open spec fn replace_with_link(dst: PathView, src: PathView) -> Plan {
    act(seq![ActionView::RemoveSymlink { path: dst }, create_link(dst, src)])
}

/// Move the file at `dst` into the package at `into`, then link `dst` to `src`.
pub open spec fn adopt_into_package(dst: PathView, into: PathView, src: PathView) -> Plan {
    act(seq![ActionView::Adopt { path: dst, into }, create_link(dst, src)])
}

/// The conflict of something in the way at `dst`.
pub open spec fn in_the_way(dst: PathView) -> Plan {
    conflict_at(dst, ConflictKindView::ExistingFile)
}

/// What to do with a package entry that is not ignored.
#[derive(Debug, Clone, Copy, PartialEq, Eq, Structural)]
pub enum StowDecision {
    /// Leave it.
    Skip,
    /// Link the target path to the entry.
    Link,
    /// Remove what is at the target path, then link it to the entry.
    Replace,
    /// Move what is at the target path into the package in place of the
    /// entry, then link the target path to the entry.
    Adopt,
    /// Report that something is in the way.
    InTheWay,
    /// Report that another package's link is in the way.
    OwnedByOther,
    /// Unfold the folded directory at the target path, then stow the
    /// entry's own entries into it.
    Unfold,
    /// Stow the entry's own entries into the directory at the target path.
    Descend,
}

/// What to do with a package entry (a real directory when `entry_is_dir`)
/// whose canonical path is `src`, given what is at its target path and
/// whether that path is deferred or overridden.
///
/// A directory whose target is free becomes one symlink (tree folding); a
/// directory whose target is a real directory is entered; a directory whose
/// target is another package's folded directory is unfolded, then entered;
/// anything else in its way is a conflict unless deferred, or replaced by
/// the link when overridden.
/// A file is linked where its target is free; its own stow link is left
/// alone; anything else in the way is a conflict unless deferred, adopted
/// (not for other packages' links: a file in the way is moved into the
/// package, a foreign symlink is replaced) or overridden.
pub open spec fn stow_decision(
    entry_is_dir: bool,
    t: TargetView,
    src: PathView,
    adopt: bool,
    deferred: bool,
    overridden: bool,
    stow_dir: PathView,
) -> StowDecision {
    if !t.exists && !t.is_symlink {
        StowDecision::Link
    } else if entry_is_dir {
        if t.is_symlink && owned_by_stow(t, stow_dir) {
            if src == resolved_of(t) {
                StowDecision::Skip
            } else if t.link->0.target_is_dir {
                StowDecision::Unfold
            } else {
                StowDecision::InTheWay
            }
        } else if t.is_dir && !t.is_symlink {
            StowDecision::Descend
        } else if deferred {
            StowDecision::Skip
        } else if overridden {
            StowDecision::Replace
        } else {
            StowDecision::InTheWay
        }
    } else if t.is_symlink {
        if owned_by_stow(t, stow_dir) {
            if src == resolved_of(t) {
                StowDecision::Skip
            } else if deferred {
                StowDecision::Skip
            } else if overridden {
                StowDecision::Replace
            } else {
                StowDecision::OwnedByOther
            }
        } else if adopt {
            StowDecision::Replace
        } else if deferred {
            StowDecision::Skip
        } else if overridden {
            StowDecision::Replace
        } else {
            StowDecision::InTheWay
        }
    } else if t.exists {
        if deferred {
            StowDecision::Skip
        } else if adopt {
            StowDecision::Adopt
        } else if overridden {
            StowDecision::Replace
        } else {
            StowDecision::InTheWay
        }
    } else {
        StowDecision::Skip
    }
}

/// The content of the symlink at a target, when it could be read.
pub open spec fn link_content_of(t: TargetView) -> PathView {
    match t.link {
        Some(l) => l.target,
        None => Seq::empty(),
    }
}

/// The entry of `items` named `name`, the first from index `i` on.
pub open spec fn find_folded(items: Seq<FoldedItem>, name: Seq<char>, i: int) -> Option<FoldedItem>
    decreases items.len() - i,
{
    if i < 0 || i >= items.len() {
        None
    } else if items[i].name@ == name {
        Some(items[i])
    } else {
        find_folded(items, name, i + 1)
    }
}

/// What is at `dst` once the folded symlink of its directory is unfolded:
/// the symlink that unfolding made for the folded directory's entry of the
/// same name (leading to that entry's canonical path), or nothing.
pub open spec fn unfolded_target(found: Option<FoldedItem>, dst: PathView) -> TargetView {
    match found {
        Some(it) => TargetView {
            exists: it.exists,
            is_symlink: true,
            is_dir: it.is_dir,
            link: Some(
                LinkView {
                    target: relative_path_of(dst, it.canonical.deep_view()),
                    resolved: it.canonical.deep_view(),
                    target_is_dir: it.is_dir,
                },
            ),
        },
        None => TargetView { exists: false, is_symlink: false, is_dir: false, link: None },
    }
}

/// What is at the target path `dst` of entry `e`: as scanned (`over` is
/// `None`), or, in a directory that is unfolded first, as unfolding leaves it
/// (`over` holds the entries of the folded directory).
pub open spec fn entry_target(e: PackageEntry, dst: PathView, over: Option<Seq<FoldedItem>>) -> TargetView {
    match over {
        None => e.target@,
        Some(items) => unfolded_target(find_folded(items, e.name@, 0), dst),
    }
}

/// The entries of the directory that the target of `e` leads to, should it
/// be a folded stow symlink, as scanned or as unfolding leaves it.
pub open spec fn entry_folded(e: PackageEntry, over: Option<Seq<FoldedItem>>) -> Seq<FoldedItem> {
    match over {
        None => e.folded@,
        Some(items) => match find_folded(items, e.name@, 0) {
            Some(it) => it.entries@,
            None => Seq::empty(),
        },
    }
}

/// Stowing one entry of the package directory `src_dir` into `dst_dir`
/// (see [`entry_target`] for `over`). The entries of a directory that is
/// unfolded are planned against what unfolding leaves: the other package's
/// entries are its symlinks, the other names are free.
pub open spec fn stow_entry_plan(
    e: PackageEntry,
    src_dir: PathView,
    dst_dir: PathView,
    pats: Patterns,
    adopt: bool,
    stow_dir: PathView,
    over: Option<Seq<FoldedItem>>,
) -> Plan
    decreases e,
{
    let src_path = join_name(src_dir, e.name@);
    let dst_path = join_name(dst_dir, e.name@);
    let src = e.canonical.deep_view();
    let t = entry_target(e, dst_path, over);
    if pats.ignores(src_path) {
        empty_plan()
    } else {
        match stow_decision(
            e.is_dir && !e.is_symlink,
            t,
            src,
            adopt,
            pats.defers(dst_path),
            pats.overrides(dst_path),
            stow_dir,
        ) {
            StowDecision::Skip => empty_plan(),
            StowDecision::Link => act(seq![create_link(dst_path, src)]),
            StowDecision::Replace => replace_with_link(dst_path, src),
            StowDecision::Adopt => adopt_into_package(dst_path, src_path, src),
            StowDecision::InTheWay => in_the_way(dst_path),
            StowDecision::OwnedByOther => conflict_at(
                dst_path,
                ConflictKindView::OwnedByOther { owner: resolved_of(t) },
            ),
            StowDecision::Unfold => then(
                act(
                    seq![
                        ActionView::Unfold {
                            dir: dst_path,
                            existing_link_target: link_content_of(t),
                        },
                    ],
                ),
                stow_listing_plan(
                    e.listing,
                    src_path,
                    dst_path,
                    pats,
                    adopt,
                    stow_dir,
                    Some(entry_folded(e, over)),
                ),
            ),
            StowDecision::Descend => stow_listing_plan(
                e.listing,
                src_path,
                dst_path,
                pats,
                adopt,
                stow_dir,
                None,
            ),
        }
    }
}

/// Stowing the entries of `src_dir` in order.
pub open spec fn stow_entries_plan(
    entries: Seq<PackageEntry>,
    src_dir: PathView,
    dst_dir: PathView,
    pats: Patterns,
    adopt: bool,
    stow_dir: PathView,
    over: Option<Seq<FoldedItem>>,
) -> Plan
    decreases entries,
{
    if entries.len() == 0 {
        empty_plan()
    } else {
        then(
            stow_entries_plan(entries.drop_last(), src_dir, dst_dir, pats, adopt, stow_dir, over),
            stow_entry_plan(entries.last(), src_dir, dst_dir, pats, adopt, stow_dir, over),
        )
    }
}

/// Stowing the listing of the package directory `src_dir` into `dst_dir`.
pub open spec fn stow_listing_plan(
    l: Listing,
    src_dir: PathView,
    dst_dir: PathView,
    pats: Patterns,
    adopt: bool,
    stow_dir: PathView,
    over: Option<Seq<FoldedItem>>,
) -> Plan
    decreases l,
{
    match l {
        Listing::Read(v) => stow_entries_plan(v@, src_dir, dst_dir, pats, adopt, stow_dir, over),
        Listing::Partial(v, e) => then(
            stow_entries_plan(v@, src_dir, dst_dir, pats, adopt, stow_dir, over),
            fail_at(src_dir, e),
        ),
        Listing::Unreadable(e) => fail_at(src_dir, e),
        Listing::NotListed => empty_plan(),
    }
}

/// What running a plan does to the action list, the conflict set and the result.
pub open spec fn applied(
    p: Plan,
    a0: Seq<ActionView>,
    a1: Seq<ActionView>,
    c0: Seq<ConflictView>,
    c1: Seq<ConflictView>,
    r: Result<(), StowError>,
) -> bool {
    &&& a1 == a0 + p.actions
    &&& c1 == c0 + p.conflicts
    &&& match p.failure {
        None => r is Ok,
        Some(f) => r matches Err(StowError::Io { path, source }) && path.deep_view() == f.0
            && source == f.1,
    }
}

proof fn lemma_stow_failure_absorbs(
    entries: Seq<PackageEntry>,
    k: int,
    src_dir: PathView,
    dst_dir: PathView,
    pats: Patterns,
    adopt: bool,
    stow_dir: PathView,
    over: Option<Seq<FoldedItem>>,
)
    requires
        0 <= k <= entries.len(),
        stow_entries_plan(entries.take(k), src_dir, dst_dir, pats, adopt, stow_dir, over).failure is Some,
    ensures
        stow_entries_plan(entries, src_dir, dst_dir, pats, adopt, stow_dir, over) == stow_entries_plan(
            entries.take(k),
            src_dir,
            dst_dir,
            pats,
            adopt,
            stow_dir,
            over,
        ),
    decreases entries.len(),
{
    if k == entries.len() {
        assert(entries.take(k) =~= entries);
    } else {
        assert(entries.drop_last().take(k) =~= entries.take(k));
        lemma_stow_failure_absorbs(entries.drop_last(), k, src_dir, dst_dir, pats, adopt, stow_dir, over);
    }
}

/// Whether the target is a symlink that leads into the stow directory.
pub fn is_stow_symlink(t: &TargetFacts, stow_dir: &Vec<String>) -> (b: bool)
    ensures
        b == owned_by_stow(t@, stow_dir.deep_view()),
{
    if !t.is_symlink {
        return false;
    }
    match &t.link {
        Some(l) => starts_with(&l.resolved, stow_dir),
        None => false,
    }
}

/// The symlink action at `dst` leading to `src`.
fn link_action(dst: &Vec<String>, src: &Vec<String>) -> (a: Action)
    ensures
        a.deep_view() == create_link(dst.deep_view(), src.deep_view()),
{
    Action::CreateSymlink { src: relative_path(dst, src), dst: copy_path(dst) }
}

/// Appends the actions that replace what is at `dst` by a link to `src`.
fn push_replace(actions: &mut Vec<Action>, dst: &Vec<String>, src: &Vec<String>)
    ensures
        final(actions).deep_view() == old(actions).deep_view() + replace_with_link(
            dst.deep_view(),
            src.deep_view(),
        ).actions,
{
    let ghost a0 = actions.deep_view();
    push_deep(actions, Action::RemoveSymlink { path: copy_path(dst) });
    push_deep(actions, link_action(dst, src));
    assert(actions.deep_view() =~= a0 + replace_with_link(dst.deep_view(), src.deep_view()).actions);
}

/// Decides what to do with a package entry that is not ignored (see
/// [`stow_decision`]).
pub fn decide_stow(
    entry_is_dir: bool,
    t: &TargetFacts,
    src: &Vec<String>,
    adopt: bool,
    deferred: bool,
    overridden: bool,
    stow_dir: &Vec<String>,
) -> (d: StowDecision)
    ensures
        d == stow_decision(
            entry_is_dir,
            t@,
            src.deep_view(),
            adopt,
            deferred,
            overridden,
            stow_dir.deep_view(),
        ),
{
    if !t.exists && !t.is_symlink {
        StowDecision::Link
    } else if entry_is_dir {
        if t.is_symlink && is_stow_symlink(t, stow_dir) {
            let l = t.link.as_ref().unwrap();
            if same_path(src, &l.resolved) {
                StowDecision::Skip
            } else if l.target_is_dir {
                StowDecision::Unfold
            } else {
                StowDecision::InTheWay
            }
        } else if t.is_dir && !t.is_symlink {
            StowDecision::Descend
        } else if deferred {
            StowDecision::Skip
        } else if overridden {
            StowDecision::Replace
        } else {
            StowDecision::InTheWay
        }
    } else if t.is_symlink {
        if is_stow_symlink(t, stow_dir) {
            let l = t.link.as_ref().unwrap();
            if same_path(src, &l.resolved) {
                StowDecision::Skip
            } else if deferred {
                StowDecision::Skip
            } else if overridden {
                StowDecision::Replace
            } else {
                StowDecision::OwnedByOther
            }
        } else if adopt {
            StowDecision::Replace
        } else if deferred {
            StowDecision::Skip
        } else if overridden {
            StowDecision::Replace
        } else {
            StowDecision::InTheWay
        }
    } else if t.exists {
        if deferred {
            StowDecision::Skip
        } else if adopt {
            StowDecision::Adopt
        } else if overridden {
            StowDecision::Replace
        } else {
            StowDecision::InTheWay
        }
    } else {
        StowDecision::Skip
    }
}

/// The abstract value of the folded entries a directory is planned over.
pub open spec fn over_view(over: Option<&Vec<FoldedItem>>) -> Option<Seq<FoldedItem>> {
    match over {
        Some(v) => Some(v@),
        None => None,
    }
}

/// The index of the entry of `items` named `name`, if any.
fn find_item(items: &Vec<FoldedItem>, name: &String) -> (r: Option<usize>)
    ensures
        match r {
            Some(i) => i < items.len() && find_folded(items@, name@, 0) == Some(items@[i as int]),
            None => find_folded(items@, name@, 0) is None,
        },
{
    let mut i: usize = 0;
    while i < items.len()
        invariant
            i <= items.len(),
            find_folded(items@, name@, 0) == find_folded(items@, name@, i as int),
        decreases items.len() - i,
    {
        if items[i].name == *name {
            return Some(i);
        }
        i = i + 1;
    }
    None
}

/// What is at `dst` once unfolding has linked `item` there.
fn unfolded_facts(item: &FoldedItem, dst: &Vec<String>) -> (t: TargetFacts)
    ensures
        t@ == unfolded_target(Some(*item), dst.deep_view()),
{
    TargetFacts {
        exists: item.exists,
        is_symlink: true,
        is_dir: item.is_dir,
        link: Some(
            LinkInfo {
                target: relative_path(dst, &item.canonical),
                resolved: copy_path(&item.canonical),
                target_is_dir: item.is_dir,
            },
        ),
    }
}

/// Nothing at a path.
fn no_target() -> (t: TargetFacts)
    ensures
        forall|dst: PathView| t@ == unfolded_target(None, dst),
{
    TargetFacts { exists: false, is_symlink: false, is_dir: false, link: None }
}

/// Stows one entry of the package directory `src_dir` into `dst_dir`.
fn plan_stow_entry(
    e: PackageEntry,
    src_dir: &Vec<String>,
    dst_dir: &Vec<String>,
    config: &Config,
    patterns: &Patterns,
    stow_dir: &Vec<String>,
    over: Option<&Vec<FoldedItem>>,
    conflicts: &mut ConflictSet,
    actions: &mut Vec<Action>,
) -> (r: Result<(), StowError>)
    ensures
        applied(
            stow_entry_plan(
                e,
                src_dir.deep_view(),
                dst_dir.deep_view(),
                *patterns,
                config.adopt,
                stow_dir.deep_view(),
                over_view(over),
            ),
            old(actions).deep_view(),
            final(actions).deep_view(),
            old(conflicts).items(),
            final(conflicts).items(),
            r,
        ),
    decreases e, 0nat,
{
    let ghost whole = e;
    let ghost p = stow_entry_plan(
        e,
        src_dir.deep_view(),
        dst_dir.deep_view(),
        *patterns,
        config.adopt,
        stow_dir.deep_view(),
        over_view(over),
    );
    let ghost a0 = actions.deep_view();
    let ghost c0 = conflicts.items();
    let PackageEntry { name, is_dir, is_symlink, canonical, target, folded, listing } = e;
    let src_path = join(src_dir, &name);
    let dst_path = join(dst_dir, &name);
    if patterns.should_ignore(&src_path) {
        assert(actions.deep_view() =~= a0 + p.actions);
        assert(conflicts.items() =~= c0 + p.conflicts);
        return Ok(());
    }
    let found: Option<usize> = match over {
        Some(items) => find_item(items, &name),
        None => None,
    };
    let t: TargetFacts = match over {
        None => target,
        Some(items) => match found {
            Some(i) => unfolded_facts(&items[i], &dst_path),
            None => no_target(),
        },
    };
    assert(t@ == entry_target(whole, dst_path.deep_view(), over_view(over)));
    let deferred = patterns.should_defer(&dst_path);
    let overridden = patterns.should_override(&dst_path);
    match decide_stow(
        is_dir && !is_symlink,
        &t,
        &canonical,
        config.adopt,
        deferred,
        overridden,
        stow_dir,
    ) {
        StowDecision::Skip => {
            assert(actions.deep_view() =~= a0 + p.actions);
            assert(conflicts.items() =~= c0 + p.conflicts);
            Ok(())
        },
        StowDecision::Link => {
            push_deep(actions, link_action(&dst_path, &canonical));
            assert(actions.deep_view() =~= a0 + p.actions);
            assert(conflicts.items() =~= c0 + p.conflicts);
            Ok(())
        },
        StowDecision::Replace => {
            push_replace(actions, &dst_path, &canonical);
            assert(conflicts.items() =~= c0 + p.conflicts);
            Ok(())
        },
        StowDecision::Adopt => {
            push_deep(actions, Action::Adopt { path: copy_path(&dst_path), into: src_path });
            push_deep(actions, link_action(&dst_path, &canonical));
            assert(actions.deep_view() =~= a0 + p.actions);
            assert(conflicts.items() =~= c0 + p.conflicts);
            Ok(())
        },
        StowDecision::InTheWay => {
            conflicts.add(dst_path, ConflictKind::ExistingFile);
            assert(actions.deep_view() =~= a0 + p.actions);
            assert(conflicts.items() =~= c0 + p.conflicts);
            Ok(())
        },
        StowDecision::OwnedByOther => {
            let owner = copy_path(&t.link.as_ref().unwrap().resolved);
            conflicts.add(dst_path, ConflictKind::OwnedByOther { owner });
            assert(actions.deep_view() =~= a0 + p.actions);
            assert(conflicts.items() =~= c0 + p.conflicts);
            Ok(())
        },
        StowDecision::Unfold => {
            let link_target = copy_path(&t.link.as_ref().unwrap().target);
            push_deep(
                actions,
                Action::Unfold { dir: copy_path(&dst_path), existing_link_target: link_target },
            );
            let nested: &Vec<FoldedItem> = match over {
                None => &folded,
                Some(items) => match found {
                    Some(i) => &items[i].entries,
                    None => &folded,
                },
            };
            assert(nested@ == entry_folded(whole, over_view(over)));
            proof {
                assert(decreases_to!(whole => whole.listing));
            }
            let r = plan_stow_dir_after_unfold(
                listing,
                &src_path,
                &dst_path,
                config,
                patterns,
                stow_dir,
                nested,
                conflicts,
                actions,
            );
            assert(actions.deep_view() =~= a0 + p.actions);
            assert(conflicts.items() =~= c0 + p.conflicts);
            r
        },
        StowDecision::Descend => {
            proof {
                assert(decreases_to!(whole => whole.listing));
            }
            plan_stow_dir(
                listing,
                &src_path,
                &dst_path,
                config,
                patterns,
                stow_dir,
                None,
                conflicts,
                actions,
            )
        },
    }
}

/// Stows the entries of `src_dir` in order; stops at the first read failure.
fn plan_stow_entries(
    entries: Vec<PackageEntry>,
    src_dir: &Vec<String>,
    dst_dir: &Vec<String>,
    config: &Config,
    patterns: &Patterns,
    stow_dir: &Vec<String>,
    over: Option<&Vec<FoldedItem>>,
    conflicts: &mut ConflictSet,
    actions: &mut Vec<Action>,
) -> (r: Result<(), StowError>)
    ensures
        applied(
            stow_entries_plan(
                entries@,
                src_dir.deep_view(),
                dst_dir.deep_view(),
                *patterns,
                config.adopt,
                stow_dir.deep_view(),
                over_view(over),
            ),
            old(actions).deep_view(),
            final(actions).deep_view(),
            old(conflicts).items(),
            final(conflicts).items(),
            r,
        ),
    decreases entries@, 0nat,
{
    let ghost all = entries@;
    let ghost src_v = src_dir.deep_view();
    let ghost dst_v = dst_dir.deep_view();
    let ghost stow_v = stow_dir.deep_view();
    let ghost ov = over_view(over);
    let ghost a0 = actions.deep_view();
    let ghost c0 = conflicts.items();
    let n = entries.len();
    let mut rest = reversed(entries);
    let mut i: usize = 0;
    while i < n
        invariant
            i <= n,
            n == all.len(),
            all == entries@,
            a0 == old(actions).deep_view(),
            c0 == old(conflicts).items(),
            src_v == src_dir.deep_view(),
            dst_v == dst_dir.deep_view(),
            stow_v == stow_dir.deep_view(),
            ov == over_view(over),
            rest@.len() == n - i,
            forall|j: int| 0 <= j < rest@.len() ==> rest@[j] == all[n - 1 - j],
            actions.deep_view() == a0 + stow_entries_plan(
                all.take(i as int),
                src_v,
                dst_v,
                *patterns,
                config.adopt,
                stow_v,
                ov,
            ).actions,
            conflicts.items() == c0 + stow_entries_plan(
                all.take(i as int),
                src_v,
                dst_v,
                *patterns,
                config.adopt,
                stow_v,
                ov,
            ).conflicts,
            stow_entries_plan(
                all.take(i as int),
                src_v,
                dst_v,
                *patterns,
                config.adopt,
                stow_v,
                ov,
            ).failure is None,
        decreases n - i,
    {
        let e = rest.pop().unwrap();
        assert(e == all[i as int]);
        proof {
            assert(decreases_to!(all => all[i as int]));
        }
        let ghost before = stow_entries_plan(
            all.take(i as int),
            src_v,
            dst_v,
            *patterns,
            config.adopt,
            stow_v,
            ov,
        );
        let r = plan_stow_entry(
            e,
            src_dir,
            dst_dir,
            config,
            patterns,
            stow_dir,
            over,
            conflicts,
            actions,
        );
        assert(all.take(i + 1).drop_last() =~= all.take(i as int));
        assert(all.take(i + 1).last() == all[i as int]);
        let ghost after = stow_entries_plan(
            all.take(i + 1),
            src_v,
            dst_v,
            *patterns,
            config.adopt,
            stow_v,
            ov,
        );
        let ghost ep = stow_entry_plan(all[i as int], src_v, dst_v, *patterns, config.adopt, stow_v, ov);
        assert(after == then(before, ep));
        assert(actions.deep_view() =~= a0 + after.actions);
        assert(conflicts.items() =~= c0 + after.conflicts);
        if r.is_err() {
            proof {
                lemma_stow_failure_absorbs(all, i + 1, src_v, dst_v, *patterns, config.adopt, stow_v, ov);
            }
            return r;
        }
        i = i + 1;
    }
    assert(all.take(n as int) =~= all);
    Ok(())
}

/// Stows the package directory `src_dir` (whose listing is given) into
/// `dst_dir`, over the folded entries `over` when it is unfolded first.
fn plan_stow_dir(
    listing: Listing,
    src_dir: &Vec<String>,
    dst_dir: &Vec<String>,
    config: &Config,
    patterns: &Patterns,
    stow_dir: &Vec<String>,
    over: Option<&Vec<FoldedItem>>,
    conflicts: &mut ConflictSet,
    actions: &mut Vec<Action>,
) -> (r: Result<(), StowError>)
    ensures
        applied(
            stow_listing_plan(
                listing,
                src_dir.deep_view(),
                dst_dir.deep_view(),
                *patterns,
                config.adopt,
                stow_dir.deep_view(),
                over_view(over),
            ),
            old(actions).deep_view(),
            final(actions).deep_view(),
            old(conflicts).items(),
            final(conflicts).items(),
            r,
        ),
    decreases listing, 0nat,
{
    let ghost whole = listing;
    let ghost a0 = actions.deep_view();
    let ghost c0 = conflicts.items();
    match listing {
        Listing::Read(v) => {
            proof {
                assert(decreases_to!(whole => v));
                assert(decreases_to!(v => v@));
            }
            plan_stow_entries(v, src_dir, dst_dir, config, patterns, stow_dir, over, conflicts, actions)
        },
        Listing::Partial(v, err) => {
            proof {
                assert(decreases_to!(whole => v));
                assert(decreases_to!(v => v@));
            }
            let r = plan_stow_entries(
                v,
                src_dir,
                dst_dir,
                config,
                patterns,
                stow_dir,
                over,
                conflicts,
                actions,
            );
            match r {
                Err(x) => Err(x),
                Ok(()) => {
                    assert(actions.deep_view() =~= actions.deep_view() + Seq::<ActionView>::empty());
                    assert(conflicts.items() =~= conflicts.items() + Seq::<ConflictView>::empty());
                    Err(StowError::Io { path: copy_path(src_dir), source: err })
                },
            }
        },
        Listing::Unreadable(err) => {
            assert(actions.deep_view() =~= a0 + Seq::<ActionView>::empty());
            assert(conflicts.items() =~= c0 + Seq::<ConflictView>::empty());
            Err(StowError::Io { path: copy_path(src_dir), source: err })
        },
        Listing::NotListed => {
            assert(actions.deep_view() =~= a0 + Seq::<ActionView>::empty());
            assert(conflicts.items() =~= c0 + Seq::<ConflictView>::empty());
            Ok(())
        },
    }
}

/// Stows into a directory that is unfolded before the actions run: the
/// `Unfold` action re-creates the other package's links (`folded`), so the
/// entries are planned against the directory as unfolding leaves it.
fn plan_stow_dir_after_unfold(
    listing: Listing,
    src_dir: &Vec<String>,
    dst_dir: &Vec<String>,
    config: &Config,
    patterns: &Patterns,
    stow_dir: &Vec<String>,
    folded: &Vec<FoldedItem>,
    conflicts: &mut ConflictSet,
    actions: &mut Vec<Action>,
) -> (r: Result<(), StowError>)
    ensures
        applied(
            stow_listing_plan(
                listing,
                src_dir.deep_view(),
                dst_dir.deep_view(),
                *patterns,
                config.adopt,
                stow_dir.deep_view(),
                Some(folded@),
            ),
            old(actions).deep_view(),
            final(actions).deep_view(),
            old(conflicts).items(),
            final(conflicts).items(),
            r,
        ),
    decreases listing, 1nat,
{
    plan_stow_dir(
        listing,
        src_dir,
        dst_dir,
        config,
        patterns,
        stow_dir,
        Some(folded),
        conflicts,
        actions,
    )
}

/// Stowing a whole package: its listing, from the package directory into
/// the target directory.
pub open spec fn stow_package_plan(scan: PackageScan, pats: Patterns, adopt: bool) -> Plan {
    stow_listing_plan(
        scan.listing,
        scan.package_dir.deep_view(),
        scan.target_dir.deep_view(),
        pats,
        adopt,
        scan.stow_dir.deep_view(),
        None,
    )
}

/// The result of planning a package: the plan's actions, or its failure.
pub open spec fn plan_result(p: Plan, r: Result<Vec<Action>, StowError>) -> bool {
    match p.failure {
        None => r matches Ok(a) && a.deep_view() == p.actions,
        Some(f) => r matches Err(StowError::Io { path, source }) && path.deep_view() == f.0
            && source == f.1,
    }
}

/// Collects the stow actions for one package. Conflicts are added to
/// `conflicts` (also those found before a read failure stopped the plan).
pub fn plan_stow(
    scan: PackageScan,
    config: &Config,
    patterns: &Patterns,
    conflicts: &mut ConflictSet,
) -> (r: Result<Vec<Action>, StowError>)
    ensures
        !scan.found ==> {
            &&& r matches Err(StowError::PackageNotFound(n)) && n@ == scan.name@
            &&& final(conflicts).items() == old(conflicts).items()
        },
        scan.found ==> {
            &&& final(conflicts).items() == old(conflicts).items() + stow_package_plan(
                scan,
                *patterns,
                config.adopt,
            ).conflicts
            &&& plan_result(stow_package_plan(scan, *patterns, config.adopt), r)
        },
{
    let PackageScan { name, found, package_dir, target_dir, stow_dir, listing } = scan;
    if !found {
        return Err(StowError::PackageNotFound(name));
    }
    let mut actions: Vec<Action> = Vec::new();
    assert(actions.deep_view() =~= Seq::<ActionView>::empty());
    match plan_stow_dir(
        listing,
        &package_dir,
        &target_dir,
        config,
        patterns,
        &stow_dir,
        None,
        conflicts,
        &mut actions,
    ) {
        Ok(()) => {
            assert(actions.deep_view() =~= Seq::<ActionView>::empty() + stow_package_plan(
                scan,
                *patterns,
                config.adopt,
            ).actions);
            Ok(actions)
        },
        Err(e) => Err(e),
    }
}

/// What to do with a package entry that is not ignored, when unstowing.
#[derive(Debug, Clone, Copy, PartialEq, Eq, Structural)]
pub enum UnstowDecision {
    /// Leave it.
    Skip,
    /// Remove the symlink at the target path.
    Remove,
    /// Unstow the entry's own entries from the directory at the target path.
    Descend,
}

/// What to do, when unstowing, with a package entry (a real directory when
/// `entry_is_dir`) whose canonical path is `src`: only a stow symlink that
/// leads to this very entry is removed; a real directory target of a
/// directory entry is entered.
pub open spec fn unstow_decision(
    entry_is_dir: bool,
    t: TargetView,
    src: PathView,
    stow_dir: PathView,
) -> UnstowDecision {
    if t.is_symlink && owned_by_stow(t, stow_dir) {
        if src == resolved_of(t) {
            UnstowDecision::Remove
        } else {
            UnstowDecision::Skip
        }
    } else if entry_is_dir && t.is_dir && !t.is_symlink {
        UnstowDecision::Descend
    } else {
        UnstowDecision::Skip
    }
}

/// Unstowing one entry of the package directory `src_dir` from `dst_dir`.
pub open spec fn unstow_entry_plan(
    e: PackageEntry,
    src_dir: PathView,
    dst_dir: PathView,
    pats: Patterns,
    stow_dir: PathView,
) -> Plan
    decreases e,
{
    let src_path = join_name(src_dir, e.name@);
    let dst_path = join_name(dst_dir, e.name@);
    if pats.ignores(src_path) {
        empty_plan()
    } else {
        match unstow_decision(
            e.is_dir && !e.is_symlink,
            e.target@,
            e.canonical.deep_view(),
            stow_dir,
        ) {
            UnstowDecision::Skip => empty_plan(),
            UnstowDecision::Remove => act(seq![ActionView::RemoveSymlink { path: dst_path }]),
            UnstowDecision::Descend => unstow_listing_plan(
                e.listing,
                src_path,
                dst_path,
                pats,
                stow_dir,
            ),
        }
    }
}

/// Unstowing the entries of `src_dir` in order.
pub open spec fn unstow_entries_plan(
    entries: Seq<PackageEntry>,
    src_dir: PathView,
    dst_dir: PathView,
    pats: Patterns,
    stow_dir: PathView,
) -> Plan
    decreases entries,
{
    if entries.len() == 0 {
        empty_plan()
    } else {
        then(
            unstow_entries_plan(entries.drop_last(), src_dir, dst_dir, pats, stow_dir),
            unstow_entry_plan(entries.last(), src_dir, dst_dir, pats, stow_dir),
        )
    }
}

/// Unstowing the listing of `src_dir`: a directory that cannot be opened is
/// passed over; a failure while reading its entries stops the plan.
pub open spec fn unstow_listing_plan(
    l: Listing,
    src_dir: PathView,
    dst_dir: PathView,
    pats: Patterns,
    stow_dir: PathView,
) -> Plan
    decreases l,
{
    match l {
        Listing::Read(v) => unstow_entries_plan(v@, src_dir, dst_dir, pats, stow_dir),
        Listing::Partial(v, e) => then(
            unstow_entries_plan(v@, src_dir, dst_dir, pats, stow_dir),
            fail_at(src_dir, e),
        ),
        Listing::Unreadable(_) => empty_plan(),
        Listing::NotListed => empty_plan(),
    }
}

/// Unstowing a whole package.
pub open spec fn unstow_package_plan(scan: PackageScan, pats: Patterns) -> Plan {
    unstow_listing_plan(
        scan.listing,
        scan.package_dir.deep_view(),
        scan.target_dir.deep_view(),
        pats,
        scan.stow_dir.deep_view(),
    )
}

proof fn lemma_unstow_failure_absorbs(
    entries: Seq<PackageEntry>,
    k: int,
    src_dir: PathView,
    dst_dir: PathView,
    pats: Patterns,
    stow_dir: PathView,
)
    requires
        0 <= k <= entries.len(),
        unstow_entries_plan(entries.take(k), src_dir, dst_dir, pats, stow_dir).failure is Some,
    ensures
        unstow_entries_plan(entries, src_dir, dst_dir, pats, stow_dir) == unstow_entries_plan(
            entries.take(k),
            src_dir,
            dst_dir,
            pats,
            stow_dir,
        ),
    decreases entries.len(),
{
    if k == entries.len() {
        assert(entries.take(k) =~= entries);
    } else {
        assert(entries.drop_last().take(k) =~= entries.take(k));
        lemma_unstow_failure_absorbs(entries.drop_last(), k, src_dir, dst_dir, pats, stow_dir);
    }
}

/// What running an unstow plan does to the action list and the result.
pub open spec fn unstow_applied(
    p: Plan,
    a0: Seq<ActionView>,
    a1: Seq<ActionView>,
    r: Result<(), StowError>,
) -> bool {
    &&& a1 == a0 + p.actions
    &&& match p.failure {
        None => r is Ok,
        Some(f) => r matches Err(StowError::Io { path, source }) && path.deep_view() == f.0
            && source == f.1,
    }
}

/// Decides what to do, when unstowing, with a package entry that is not
/// ignored (see [`unstow_decision`]).
pub fn decide_unstow(
    entry_is_dir: bool,
    t: &TargetFacts,
    src: &Vec<String>,
    stow_dir: &Vec<String>,
) -> (d: UnstowDecision)
    ensures
        d == unstow_decision(entry_is_dir, t@, src.deep_view(), stow_dir.deep_view()),
{
    if t.is_symlink && is_stow_symlink(t, stow_dir) {
        let l = t.link.as_ref().unwrap();
        if same_path(src, &l.resolved) {
            UnstowDecision::Remove
        } else {
            UnstowDecision::Skip
        }
    } else if entry_is_dir && t.is_dir && !t.is_symlink {
        UnstowDecision::Descend
    } else {
        UnstowDecision::Skip
    }
}

/// Unstows one entry of the package directory `src_dir` from `dst_dir`.
fn plan_unstow_entry(
    e: PackageEntry,
    src_dir: &Vec<String>,
    dst_dir: &Vec<String>,
    patterns: &Patterns,
    stow_dir: &Vec<String>,
    actions: &mut Vec<Action>,
) -> (r: Result<(), StowError>)
    ensures
        unstow_applied(
            unstow_entry_plan(
                e,
                src_dir.deep_view(),
                dst_dir.deep_view(),
                *patterns,
                stow_dir.deep_view(),
            ),
            old(actions).deep_view(),
            final(actions).deep_view(),
            r,
        ),
    decreases e, 0nat,
{
    let ghost whole = e;
    let ghost p = unstow_entry_plan(
        e,
        src_dir.deep_view(),
        dst_dir.deep_view(),
        *patterns,
        stow_dir.deep_view(),
    );
    let ghost a0 = actions.deep_view();
    let PackageEntry { name, is_dir, is_symlink, canonical, target, folded: _, listing } = e;
    let src_path = join(src_dir, &name);
    let dst_path = join(dst_dir, &name);
    if patterns.should_ignore(&src_path) {
        assert(actions.deep_view() =~= a0 + p.actions);
        return Ok(());
    }
    match decide_unstow(is_dir && !is_symlink, &target, &canonical, stow_dir) {
        UnstowDecision::Skip => {
            assert(actions.deep_view() =~= a0 + p.actions);
            Ok(())
        },
        UnstowDecision::Remove => {
            push_deep(actions, Action::RemoveSymlink { path: dst_path });
            assert(actions.deep_view() =~= a0 + p.actions);
            Ok(())
        },
        UnstowDecision::Descend => {
            proof {
                assert(decreases_to!(whole => whole.listing));
            }
            plan_unstow_dir(listing, &src_path, &dst_path, patterns, stow_dir, actions)
        },
    }
}

/// Unstows the entries of `src_dir` in order; stops at the first read failure.
fn plan_unstow_entries(
    entries: Vec<PackageEntry>,
    src_dir: &Vec<String>,
    dst_dir: &Vec<String>,
    patterns: &Patterns,
    stow_dir: &Vec<String>,
    actions: &mut Vec<Action>,
) -> (r: Result<(), StowError>)
    ensures
        unstow_applied(
            unstow_entries_plan(
                entries@,
                src_dir.deep_view(),
                dst_dir.deep_view(),
                *patterns,
                stow_dir.deep_view(),
            ),
            old(actions).deep_view(),
            final(actions).deep_view(),
            r,
        ),
    decreases entries@, 0nat,
{
    let ghost all = entries@;
    let ghost src_v = src_dir.deep_view();
    let ghost dst_v = dst_dir.deep_view();
    let ghost stow_v = stow_dir.deep_view();
    let ghost a0 = actions.deep_view();
    let n = entries.len();
    let mut rest = reversed(entries);
    let mut i: usize = 0;
    while i < n
        invariant
            i <= n,
            n == all.len(),
            all == entries@,
            a0 == old(actions).deep_view(),
            src_v == src_dir.deep_view(),
            dst_v == dst_dir.deep_view(),
            stow_v == stow_dir.deep_view(),
            rest@.len() == n - i,
            forall|j: int| 0 <= j < rest@.len() ==> rest@[j] == all[n - 1 - j],
            actions.deep_view() == a0 + unstow_entries_plan(
                all.take(i as int),
                src_v,
                dst_v,
                *patterns,
                stow_v,
            ).actions,
            unstow_entries_plan(all.take(i as int), src_v, dst_v, *patterns, stow_v).failure is None,
        decreases n - i,
    {
        let e = rest.pop().unwrap();
        assert(e == all[i as int]);
        proof {
            assert(decreases_to!(all => all[i as int]));
        }
        let ghost before = unstow_entries_plan(all.take(i as int), src_v, dst_v, *patterns, stow_v);
        let r = plan_unstow_entry(e, src_dir, dst_dir, patterns, stow_dir, actions);
        assert(all.take(i + 1).drop_last() =~= all.take(i as int));
        assert(all.take(i + 1).last() == all[i as int]);
        let ghost after = unstow_entries_plan(all.take(i + 1), src_v, dst_v, *patterns, stow_v);
        let ghost ep = unstow_entry_plan(all[i as int], src_v, dst_v, *patterns, stow_v);
        assert(after == then(before, ep));
        assert(actions.deep_view() =~= a0 + after.actions);
        if r.is_err() {
            proof {
                lemma_unstow_failure_absorbs(all, i + 1, src_v, dst_v, *patterns, stow_v);
            }
            return r;
        }
        i = i + 1;
    }
    assert(all.take(n as int) =~= all);
    Ok(())
}

/// Unstows the package directory `src_dir` (whose listing is given) from `dst_dir`.
fn plan_unstow_dir(
    listing: Listing,
    src_dir: &Vec<String>,
    dst_dir: &Vec<String>,
    patterns: &Patterns,
    stow_dir: &Vec<String>,
    actions: &mut Vec<Action>,
) -> (r: Result<(), StowError>)
    ensures
        unstow_applied(
            unstow_listing_plan(
                listing,
                src_dir.deep_view(),
                dst_dir.deep_view(),
                *patterns,
                stow_dir.deep_view(),
            ),
            old(actions).deep_view(),
            final(actions).deep_view(),
            r,
        ),
    decreases listing, 0nat,
{
    let ghost whole = listing;
    let ghost a0 = actions.deep_view();
    match listing {
        Listing::Read(v) => {
            proof {
                assert(decreases_to!(whole => v));
                assert(decreases_to!(v => v@));
            }
            plan_unstow_entries(v, src_dir, dst_dir, patterns, stow_dir, actions)
        },
        Listing::Partial(v, err) => {
            proof {
                assert(decreases_to!(whole => v));
                assert(decreases_to!(v => v@));
            }
            match plan_unstow_entries(v, src_dir, dst_dir, patterns, stow_dir, actions) {
                Err(x) => Err(x),
                Ok(()) => {
                    assert(actions.deep_view() =~= actions.deep_view() + Seq::<ActionView>::empty());
                    Err(StowError::Io { path: copy_path(src_dir), source: err })
                },
            }
        },
        _ => {
            assert(actions.deep_view() =~= a0 + Seq::<ActionView>::empty());
            Ok(())
        },
    }
}

/// Collects the unstow actions for one package.
pub fn plan_unstow(scan: PackageScan, config: &Config, patterns: &Patterns) -> (r: Result<
    Vec<Action>,
    StowError,
>)
    ensures
        !scan.found ==> (r matches Err(StowError::PackageNotFound(n)) && n@ == scan.name@),
        scan.found ==> plan_result(unstow_package_plan(scan, *patterns), r),
{
    let PackageScan { name, found, package_dir, target_dir, stow_dir, listing } = scan;
    if !found {
        return Err(StowError::PackageNotFound(name));
    }
    let mut actions: Vec<Action> = Vec::new();
    assert(actions.deep_view() =~= Seq::<ActionView>::empty());
    match plan_unstow_dir(listing, &package_dir, &target_dir, patterns, &stow_dir, &mut actions) {
        Ok(()) => {
            assert(actions.deep_view() =~= Seq::<ActionView>::empty() + unstow_package_plan(
                scan,
                *patterns,
            ).actions);
            Ok(actions)
        },
        Err(e) => Err(e),
    }
}

} // verus!
