//! Cleaning up after unstowing: directories of the target that held links
//! of the unstowed packages and are left empty are removed, bottom-up; the
//! target directory itself never is.

use vstd::prelude::*;

use crate::path::{path_starts_with, same_path, starts_with, PathView};
use crate::stow::{Action, ActionView};
use crate::vecs::reversed;

verus! {

/// A directory of the target, with its entries as far as they were read.
pub struct DirScan {
    /// The directory's path.
    pub path: Vec<String>,
    /// Its entries, or the failure to open it.
    pub contents: Result<Vec<DirItem>, std::io::Error>,
}

/// An entry of a scanned directory.
pub enum DirItem {
    /// A real directory (not a symlink to one), scanned in turn.
    Subdir(DirScan),
    /// Anything else, including an entry that could not be read.
    Other,
}

/// One cleanup operation.
#[derive(Debug)]
pub enum CleanupStep {
    /// Remove the (empty) directory.
    RemoveDir { path: Vec<String> },
    /// Opening the directory failed: stop with this error.
    Fail { path: Vec<String>, error: std::io::Error },
}

/// The abstract value of a [`CleanupStep`].
pub enum CleanupStepView {
    RemoveDir { path: PathView },
    Fail { path: PathView, error: std::io::Error },
}

impl DeepView for CleanupStep {
    type V = CleanupStepView;

    open spec fn deep_view(&self) -> CleanupStepView {
        match self {
            CleanupStep::RemoveDir { path } => CleanupStepView::RemoveDir { path: path.deep_view() },
            CleanupStep::Fail { path, error } => CleanupStepView::Fail {
                path: path.deep_view(),
                error: *error,
            },
        }
    }
}

/// Whether the directory `dir` held one of the `unstowed` links, directly
/// or in a directory below it.
pub open spec fn held_unstowed(dir: PathView, unstowed: Seq<PathView>) -> bool {
    exists|i: int|
        0 <= i < unstowed.len() && dir.len() < unstowed[i].len() && path_starts_with(
            #[trigger] unstowed[i],
            dir,
        )
}

/// Whether the directory gets removed: it is not the target directory, it
/// held one of the `unstowed` links, it was read, and every entry is a
/// directory that gets removed. A directory that never held a link of the
/// unstowed packages is left alone, empty or not.
pub open spec fn removed(d: DirScan, target: PathView, unstowed: Seq<PathView>) -> bool
    decreases d,
{
    &&& d.path.deep_view() != target
    &&& held_unstowed(d.path.deep_view(), unstowed)
    &&& match d.contents {
        Ok(v) => items_removed(v@, target, unstowed),
        Err(_) => false,
    }
}

/// Whether every entry is a directory that gets removed.
pub open spec fn items_removed(items: Seq<DirItem>, target: PathView, unstowed: Seq<PathView>) -> bool
    decreases items,
{
    if items.len() == 0 {
        true
    } else {
        items_removed(items.drop_last(), target, unstowed) && item_removed(items.last(), target, unstowed)
    }
}

/// Whether the entry is a directory that gets removed.
pub open spec fn item_removed(item: DirItem, target: PathView, unstowed: Seq<PathView>) -> bool
    decreases item,
{
    match item {
        DirItem::Subdir(d) => removed(d, target, unstowed),
        DirItem::Other => false,
    }
}

/// The cleanup of a directory: its subdirectories first, in order, then the
/// directory itself when it is left empty; a directory that cannot be opened
/// stops the cleanup there.
pub open spec fn dir_steps(d: DirScan, target: PathView, unstowed: Seq<PathView>) -> Seq<CleanupStepView>
    decreases d,
{
    match d.contents {
        Ok(v) => items_steps(v@, target, unstowed) + if removed(d, target, unstowed) {
            seq![CleanupStepView::RemoveDir { path: d.path.deep_view() }]
        } else {
            Seq::empty()
        },
        Err(e) => seq![CleanupStepView::Fail { path: d.path.deep_view(), error: e }],
    }
}

/// The cleanup of a list of entries, in order.
pub open spec fn items_steps(items: Seq<DirItem>, target: PathView, unstowed: Seq<PathView>) -> Seq<CleanupStepView>
    decreases items,
{
    if items.len() == 0 {
        Seq::empty()
    } else {
        items_steps(items.drop_last(), target, unstowed) + item_steps(items.last(), target, unstowed)
    }
}

/// The cleanup of one entry.
pub open spec fn item_steps(item: DirItem, target: PathView, unstowed: Seq<PathView>) -> Seq<CleanupStepView>
    decreases item,
{
    match item {
        DirItem::Subdir(d) => dir_steps(d, target, unstowed),
        DirItem::Other => Seq::empty(),
    }
}

/// The paths of the symlinks that a list of actions removes, in order.
pub open spec fn unstowed_links(actions: Seq<ActionView>) -> Seq<PathView>
    decreases actions.len(),
{
    if actions.len() == 0 {
        Seq::empty()
    } else {
        unstowed_links(actions.drop_last()) + match actions.last() {
            ActionView::RemoveSymlink { path } => seq![path],
            _ => Seq::empty(),
        }
    }
}

/// The paths of the symlinks that `actions` remove, in order.
pub fn unstowed_links_of(actions: &Vec<Action>) -> (r: Vec<Vec<String>>)
    ensures
        r.deep_view() == unstowed_links(actions.deep_view()),
{
    let ghost all = actions.deep_view();
    let mut r: Vec<Vec<String>> = Vec::new();
    let mut i: usize = 0;
    assert(r.deep_view() =~= unstowed_links(all.take(0)));
    while i < actions.len()
        invariant
            i <= actions.len(),
            all == actions.deep_view(),
            r.deep_view() == unstowed_links(all.take(i as int)),
        decreases actions.len() - i,
    {
        assert(all.take(i + 1).drop_last() =~= all.take(i as int));
        assert(all.take(i + 1).last() == all[i as int]);
        let ghost before = r.deep_view();
        match &actions[i] {
            Action::RemoveSymlink { path } => {
                crate::vecs::push_deep(&mut r, crate::path::copy_path(path));
                assert(r.deep_view() =~= before + seq![path.deep_view()]);
            },
            _ => {
                assert(r.deep_view() =~= before + Seq::<PathView>::empty());
            },
        }
        i = i + 1;
    }
    assert(all.take(actions.len() as int) =~= all);
    r
}

/// Whether `dir` held one of the `unstowed` links.
fn held(dir: &Vec<String>, unstowed: &Vec<Vec<String>>) -> (b: bool)
    ensures
        b == held_unstowed(dir.deep_view(), unstowed.deep_view()),
{
    let ghost u = unstowed.deep_view();
    let mut i: usize = 0;
    while i < unstowed.len()
        invariant
            i <= unstowed.len(),
            u == unstowed.deep_view(),
            forall|j: int|
                0 <= j < i ==> !(dir.deep_view().len() < u[j].len() && path_starts_with(
                    #[trigger] u[j],
                    dir.deep_view(),
                )),
        decreases unstowed.len() - i,
    {
        assert(u[i as int] == unstowed[i as int].deep_view());
        if dir.len() < unstowed[i].len() && starts_with(&unstowed[i], dir) {
            return true;
        }
        i = i + 1;
    }
    false
}

/// Cleans up the directory `d`, appending the steps; returns whether `d`
/// itself is removed.
fn cleanup_dir(
    d: DirScan,
    target: &Vec<String>,
    unstowed: &Vec<Vec<String>>,
    steps: &mut Vec<CleanupStep>,
) -> (gone: bool)
    ensures
        gone == removed(d, target.deep_view(), unstowed.deep_view()),
        final(steps).deep_view() == old(steps).deep_view() + dir_steps(
            d,
            target.deep_view(),
            unstowed.deep_view(),
        ),
    decreases d, 0nat,
{
    let ghost whole = d;
    let ghost u = unstowed.deep_view();
    let ghost s0 = steps.deep_view();
    let DirScan { path, contents } = d;
    match contents {
        Ok(items) => {
            proof {
                assert(decreases_to!(whole => items));
                assert(decreases_to!(items => items@));
            }
            let all_gone = cleanup_items(items, target, unstowed, steps);
            let ghost s1 = steps.deep_view();
            let gone = all_gone && !same_path(&path, target) && held(&path, unstowed);
            if gone {
                steps.push(CleanupStep::RemoveDir { path });
                assert(steps.deep_view() =~= s1.push(
                    CleanupStepView::RemoveDir { path: whole.path.deep_view() },
                ));
            }
            assert(steps.deep_view() =~= s0 + dir_steps(whole, target.deep_view(), u));
            gone
        },
        Err(e) => {
            steps.push(CleanupStep::Fail { path, error: e });
            assert(steps.deep_view() =~= s0 + dir_steps(whole, target.deep_view(), u));
            false
        },
    }
}

/// Cleans up the entries in order; returns whether all of them are removed.
fn cleanup_items(
    items: Vec<DirItem>,
    target: &Vec<String>,
    unstowed: &Vec<Vec<String>>,
    steps: &mut Vec<CleanupStep>,
) -> (all_gone: bool)
    ensures
        all_gone == items_removed(items@, target.deep_view(), unstowed.deep_view()),
        final(steps).deep_view() == old(steps).deep_view() + items_steps(
            items@,
            target.deep_view(),
            unstowed.deep_view(),
        ),
    decreases items@, 0nat,
{
    let ghost all = items@;
    let ghost t = target.deep_view();
    let ghost u = unstowed.deep_view();
    let ghost s0 = steps.deep_view();
    let n = items.len();
    let mut rest = reversed(items);
    let mut i: usize = 0;
    let mut all_gone = true;
    while i < n
        invariant
            i <= n,
            n == all.len(),
            all == items@,
            t == target.deep_view(),
            u == unstowed.deep_view(),
            s0 == old(steps).deep_view(),
            rest@.len() == n - i,
            forall|j: int| 0 <= j < rest@.len() ==> rest@[j] == all[n - 1 - j],
            all_gone == items_removed(all.take(i as int), t, u),
            steps.deep_view() == s0 + items_steps(all.take(i as int), t, u),
        decreases n - i,
    {
        let item = rest.pop().unwrap();
        assert(item == all[i as int]);
        assert(all.take(i + 1).drop_last() =~= all.take(i as int));
        assert(all.take(i + 1).last() == all[i as int]);
        let ghost item_v = item;
        let ghost s1 = steps.deep_view();
        let gone = match item {
            DirItem::Subdir(d) => {
                proof {
                    assert(decreases_to!(all => all[i as int]));
                    assert(decreases_to!(item_v => d));
                }
                let g = cleanup_dir(d, target, unstowed, steps);
                assert(item_steps(item_v, t, u) == dir_steps(d, t, u));
                assert(item_removed(item_v, t, u) == removed(d, t, u));
                g
            },
            DirItem::Other => {
                assert(steps.deep_view() =~= steps.deep_view() + Seq::<CleanupStepView>::empty());
                false
            },
        };
        assert(steps.deep_view() == s1 + item_steps(item_v, t, u));
        assert(gone == item_removed(item_v, t, u));
        all_gone = all_gone && gone;
        assert(steps.deep_view() =~= s0 + items_steps(all.take(i + 1), t, u));
        i = i + 1;
    }
    assert(all.take(n as int) =~= all);
    all_gone
}

/// Plans the removal of the directories under `scan` (the target directory,
/// or `None` when it is not a directory) that are left empty, bottom-up,
/// among those that held one of the `unstowed` links. The target directory
/// itself is never removed.
pub fn cleanup_empty_dirs(
    scan: Option<DirScan>,
    target_dir: &Vec<String>,
    unstowed: &Vec<Vec<String>>,
) -> (steps: Vec<CleanupStep>)
    ensures
        steps.deep_view() == match scan {
            Some(d) => dir_steps(d, target_dir.deep_view(), unstowed.deep_view()),
            None => Seq::empty(),
        },
{
    let mut steps: Vec<CleanupStep> = Vec::new();
    assert(steps.deep_view() =~= Seq::<CleanupStepView>::empty());
    match scan {
        Some(d) => {
            cleanup_dir(d, target_dir, unstowed, &mut steps);
            assert(steps.deep_view() =~= Seq::<CleanupStepView>::empty() + dir_steps(
                d,
                target_dir.deep_view(),
                unstowed.deep_view(),
            ));
        },
        None => {},
    }
    steps
}

/// Every directory that a step removes is not `target` and held one of the
/// `unstowed` links.
pub open spec fn removes_only_unstowed(
    steps: Seq<CleanupStepView>,
    target: PathView,
    unstowed: Seq<PathView>,
) -> bool {
    forall|i: int|
        0 <= i < steps.len() ==> match #[trigger] steps[i] {
            CleanupStepView::RemoveDir { path } => path != target && held_unstowed(path, unstowed),
            _ => true,
        }
}

proof fn lemma_removes_concat(
    a: Seq<CleanupStepView>,
    b: Seq<CleanupStepView>,
    target: PathView,
    unstowed: Seq<PathView>,
)
    requires
        removes_only_unstowed(a, target, unstowed),
        removes_only_unstowed(b, target, unstowed),
    ensures
        removes_only_unstowed(a + b, target, unstowed),
{
    assert forall|i: int| 0 <= i < (a + b).len() implies match #[trigger] (a + b)[i] {
        CleanupStepView::RemoveDir { path } => path != target && held_unstowed(path, unstowed),
        _ => true,
    } by {
        if i < a.len() {
            assert((a + b)[i] == a[i]);
        } else {
            assert((a + b)[i] == b[i - a.len()]);
        }
    }
}

proof fn lemma_dir_removes(d: DirScan, target: PathView, unstowed: Seq<PathView>)
    ensures
        removes_only_unstowed(dir_steps(d, target, unstowed), target, unstowed),
    decreases d, 0nat,
{
    match d.contents {
        Ok(v) => {
            lemma_items_remove(v@, target, unstowed);
            let tail = if removed(d, target, unstowed) {
                seq![CleanupStepView::RemoveDir { path: d.path.deep_view() }]
            } else {
                Seq::empty()
            };
            assert(removes_only_unstowed(tail, target, unstowed));
            lemma_removes_concat(items_steps(v@, target, unstowed), tail, target, unstowed);
        },
        Err(e) => {
            assert(removes_only_unstowed(dir_steps(d, target, unstowed), target, unstowed));
        },
    }
}

proof fn lemma_items_remove(items: Seq<DirItem>, target: PathView, unstowed: Seq<PathView>)
    ensures
        removes_only_unstowed(items_steps(items, target, unstowed), target, unstowed),
    decreases items, 0nat,
{
    if items.len() == 0 {
        assert(removes_only_unstowed(Seq::empty(), target, unstowed));
    } else {
        lemma_items_remove(items.drop_last(), target, unstowed);
        match items.last() {
            DirItem::Subdir(d) => lemma_dir_removes(d, target, unstowed),
            DirItem::Other => assert(removes_only_unstowed(Seq::empty(), target, unstowed)),
        }
        lemma_removes_concat(
            items_steps(items.drop_last(), target, unstowed),
            item_steps(items.last(), target, unstowed),
            target,
            unstowed,
        );
    }
}

/// Cleanup removes only what unstowing emptied: no step removes the target
/// directory, however empty it is left, and every directory removed held
/// one of the unstowed links (directly or below it). A directory that was
/// empty, or holds nothing of the unstowed packages, is left alone.
pub proof fn cleanup_removes_only_unstowed_dirs(d: DirScan, target: PathView, unstowed: Seq<PathView>)
    ensures
        removes_only_unstowed(dir_steps(d, target, unstowed), target, unstowed),
{
    lemma_dir_removes(d, target, unstowed);
}

/// Only emptied directories are removed: a directory is removed exactly when
/// it is not the target, held one of the unstowed links, and every entry it
/// had is a directory that is removed too.
pub proof fn only_emptied_directories_are_removed(d: DirScan, target: PathView, unstowed: Seq<PathView>)
    ensures
        removed(d, target, unstowed) <==> {
            &&& d.path.deep_view() != target
            &&& held_unstowed(d.path.deep_view(), unstowed)
            &&& d.contents matches Ok(v) && forall|i: int|
                0 <= i < v@.len() ==> item_removed(#[trigger] v@[i], target, unstowed)
        },
{
    match d.contents {
        Ok(v) => lemma_items_removed(v@, target, unstowed),
        Err(_) => {},
    }
}

proof fn lemma_items_removed(items: Seq<DirItem>, target: PathView, unstowed: Seq<PathView>)
    ensures
        items_removed(items, target, unstowed) <==> forall|i: int|
            0 <= i < items.len() ==> item_removed(#[trigger] items[i], target, unstowed),
    decreases items.len(),
{
    if items.len() > 0 {
        let rest = items.drop_last();
        lemma_items_removed(rest, target, unstowed);
        if items_removed(items, target, unstowed) {
            assert forall|i: int| 0 <= i < items.len() implies item_removed(
                #[trigger] items[i],
                target,
                unstowed,
            ) by {
                if i < rest.len() {
                    assert(items[i] == rest[i]);
                }
            }
        }
        if forall|i: int| 0 <= i < items.len() ==> item_removed(#[trigger] items[i], target, unstowed) {
            assert forall|i: int| 0 <= i < rest.len() implies item_removed(
                #[trigger] rest[i],
                target,
                unstowed,
            ) by {
                assert(items[i] == rest[i]);
            }
            assert(item_removed(items[items.len() - 1], target, unstowed));
        }
    }
}

/// Whether the step removes the directory `path`.
pub open spec fn removes_dir(step: CleanupStepView, path: PathView) -> bool {
    step == CleanupStepView::RemoveDir { path }
}

/// Whether the entry is a subdirectory that gets removed.
pub open spec fn removed_subdir(item: DirItem, target: PathView, unstowed: Seq<PathView>) -> bool {
    match item {
        DirItem::Subdir(c) => removed(c, target, unstowed),
        DirItem::Other => false,
    }
}

/// The path of an entry that is a subdirectory.
pub open spec fn item_path(item: DirItem) -> PathView {
    match item {
        DirItem::Subdir(c) => c.path.deep_view(),
        DirItem::Other => Seq::empty(),
    }
}

/// Cleanup is complete: a directory that gets removed (see [`removed`]) has
/// its `RemoveDir` step, last, after the steps of its entries; so does each
/// of its subdirectories that gets removed, however many it has.
pub proof fn emptied_directories_are_all_removed(d: DirScan, target: PathView, unstowed: Seq<PathView>)
    ensures
        removed(d, target, unstowed) ==> dir_steps(d, target, unstowed).len() > 0 && removes_dir(
            dir_steps(d, target, unstowed).last(),
            d.path.deep_view(),
        ),
        forall|v: Vec<DirItem>, i: int|
            d.contents == Ok::<Vec<DirItem>, std::io::Error>(v) && 0 <= i < v@.len()
                && removed_subdir(#[trigger] v@[i], target, unstowed) ==> exists|j: int|
                0 <= j < dir_steps(d, target, unstowed).len() && removes_dir(
                    #[trigger] dir_steps(d, target, unstowed)[j],
                    item_path(v@[i]),
                ),
{
    match d.contents {
        Ok(v) => {
            let items = v@;
            assert forall|w: Vec<DirItem>, i: int|
                d.contents == Ok::<Vec<DirItem>, std::io::Error>(w) && 0 <= i < w@.len()
                    && removed_subdir(#[trigger] w@[i], target, unstowed) implies exists|j: int|
                0 <= j < dir_steps(d, target, unstowed).len() && removes_dir(
                    #[trigger] dir_steps(d, target, unstowed)[j],
                    item_path(w@[i]),
                ) by {
                assert(w == v);
                let k = lemma_item_step_in(items, i, target, unstowed);
                let all = dir_steps(d, target, unstowed);
                let tail = if removed(d, target, unstowed) {
                    seq![CleanupStepView::RemoveDir { path: d.path.deep_view() }]
                } else {
                    Seq::empty()
                };
                assert(all == items_steps(items, target, unstowed) + tail);
                assert(all[k] == items_steps(items, target, unstowed)[k]);
            }
        },
        Err(_) => {},
    }
}

/// The removal of the removed subdirectory `items[i]` is among the steps of
/// the list; returns its index.
proof fn lemma_item_step_in(items: Seq<DirItem>, i: int, target: PathView, unstowed: Seq<PathView>) -> (k: int)
    requires
        0 <= i < items.len(),
        removed_subdir(items[i], target, unstowed),
    ensures
        0 <= k < items_steps(items, target, unstowed).len(),
        removes_dir(items_steps(items, target, unstowed)[k], item_path(items[i])),
    decreases items.len(),
{
    let rest = items.drop_last();
    let p = items_steps(rest, target, unstowed);
    let q = item_steps(items.last(), target, unstowed);
    assert(items_steps(items, target, unstowed) == p + q);
    if i == items.len() - 1 {
        let c = items[i]->Subdir_0;
        assert(q == dir_steps(c, target, unstowed));
        let k = p.len() + q.len() - 1;
        assert((p + q)[k] == q[q.len() - 1]);
        k
    } else {
        assert(rest[i] == items[i]);
        let k = lemma_item_step_in(rest, i, target, unstowed);
        assert((p + q)[k] == p[k]);
        k
    }
}

} // verus!
