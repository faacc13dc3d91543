//! Laws of tree unfolding: what is planned below a directory that is
//! unfolded first.

use vstd::prelude::*;

use crate::conflict::ConflictKindView;
use crate::ignore::Patterns;
use crate::path::{join_name, path_starts_with, relative_path_of, PathView};
use crate::scan::{FoldedItem, Listing, PackageEntry};
use crate::stow::{
    act, conflict_at, create_link, entry_target, find_folded, link_content_of,
    stow_decision, stow_entries_plan, stow_entry_plan, stow_listing_plan, then, ActionView,
    StowDecision,
};

verus! {

/// The path an action works on.
pub open spec fn action_path(a: ActionView) -> PathView {
    match a {
        ActionView::CreateSymlink { dst, .. } => dst,
        ActionView::CreateDir { path } => path,
        ActionView::RemoveSymlink { path } => path,
        ActionView::Adopt { path, .. } => path,
        ActionView::Unfold { dir, .. } => dir,
    }
}

/// Whether the action unfolds the directory `dir`.
pub open spec fn unfolds(a: ActionView, dir: PathView) -> bool {
    a matches ActionView::Unfold { dir: d, .. } && d == dir
}

/// Whether an action before index `i` unfolds `dir`.
pub open spec fn unfolded_before(actions: Seq<ActionView>, i: int, dir: PathView) -> bool {
    exists|j: int| 0 <= j < i && unfolds(#[trigger] actions[j], dir)
}

/// Every action works in the directory `d` itself, or in a directory that
/// an earlier action unfolds.
pub open spec fn placed_in(actions: Seq<ActionView>, d: PathView) -> bool {
    forall|i: int|
        0 <= i < actions.len() ==> {
            let dir = action_path(#[trigger] actions[i]).drop_last();
            dir == d || unfolded_before(actions, i, dir)
        }
}

proof fn lemma_placed_concat(a: Seq<ActionView>, b: Seq<ActionView>, d: PathView)
    requires
        placed_in(a, d),
        placed_in(b, d),
    ensures
        placed_in(a + b, d),
{
    let ab = a + b;
    assert forall|i: int| 0 <= i < ab.len() implies {
        let dir = action_path(#[trigger] ab[i]).drop_last();
        dir == d || unfolded_before(ab, i, dir)
    } by {
        if i < a.len() {
            assert(ab[i] == a[i]);
            let dir = action_path(a[i]).drop_last();
            if dir != d {
                let j = choose|j: int| 0 <= j < i && unfolds(#[trigger] a[j], dir);
                assert(ab[j] == a[j]);
            }
        } else {
            let k = i - a.len();
            assert(ab[i] == b[k]);
            let dir = action_path(b[k]).drop_last();
            if dir != d {
                let j = choose|j: int| 0 <= j < k && unfolds(#[trigger] b[j], dir);
                assert(ab[j + a.len()] == b[j]);
            }
        }
    }
}

/// The actions of an unfolded subdirectory `d.push(n)`, after its `Unfold`,
/// are placed in `d`.
proof fn lemma_placed_after_unfold(d: PathView, n: Seq<char>, link: PathView, b: Seq<ActionView>)
    requires
        placed_in(b, d.push(n)),
    ensures
        placed_in(seq![ActionView::Unfold { dir: d.push(n), existing_link_target: link }] + b, d),
{
    let u = ActionView::Unfold { dir: d.push(n), existing_link_target: link };
    let ab = seq![u] + b;
    assert(d.push(n).drop_last() =~= d);
    assert forall|i: int| 0 <= i < ab.len() implies {
        let dir = action_path(#[trigger] ab[i]).drop_last();
        dir == d || unfolded_before(ab, i, dir)
    } by {
        if i > 0 {
            assert(ab[i] == b[i - 1]);
            let dir = action_path(b[i - 1]).drop_last();
            if dir == d.push(n) {
                assert(unfolds(ab[0], dir));
            } else {
                let j = choose|j: int| 0 <= j < i - 1 && unfolds(#[trigger] b[j], dir);
                assert(ab[j + 1] == b[j]);
            }
        }
    }
}

proof fn lemma_entry_placed(
    e: PackageEntry,
    src_dir: PathView,
    dst_dir: PathView,
    pats: Patterns,
    adopt: bool,
    stow_dir: PathView,
    items: Seq<FoldedItem>,
)
    ensures
        placed_in(
            stow_entry_plan(e, src_dir, dst_dir, pats, adopt, stow_dir, Some(items)).actions,
            dst_dir,
        ),
    decreases e, 0nat,
{
    let src_path = join_name(src_dir, e.name@);
    let dst_path = join_name(dst_dir, e.name@);
    let src = e.canonical.deep_view();
    let t = entry_target(e, dst_path, Some(items));
    let p = stow_entry_plan(e, src_dir, dst_dir, pats, adopt, stow_dir, Some(items));
    assert(dst_path.drop_last() =~= dst_dir);
    if !pats.ignores(src_path) {
        let d = stow_decision(
            e.is_dir && !e.is_symlink,
            t,
            src,
            adopt,
            pats.defers(dst_path),
            pats.overrides(dst_path),
            stow_dir,
        );
        if d == StowDecision::Unfold {
            let inner = Some(match find_folded(items, e.name@, 0) {
                Some(it) => it.entries@,
                None => Seq::empty(),
            });
            lemma_listing_placed(e.listing, src_path, dst_path, pats, adopt, stow_dir, inner->0);
            let rest = stow_listing_plan(e.listing, src_path, dst_path, pats, adopt, stow_dir, inner);
            lemma_placed_after_unfold(dst_dir, e.name@, link_content_of(t), rest.actions);
        } else {
            assert(d != StowDecision::Descend);
            assert(placed_in(p.actions, dst_dir)) by {
                assert forall|i: int| 0 <= i < p.actions.len() implies {
                    let dir = action_path(#[trigger] p.actions[i]).drop_last();
                    dir == dst_dir || unfolded_before(p.actions, i, dir)
                } by {
                    assert(action_path(p.actions[i]) == dst_path);
                }
            }
        }
    }
}

proof fn lemma_entries_placed(
    s: Seq<PackageEntry>,
    src_dir: PathView,
    dst_dir: PathView,
    pats: Patterns,
    adopt: bool,
    stow_dir: PathView,
    items: Seq<FoldedItem>,
)
    ensures
        placed_in(
            stow_entries_plan(s, src_dir, dst_dir, pats, adopt, stow_dir, Some(items)).actions,
            dst_dir,
        ),
    decreases s, 0nat,
{
    if s.len() > 0 {
        lemma_entries_placed(s.drop_last(), src_dir, dst_dir, pats, adopt, stow_dir, items);
        lemma_entry_placed(s.last(), src_dir, dst_dir, pats, adopt, stow_dir, items);
        let p = stow_entries_plan(s.drop_last(), src_dir, dst_dir, pats, adopt, stow_dir, Some(items));
        let q = stow_entry_plan(s.last(), src_dir, dst_dir, pats, adopt, stow_dir, Some(items));
        lemma_placed_concat(p.actions, q.actions, dst_dir);
    }
}

proof fn lemma_listing_placed(
    l: Listing,
    src_dir: PathView,
    dst_dir: PathView,
    pats: Patterns,
    adopt: bool,
    stow_dir: PathView,
    items: Seq<FoldedItem>,
)
    ensures
        placed_in(
            stow_listing_plan(l, src_dir, dst_dir, pats, adopt, stow_dir, Some(items)).actions,
            dst_dir,
        ),
    decreases l, 0nat,
{
    match l {
        Listing::Read(v) => lemma_entries_placed(v@, src_dir, dst_dir, pats, adopt, stow_dir, items),
        Listing::Partial(v, _) => {
            lemma_entries_placed(v@, src_dir, dst_dir, pats, adopt, stow_dir, items);
            let p = stow_entries_plan(v@, src_dir, dst_dir, pats, adopt, stow_dir, Some(items));
            assert(p.actions + Seq::<ActionView>::empty() =~= p.actions);
        },
        _ => {},
    }
}

/// Nothing is planned through another package's folded directory: when an
/// entry's target is unfolded, the plan starts with that `Unfold`, and every
/// later action works in a directory that an earlier action of the plan
/// unfolds. So no link is created, and nothing removed or moved, at a path
/// that would be reached through the old symlink into the stow directory.
pub proof fn nothing_is_planned_through_a_folded_directory(
    e: PackageEntry,
    src_dir: PathView,
    dst_dir: PathView,
    pats: Patterns,
    adopt: bool,
    stow_dir: PathView,
    over: Option<Seq<FoldedItem>>,
)
    requires
        !pats.ignores(join_name(src_dir, e.name@)),
        stow_decision(
            e.is_dir && !e.is_symlink,
            entry_target(e, join_name(dst_dir, e.name@), over),
            e.canonical.deep_view(),
            adopt,
            pats.defers(join_name(dst_dir, e.name@)),
            pats.overrides(join_name(dst_dir, e.name@)),
            stow_dir,
        ) == StowDecision::Unfold,
    ensures
        ({
            let actions = stow_entry_plan(e, src_dir, dst_dir, pats, adopt, stow_dir, over).actions;
            &&& actions.len() > 0
            &&& unfolds(actions[0], join_name(dst_dir, e.name@))
            &&& forall|i: int|
                0 < i < actions.len() ==> unfolded_before(
                    actions,
                    i,
                    action_path(#[trigger] actions[i]).drop_last(),
                )
        }),
{
    let dst_path = join_name(dst_dir, e.name@);
    let t = entry_target(e, dst_path, over);
    let inner = match over {
        None => e.folded@,
        Some(items) => match find_folded(items, e.name@, 0) {
            Some(it) => it.entries@,
            None => Seq::empty(),
        },
    };
    lemma_listing_placed(e.listing, join_name(src_dir, e.name@), dst_path, pats, adopt, stow_dir, inner);
    let rest = stow_listing_plan(
        e.listing,
        join_name(src_dir, e.name@),
        dst_path,
        pats,
        adopt,
        stow_dir,
        Some(inner),
    );
    let u = ActionView::Unfold { dir: dst_path, existing_link_target: link_content_of(t) };
    let actions = stow_entry_plan(e, src_dir, dst_dir, pats, adopt, stow_dir, over).actions;
    assert(actions == seq![u] + rest.actions);
    assert(actions[0] == u);
    assert forall|i: int| 0 < i < actions.len() implies unfolded_before(
        actions,
        i,
        action_path(#[trigger] actions[i]).drop_last(),
    ) by {
        assert(actions[i] == rest.actions[i - 1]);
        let dir = action_path(rest.actions[i - 1]).drop_last();
        if dir == dst_path {
            assert(unfolds(actions[0], dir));
        } else {
            let j = choose|j: int| 0 <= j < i - 1 && unfolds(#[trigger] rest.actions[j], dir);
            assert(actions[j + 1] == rest.actions[j]);
        }
    }
}

/// Below an unfolded directory, each entry meets what unfolding leaves: a
/// name the folded directory does not have is free and gets its link; a
/// file whose name the other package has meets that package's link; a
/// directory whose name is another package's directory unfolds that in turn.
pub proof fn entries_below_an_unfolded_directory(
    e: PackageEntry,
    src_dir: PathView,
    dst_dir: PathView,
    pats: Patterns,
    adopt: bool,
    stow_dir: PathView,
    items: Seq<FoldedItem>,
)
    requires
        !pats.ignores(join_name(src_dir, e.name@)),
    ensures
        find_folded(items, e.name@, 0) is None ==> stow_entry_plan(
            e,
            src_dir,
            dst_dir,
            pats,
            adopt,
            stow_dir,
            Some(items),
        ) == act(seq![create_link(join_name(dst_dir, e.name@), e.canonical.deep_view())]),
        find_folded(items, e.name@, 0) matches Some(it) ==> (!(e.is_dir && !e.is_symlink)
            && path_starts_with(it.canonical.deep_view(), stow_dir) && it.canonical.deep_view()
            != e.canonical.deep_view() && !pats.defers(join_name(dst_dir, e.name@))
            && !pats.overrides(join_name(dst_dir, e.name@)) ==> stow_entry_plan(
            e,
            src_dir,
            dst_dir,
            pats,
            adopt,
            stow_dir,
            Some(items),
        ) == conflict_at(
            join_name(dst_dir, e.name@),
            ConflictKindView::OwnedByOther { owner: it.canonical.deep_view() },
        )),
        find_folded(items, e.name@, 0) matches Some(it) ==> (e.is_dir && !e.is_symlink && it.is_dir
            && path_starts_with(it.canonical.deep_view(), stow_dir) && it.canonical.deep_view()
            != e.canonical.deep_view() ==> stow_entry_plan(
            e,
            src_dir,
            dst_dir,
            pats,
            adopt,
            stow_dir,
            Some(items),
        ) == then(
            act(
                seq![
                    ActionView::Unfold {
                        dir: join_name(dst_dir, e.name@),
                        existing_link_target: relative_path_of(
                            join_name(dst_dir, e.name@),
                            it.canonical.deep_view(),
                        ),
                    },
                ],
            ),
            stow_listing_plan(
                e.listing,
                join_name(src_dir, e.name@),
                join_name(dst_dir, e.name@),
                pats,
                adopt,
                stow_dir,
                Some(it.entries@),
            ),
        )),
{
}

} // verus!
