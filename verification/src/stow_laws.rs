//! Laws of planning: what every stow or unstow plan satisfies.

use vstd::prelude::*;

use crate::conflict::{ConflictKindView, ConflictView};
use crate::ignore::Patterns;
use crate::path::{
    current_component, is_absolute_path, is_normal_absolute, join_name, link_dir,
    parent_component, path_starts_with, relative_path_of, relative_path_resolves, resolve_lexically, root_component,
    PathView,
};
use crate::scan::{FoldedItem, Listing, PackageEntry, PackageScan, TargetView};
use crate::stow::{
    act, adopt_into_package, create_link, empty_plan, entry_folded, entry_target, fail_at,
    in_the_way, link_content_of, owned_by_stow, replace_with_link, resolved_of, stow_decision,
    stow_entries_plan, stow_entry_plan, stow_listing_plan, stow_package_plan, then,
    unstow_decision, unstow_entries_plan, unstow_entry_plan, unstow_listing_plan,
    unstow_package_plan, ActionView, Plan, StowDecision, UnstowDecision,
};
use crate::unfold_laws::action_path;

verus! {

/// A name that an entry of a directory can have: not the root, `"."` or `".."`.
pub open spec fn plain_name(n: Seq<char>) -> bool {
    n != root_component() && n != parent_component() && n != current_component()
}

/// A package entry whose name is plain and whose canonical path is an
/// absolute path of plain names, and so are all entries below it.
pub open spec fn entry_well_formed(e: PackageEntry) -> bool
    decreases e,
{
    &&& plain_name(e.name@)
    &&& is_normal_absolute(e.canonical.deep_view())
    &&& listing_well_formed(e.listing)
}

/// Every entry of the list is well formed.
pub open spec fn entries_well_formed(s: Seq<PackageEntry>) -> bool
    decreases s,
{
    if s.len() == 0 {
        true
    } else {
        entries_well_formed(s.drop_last()) && entry_well_formed(s.last())
    }
}

/// Every entry of the listing is well formed.
pub open spec fn listing_well_formed(l: Listing) -> bool
    decreases l,
{
    match l {
        Listing::Read(v) => entries_well_formed(v@),
        Listing::Partial(v, _) => entries_well_formed(v@),
        _ => true,
    }
}

/// Every symlink to create is relative, and read from the directory holding
/// it, leads to an absolute path of plain names.
pub open spec fn links_relative(actions: Seq<ActionView>) -> bool {
    forall|i: int|
        0 <= i < actions.len() ==> match #[trigger] actions[i] {
            ActionView::CreateSymlink { src, dst } => {
                &&& !is_absolute_path(src)
                &&& exists|c: PathView|
                    is_normal_absolute(c) && src == relative_path_of(dst, c) && resolve_lexically(
                        link_dir(dst),
                        src,
                    ) == c
            },
            _ => true,
        }
}

proof fn lemma_links_relative_concat(a: Seq<ActionView>, b: Seq<ActionView>)
    requires
        links_relative(a),
        links_relative(b),
    ensures
        links_relative(a + b),
{
    assert forall|i: int| 0 <= i < (a + b).len() implies match #[trigger] (a + b)[i] {
        ActionView::CreateSymlink { src, dst } => {
            &&& !is_absolute_path(src)
            &&& exists|c: PathView|
                is_normal_absolute(c) && src == relative_path_of(dst, c) && resolve_lexically(
                    link_dir(dst),
                    src,
                ) == c
        },
        _ => true,
    } by {
        if i < a.len() {
            assert((a + b)[i] == a[i]);
        } else {
            assert((a + b)[i] == b[i - a.len()]);
        }
    }
}

proof fn lemma_create_link_relative(dst: PathView, src: PathView)
    requires
        is_normal_absolute(dst),
        is_normal_absolute(src),
    ensures
        links_relative(seq![create_link(dst, src)]),
        links_relative(replace_with_link(dst, src).actions),
        forall|into: PathView| links_relative(#[trigger] adopt_into_package(dst, into, src).actions),
{
    relative_path_resolves(dst, src);
    let rel = relative_path_of(dst, src);
    assert(resolve_lexically(link_dir(dst), rel) == src);
    let one = seq![create_link(dst, src)];
    assert forall|i: int| 0 <= i < one.len() implies match #[trigger] one[i] {
        ActionView::CreateSymlink { src: s, dst: d } => {
            &&& !is_absolute_path(s)
            &&& exists|c: PathView|
                is_normal_absolute(c) && s == relative_path_of(d, c) && resolve_lexically(
                    link_dir(d),
                    s,
                ) == c
        },
        _ => true,
    } by {
        assert(one[i] == create_link(dst, src));
    }
    assert forall|into: PathView| links_relative(
        #[trigger] adopt_into_package(dst, into, src).actions,
    ) by {
        let a = adopt_into_package(dst, into, src).actions;
        assert forall|i: int| 0 <= i < a.len() implies match #[trigger] a[i] {
            ActionView::CreateSymlink { src: s, dst: d } => {
                &&& !is_absolute_path(s)
                &&& exists|c: PathView|
                    is_normal_absolute(c) && s == relative_path_of(d, c) && resolve_lexically(
                        link_dir(d),
                        s,
                    ) == c
            },
            _ => true,
        } by {
            if i == 1 {
                assert(a[i] == create_link(dst, src));
            }
        }
    }
    let two = replace_with_link(dst, src).actions;
    assert forall|i: int| 0 <= i < two.len() implies match #[trigger] two[i] {
        ActionView::CreateSymlink { src: s, dst: d } => {
            &&& !is_absolute_path(s)
            &&& exists|c: PathView|
                is_normal_absolute(c) && s == relative_path_of(d, c) && resolve_lexically(
                    link_dir(d),
                    s,
                ) == c
        },
        _ => true,
    } by {
        if i == 1 {
            assert(two[i] == create_link(dst, src));
        }
    }
}

proof fn lemma_join_normal(dir: PathView, name: Seq<char>)
    requires
        is_normal_absolute(dir),
        plain_name(name),
    ensures
        is_normal_absolute(join_name(dir, name)),
{
    let p = join_name(dir, name);
    assert forall|i: int| 1 <= i < p.len() implies {
        &&& #[trigger] p[i] != root_component()
        &&& p[i] != parent_component()
        &&& p[i] != current_component()
    } by {
        if i < dir.len() {
            assert(p[i] == dir[i]);
        }
    }
}

proof fn lemma_stow_entry_links(
    e: PackageEntry,
    src_dir: PathView,
    dst_dir: PathView,
    pats: Patterns,
    adopt: bool,
    stow_dir: PathView,
    over: Option<Seq<FoldedItem>>,
)
    requires
        entry_well_formed(e),
        is_normal_absolute(dst_dir),
    ensures
        links_relative(stow_entry_plan(e, src_dir, dst_dir, pats, adopt, stow_dir, over).actions),
    decreases e, 0nat,
{
    let src_path = join_name(src_dir, e.name@);
    let dst_path = join_name(dst_dir, e.name@);
    let src = e.canonical.deep_view();
    lemma_join_normal(dst_dir, e.name@);
    lemma_create_link_relative(dst_path, src);
    assert(links_relative(Seq::<ActionView>::empty()));
    let t = entry_target(e, dst_path, over);
    if !pats.ignores(src_path) && e.is_dir && !e.is_symlink && !(!t.exists && !t.is_symlink) {
        if t.is_symlink && owned_by_stow(t, stow_dir) {
            match t.link {
                Some(l) => if src != l.resolved && l.target_is_dir {
                    let unfold = seq![
                        ActionView::Unfold { dir: dst_path, existing_link_target: l.target },
                    ];
                    let inner = Some(entry_folded(e, over));
                    assert(links_relative(unfold));
                    lemma_stow_listing_links(e.listing, src_path, dst_path, pats, adopt, stow_dir, inner);
                    lemma_links_relative_concat(
                        unfold,
                        stow_listing_plan(e.listing, src_path, dst_path, pats, adopt, stow_dir, inner).actions,
                    );
                },
                None => {},
            }
        } else if t.is_dir && !t.is_symlink {
            lemma_stow_listing_links(e.listing, src_path, dst_path, pats, adopt, stow_dir, None);
        }
    }
}

proof fn lemma_stow_entries_links(
    s: Seq<PackageEntry>,
    src_dir: PathView,
    dst_dir: PathView,
    pats: Patterns,
    adopt: bool,
    stow_dir: PathView,
    over: Option<Seq<FoldedItem>>,
)
    requires
        entries_well_formed(s),
        is_normal_absolute(dst_dir),
    ensures
        links_relative(stow_entries_plan(s, src_dir, dst_dir, pats, adopt, stow_dir, over).actions),
    decreases s, 0nat,
{
    if s.len() == 0 {
        assert(links_relative(Seq::<ActionView>::empty()));
    } else {
        lemma_stow_entries_links(s.drop_last(), src_dir, dst_dir, pats, adopt, stow_dir, over);
        lemma_stow_entry_links(s.last(), src_dir, dst_dir, pats, adopt, stow_dir, over);
        let p = stow_entries_plan(s.drop_last(), src_dir, dst_dir, pats, adopt, stow_dir, over);
        let q = stow_entry_plan(s.last(), src_dir, dst_dir, pats, adopt, stow_dir, over);
        lemma_links_relative_concat(p.actions, q.actions);
    }
}

proof fn lemma_stow_listing_links(
    l: Listing,
    src_dir: PathView,
    dst_dir: PathView,
    pats: Patterns,
    adopt: bool,
    stow_dir: PathView,
    over: Option<Seq<FoldedItem>>,
)
    requires
        listing_well_formed(l),
        is_normal_absolute(dst_dir),
    ensures
        links_relative(stow_listing_plan(l, src_dir, dst_dir, pats, adopt, stow_dir, over).actions),
    decreases l, 0nat,
{
    assert(links_relative(Seq::<ActionView>::empty()));
    match l {
        Listing::Read(v) => {
            lemma_stow_entries_links(v@, src_dir, dst_dir, pats, adopt, stow_dir, over);
        },
        Listing::Partial(v, err) => {
            lemma_stow_entries_links(v@, src_dir, dst_dir, pats, adopt, stow_dir, over);
            let p = stow_entries_plan(v@, src_dir, dst_dir, pats, adopt, stow_dir, over);
            lemma_links_relative_concat(p.actions, Seq::empty());
            assert(p.actions + Seq::<ActionView>::empty() =~= p.actions);
        },
        _ => {},
    }
}

/// Stowed links are relative: for a package whose entries have plain names
/// and absolute canonical paths of plain names, stowed into an absolute
/// target directory of plain names, every symlink the plan creates is a
/// relative path that, read from the directory holding the link, leads to an
/// absolute path of plain names.
pub proof fn stowed_links_are_relative(scan: PackageScan, pats: Patterns, adopt: bool)
    requires
        listing_well_formed(scan.listing),
        is_normal_absolute(scan.target_dir.deep_view()),
    ensures
        links_relative(stow_package_plan(scan, pats, adopt).actions),
{
    lemma_stow_listing_links(
        scan.listing,
        scan.package_dir.deep_view(),
        scan.target_dir.deep_view(),
        pats,
        adopt,
        scan.stow_dir.deep_view(),
        None,
    );
}

/// The entry is stowed already: its target is a stow symlink that leads to
/// the entry itself.
pub open spec fn already_stowed(e: PackageEntry, stow_dir: PathView) -> bool {
    owned_by_stow(e.target@, stow_dir) && e.canonical.deep_view() == resolved_of(e.target@)
}

/// Unstowing undoes stowing: once the link that stowing makes for an entry
/// is in place (a symlink at the target path leading to the entry, which
/// lies in the stow directory), stowing the entry again leaves it alone and
/// unstowing removes it.
pub proof fn unstowing_undoes_stowing(
    entry_is_dir: bool,
    linked: TargetView,
    src: PathView,
    adopt: bool,
    deferred: bool,
    overridden: bool,
    stow_dir: PathView,
)
    requires
        linked.is_symlink,
        linked.link matches Some(l) && l.resolved == src,
        path_starts_with(src, stow_dir),
    ensures
        stow_decision(entry_is_dir, linked, src, adopt, deferred, overridden, stow_dir)
            == StowDecision::Skip,
        unstow_decision(entry_is_dir, linked, src, stow_dir) == UnstowDecision::Remove,
{
}

/// The entry is stowed already, through and through: it is ignored, or its
/// target is a stow symlink to it, or it and its target are real
/// directories whose listed entries are all stowed already.
pub open spec fn fully_stowed(
    e: PackageEntry,
    src_dir: PathView,
    dst_dir: PathView,
    pats: Patterns,
    stow_dir: PathView,
) -> bool
    decreases e,
{
    let src_path = join_name(src_dir, e.name@);
    let dst_path = join_name(dst_dir, e.name@);
    ||| pats.ignores(src_path)
    ||| already_stowed(e, stow_dir)
    ||| e.is_dir && !e.is_symlink && e.target.exists && e.target.is_dir && !e.target.is_symlink
        && listing_fully_stowed(e.listing, src_path, dst_path, pats, stow_dir)
}

/// Every entry of the list is stowed already, through and through.
pub open spec fn entries_fully_stowed(
    s: Seq<PackageEntry>,
    src_dir: PathView,
    dst_dir: PathView,
    pats: Patterns,
    stow_dir: PathView,
) -> bool
    decreases s,
{
    if s.len() == 0 {
        true
    } else {
        entries_fully_stowed(s.drop_last(), src_dir, dst_dir, pats, stow_dir) && fully_stowed(
            s.last(),
            src_dir,
            dst_dir,
            pats,
            stow_dir,
        )
    }
}

/// The listing was read whole and every entry is stowed already, through
/// and through.
pub open spec fn listing_fully_stowed(
    l: Listing,
    src_dir: PathView,
    dst_dir: PathView,
    pats: Patterns,
    stow_dir: PathView,
) -> bool
    decreases l,
{
    match l {
        Listing::Read(v) => entries_fully_stowed(v@, src_dir, dst_dir, pats, stow_dir),
        Listing::NotListed => true,
        _ => false,
    }
}

/// The removal of the stow symlinks that lead to the entry or to entries
/// below it, in order.
pub open spec fn stowed_links(
    e: PackageEntry,
    src_dir: PathView,
    dst_dir: PathView,
    pats: Patterns,
    stow_dir: PathView,
) -> Seq<ActionView>
    decreases e,
{
    let src_path = join_name(src_dir, e.name@);
    let dst_path = join_name(dst_dir, e.name@);
    if pats.ignores(src_path) {
        Seq::empty()
    } else if already_stowed(e, stow_dir) {
        seq![ActionView::RemoveSymlink { path: dst_path }]
    } else if e.is_dir && !e.is_symlink && e.target.is_dir && !e.target.is_symlink {
        listing_stowed_links(e.listing, src_path, dst_path, pats, stow_dir)
    } else {
        Seq::empty()
    }
}

/// The removals of the stow symlinks of a list of entries, in order.
pub open spec fn entries_stowed_links(
    s: Seq<PackageEntry>,
    src_dir: PathView,
    dst_dir: PathView,
    pats: Patterns,
    stow_dir: PathView,
) -> Seq<ActionView>
    decreases s,
{
    if s.len() == 0 {
        Seq::empty()
    } else {
        entries_stowed_links(s.drop_last(), src_dir, dst_dir, pats, stow_dir) + stowed_links(
            s.last(),
            src_dir,
            dst_dir,
            pats,
            stow_dir,
        )
    }
}

/// The removals of the stow symlinks of the entries of a listing, in order.
pub open spec fn listing_stowed_links(
    l: Listing,
    src_dir: PathView,
    dst_dir: PathView,
    pats: Patterns,
    stow_dir: PathView,
) -> Seq<ActionView>
    decreases l,
{
    match l {
        Listing::Read(v) => entries_stowed_links(v@, src_dir, dst_dir, pats, stow_dir),
        _ => Seq::empty(),
    }
}

proof fn lemma_entry_stowed(
    e: PackageEntry,
    src_dir: PathView,
    dst_dir: PathView,
    pats: Patterns,
    adopt: bool,
    stow_dir: PathView,
)
    requires
        fully_stowed(e, src_dir, dst_dir, pats, stow_dir),
    ensures
        stow_entry_plan(e, src_dir, dst_dir, pats, adopt, stow_dir, None) == empty_plan(),
        unstow_entry_plan(e, src_dir, dst_dir, pats, stow_dir) == act(
            stowed_links(e, src_dir, dst_dir, pats, stow_dir),
        ),
    decreases e, 0nat,
{
    let src_path = join_name(src_dir, e.name@);
    let dst_path = join_name(dst_dir, e.name@);
    if !pats.ignores(src_path) && !already_stowed(e, stow_dir) {
        lemma_listing_stowed(e.listing, src_path, dst_path, pats, adopt, stow_dir);
    }
}

proof fn lemma_entries_stowed(
    s: Seq<PackageEntry>,
    src_dir: PathView,
    dst_dir: PathView,
    pats: Patterns,
    adopt: bool,
    stow_dir: PathView,
)
    requires
        entries_fully_stowed(s, src_dir, dst_dir, pats, stow_dir),
    ensures
        stow_entries_plan(s, src_dir, dst_dir, pats, adopt, stow_dir, None) == empty_plan(),
        unstow_entries_plan(s, src_dir, dst_dir, pats, stow_dir) == act(
            entries_stowed_links(s, src_dir, dst_dir, pats, stow_dir),
        ),
    decreases s, 0nat,
{
    if s.len() == 0 {
        assert(act(Seq::<ActionView>::empty()) == empty_plan());
    } else {
        lemma_entries_stowed(s.drop_last(), src_dir, dst_dir, pats, adopt, stow_dir);
        lemma_entry_stowed(s.last(), src_dir, dst_dir, pats, adopt, stow_dir);
        assert(Seq::<ActionView>::empty() + Seq::<ActionView>::empty() =~= Seq::<ActionView>::empty());
        assert(Seq::<ConflictView>::empty() + Seq::<ConflictView>::empty() =~= Seq::<ConflictView>::empty());
        assert(Seq::<ConflictView>::empty() + Seq::<ConflictView>::empty() =~= Seq::<ConflictView>::empty());
    }
}

proof fn lemma_listing_stowed(
    l: Listing,
    src_dir: PathView,
    dst_dir: PathView,
    pats: Patterns,
    adopt: bool,
    stow_dir: PathView,
)
    requires
        listing_fully_stowed(l, src_dir, dst_dir, pats, stow_dir),
    ensures
        stow_listing_plan(l, src_dir, dst_dir, pats, adopt, stow_dir, None) == empty_plan(),
        unstow_listing_plan(l, src_dir, dst_dir, pats, stow_dir) == act(
            listing_stowed_links(l, src_dir, dst_dir, pats, stow_dir),
        ),
    decreases l, 0nat,
{
    match l {
        Listing::Read(v) => lemma_entries_stowed(v@, src_dir, dst_dir, pats, adopt, stow_dir),
        _ => {
            assert(act(Seq::<ActionView>::empty()) == empty_plan());
        },
    }
}

/// Stowing again is a no-op: when a package is stowed already, through and
/// through (its entries' targets are stow symlinks to them, or real
/// directories, including those left by unfolding, whose entries are stowed
/// already in turn), planning it yields no action, no conflict and no
/// failure.
pub proof fn stowing_again_changes_nothing(scan: PackageScan, pats: Patterns, adopt: bool)
    requires
        listing_fully_stowed(
            scan.listing,
            scan.package_dir.deep_view(),
            scan.target_dir.deep_view(),
            pats,
            scan.stow_dir.deep_view(),
        ),
    ensures
        stow_package_plan(scan, pats, adopt) == empty_plan(),
{
    lemma_listing_stowed(
        scan.listing,
        scan.package_dir.deep_view(),
        scan.target_dir.deep_view(),
        pats,
        adopt,
        scan.stow_dir.deep_view(),
    );
}

/// Unstowing a stowed package removes its links, at every depth: when a
/// package is stowed already, through and through, unstowing it removes
/// exactly the stow symlinks that lead to its entries (in real target
/// directories, however nested), in order, and nothing else.
pub proof fn stowed_packages_are_unstowed(scan: PackageScan, pats: Patterns)
    requires
        listing_fully_stowed(
            scan.listing,
            scan.package_dir.deep_view(),
            scan.target_dir.deep_view(),
            pats,
            scan.stow_dir.deep_view(),
        ),
    ensures
        unstow_package_plan(scan, pats) == act(
            listing_stowed_links(
                scan.listing,
                scan.package_dir.deep_view(),
                scan.target_dir.deep_view(),
                pats,
                scan.stow_dir.deep_view(),
            ),
        ),
{
    lemma_listing_stowed(
        scan.listing,
        scan.package_dir.deep_view(),
        scan.target_dir.deep_view(),
        pats,
        false,
        scan.stow_dir.deep_view(),
    );
}

/// Ignored entries are neither stowed nor unstowed.
pub proof fn ignored_entries_are_left_alone(
    e: PackageEntry,
    src_dir: PathView,
    dst_dir: PathView,
    pats: Patterns,
    adopt: bool,
    stow_dir: PathView,
)
    requires
        pats.ignores(join_name(src_dir, e.name@)),
    ensures
        stow_entry_plan(e, src_dir, dst_dir, pats, adopt, stow_dir, None) == empty_plan(),
        unstow_entry_plan(e, src_dir, dst_dir, pats, stow_dir) == empty_plan(),
{
}

/// Real target directories are entered, whatever the options: a package
/// directory (not ignored) whose target is a real directory is stowed by
/// stowing its own entries into that directory, with `--adopt` as without,
/// deferred, overridden or not.
pub proof fn real_target_directories_are_entered(
    e: PackageEntry,
    src_dir: PathView,
    dst_dir: PathView,
    pats: Patterns,
    adopt: bool,
    stow_dir: PathView,
)
    requires
        !pats.ignores(join_name(src_dir, e.name@)),
        e.is_dir && !e.is_symlink,
        e.target.exists && e.target.is_dir && !e.target.is_symlink,
    ensures
        stow_entry_plan(e, src_dir, dst_dir, pats, adopt, stow_dir, None) == stow_listing_plan(
            e.listing,
            join_name(src_dir, e.name@),
            join_name(dst_dir, e.name@),
            pats,
            adopt,
            stow_dir,
            None,
        ),
{
}

/// Unstowing enters real target directories and removes the entry's own
/// stow link: a package directory (not ignored) whose target is a real
/// directory is unstowed by unstowing its entries from that directory; an
/// entry (not ignored) whose target is a stow symlink leading to the entry
/// itself has exactly that symlink removed.
pub proof fn unstow_enters_real_directories_and_removes_own_links(
    e: PackageEntry,
    src_dir: PathView,
    dst_dir: PathView,
    pats: Patterns,
    stow_dir: PathView,
)
    requires
        !pats.ignores(join_name(src_dir, e.name@)),
    ensures
        e.is_dir && !e.is_symlink && e.target.is_dir && !e.target.is_symlink ==> unstow_entry_plan(
            e,
            src_dir,
            dst_dir,
            pats,
            stow_dir,
        ) == unstow_listing_plan(
            e.listing,
            join_name(src_dir, e.name@),
            join_name(dst_dir, e.name@),
            pats,
            stow_dir,
        ),
        e.target.is_symlink && (e.target@.link matches Some(l) && l.resolved
            == e.canonical.deep_view() && path_starts_with(l.resolved, stow_dir)) ==> unstow_entry_plan(
            e,
            src_dir,
            dst_dir,
            pats,
            stow_dir,
        ) == act(seq![ActionView::RemoveSymlink { path: join_name(dst_dir, e.name@) }]),
{
}

/// Another package's link is never taken over silently: a file entry (not
/// ignored) whose target is a stow symlink leading elsewhere conflicts with
/// that link, naming where it leads, with `--adopt` as without, unless the
/// target is deferred (left alone) or overridden (replaced by the link).
pub proof fn other_packages_links_conflict(
    e: PackageEntry,
    src_dir: PathView,
    dst_dir: PathView,
    pats: Patterns,
    adopt: bool,
    stow_dir: PathView,
)
    requires
        !pats.ignores(join_name(src_dir, e.name@)),
        !(e.is_dir && !e.is_symlink),
        owned_by_stow(e.target@, stow_dir),
        resolved_of(e.target@) != e.canonical.deep_view(),
    ensures
        !pats.defers(join_name(dst_dir, e.name@)) && !pats.overrides(join_name(dst_dir, e.name@))
            ==> stow_entry_plan(e, src_dir, dst_dir, pats, adopt, stow_dir, None) == (Plan {
            actions: Seq::empty(),
            conflicts: seq![
                ConflictView {
                    target: join_name(dst_dir, e.name@),
                    kind: ConflictKindView::OwnedByOther { owner: resolved_of(e.target@) },
                },
            ],
            failure: None,
        }),
        pats.defers(join_name(dst_dir, e.name@)) ==> stow_entry_plan(
            e,
            src_dir,
            dst_dir,
            pats,
            adopt,
            stow_dir,
            None,
        ) == empty_plan(),
        !pats.defers(join_name(dst_dir, e.name@)) && pats.overrides(join_name(dst_dir, e.name@))
            ==> stow_entry_plan(e, src_dir, dst_dir, pats, adopt, stow_dir, None) == replace_with_link(
            join_name(dst_dir, e.name@),
            e.canonical.deep_view(),
        ),
{
}

/// Free targets are linked, whatever the options: an entry (not ignored)
/// whose target path holds nothing gets one symlink there, leading to the
/// entry, with `--adopt` as without, deferred, overridden or not.
pub proof fn free_targets_are_linked(
    e: PackageEntry,
    src_dir: PathView,
    dst_dir: PathView,
    pats: Patterns,
    adopt: bool,
    stow_dir: PathView,
)
    requires
        !pats.ignores(join_name(src_dir, e.name@)),
        !e.target.exists && !e.target.is_symlink,
    ensures
        stow_entry_plan(e, src_dir, dst_dir, pats, adopt, stow_dir, None) == act(
            seq![
                ActionView::CreateSymlink {
                    src: relative_path_of(join_name(dst_dir, e.name@), e.canonical.deep_view()),
                    dst: join_name(dst_dir, e.name@),
                },
            ],
        ),
{
}

/// Tree folding: a package directory whose target path is free is stowed as
/// one symlink to the whole directory, without looking inside it.
pub proof fn free_directories_are_folded(
    e: PackageEntry,
    src_dir: PathView,
    dst_dir: PathView,
    pats: Patterns,
    adopt: bool,
    stow_dir: PathView,
)
    requires
        !pats.ignores(join_name(src_dir, e.name@)),
        e.is_dir && !e.is_symlink,
        !e.target.exists && !e.target.is_symlink,
    ensures
        stow_entry_plan(e, src_dir, dst_dir, pats, adopt, stow_dir, None) == act(
            seq![create_link(join_name(dst_dir, e.name@), e.canonical.deep_view())],
        ),
{
}

/// Tree unfolding: a package directory whose target is another package's
/// folded directory is stowed by unfolding that symlink into a real
/// directory first, then stowing the entries into it as unfolding leaves it
/// (over the entries of the folded directory).
pub proof fn folded_directories_are_unfolded(
    e: PackageEntry,
    src_dir: PathView,
    dst_dir: PathView,
    pats: Patterns,
    adopt: bool,
    stow_dir: PathView,
)
    requires
        !pats.ignores(join_name(src_dir, e.name@)),
        e.is_dir && !e.is_symlink,
        owned_by_stow(e.target@, stow_dir),
        e.target@.link matches Some(l) && l.target_is_dir && l.resolved != e.canonical.deep_view(),
    ensures
        stow_entry_plan(e, src_dir, dst_dir, pats, adopt, stow_dir, None) == then(
            act(
                seq![
                    ActionView::Unfold {
                        dir: join_name(dst_dir, e.name@),
                        existing_link_target: e.target@.link->0.target,
                    },
                ],
            ),
            stow_listing_plan(
                e.listing,
                join_name(src_dir, e.name@),
                join_name(dst_dir, e.name@),
                pats,
                adopt,
                stow_dir,
                Some(e.folded@),
            ),
        ),
{
}

/// The conflict of a file entry at `dst` blocked by something that is not a
/// symlink, when nothing lets it through.
pub open spec fn blocked_file(
    e: PackageEntry,
    src_dir: PathView,
    dst_dir: PathView,
    pats: Patterns,
    adopt: bool,
) -> bool {
    let dst = join_name(dst_dir, e.name@);
    &&& !pats.ignores(join_name(src_dir, e.name@))
    &&& !(e.is_dir && !e.is_symlink)
    &&& e.target.exists && !e.target.is_symlink
    &&& !adopt && !pats.defers(dst) && !pats.overrides(dst)
}

/// All conflicts are reported at once: when every entry of a directory is a
/// file blocked by something in the way, the plan has no action and one
/// conflict per entry, in order.
pub proof fn every_conflict_is_reported(
    s: Seq<PackageEntry>,
    src_dir: PathView,
    dst_dir: PathView,
    pats: Patterns,
    adopt: bool,
    stow_dir: PathView,
)
    requires
        forall|i: int| 0 <= i < s.len() ==> blocked_file(#[trigger] s[i], src_dir, dst_dir, pats, adopt),
    ensures
        stow_entries_plan(s, src_dir, dst_dir, pats, adopt, stow_dir, None).actions.len() == 0,
        stow_entries_plan(s, src_dir, dst_dir, pats, adopt, stow_dir, None).failure is None,
        stow_entries_plan(s, src_dir, dst_dir, pats, adopt, stow_dir, None).conflicts == s.map_values(
            |e: PackageEntry|
                ConflictView {
                    target: join_name(dst_dir, e.name@),
                    kind: ConflictKindView::ExistingFile,
                },
        ),
    decreases s.len(),
{
    let f = |e: PackageEntry|
        ConflictView { target: join_name(dst_dir, e.name@), kind: ConflictKindView::ExistingFile };
    if s.len() == 0 {
        assert(s.map_values(f) =~= Seq::<ConflictView>::empty());
    } else {
        let rest = s.drop_last();
        assert forall|i: int| 0 <= i < rest.len() implies blocked_file(
            #[trigger] rest[i],
            src_dir,
            dst_dir,
            pats,
            adopt,
        ) by {
            assert(rest[i] == s[i]);
        }
        every_conflict_is_reported(rest, src_dir, dst_dir, pats, adopt, stow_dir);
        assert(blocked_file(s[s.len() - 1], src_dir, dst_dir, pats, adopt));
        let p = stow_entries_plan(rest, src_dir, dst_dir, pats, adopt, stow_dir, None);
        let q = stow_entry_plan(s.last(), src_dir, dst_dir, pats, adopt, stow_dir, None);
        assert(q == in_the_way(join_name(dst_dir, s.last().name@)));
        assert(rest.map_values(f).push(f(s.last())) =~= s.map_values(f));
        assert(p.conflicts + q.conflicts =~= rest.map_values(f).push(f(s.last())));
    }
}

/// Deferring: a file entry whose target matches a defer pattern never
/// conflicts, whether adopting or not.
pub proof fn deferred_files_never_conflict(
    e: PackageEntry,
    src_dir: PathView,
    dst_dir: PathView,
    pats: Patterns,
    adopt: bool,
    stow_dir: PathView,
)
    requires
        !(e.is_dir && !e.is_symlink),
        pats.defers(join_name(dst_dir, e.name@)),
    ensures
        stow_entry_plan(e, src_dir, dst_dir, pats, adopt, stow_dir, None).conflicts.len() == 0,
{
}

/// Overriding: an entry whose target is in the way and matches an override
/// pattern (and no defer pattern) is stowed by replacing the target with
/// the link. For a file entry, in the way is an existing file, a symlink of
/// another package or a foreign symlink; for a directory entry, anything but
/// a real directory or a stow symlink.
pub proof fn overridden_targets_are_replaced(
    e: PackageEntry,
    src_dir: PathView,
    dst_dir: PathView,
    pats: Patterns,
    stow_dir: PathView,
)
    requires
        !pats.ignores(join_name(src_dir, e.name@)),
        e.target.exists || e.target.is_symlink,
        !already_stowed(e, stow_dir),
        e.is_dir && !e.is_symlink ==> !owned_by_stow(e.target@, stow_dir) && !(e.target.is_dir
            && !e.target.is_symlink),
        pats.overrides(join_name(dst_dir, e.name@)),
        !pats.defers(join_name(dst_dir, e.name@)),
    ensures
        stow_entry_plan(e, src_dir, dst_dir, pats, false, stow_dir, None) == replace_with_link(
            join_name(dst_dir, e.name@),
            e.canonical.deep_view(),
        ),
{
}

/// Adopting: a file entry whose target is an existing file (not a symlink)
/// is stowed by moving that file into the package in place of the entry and
/// linking the target to the entry, unless the target is deferred; a target
/// that is a symlink not owned by stow is replaced by the link.
pub proof fn adopting_moves_files_into_the_package(
    e: PackageEntry,
    src_dir: PathView,
    dst_dir: PathView,
    pats: Patterns,
    stow_dir: PathView,
)
    requires
        !pats.ignores(join_name(src_dir, e.name@)),
        !(e.is_dir && !e.is_symlink),
        e.target.exists || e.target.is_symlink,
        !owned_by_stow(e.target@, stow_dir),
    ensures
        e.target.is_symlink ==> stow_entry_plan(e, src_dir, dst_dir, pats, true, stow_dir, None)
            == replace_with_link(join_name(dst_dir, e.name@), e.canonical.deep_view()),
        !e.target.is_symlink && !pats.defers(join_name(dst_dir, e.name@)) ==> stow_entry_plan(
            e,
            src_dir,
            dst_dir,
            pats,
            true,
            stow_dir, None) == adopt_into_package(
            join_name(dst_dir, e.name@),
            join_name(src_dir, e.name@),
            e.canonical.deep_view(),
        ),
{
}

/// Whether unstowing the entry `e` of a package, at `dst_dir`, may remove
/// `path`: it is the entry's own target and a stow symlink to the entry, or
/// it lies below the entry's target when both are real directories.
pub open spec fn entry_owns_link(e: PackageEntry, dst_dir: PathView, stow_dir: PathView, path: PathView) -> bool
    decreases e,
{
    let dst = join_name(dst_dir, e.name@);
    ||| dst == path && already_stowed(e, stow_dir)
    ||| e.is_dir && !e.is_symlink && e.target.is_dir && !e.target.is_symlink && listing_owns_link(
        e.listing,
        dst,
        stow_dir,
        path,
    )
}

/// Whether some entry of the list owns the link at `path`.
pub open spec fn entries_own_link(s: Seq<PackageEntry>, dst_dir: PathView, stow_dir: PathView, path: PathView) -> bool
    decreases s,
{
    if s.len() == 0 {
        false
    } else {
        entries_own_link(s.drop_last(), dst_dir, stow_dir, path) || entry_owns_link(
            s.last(),
            dst_dir,
            stow_dir,
            path,
        )
    }
}

/// Whether some entry of the listing owns the link at `path`.
pub open spec fn listing_owns_link(l: Listing, dst_dir: PathView, stow_dir: PathView, path: PathView) -> bool
    decreases l,
{
    match l {
        Listing::Read(v) => entries_own_link(v@, dst_dir, stow_dir, path),
        Listing::Partial(v, _) => entries_own_link(v@, dst_dir, stow_dir, path),
        _ => false,
    }
}

/// Every action removes a stow symlink owned by the listing.
pub open spec fn removes_own_links(
    actions: Seq<ActionView>,
    l: Listing,
    dst_dir: PathView,
    stow_dir: PathView,
) -> bool {
    forall|i: int|
        0 <= i < actions.len() ==> match #[trigger] actions[i] {
            ActionView::RemoveSymlink { path } => listing_owns_link(l, dst_dir, stow_dir, path),
            _ => false,
        }
}

/// Every action removes a stow symlink owned by the entry.
pub open spec fn entry_removes_own_links(
    actions: Seq<ActionView>,
    e: PackageEntry,
    dst_dir: PathView,
    stow_dir: PathView,
) -> bool {
    forall|i: int|
        0 <= i < actions.len() ==> match #[trigger] actions[i] {
            ActionView::RemoveSymlink { path } => entry_owns_link(e, dst_dir, stow_dir, path),
            _ => false,
        }
}

/// Every action removes a stow symlink owned by an entry of the list.
pub open spec fn entries_remove_own_links(
    actions: Seq<ActionView>,
    s: Seq<PackageEntry>,
    dst_dir: PathView,
    stow_dir: PathView,
) -> bool {
    forall|i: int|
        0 <= i < actions.len() ==> match #[trigger] actions[i] {
            ActionView::RemoveSymlink { path } => entries_own_link(s, dst_dir, stow_dir, path),
            _ => false,
        }
}

proof fn lemma_unstow_entry_own(
    e: PackageEntry,
    src_dir: PathView,
    dst_dir: PathView,
    pats: Patterns,
    stow_dir: PathView,
)
    ensures
        entry_removes_own_links(
            unstow_entry_plan(e, src_dir, dst_dir, pats, stow_dir).actions,
            e,
            dst_dir,
            stow_dir,
        ),
    decreases e, 0nat,
{
    let src_path = join_name(src_dir, e.name@);
    let dst_path = join_name(dst_dir, e.name@);
    let t = e.target@;
    let p = unstow_entry_plan(e, src_dir, dst_dir, pats, stow_dir);
    if !pats.ignores(src_path) && e.is_dir && !e.is_symlink && !(t.is_symlink && owned_by_stow(
        t,
        stow_dir,
    )) && t.is_dir && !t.is_symlink {
        lemma_unstow_listing_own(e.listing, src_path, dst_path, pats, stow_dir);
        assert forall|i: int| 0 <= i < p.actions.len() implies match #[trigger] p.actions[i] {
            ActionView::RemoveSymlink { path } => entry_owns_link(e, dst_dir, stow_dir, path),
            _ => false,
        } by {
            match p.actions[i] {
                ActionView::RemoveSymlink { path } => {
                    assert(listing_owns_link(e.listing, dst_path, stow_dir, path));
                },
                _ => {},
            }
        }
    } else {
        assert forall|i: int| 0 <= i < p.actions.len() implies match #[trigger] p.actions[i] {
            ActionView::RemoveSymlink { path } => entry_owns_link(e, dst_dir, stow_dir, path),
            _ => false,
        } by {
            assert(p.actions[i] == ActionView::RemoveSymlink { path: dst_path });
        }
    }
}

proof fn lemma_unstow_entries_own(
    s: Seq<PackageEntry>,
    src_dir: PathView,
    dst_dir: PathView,
    pats: Patterns,
    stow_dir: PathView,
)
    ensures
        entries_remove_own_links(
            unstow_entries_plan(s, src_dir, dst_dir, pats, stow_dir).actions,
            s,
            dst_dir,
            stow_dir,
        ),
    decreases s, 0nat,
{
    if s.len() > 0 {
        let rest = s.drop_last();
        lemma_unstow_entries_own(rest, src_dir, dst_dir, pats, stow_dir);
        lemma_unstow_entry_own(s.last(), src_dir, dst_dir, pats, stow_dir);
        let p = unstow_entries_plan(rest, src_dir, dst_dir, pats, stow_dir);
        let q = unstow_entry_plan(s.last(), src_dir, dst_dir, pats, stow_dir);
        let all = unstow_entries_plan(s, src_dir, dst_dir, pats, stow_dir);
        assert forall|i: int| 0 <= i < all.actions.len() implies match #[trigger] all.actions[i] {
            ActionView::RemoveSymlink { path } => entries_own_link(s, dst_dir, stow_dir, path),
            _ => false,
        } by {
            if p.failure is None {
                if i < p.actions.len() {
                    assert(all.actions[i] == p.actions[i]);
                } else {
                    assert(all.actions[i] == q.actions[i - p.actions.len()]);
                }
            } else {
                assert(all.actions[i] == p.actions[i]);
            }
        }
    }
}

proof fn lemma_unstow_listing_own(
    l: Listing,
    src_dir: PathView,
    dst_dir: PathView,
    pats: Patterns,
    stow_dir: PathView,
)
    ensures
        removes_own_links(
            unstow_listing_plan(l, src_dir, dst_dir, pats, stow_dir).actions,
            l,
            dst_dir,
            stow_dir,
        ),
    decreases l, 0nat,
{
    match l {
        Listing::Read(v) => {
            lemma_unstow_entries_own(v@, src_dir, dst_dir, pats, stow_dir);
        },
        Listing::Partial(v, err) => {
            lemma_unstow_entries_own(v@, src_dir, dst_dir, pats, stow_dir);
            let p = unstow_entries_plan(v@, src_dir, dst_dir, pats, stow_dir);
            let all = unstow_listing_plan(l, src_dir, dst_dir, pats, stow_dir);
            assert forall|i: int| 0 <= i < all.actions.len() implies match #[trigger] all.actions[i] {
                ActionView::RemoveSymlink { path } => listing_owns_link(l, dst_dir, stow_dir, path),
                _ => false,
            } by {
                assert(all.actions[i] == p.actions[i]);
            }
        },
        _ => {},
    }
}

/// Unstowing removes only the package's own links: every action of an
/// unstow plan removes a symlink, and the symlink is the target of an entry
/// of the package (following real directories down) and leads into the stow
/// directory, to that very entry. Links of other packages and anything that
/// is not a stow symlink are left alone.
pub proof fn unstow_removes_only_own_links(scan: PackageScan, pats: Patterns)
    ensures
        removes_own_links(
            unstow_package_plan(scan, pats).actions,
            scan.listing,
            scan.target_dir.deep_view(),
            scan.stow_dir.deep_view(),
        ),
{
    lemma_unstow_listing_own(
        scan.listing,
        scan.package_dir.deep_view(),
        scan.target_dir.deep_view(),
        pats,
        scan.stow_dir.deep_view(),
    );
}

/// Every action works at a path strictly below `d`.
pub open spec fn below(actions: Seq<ActionView>, d: PathView) -> bool {
    forall|i: int|
        0 <= i < actions.len() ==> {
            let p = action_path(#[trigger] actions[i]);
            p.len() > d.len() && path_starts_with(p, d)
        }
}

/// Every conflict is at a path strictly below `d`.
pub open spec fn conflicts_below(cs: Seq<ConflictView>, d: PathView) -> bool {
    forall|i: int|
        0 <= i < cs.len() ==> #[trigger] cs[i].target.len() > d.len() && path_starts_with(
            cs[i].target,
            d,
        )
}

/// Every action and every conflict of the plan is strictly below `d`.
pub open spec fn plan_below(p: Plan, d: PathView) -> bool {
    below(p.actions, d) && conflicts_below(p.conflicts, d)
}

/// Every action and every conflict of the plan is at `dst`.
pub open spec fn plan_at(p: Plan, dst: PathView) -> bool {
    &&& forall|i: int| 0 <= i < p.actions.len() ==> action_path(#[trigger] p.actions[i]) == dst
    &&& forall|i: int| 0 <= i < p.conflicts.len() ==> #[trigger] p.conflicts[i].target == dst
}

proof fn lemma_plan_at_below(p: Plan, d: PathView, n: Seq<char>)
    requires
        plan_at(p, d.push(n)),
    ensures
        plan_below(p, d),
{
    assert(d.push(n).take(d.len() as int) =~= d);
    assert forall|i: int| 0 <= i < p.actions.len() implies {
        let q = action_path(#[trigger] p.actions[i]);
        q.len() > d.len() && path_starts_with(q, d)
    } by {
        assert(action_path(p.actions[i]) == d.push(n));
    }
    assert forall|i: int| 0 <= i < p.conflicts.len() implies #[trigger] p.conflicts[i].target.len()
        > d.len() && path_starts_with(p.conflicts[i].target, d) by {
        assert(p.conflicts[i].target == d.push(n));
    }
}

proof fn lemma_plan_below_then(p: Plan, q: Plan, d: PathView)
    requires
        plan_below(p, d),
        plan_below(q, d),
    ensures
        plan_below(then(p, q), d),
{
    if p.failure is None {
        let a = p.actions + q.actions;
        assert forall|i: int| 0 <= i < a.len() implies {
            let x = action_path(#[trigger] a[i]);
            x.len() > d.len() && path_starts_with(x, d)
        } by {
            if i < p.actions.len() {
                assert(a[i] == p.actions[i]);
            } else {
                assert(a[i] == q.actions[i - p.actions.len()]);
            }
        }
        let c = p.conflicts + q.conflicts;
        assert forall|i: int| 0 <= i < c.len() implies #[trigger] c[i].target.len() > d.len()
            && path_starts_with(c[i].target, d) by {
            if i < p.conflicts.len() {
                assert(c[i] == p.conflicts[i]);
            } else {
                assert(c[i] == q.conflicts[i - p.conflicts.len()]);
            }
        }
    }
}

proof fn lemma_plan_below_parent(p: Plan, d: PathView, n: Seq<char>)
    requires
        plan_below(p, d.push(n)),
    ensures
        plan_below(p, d),
{
    assert(d.push(n).take(d.len() as int) =~= d);
    assert forall|i: int| 0 <= i < p.actions.len() implies {
        let q = action_path(#[trigger] p.actions[i]);
        q.len() > d.len() && path_starts_with(q, d)
    } by {
        let q = action_path(p.actions[i]);
        assert(q.take(d.len() as int) =~= q.take(d.len() as int + 1).take(d.len() as int));
    }
    assert forall|i: int| 0 <= i < p.conflicts.len() implies #[trigger] p.conflicts[i].target.len()
        > d.len() && path_starts_with(p.conflicts[i].target, d) by {
        let q = p.conflicts[i].target;
        assert(q.take(d.len() as int) =~= q.take(d.len() as int + 1).take(d.len() as int));
    }
}

proof fn lemma_stow_entry_below(
    e: PackageEntry,
    src_dir: PathView,
    dst_dir: PathView,
    pats: Patterns,
    adopt: bool,
    stow_dir: PathView,
    over: Option<Seq<FoldedItem>>,
)
    ensures
        plan_below(stow_entry_plan(e, src_dir, dst_dir, pats, adopt, stow_dir, over), dst_dir),
    decreases e, 0nat,
{
    let src_path = join_name(src_dir, e.name@);
    let dst_path = join_name(dst_dir, e.name@);
    let t = entry_target(e, dst_path, over);
    let p = stow_entry_plan(e, src_dir, dst_dir, pats, adopt, stow_dir, over);
    if pats.ignores(src_path) {
        assert(plan_below(p, dst_dir));
    } else {
        let d = stow_decision(
            e.is_dir && !e.is_symlink,
            t,
            e.canonical.deep_view(),
            adopt,
            pats.defers(dst_path),
            pats.overrides(dst_path),
            stow_dir,
        );
        if d == StowDecision::Unfold || d == StowDecision::Descend {
            let inner = if d == StowDecision::Unfold {
                Some(entry_folded(e, over))
            } else {
                None
            };
            lemma_stow_listing_below(e.listing, src_path, dst_path, pats, adopt, stow_dir, inner);
            let rest = stow_listing_plan(e.listing, src_path, dst_path, pats, adopt, stow_dir, inner);
            lemma_plan_below_parent(rest, dst_dir, e.name@);
            if d == StowDecision::Unfold {
                let u = act(
                    seq![ActionView::Unfold { dir: dst_path, existing_link_target: link_content_of(t) }],
                );
                assert(plan_at(u, dst_path));
                lemma_plan_at_below(u, dst_dir, e.name@);
                lemma_plan_below_then(u, rest, dst_dir);
            }
        } else {
            assert(plan_at(p, dst_path));
            lemma_plan_at_below(p, dst_dir, e.name@);
        }
    }
}

proof fn lemma_stow_entries_below(
    s: Seq<PackageEntry>,
    src_dir: PathView,
    dst_dir: PathView,
    pats: Patterns,
    adopt: bool,
    stow_dir: PathView,
    over: Option<Seq<FoldedItem>>,
)
    ensures
        plan_below(stow_entries_plan(s, src_dir, dst_dir, pats, adopt, stow_dir, over), dst_dir),
    decreases s, 0nat,
{
    if s.len() > 0 {
        lemma_stow_entries_below(s.drop_last(), src_dir, dst_dir, pats, adopt, stow_dir, over);
        lemma_stow_entry_below(s.last(), src_dir, dst_dir, pats, adopt, stow_dir, over);
        lemma_plan_below_then(
            stow_entries_plan(s.drop_last(), src_dir, dst_dir, pats, adopt, stow_dir, over),
            stow_entry_plan(s.last(), src_dir, dst_dir, pats, adopt, stow_dir, over),
            dst_dir,
        );
    }
}

proof fn lemma_stow_listing_below(
    l: Listing,
    src_dir: PathView,
    dst_dir: PathView,
    pats: Patterns,
    adopt: bool,
    stow_dir: PathView,
    over: Option<Seq<FoldedItem>>,
)
    ensures
        plan_below(stow_listing_plan(l, src_dir, dst_dir, pats, adopt, stow_dir, over), dst_dir),
    decreases l, 0nat,
{
    match l {
        Listing::Read(v) => lemma_stow_entries_below(v@, src_dir, dst_dir, pats, adopt, stow_dir, over),
        Listing::Partial(v, e) => {
            lemma_stow_entries_below(v@, src_dir, dst_dir, pats, adopt, stow_dir, over);
            lemma_plan_below_then(
                stow_entries_plan(v@, src_dir, dst_dir, pats, adopt, stow_dir, over),
                fail_at(src_dir, e),
                dst_dir,
            );
        },
        _ => {},
    }
}

proof fn lemma_unstow_entry_below(
    e: PackageEntry,
    src_dir: PathView,
    dst_dir: PathView,
    pats: Patterns,
    stow_dir: PathView,
)
    ensures
        plan_below(unstow_entry_plan(e, src_dir, dst_dir, pats, stow_dir), dst_dir),
    decreases e, 0nat,
{
    let src_path = join_name(src_dir, e.name@);
    let dst_path = join_name(dst_dir, e.name@);
    let p = unstow_entry_plan(e, src_dir, dst_dir, pats, stow_dir);
    if !pats.ignores(src_path) && unstow_decision(
        e.is_dir && !e.is_symlink,
        e.target@,
        e.canonical.deep_view(),
        stow_dir,
    ) == UnstowDecision::Descend {
        lemma_unstow_listing_below(e.listing, src_path, dst_path, pats, stow_dir);
        lemma_plan_below_parent(p, dst_dir, e.name@);
    } else {
        assert(plan_at(p, dst_path));
        lemma_plan_at_below(p, dst_dir, e.name@);
    }
}

proof fn lemma_unstow_entries_below(
    s: Seq<PackageEntry>,
    src_dir: PathView,
    dst_dir: PathView,
    pats: Patterns,
    stow_dir: PathView,
)
    ensures
        plan_below(unstow_entries_plan(s, src_dir, dst_dir, pats, stow_dir), dst_dir),
    decreases s, 0nat,
{
    if s.len() > 0 {
        lemma_unstow_entries_below(s.drop_last(), src_dir, dst_dir, pats, stow_dir);
        lemma_unstow_entry_below(s.last(), src_dir, dst_dir, pats, stow_dir);
        lemma_plan_below_then(
            unstow_entries_plan(s.drop_last(), src_dir, dst_dir, pats, stow_dir),
            unstow_entry_plan(s.last(), src_dir, dst_dir, pats, stow_dir),
            dst_dir,
        );
    }
}

proof fn lemma_unstow_listing_below(
    l: Listing,
    src_dir: PathView,
    dst_dir: PathView,
    pats: Patterns,
    stow_dir: PathView,
)
    ensures
        plan_below(unstow_listing_plan(l, src_dir, dst_dir, pats, stow_dir), dst_dir),
    decreases l, 0nat,
{
    match l {
        Listing::Read(v) => lemma_unstow_entries_below(v@, src_dir, dst_dir, pats, stow_dir),
        Listing::Partial(v, e) => {
            lemma_unstow_entries_below(v@, src_dir, dst_dir, pats, stow_dir);
            lemma_plan_below_then(
                unstow_entries_plan(v@, src_dir, dst_dir, pats, stow_dir),
                fail_at(src_dir, e),
                dst_dir,
            );
        },
        _ => {},
    }
}

/// A path strictly below `t` is not inside `s` when neither of `t` and `s`
/// lies inside the other.
proof fn lemma_apart(p: PathView, t: PathView, s: PathView)
    requires
        path_starts_with(p, t),
        !path_starts_with(t, s),
        !path_starts_with(s, t),
    ensures
        !path_starts_with(p, s),
{
    if path_starts_with(p, s) {
        if t.len() <= s.len() {
            assert(s.take(t.len() as int) =~= p.take(s.len() as int).take(t.len() as int));
            assert(p.take(t.len() as int) =~= p.take(s.len() as int).take(t.len() as int));
        } else {
            assert(t.take(s.len() as int) =~= p.take(t.len() as int).take(s.len() as int));
            assert(p.take(s.len() as int) =~= p.take(t.len() as int).take(s.len() as int));
        }
    }
}

/// Plans work in the target directory only: every action and every
/// conflict of a package's stow plan, and of its unstow plan, is at a path
/// strictly below the target directory. So when the target and stow
/// directories are apart (neither inside the other), no action works inside
/// the stow directory; the one write there is where an adopted file is
/// moved to (its `into`, the package's own entry).
pub proof fn plans_stay_in_the_target(scan: PackageScan, pats: Patterns, adopt: bool)
    ensures
        plan_below(stow_package_plan(scan, pats, adopt), scan.target_dir.deep_view()),
        plan_below(unstow_package_plan(scan, pats), scan.target_dir.deep_view()),
        !path_starts_with(scan.target_dir.deep_view(), scan.stow_dir.deep_view())
            && !path_starts_with(scan.stow_dir.deep_view(), scan.target_dir.deep_view()) ==> {
            &&& forall|i: int|
                0 <= i < stow_package_plan(scan, pats, adopt).actions.len() ==> !path_starts_with(
                    action_path(#[trigger] stow_package_plan(scan, pats, adopt).actions[i]),
                    scan.stow_dir.deep_view(),
                )
            &&& forall|i: int|
                0 <= i < unstow_package_plan(scan, pats).actions.len() ==> !path_starts_with(
                    action_path(#[trigger] unstow_package_plan(scan, pats).actions[i]),
                    scan.stow_dir.deep_view(),
                )
        },
{
    let t = scan.target_dir.deep_view();
    let sd = scan.stow_dir.deep_view();
    let pd = scan.package_dir.deep_view();
    lemma_stow_listing_below(scan.listing, pd, t, pats, adopt, sd, None);
    lemma_unstow_listing_below(scan.listing, pd, t, pats, sd);
    if !path_starts_with(t, sd) && !path_starts_with(sd, t) {
        let a = stow_package_plan(scan, pats, adopt).actions;
        assert forall|i: int| 0 <= i < a.len() implies !path_starts_with(
            action_path(#[trigger] a[i]),
            sd,
        ) by {
            lemma_apart(action_path(a[i]), t, sd);
        }
        let b = unstow_package_plan(scan, pats).actions;
        assert forall|i: int| 0 <= i < b.len() implies !path_starts_with(
            action_path(#[trigger] b[i]),
            sd,
        ) by {
            lemma_apart(action_path(b[i]), t, sd);
        }
    }
}

/// No two entries of a listing have the same name, at every depth (as in
/// any directory read from disk).
pub open spec fn listing_names_distinct(l: Listing) -> bool
    decreases l,
{
    match l {
        Listing::Read(v) => entries_names_distinct(v@),
        Listing::Partial(v, _) => entries_names_distinct(v@),
        _ => true,
    }
}

/// No two entries of the list have the same name, at every depth.
pub open spec fn entries_names_distinct(s: Seq<PackageEntry>) -> bool
    decreases s,
{
    if s.len() == 0 {
        true
    } else {
        &&& entries_names_distinct(s.drop_last())
        &&& entry_names_distinct(s.last())
        &&& forall|i: int| 0 <= i < s.len() - 1 ==> #[trigger] s[i].name@ != s.last().name@
    }
}

/// No two entries below the entry have the same name, at every depth.
pub open spec fn entry_names_distinct(e: PackageEntry) -> bool
    decreases e,
{
    listing_names_distinct(e.listing)
}

/// No two symlinks to create share a destination.
pub open spec fn links_distinct(a: Seq<ActionView>) -> bool {
    forall|i: int, j: int|
        0 <= i < j < a.len() && #[trigger] a[i] is CreateSymlink && #[trigger] a[j] is CreateSymlink
            ==> action_path(a[i]) != action_path(a[j])
}

/// Every action works at `d` or below it.
pub open spec fn within(a: Seq<ActionView>, d: PathView) -> bool {
    forall|i: int| 0 <= i < a.len() ==> path_starts_with(action_path(#[trigger] a[i]), d)
}

proof fn lemma_links_distinct_shift(u: ActionView, b: Seq<ActionView>)
    requires
        !(u is CreateSymlink),
        links_distinct(b),
    ensures
        links_distinct(seq![u] + b),
{
    let a = seq![u] + b;
    assert forall|i: int, j: int|
        0 <= i < j < a.len() && #[trigger] a[i] is CreateSymlink && #[trigger] a[j] is CreateSymlink
            implies action_path(a[i]) != action_path(a[j]) by {
        assert(a[i] == b[i - 1]);
        assert(a[j] == b[j - 1]);
    }
}

proof fn lemma_entry_links_distinct(
    e: PackageEntry,
    src_dir: PathView,
    dst_dir: PathView,
    pats: Patterns,
    adopt: bool,
    stow_dir: PathView,
    over: Option<Seq<FoldedItem>>,
)
    requires
        entry_names_distinct(e),
    ensures
        links_distinct(stow_entry_plan(e, src_dir, dst_dir, pats, adopt, stow_dir, over).actions),
        within(
            stow_entry_plan(e, src_dir, dst_dir, pats, adopt, stow_dir, over).actions,
            join_name(dst_dir, e.name@),
        ),
    decreases e, 0nat,
{
    let src_path = join_name(src_dir, e.name@);
    let dst_path = join_name(dst_dir, e.name@);
    let t = entry_target(e, dst_path, over);
    let p = stow_entry_plan(e, src_dir, dst_dir, pats, adopt, stow_dir, over);
    assert(dst_path.take(dst_path.len() as int) =~= dst_path);
    if !pats.ignores(src_path) {
        let d = stow_decision(
            e.is_dir && !e.is_symlink,
            t,
            e.canonical.deep_view(),
            adopt,
            pats.defers(dst_path),
            pats.overrides(dst_path),
            stow_dir,
        );
        if d == StowDecision::Unfold || d == StowDecision::Descend {
            let inner = if d == StowDecision::Unfold {
                Some(entry_folded(e, over))
            } else {
                None
            };
            lemma_listing_links_distinct(e.listing, src_path, dst_path, pats, adopt, stow_dir, inner);
            lemma_stow_listing_below(e.listing, src_path, dst_path, pats, adopt, stow_dir, inner);
            let rest = stow_listing_plan(e.listing, src_path, dst_path, pats, adopt, stow_dir, inner);
            if d == StowDecision::Unfold {
                let u = ActionView::Unfold { dir: dst_path, existing_link_target: link_content_of(t) };
                assert(p.actions == seq![u] + rest.actions);
                lemma_links_distinct_shift(u, rest.actions);
                assert forall|i: int| 0 <= i < p.actions.len() implies path_starts_with(
                    action_path(#[trigger] p.actions[i]),
                    dst_path,
                ) by {
                    if i > 0 {
                        assert(p.actions[i] == rest.actions[i - 1]);
                    }
                }
            }
        } else {
            assert(plan_at(p, dst_path));
            assert(within(p.actions, dst_path));
        }
    }
}

proof fn lemma_entries_links_distinct(
    s: Seq<PackageEntry>,
    src_dir: PathView,
    dst_dir: PathView,
    pats: Patterns,
    adopt: bool,
    stow_dir: PathView,
    over: Option<Seq<FoldedItem>>,
)
    requires
        entries_names_distinct(s),
    ensures
        links_distinct(stow_entries_plan(s, src_dir, dst_dir, pats, adopt, stow_dir, over).actions),
        forall|i: int|
            0 <= i < stow_entries_plan(s, src_dir, dst_dir, pats, adopt, stow_dir, over).actions.len()
                ==> exists|k: int|
                0 <= k < s.len() && path_starts_with(
                    action_path(
                        #[trigger] stow_entries_plan(
                            s,
                            src_dir,
                            dst_dir,
                            pats,
                            adopt,
                            stow_dir,
                            over,
                        ).actions[i],
                    ),
                    join_name(dst_dir, #[trigger] s[k].name@),
                ),
    decreases s, 0nat,
{
    if s.len() > 0 {
        let rest = s.drop_last();
        let e = s.last();
        lemma_entries_links_distinct(rest, src_dir, dst_dir, pats, adopt, stow_dir, over);
        lemma_entry_links_distinct(e, src_dir, dst_dir, pats, adopt, stow_dir, over);
        let p = stow_entries_plan(rest, src_dir, dst_dir, pats, adopt, stow_dir, over);
        let q = stow_entry_plan(e, src_dir, dst_dir, pats, adopt, stow_dir, over);
        let all = stow_entries_plan(s, src_dir, dst_dir, pats, adopt, stow_dir, over);
        if p.failure is None {
            let a = p.actions + q.actions;
            assert(all.actions == a);
            let n = s.len() - 1;
            assert forall|i: int| 0 <= i < a.len() implies exists|k: int|
                0 <= k < s.len() && path_starts_with(
                    action_path(#[trigger] a[i]),
                    join_name(dst_dir, #[trigger] s[k].name@),
                ) by {
                if i < p.actions.len() {
                    assert(a[i] == p.actions[i]);
                    let k = choose|k: int|
                        0 <= k < rest.len() && path_starts_with(
                            action_path(#[trigger] p.actions[i]),
                            join_name(dst_dir, #[trigger] rest[k].name@),
                        );
                    assert(rest[k] == s[k]);
                } else {
                    assert(a[i] == q.actions[i - p.actions.len()]);
                    assert(s[n] == e);
                }
            }
            assert forall|i: int, j: int|
                0 <= i < j < a.len() && #[trigger] a[i] is CreateSymlink
                    && #[trigger] a[j] is CreateSymlink implies action_path(a[i]) != action_path(
                a[j],
            ) by {
                if j < p.actions.len() {
                    assert(a[i] == p.actions[i]);
                    assert(a[j] == p.actions[j]);
                } else if i >= p.actions.len() {
                    assert(a[i] == q.actions[i - p.actions.len()]);
                    assert(a[j] == q.actions[j - p.actions.len()]);
                } else {
                    assert(a[i] == p.actions[i]);
                    assert(a[j] == q.actions[j - p.actions.len()]);
                    let k = choose|k: int|
                        0 <= k < rest.len() && path_starts_with(
                            action_path(#[trigger] p.actions[i]),
                            join_name(dst_dir, #[trigger] rest[k].name@),
                        );
                    let x = action_path(a[i]);
                    let y = action_path(a[j]);
                    let dk = join_name(dst_dir, rest[k].name@);
                    let de = join_name(dst_dir, e.name@);
                    assert(path_starts_with(y, de));
                    if x == y {
                        assert(dk.len() == de.len());
                        assert(dk == x.take(dk.len() as int));
                        assert(de == y.take(de.len() as int));
                        assert(dk.last() == de.last());
                        assert(rest[k] == s[k]);
                        assert(s[k].name@ != s.last().name@);
                    }
                }
            }
        }
    }
}

proof fn lemma_listing_links_distinct(
    l: Listing,
    src_dir: PathView,
    dst_dir: PathView,
    pats: Patterns,
    adopt: bool,
    stow_dir: PathView,
    over: Option<Seq<FoldedItem>>,
)
    requires
        listing_names_distinct(l),
    ensures
        links_distinct(stow_listing_plan(l, src_dir, dst_dir, pats, adopt, stow_dir, over).actions),
    decreases l, 0nat,
{
    match l {
        Listing::Read(v) => lemma_entries_links_distinct(v@, src_dir, dst_dir, pats, adopt, stow_dir, over),
        Listing::Partial(v, _) => {
            lemma_entries_links_distinct(v@, src_dir, dst_dir, pats, adopt, stow_dir, over);
            let p = stow_entries_plan(v@, src_dir, dst_dir, pats, adopt, stow_dir, over);
            assert(p.actions + Seq::<ActionView>::empty() =~= p.actions);
        },
        _ => {},
    }
}

/// No two links share a destination: when no two entries of a directory
/// of the package have the same name (as on any disk), the symlinks a stow
/// plan creates all have different destinations.
pub proof fn links_have_distinct_destinations(scan: PackageScan, pats: Patterns, adopt: bool)
    requires
        listing_names_distinct(scan.listing),
    ensures
        links_distinct(stow_package_plan(scan, pats, adopt).actions),
{
    lemma_listing_links_distinct(
        scan.listing,
        scan.package_dir.deep_view(),
        scan.target_dir.deep_view(),
        pats,
        adopt,
        scan.stow_dir.deep_view(),
        None,
    );
}

} // verus!
