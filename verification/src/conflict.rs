//! Conflicts found while planning a stow.

use vstd::prelude::*;

use crate::path::{display_path, path_text, PathView};

verus! {

/// Why a target path blocks a package entry.
#[derive(Debug, PartialEq, Eq)]
pub enum ConflictKind {
    /// The target already exists and is not a stow symlink.
    ExistingFile,
    /// The target is a symlink owned by a different stowed package.
    OwnedByOther { owner: Vec<String> },
}

/// The abstract value of a [`ConflictKind`].
pub enum ConflictKindView {
    ExistingFile,
    OwnedByOther { owner: PathView },
}

impl DeepView for ConflictKind {
    type V = ConflictKindView;

    open spec fn deep_view(&self) -> ConflictKindView {
        match self {
            ConflictKind::ExistingFile => ConflictKindView::ExistingFile,
            ConflictKind::OwnedByOther { owner } => ConflictKindView::OwnedByOther {
                owner: owner.deep_view(),
            },
        }
    }
}

/// A target path that blocks a package entry, and why.
#[derive(Debug, PartialEq, Eq)]
pub struct Conflict {
    pub target: Vec<String>,
    pub kind: ConflictKind,
}

/// The abstract value of a [`Conflict`].
pub struct ConflictView {
    pub target: PathView,
    pub kind: ConflictKindView,
}

impl DeepView for Conflict {
    type V = ConflictView;

    open spec fn deep_view(&self) -> ConflictView {
        ConflictView { target: self.target.deep_view(), kind: self.kind.deep_view() }
    }
}

/// All conflicts found, in the order they were found.
#[derive(Debug)]
pub struct ConflictSet {
    pub conflicts: Vec<Conflict>,
}

impl ConflictSet {
    /// The conflicts, in order.
    pub open spec fn items(&self) -> Seq<ConflictView> {
        self.conflicts.deep_view()
    }

    /// Records a conflict at the end of the set.
    pub fn add(&mut self, target: Vec<String>, kind: ConflictKind)
        ensures
            final(self).items() == old(self).items().push(
                ConflictView { target: target.deep_view(), kind: kind.deep_view() },
            ),
    {
        let ghost before = self.conflicts@;
        let c = Conflict { target, kind };
        self.conflicts.push(c);
        assert(self.conflicts.deep_view() =~= Seq::new(
            before.len(),
            |i: int| before[i].deep_view(),
        ).push(c.deep_view()));
    }

    /// Moves the conflicts of `other` to the end of the set.
    pub fn append(&mut self, other: ConflictSet)
        ensures
            final(self).items() == old(self).items() + other.items(),
    {
        crate::vecs::append_deep(&mut self.conflicts, other.conflicts);
    }

    /// Whether no conflict was found.
    pub fn is_empty(&self) -> (b: bool)
        ensures
            b == (self.items().len() == 0),
    {
        self.conflicts.len() == 0
    }

    /// The number of conflicts.
    pub fn len(&self) -> (n: usize)
        ensures
            n == self.items().len(),
    {
        self.conflicts.len()
    }
}

/// The message for a kind of conflict.
pub open spec fn kind_text(k: ConflictKindView) -> Seq<char> {
    match k {
        ConflictKindView::ExistingFile => "target already exists and is not a stow symlink"@,
        ConflictKindView::OwnedByOther { .. } =>
            "target is a symlink owned by a different stowed package"@,
    }
}

/// The report line of one conflict.
pub open spec fn conflict_line(c: ConflictView) -> Seq<char> {
    "  conflict: "@ + path_text(c.target) + " — "@ + kind_text(c.kind) + "\n"@
}

/// The report of a list of conflicts: one line each, in order.
pub open spec fn conflicts_text(cs: Seq<ConflictView>) -> Seq<char>
    decreases cs.len(),
{
    if cs.len() == 0 {
        Seq::empty()
    } else {
        conflicts_text(cs.drop_last()) + conflict_line(cs.last())
    }
}

impl ConflictKind {
    /// The message for this kind of conflict.
    pub fn message(&self) -> (s: &'static str)
        ensures
            s@ == kind_text(self.deep_view()),
    {
        match self {
            ConflictKind::ExistingFile => "target already exists and is not a stow symlink",
            ConflictKind::OwnedByOther { .. } =>
                "target is a symlink owned by a different stowed package",
        }
    }
}

impl Conflict {
    /// The report line of this conflict.
    pub fn describe(&self) -> (s: String)
        ensures
            s@ == conflict_line(self.deep_view()),
    {
        let mut s = String::new();
        s.append("  conflict: ");
        let t = display_path(&self.target);
        s.append(t.as_str());
        s.append(" — ");
        s.append(self.kind.message());
        s.append("\n");
        assert(s@ =~= conflict_line(self.deep_view()));
        s
    }
}

impl ConflictSet {
    /// The report of all conflicts: one line each, in order.
    pub fn describe(&self) -> (s: String)
        ensures
            s@ == conflicts_text(self.items()),
    {
        let mut s = String::new();
        let mut i: usize = 0;
        while i < self.conflicts.len()
            invariant
                i <= self.conflicts.len(),
                s@ == conflicts_text(self.items().take(i as int)),
            decreases self.conflicts.len() - i,
        {
            let line = self.conflicts[i].describe();
            s.append(line.as_str());
            assert(self.items().take(i + 1).drop_last() =~= self.items().take(i as int));
            assert(self.items().take(i + 1).last() == self.conflicts@[i as int].deep_view());
            i = i + 1;
        }
        assert(self.items().take(self.conflicts.len() as int) =~= self.items());
        s
    }
}

impl Default for ConflictSet {
    fn default() -> (s: Self)
        ensures
            s.items() == Seq::<ConflictView>::empty(),
    {
        let s = ConflictSet { conflicts: Vec::new() };
        assert(s.items() =~= Seq::<ConflictView>::empty());
        s
    }
}

/// A conflict set is empty until a conflict is added: a set that starts
/// out as the default (empty) one and then receives the conflicts `added`
/// (each `add` appends one) is empty exactly when nothing was added, and
/// holds the added conflicts in order.
pub proof fn empty_until_a_conflict_is_added(
    start: ConflictSet,
    now: ConflictSet,
    added: Seq<ConflictView>,
)
    requires
        start.items() == Seq::<ConflictView>::empty(),
        now.items() == start.items() + added,
    ensures
        (now.items().len() == 0) <==> (added.len() == 0),
        now.items() == added,
{
    assert(start.items() + added =~= added);
}

} // verus!
