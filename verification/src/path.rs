//! Paths as lists of components.
//!
//! A path is the list of components that `std::path::Path::components`
//! yields: the root directory is the component `"/"`, the others are names,
//! `"."` or `".."`. A path that the library builds is the list of components
//! that, pushed one by one onto an empty `PathBuf`, gives that path.

use vstd::prelude::*;

verus! {

/// The abstract value of a path: its components as character sequences.
pub type PathView = Seq<Seq<char>>;

/// The root directory component.
pub open spec fn root_component() -> Seq<char> {
    seq!['/']
}

/// The parent directory component.
pub open spec fn parent_component() -> Seq<char> {
    seq!['.', '.']
}

/// The current directory component.
pub open spec fn current_component() -> Seq<char> {
    seq!['.']
}

/// `Path::parent`: the path without its last component, unless the path is
/// empty or ends in the root.
pub open spec fn parent_of(p: PathView) -> Option<PathView> {
    if p.len() == 0 || p.last() == root_component() {
        None
    } else {
        Some(p.drop_last())
    }
}

/// `Path::file_name`: the last component when it is a name.
pub open spec fn file_name_of(p: PathView) -> Option<Seq<char>> {
    if p.len() == 0 || p.last() == root_component() || p.last() == parent_component()
        || p.last() == current_component() {
        None
    } else {
        Some(p.last())
    }
}

/// Whether `p` is absolute: it starts at the root.
pub open spec fn is_absolute_path(p: PathView) -> bool {
    p.len() > 0 && p[0] == root_component()
}

/// `Path::starts_with`: `base` is a prefix of `p`, component by component.
pub open spec fn path_starts_with(p: PathView, base: PathView) -> bool {
    base.len() <= p.len() && p.take(base.len() as int) == base
}

/// The length of the longest common prefix of two paths.
pub open spec fn common_prefix_len(a: PathView, b: PathView) -> nat
    decreases a.len(),
{
    if a.len() == 0 || b.len() == 0 || a[0] != b[0] {
        0
    } else {
        1 + common_prefix_len(a.drop_first(), b.drop_first())
    }
}

/// The directory that holds a symlink at `from`: its parent, or the root.
pub open spec fn link_dir(from: PathView) -> PathView {
    match parent_of(from) {
        Some(d) => d,
        None => seq![root_component()],
    }
}

/// The relative path from the directory of `from` to `to`: one `".."` for each
/// component of that directory past the common prefix, then the rest of `to`;
/// `"."` when that is empty.
pub open spec fn relative_path_of(from: PathView, to: PathView) -> PathView {
    let dir = link_dir(from);
    let k = common_prefix_len(dir, to);
    let rel = Seq::new((dir.len() - k) as nat, |i: int| parent_component()) + to.skip(k as int);
    if rel.len() == 0 {
        seq![current_component()]
    } else {
        rel
    }
}

/// `dir.join(name)`: the path of the entry `name` in `dir`.
pub open spec fn join_name(dir: PathView, name: Seq<char>) -> PathView {
    dir.push(name)
}

/// The lexical resolution of a relative path against a directory: `".."`
/// drops the last component, `"."` keeps the directory, a name is appended.
pub open spec fn resolve_lexically(dir: PathView, rel: PathView) -> PathView
    decreases rel.len(),
{
    if rel.len() == 0 {
        dir
    } else {
        let d = if rel[0] == parent_component() {
            dir.drop_last()
        } else if rel[0] == current_component() {
            dir
        } else {
            dir.push(rel[0])
        };
        resolve_lexically(d, rel.drop_first())
    }
}

/// A path of plain names under the root: no `"."`, no `".."` and no second root.
pub open spec fn is_normal_absolute(p: PathView) -> bool {
    &&& is_absolute_path(p)
    &&& forall|i: int| 1 <= i < p.len() ==> {
        &&& #[trigger] p[i] != root_component()
        &&& p[i] != parent_component()
        &&& p[i] != current_component()
    }
}

/// Whether the string is exactly the given one-character component.
fn is_one_char(c: &String, ch: char) -> (b: bool)
    ensures
        b == (c@ == seq![ch]),
{
    let s = c.as_str();
    if s.unicode_len() != 1 {
        assert(c@.len() != 1);
        return false;
    }
    let first = s.get_char(0);
    if first == ch {
        assert(c@ =~= seq![ch]);
        true
    } else {
        false
    }
}

/// Whether the component is the root directory, `"/"`.
pub fn is_root(c: &String) -> (b: bool)
    ensures
        b == (c@ == root_component()),
{
    is_one_char(c, '/')
}

/// Whether the component is `"."`.
pub fn is_current(c: &String) -> (b: bool)
    ensures
        b == (c@ == current_component()),
{
    is_one_char(c, '.')
}

/// Whether the component is `".."`.
pub fn is_parent(c: &String) -> (b: bool)
    ensures
        b == (c@ == parent_component()),
{
    let s = c.as_str();
    if s.unicode_len() != 2 {
        assert(c@.len() != 2);
        return false;
    }
    let a = s.get_char(0);
    let b = s.get_char(1);
    if a == '.' && b == '.' {
        assert(c@ =~= parent_component());
        true
    } else {
        false
    }
}

/// The component `".."`.
pub fn parent_string() -> (s: String)
    ensures
        s@ == parent_component(),
{
    let s = String::from_str("..");
    proof {
        reveal_strlit("..");
    }
    s
}

/// The component `"."`.
pub fn current_string() -> (s: String)
    ensures
        s@ == current_component(),
{
    let s = String::from_str(".");
    proof {
        reveal_strlit(".");
    }
    s
}

/// The component `"/"`.
pub fn root_string() -> (s: String)
    ensures
        s@ == root_component(),
{
    let s = String::from_str("/");
    proof {
        reveal_strlit("/");
    }
    s
}

/// Appends a component to a path.
pub fn push_component(p: &mut Vec<String>, c: String)
    ensures
        final(p).deep_view() == old(p).deep_view().push(c@),
{
    let ghost before = p@;
    p.push(c);
    assert(p.deep_view().len() == p@.len());
    assert(p.deep_view() =~= Seq::new(before.len(), |i: int| before[i].deep_view()).push(c@));
}

/// A copy of a path.
pub fn copy_path(p: &Vec<String>) -> (r: Vec<String>)
    ensures
        r.deep_view() == p.deep_view(),
{
    let mut r: Vec<String> = Vec::new();
    let mut i: usize = 0;
    while i < p.len()
        invariant
            i <= p.len(),
            r.deep_view() == p.deep_view().take(i as int),
        decreases p.len() - i,
    {
        push_component(&mut r, p[i].clone());
        i = i + 1;
        assert(r.deep_view() =~= p.deep_view().take(i as int));
    }
    assert(p.deep_view().take(p.len() as int) =~= p.deep_view());
    r
}

/// Whether two paths have the same components (`Path` equality).
pub fn same_path(a: &Vec<String>, b: &Vec<String>) -> (r: bool)
    ensures
        r == (a.deep_view() == b.deep_view()),
{
    if a.len() != b.len() {
        assert(a.deep_view().len() != b.deep_view().len());
        return false;
    }
    let mut i: usize = 0;
    while i < a.len()
        invariant
            i <= a.len(),
            a.len() == b.len(),
            forall|j: int| 0 <= j < i ==> a.deep_view()[j] == b.deep_view()[j],
        decreases a.len() - i,
    {
        if a[i] != b[i] {
            assert(a.deep_view()[i as int] != b.deep_view()[i as int]);
            return false;
        }
        i = i + 1;
    }
    assert(a.deep_view() =~= b.deep_view());
    true
}

/// `Path::starts_with`: whether `base` is a component-wise prefix of `p`.
pub fn starts_with(p: &Vec<String>, base: &Vec<String>) -> (r: bool)
    ensures
        r == path_starts_with(p.deep_view(), base.deep_view()),
{
    if base.len() > p.len() {
        return false;
    }
    let mut i: usize = 0;
    while i < base.len()
        invariant
            i <= base.len() <= p.len(),
            forall|j: int| 0 <= j < i ==> p.deep_view()[j] == base.deep_view()[j],
        decreases base.len() - i,
    {
        if p[i] != base[i] {
            assert(p.deep_view().take(base.len() as int)[i as int] != base.deep_view()[i as int]);
            return false;
        }
        i = i + 1;
    }
    assert(p.deep_view().take(base.len() as int) =~= base.deep_view());
    true
}

/// `Path::parent`.
pub fn parent(p: &Vec<String>) -> (r: Option<Vec<String>>)
    ensures
        match r {
            Some(q) => parent_of(p.deep_view()) == Some(q.deep_view()),
            None => parent_of(p.deep_view()) is None,
        },
{
    if p.len() == 0 {
        return None;
    }
    if is_root(&p[p.len() - 1]) {
        return None;
    }
    let mut q: Vec<String> = Vec::new();
    let mut i: usize = 0;
    while i + 1 < p.len()
        invariant
            0 < p.len(),
            i + 1 <= p.len(),
            q.deep_view() == p.deep_view().take(i as int),
        decreases p.len() - i,
    {
        push_component(&mut q, p[i].clone());
        i = i + 1;
        assert(q.deep_view() =~= p.deep_view().take(i as int));
    }
    assert(p.deep_view().take(i as int) =~= p.deep_view().drop_last());
    Some(q)
}

/// `dir.join(name)` for an entry name.
pub fn join(dir: &Vec<String>, name: &String) -> (r: Vec<String>)
    ensures
        r.deep_view() == join_name(dir.deep_view(), name@),
{
    let mut r = copy_path(dir);
    r.push(name.clone());
    assert(r.deep_view() =~= dir.deep_view().push(name@));
    r
}

proof fn lemma_common_prefix_len(a: PathView, b: PathView, k: nat)
    requires
        k <= a.len(),
        k <= b.len(),
        forall|j: int| 0 <= j < k ==> a[j] == b[j],
        k == a.len() || k == b.len() || a[k as int] != b[k as int],
    ensures
        common_prefix_len(a, b) == k,
    decreases k,
{
    if k > 0 {
        lemma_common_prefix_len(a.drop_first(), b.drop_first(), (k - 1) as nat);
    }
}

/// The length of the longest common prefix of two paths.
fn common_prefix(a: &Vec<String>, b: &Vec<String>) -> (k: usize)
    ensures
        k == common_prefix_len(a.deep_view(), b.deep_view()),
        k <= a.len(),
        k <= b.len(),
{
    let mut k: usize = 0;
    while k < a.len() && k < b.len() && a[k] == b[k]
        invariant
            k <= a.len(),
            k <= b.len(),
            forall|j: int| 0 <= j < k ==> a.deep_view()[j] == b.deep_view()[j],
        decreases a.len() - k,
    {
        k = k + 1;
    }
    proof {
        lemma_common_prefix_len(a.deep_view(), b.deep_view(), k as nat);
    }
    k
}

/// Compute a relative path from `from` (the path of a symlink) to `to`:
/// the path that, read from the directory holding `from`, leads to `to`.
pub fn relative_path(from: &Vec<String>, to: &Vec<String>) -> (rel: Vec<String>)
    ensures
        rel.deep_view() == relative_path_of(from.deep_view(), to.deep_view()),
{
    let from_dir = match parent(from) {
        Some(d) => d,
        None => {
            let mut d: Vec<String> = Vec::new();
            d.push(root_string());
            assert(d.deep_view() =~= seq![root_component()]);
            d
        },
    };
    let k = common_prefix(&from_dir, to);
    let ghost dir = from_dir.deep_view();
    let ghost target = to.deep_view();
    let ghost ups = Seq::new((dir.len() - k) as nat, |i: int| parent_component());
    let mut rel: Vec<String> = Vec::new();
    let mut i: usize = k;
    while i < from_dir.len()
        invariant
            k <= i <= from_dir.len(),
            dir == from_dir.deep_view(),
            dir.len() == from_dir.len(),
            ups.len() == dir.len() - k,
            forall|j: int| 0 <= j < ups.len() ==> ups[j] == parent_component(),
            rel.deep_view() == ups.take(i - k),
        decreases from_dir.len() - i,
    {
        assert(ups[i - k] == parent_component());
        push_component(&mut rel, parent_string());
        i = i + 1;
        assert(rel.deep_view() =~= ups.take(i - k));
    }
    assert(ups.take(i - k) =~= ups);
    let mut j: usize = k;
    while j < to.len()
        invariant
            k <= j <= to.len(),
            target == to.deep_view(),
            target.len() == to.len(),
            rel.deep_view() == ups + target.subrange(k as int, j as int),
        decreases to.len() - j,
    {
        push_component(&mut rel, to[j].clone());
        j = j + 1;
        assert(rel.deep_view() =~= ups + target.subrange(k as int, j as int));
    }
    assert(target.subrange(k as int, to.len() as int) =~= target.skip(k as int));
    if rel.len() == 0 {
        rel.push(current_string());
        assert(rel.deep_view() =~= seq![current_component()]);
    }
    rel
}

/// The text of a path after pushing component `c` onto a `PathBuf` whose
/// text is `buf`: the root restarts the path, a name is added after a
/// separator (none is added after the root or onto an empty path).
pub open spec fn push_text(buf: Seq<char>, c: Seq<char>) -> Seq<char> {
    if c == root_component() || buf.len() == 0 {
        c
    } else if buf.last() == '/' {
        buf + c
    } else {
        buf + seq!['/'] + c
    }
}

/// The text of a path, as `Path::display` shows it.
pub open spec fn path_text(p: PathView) -> Seq<char>
    decreases p.len(),
{
    if p.len() == 0 {
        Seq::empty()
    } else {
        push_text(path_text(p.drop_last()), p.last())
    }
}

/// The text of a path, as `Path::display` shows it.
pub fn display_path(p: &Vec<String>) -> (s: String)
    ensures
        s@ == path_text(p.deep_view()),
{
    let mut s = String::new();
    let mut i: usize = 0;
    while i < p.len()
        invariant
            i <= p.len(),
            s@ == path_text(p.deep_view().take(i as int)),
        decreases p.len() - i,
    {
        let c = &p[i];
        let ghost before = s@;
        if is_root(c) || s.as_str().unicode_len() == 0 {
            s = c.clone();
        } else {
            let n = s.as_str().unicode_len();
            if s.as_str().get_char(n - 1) == '/' {
                s.append(c.as_str());
            } else {
                s.append("/");
                proof {
                    reveal_strlit("/");
                }
                s.append(c.as_str());
            }
        }
        assert(p.deep_view().take(i + 1).drop_last() =~= p.deep_view().take(i as int));
        assert(p.deep_view().take(i + 1).last() == c@);
        assert(s@ =~= push_text(before, c@));
        i = i + 1;
    }
    assert(p.deep_view().take(p.len() as int) =~= p.deep_view());
    s
}

/// The path a symlink at `dir` with content `link` leads to: the content
/// read from the link's directory (or from `"."` when it has none).
pub open spec fn link_destination_of(dir: PathView, link: PathView) -> PathView {
    match parent_of(dir) {
        Some(d) => d + link,
        None => seq![current_component()] + link,
    }
}

/// The path a symlink at `dir` with content `link` leads to, as the
/// components to push onto an empty path.
pub fn link_destination(dir: &Vec<String>, link: &Vec<String>) -> (r: Vec<String>)
    ensures
        r.deep_view() == link_destination_of(dir.deep_view(), link.deep_view()),
{
    let mut r = match parent(dir) {
        Some(d) => d,
        None => {
            let mut d: Vec<String> = Vec::new();
            push_component(&mut d, current_string());
            d
        },
    };
    let ghost start = r.deep_view();
    let mut i: usize = 0;
    while i < link.len()
        invariant
            i <= link.len(),
            r.deep_view() == start + link.deep_view().take(i as int),
        decreases link.len() - i,
    {
        push_component(&mut r, link[i].clone());
        i = i + 1;
        assert(r.deep_view() =~= start + link.deep_view().take(i as int));
    }
    assert(link.deep_view().take(link.len() as int) =~= link.deep_view());
    r
}

proof fn lemma_common_prefix_facts(a: PathView, b: PathView)
    ensures
        common_prefix_len(a, b) <= a.len(),
        common_prefix_len(a, b) <= b.len(),
        forall|j: int| 0 <= j < common_prefix_len(a, b) ==> a[j] == b[j],
    decreases a.len(),
{
    if a.len() == 0 || b.len() == 0 || a[0] != b[0] {
    } else {
        lemma_common_prefix_facts(a.drop_first(), b.drop_first());
        assert forall|j: int| 0 <= j < common_prefix_len(a, b) implies a[j] == b[j] by {
            if j > 0 {
                assert(a.drop_first()[j - 1] == b.drop_first()[j - 1]);
            }
        }
    }
}

/// Resolving `m` leading `".."` components drops `m` components of the directory.
proof fn lemma_resolve_ups(d: PathView, m: nat, r: PathView)
    requires
        m <= d.len(),
    ensures
        resolve_lexically(d, Seq::new(m, |i: int| parent_component()) + r)
            == resolve_lexically(d.take(d.len() - m), r),
    decreases m,
{
    let ups = Seq::new(m, |i: int| parent_component());
    if m == 0 {
        assert(ups + r =~= r);
        assert(d.take(d.len() - m) =~= d);
    } else {
        let rest = Seq::new((m - 1) as nat, |i: int| parent_component());
        assert((ups + r)[0] == parent_component());
        assert((ups + r).drop_first() =~= rest + r);
        lemma_resolve_ups(d.drop_last(), (m - 1) as nat, r);
        assert(d.drop_last().take(d.drop_last().len() - (m - 1)) =~= d.take(d.len() - m));
    }
}

/// Resolving plain names appends them.
proof fn lemma_resolve_names(d: PathView, r: PathView)
    requires
        forall|i: int| 0 <= i < r.len() ==> #[trigger] r[i] != parent_component() && r[i]
            != current_component(),
    ensures
        resolve_lexically(d, r) == d + r,
    decreases r.len(),
{
    if r.len() == 0 {
        assert(d + r =~= d);
    } else {
        assert(r[0] != parent_component() && r[0] != current_component());
        let r2 = r.drop_first();
        assert forall|i: int| 0 <= i < r2.len() implies #[trigger] r2[i] != parent_component()
            && r2[i] != current_component() by {
            assert(r2[i] == r[i + 1]);
        }
        lemma_resolve_names(d.push(r[0]), r2);
        assert(d.push(r[0]) + r2 =~= d + r);
    }
}

/// A symlink made by `relative_path` leads where it should: for absolute
/// paths of plain names, the relative path is not absolute, and resolving it
/// from the directory holding the link gives back `to`.
pub proof fn relative_path_resolves(from: PathView, to: PathView)
    requires
        is_normal_absolute(from),
        is_normal_absolute(to),
    ensures
        !is_absolute_path(relative_path_of(from, to)),
        resolve_lexically(link_dir(from), relative_path_of(from, to)) == to,
{
    let dir = link_dir(from);
    assert(is_normal_absolute(dir)) by {
        if from.len() > 1 {
            assert(dir =~= from.drop_last());
            assert forall|i: int| 1 <= i < dir.len() implies {
                &&& #[trigger] dir[i] != root_component()
                &&& dir[i] != parent_component()
                &&& dir[i] != current_component()
            } by {
                assert(dir[i] == from[i]);
            }
        } else {
            assert(from.last() == root_component());
            assert(dir =~= seq![root_component()]);
        }
    }
    lemma_common_prefix_facts(dir, to);
    let k = common_prefix_len(dir, to);
    assert(k >= 1) by {
        reveal_with_fuel(common_prefix_len, 2);
    }
    let m = (dir.len() - k) as nat;
    let ups = Seq::new(m, |i: int| parent_component());
    let tail = to.skip(k as int);
    let rel = ups + tail;
    assert forall|i: int| 0 <= i < tail.len() implies #[trigger] tail[i] != parent_component()
        && tail[i] != current_component() && tail[i] != root_component() by {
        assert(tail[i] == to[i + k]);
    }
    lemma_resolve_ups(dir, m, tail);
    lemma_resolve_names(dir.take(k as int), tail);
    assert(dir.take(k as int) =~= to.take(k as int));
    assert(to.take(k as int) + tail =~= to);
    if rel.len() == 0 {
        assert(dir =~= to);
        assert(relative_path_of(from, to) =~= seq![current_component()]);
        assert(current_component().len() != parent_component().len());
        assert(seq![current_component()].drop_first() =~= Seq::<Seq<char>>::empty());
        assert(current_component()[0] != root_component()[0]);
        reveal_with_fuel(resolve_lexically, 2);
    } else {
        assert(relative_path_of(from, to) == rel);
        if m > 0 {
            assert(rel[0] == parent_component());
            assert(parent_component().len() != root_component().len());
        } else {
            assert(rel[0] == tail[0]);
        }
    }
}

} // verus!
