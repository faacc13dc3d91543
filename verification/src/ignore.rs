//! Ignore, defer and override patterns, matched against file names.

use vstd::prelude::*;

use crate::path::{file_name_of, PathView};

verus! {

#[verifier::external_type_specification]
#[verifier::external_body]
pub struct ExRegex(regex::Regex);

#[verifier::external_type_specification]
#[verifier::external_body]
pub struct ExRegexError(regex::Error);

/// Whether `regex::Regex::new` accepts the pattern.
pub uninterp spec fn regex_compiles(pattern: Seq<char>) -> bool;

/// Whether the regex compiled from `pattern` matches somewhere in `haystack`
/// (`regex::Regex::is_match`).
pub uninterp spec fn regex_matches(pattern: Seq<char>, haystack: Seq<char>) -> bool;

/// Calls `regex::Regex::new`. Trusted: the result is `Ok` exactly when the
/// pattern compiles, a property of the pattern text alone (the default size
/// limits are fixed). Which error comes back on failure is left unsaid.
#[verifier::external_body]
fn regex_new(pattern: &str) -> (r: Result<regex::Regex, regex::Error>)
    ensures
        r is Ok <==> regex_compiles(pattern@),
{
    regex::Regex::new(pattern)
}

/// Calls `regex::Regex::is_match` on the regex held by `p`. Trusted: the
/// answer is whether the regex compiled from `p`'s source text matches
/// somewhere in `haystack`; a `Pattern` only ever holds the regex compiled
/// from its own source (see `Pattern::new`).
#[verifier::external_body]
fn regex_is_match(p: &Pattern, haystack: &str) -> (b: bool)
    ensures
        b == regex_matches(p@, haystack@),
{
    p.regex.is_match(haystack)
}

/// A compiled regular expression together with its source text.
pub struct Pattern {
    source: String,
    regex: regex::Regex,
}

impl View for Pattern {
    type V = Seq<char>;

    /// The source text of the pattern.
    closed spec fn view(&self) -> Seq<char> {
        self.source@
    }
}

impl Pattern {
    #[verifier::type_invariant]
    closed spec fn compiled(&self) -> bool {
        regex_compiles(self.source@)
    }

    /// Compiles `source`.
    pub fn new(source: &str) -> (r: Result<Pattern, regex::Error>)
        ensures
            r is Ok <==> regex_compiles(source@),
            r matches Ok(p) ==> p@ == source@,
    {
        match regex_new(source) {
            Ok(regex) => Ok(Pattern { source: String::from_str(source), regex }),
            Err(e) => Err(e),
        }
    }

    /// The source text.
    pub fn as_str(&self) -> (s: &str)
        ensures
            s@ == self@,
    {
        self.source.as_str()
    }

    /// Whether the pattern matches somewhere in `text`.
    pub fn is_match(&self, text: &str) -> (b: bool)
        ensures
            b == regex_matches(self@, text@),
    {
        regex_is_match(self, text)
    }
}

/// The source texts of a list of patterns.
pub open spec fn sources(ps: Seq<Pattern>) -> Seq<Seq<char>> {
    ps.map_values(|p: Pattern| p@)
}

/// The texts of a list of strings.
pub open spec fn texts(ss: Seq<String>) -> Seq<Seq<char>> {
    ss.map_values(|s: String| s@)
}

/// Whether every pattern in the list compiles.
pub open spec fn all_compile(ps: Seq<Seq<char>>) -> bool {
    forall|i: int| 0 <= i < ps.len() ==> regex_compiles(#[trigger] ps[i])
}

/// Whether some pattern in the list matches `name`.
pub open spec fn matches_any(ps: Seq<Seq<char>>, name: Seq<char>) -> bool {
    exists|i: int| 0 <= i < ps.len() && regex_matches(#[trigger] ps[i], name)
}

/// The name that patterns are matched against: the path's file name, or the
/// empty text when it has none.
pub open spec fn match_name(p: PathView) -> Seq<char> {
    match file_name_of(p) {
        Some(n) => n,
        None => Seq::empty(),
    }
}

/// The patterns ignored by default, as GNU stow does: version control
/// directories, patch leftovers, editor backups and lock files, macOS
/// metadata.
pub open spec fn builtin_ignore() -> Seq<Seq<char>> {
    seq![
        "^RCS$"@,
        "^CVS$"@,
        "^\\.git$"@,
        "^\\.hg$"@,
        "^\\.svn$"@,
        "\\.orig$"@,
        "\\.rej$"@,
        "~$"@,
        "^#.*#$"@,
        "^\\.#"@,
        "^\\.DS_Store$"@,
    ]
}

/// Whether the character has a meaning of its own in a regular expression.
pub open spec fn regex_meta(c: char) -> bool {
    c == '\\' || c == '.' || c == '+' || c == '*' || c == '?' || c == '(' || c == ')' || c == '|'
        || c == '[' || c == ']' || c == '{' || c == '}' || c == '^' || c == '$'
}

/// The regular expression that matches exactly the text `s`, where it
/// occurs: each meta character escaped with a backslash.
pub open spec fn regex_escape(s: Seq<char>) -> Seq<char>
    decreases s.len(),
{
    if s.len() == 0 {
        Seq::empty()
    } else {
        (if regex_meta(s[0]) {
            seq!['\\', s[0]]
        } else {
            seq![s[0]]
        }) + regex_escape(s.drop_first())
    }
}

/// The pattern that matches the whole name `n` and nothing longer.
pub open spec fn whole_name(n: Seq<char>) -> Seq<char> {
    seq!['^'] + regex_escape(n) + seq!['$']
}

/// The pattern that matches names ending in `n`.
pub open spec fn name_suffix(n: Seq<char>) -> Seq<char> {
    regex_escape(n) + seq!['$']
}

/// The pattern that matches names beginning with `n`.
pub open spec fn name_prefix(n: Seq<char>) -> Seq<char> {
    seq!['^'] + regex_escape(n)
}

/// GNU Stow's default ignore list, as the built-in patterns hold it: the
/// version-control directories `RCS`, `CVS`, `.git`, `.hg`, `.svn` and the
/// macOS `.DS_Store` are ignored as whole names only (so `.hgrc` or
/// `.gitconfig` are not); patch leftovers `.orig`, `.rej` and editor backups
/// `~` as name endings; emacs autosave files `#...#` as whole names; emacs
/// lock files as names beginning with `.#`.
pub proof fn builtin_ignore_is_gnu_stows_list()
    ensures
        builtin_ignore() == seq![
            whole_name(seq!['R', 'C', 'S']),
            whole_name(seq!['C', 'V', 'S']),
            whole_name(seq!['.', 'g', 'i', 't']),
            whole_name(seq!['.', 'h', 'g']),
            whole_name(seq!['.', 's', 'v', 'n']),
            name_suffix(seq!['.', 'o', 'r', 'i', 'g']),
            name_suffix(seq!['.', 'r', 'e', 'j']),
            name_suffix(seq!['~']),
            seq!['^'] + regex_escape(seq!['#']) + seq!['.', '*'] + name_suffix(seq!['#']),
            name_prefix(seq!['.', '#']),
            whole_name(seq!['.', 'D', 'S', '_', 'S', 't', 'o', 'r', 'e']),
        ],
{
    reveal_strlit("^RCS$");
    reveal_strlit("^CVS$");
    reveal_strlit("^\\.git$");
    reveal_strlit("^\\.hg$");
    reveal_strlit("^\\.svn$");
    reveal_strlit("\\.orig$");
    reveal_strlit("\\.rej$");
    reveal_strlit("~$");
    reveal_strlit("^#.*#$");
    reveal_strlit("^\\.#");
    reveal_strlit("^\\.DS_Store$");
    reveal_with_fuel(regex_escape, 10);
    assert(whole_name(seq!['R', 'C', 'S']) =~= "^RCS$"@);
    assert(whole_name(seq!['C', 'V', 'S']) =~= "^CVS$"@);
    assert(whole_name(seq!['.', 'g', 'i', 't']) =~= "^\\.git$"@);
    assert(whole_name(seq!['.', 'h', 'g']) =~= "^\\.hg$"@);
    assert(whole_name(seq!['.', 's', 'v', 'n']) =~= "^\\.svn$"@);
    assert(name_suffix(seq!['.', 'o', 'r', 'i', 'g']) =~= "\\.orig$"@);
    assert(name_suffix(seq!['.', 'r', 'e', 'j']) =~= "\\.rej$"@);
    assert(name_suffix(seq!['~']) =~= "~$"@);
    assert(seq!['^'] + regex_escape(seq!['#']) + seq!['.', '*'] + name_suffix(seq!['#']) =~= "^#.*#$"@);
    assert(name_prefix(seq!['.', '#']) =~= "^\\.#"@);
    assert(whole_name(seq!['.', 'D', 'S', '_', 'S', 't', 'o', 'r', 'e']) =~= "^\\.DS_Store$"@);
    assert(builtin_ignore() =~= seq![
        whole_name(seq!['R', 'C', 'S']),
        whole_name(seq!['C', 'V', 'S']),
        whole_name(seq!['.', 'g', 'i', 't']),
        whole_name(seq!['.', 'h', 'g']),
        whole_name(seq!['.', 's', 'v', 'n']),
        name_suffix(seq!['.', 'o', 'r', 'i', 'g']),
        name_suffix(seq!['.', 'r', 'e', 'j']),
        name_suffix(seq!['~']),
        seq!['^'] + regex_escape(seq!['#']) + seq!['.', '*'] + name_suffix(seq!['#']),
        name_prefix(seq!['.', '#']),
        whole_name(seq!['.', 'D', 'S', '_', 'S', 't', 'o', 'r', 'e']),
    ]);
}

/// Compiled ignore, defer and override patterns.
pub struct Patterns {
    /// Entries of a package whose name matches one of these are not stowed.
    pub ignore: Vec<Pattern>,
    /// Conflicts at targets whose name matches one of these are skipped.
    pub defer: Vec<Pattern>,
    /// Targets whose name matches one of these are replaced.
    pub override_: Vec<Pattern>,
}

impl Patterns {
    /// The ignore pattern texts.
    pub open spec fn ignore_view(&self) -> Seq<Seq<char>> {
        sources(self.ignore@)
    }

    /// The defer pattern texts.
    pub open spec fn defer_view(&self) -> Seq<Seq<char>> {
        sources(self.defer@)
    }

    /// The override pattern texts.
    pub open spec fn override_view(&self) -> Seq<Seq<char>> {
        sources(self.override_@)
    }

    /// Whether entries at `p` are ignored.
    pub open spec fn ignores(&self, p: PathView) -> bool {
        matches_any(self.ignore_view(), match_name(p))
    }

    /// Whether conflicts at `p` are deferred.
    pub open spec fn defers(&self, p: PathView) -> bool {
        matches_any(self.defer_view(), match_name(p))
    }

    /// Whether targets at `p` are overridden.
    pub open spec fn overrides(&self, p: PathView) -> bool {
        matches_any(self.override_view(), match_name(p))
    }
}

/// The patterns ignored by default.
fn builtin_ignore_patterns() -> (v: Vec<&'static str>)
    ensures
        v@.map_values(|s: &str| s@) == builtin_ignore(),
{
    let v = vec![
        "^RCS$",
        "^CVS$",
        "^\\.git$",
        "^\\.hg$",
        "^\\.svn$",
        "\\.orig$",
        "\\.rej$",
        "~$",
        "^#.*#$",
        "^\\.#",
        "^\\.DS_Store$",
    ];
    assert(v@.map_values(|s: &str| s@) =~= builtin_ignore());
    v
}

/// Compiles `source` and appends it to `out`.
fn compile_into(out: &mut Vec<Pattern>, source: &str) -> (r: Result<(), regex::Error>)
    ensures
        r is Ok <==> regex_compiles(source@),
        r is Ok ==> sources(final(out)@) == sources(old(out)@).push(source@),
{
    match Pattern::new(source) {
        Ok(p) => {
            let ghost before = out@;
            out.push(p);
            assert(sources(out@) =~= sources(before).push(source@));
            Ok(())
        },
        Err(e) => Err(e),
    }
}

/// Compiles each of `items` in order, appending to `out`; stops at the first
/// pattern that does not compile.
fn compile_all(out: &mut Vec<Pattern>, items: &[String]) -> (r: Result<(), regex::Error>)
    ensures
        r is Ok <==> all_compile(texts(items@)),
        r is Ok ==> sources(final(out)@) == sources(old(out)@) + texts(items@),
{
    let ghost start = sources(out@);
    let mut i: usize = 0;
    while i < items.len()
        invariant
            i <= items.len(),
            sources(out@) == start + texts(items@).take(i as int),
            all_compile(texts(items@).take(i as int)),
        decreases items.len() - i,
    {
        let ghost before = sources(out@);
        match compile_into(out, items[i].as_str()) {
            Ok(()) => {},
            Err(e) => {
                assert(texts(items@)[i as int] == items@[i as int]@);
                assert(!all_compile(texts(items@)));
                return Err(e);
            },
        }
        assert(texts(items@).take(i + 1) =~= texts(items@).take(i as int).push(items@[i as int]@));
        i = i + 1;
    }
    assert(texts(items@).take(i as int) =~= texts(items@));
    Ok(())
}

/// The file name of a path as matched by patterns: the last component when it
/// is a name, otherwise the empty text.
pub fn match_name_of(path: &Vec<String>) -> (s: String)
    ensures
        s@ == match_name(path.deep_view()),
{
    if path.len() == 0 {
        return String::new();
    }
    let last = &path[path.len() - 1];
    if crate::path::is_root(last) || crate::path::is_parent(last) || crate::path::is_current(last) {
        String::new()
    } else {
        last.clone()
    }
}

/// Whether some pattern of the list matches `name`.
fn any_match(pats: &Vec<Pattern>, name: &str) -> (b: bool)
    ensures
        b == matches_any(sources(pats@), name@),
{
    let mut i: usize = 0;
    while i < pats.len()
        invariant
            i <= pats.len(),
            forall|j: int| 0 <= j < i ==> !regex_matches(#[trigger] sources(pats@)[j], name@),
        decreases pats.len() - i,
    {
        if pats[i].is_match(name) {
            assert(sources(pats@)[i as int] == pats@[i as int]@);
            return true;
        }
        i = i + 1;
    }
    false
}

impl Patterns {
    /// Compiles the built-in ignore patterns followed by `ignore`, then
    /// `defer` and `override_`. Succeeds exactly when every pattern compiles.
    /// On failure the body returns the error of the first pattern, in that
    /// order, that does not compile; the contract says only that it fails, as
    /// nothing is stated of the errors `regex` builds.
    pub fn new(ignore: &[String], defer: &[String], override_: &[String]) -> (r: Result<
        Self,
        regex::Error,
    >)
        ensures
            r is Ok <==> {
                &&& all_compile(builtin_ignore())
                &&& all_compile(texts(ignore@))
                &&& all_compile(texts(defer@))
                &&& all_compile(texts(override_@))
            },
            r matches Ok(p) ==> {
                &&& p.ignore_view() == builtin_ignore() + texts(ignore@)
                &&& p.defer_view() == texts(defer@)
                &&& p.override_view() == texts(override_@)
            },
    {
        let builtin = builtin_ignore_patterns();
        let mut ignore_pats: Vec<Pattern> = Vec::new();
        let mut i: usize = 0;
        while i < builtin.len()
            invariant
                i <= builtin.len(),
                builtin@.map_values(|s: &str| s@) == builtin_ignore(),
                sources(ignore_pats@) == builtin_ignore().take(i as int),
                all_compile(builtin_ignore().take(i as int)),
            decreases builtin.len() - i,
        {
            match compile_into(&mut ignore_pats, builtin[i]) {
                Ok(()) => {},
                Err(e) => {
                    assert(builtin_ignore()[i as int] == builtin@[i as int]@);
                    return Err(e);
                },
            }
            assert(builtin_ignore()[i as int] == builtin@[i as int]@);
            assert(builtin_ignore().take(i + 1) =~= builtin_ignore().take(i as int).push(
                builtin@[i as int]@,
            ));
            i = i + 1;
        }
        assert(builtin_ignore().take(i as int) =~= builtin_ignore());
        match compile_all(&mut ignore_pats, ignore) {
            Ok(()) => {},
            Err(e) => return Err(e),
        }
        let mut defer_pats: Vec<Pattern> = Vec::new();
        match compile_all(&mut defer_pats, defer) {
            Ok(()) => {},
            Err(e) => return Err(e),
        }
        assert(sources(defer_pats@) =~= texts(defer@));
        let mut override_pats: Vec<Pattern> = Vec::new();
        match compile_all(&mut override_pats, override_) {
            Ok(()) => {},
            Err(e) => return Err(e),
        }
        assert(sources(override_pats@) =~= texts(override_@));
        Ok(Patterns { ignore: ignore_pats, defer: defer_pats, override_: override_pats })
    }

    /// The paths whose entries are not ignored, in order.
    pub fn unignored(&self, paths: Vec<Vec<String>>) -> (r: Vec<Vec<String>>)
        ensures
            r.deep_view() == paths.deep_view().filter(|p: PathView| !self.ignores(p)),
    {
        let ghost all = paths.deep_view();
        let ghost keep = |p: PathView| !self.ignores(p);
        let n = paths.len();
        let mut rest = crate::vecs::reversed(paths);
        let mut r: Vec<Vec<String>> = Vec::new();
        let mut i: usize = 0;
        assert(r.deep_view() =~= all.take(0).filter(keep)) by {
            reveal(Seq::filter);
        }
        while i < n
            invariant
                i <= n,
                n == all.len(),
                all == paths.deep_view(),
                keep == (|p: PathView| !self.ignores(p)),
                rest@.len() == n - i,
                forall|j: int| 0 <= j < rest@.len() ==> rest@[j] == paths@[n - 1 - j],
                r.deep_view() == all.take(i as int).filter(keep),
            decreases n - i,
        {
            let p = rest.pop().unwrap();
            assert(p.deep_view() == all[i as int]);
            assert(all.take(i + 1).drop_last() =~= all.take(i as int));
            assert(all.take(i + 1).last() == all[i as int]);
            assert(all.take(i + 1).filter(keep) == if keep(all[i as int]) {
                all.take(i as int).filter(keep).push(all[i as int])
            } else {
                all.take(i as int).filter(keep)
            }) by {
                reveal_with_fuel(Seq::filter, 1);
            }
            if !self.should_ignore(&p) {
                crate::vecs::push_deep(&mut r, p);
            }
            i = i + 1;
        }
        assert(all.take(n as int) =~= all);
        r
    }

    /// Whether the entry at `path` is ignored: some ignore pattern matches
    /// its file name.
    pub fn should_ignore(&self, path: &Vec<String>) -> (b: bool)
        ensures
            b == self.ignores(path.deep_view()),
    {
        let name = match_name_of(path);
        any_match(&self.ignore, name.as_str())
    }

    /// Whether a conflict at `path` is deferred: some defer pattern matches
    /// its file name.
    pub fn should_defer(&self, path: &Vec<String>) -> (b: bool)
        ensures
            b == self.defers(path.deep_view()),
    {
        let name = match_name_of(path);
        any_match(&self.defer, name.as_str())
    }

    /// Whether the target at `path` is overridden: some override pattern
    /// matches its file name.
    pub fn should_override(&self, path: &Vec<String>) -> (b: bool)
        ensures
            b == self.overrides(path.deep_view()),
    {
        let name = match_name_of(path);
        any_match(&self.override_, name.as_str())
    }
}

} // verus!
