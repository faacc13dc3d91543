use bestow::cleanup::{cleanup_empty_dirs, CleanupStep, DirItem, DirScan};
use bestow::cli::Cli;
use bestow::conflict::{ConflictKind, ConflictSet};
use bestow::execute::{adopt_steps, executed_line, create_dir_steps, remove_steps, symlink_steps, unfold_steps, FoldedTarget, FsStep};
use bestow::ignore::{Pattern, Patterns};
use bestow::path::{
    display_path, is_current, is_parent, is_root, join, link_destination, parent, relative_path,
    same_path, starts_with,
};
use bestow::runner::{Command, Event, Output, Runner};
use bestow::scan::{FoldedItem, LinkInfo, Listing, PackageEntry, PackageScan, TargetFacts};
use bestow::stow::{
    decide_stow, decide_unstow, is_stow_symlink, plan_stow, plan_unstow, Action, StowDecision,
    UnstowDecision,
};
use bestow::{Config, Operation, StowError};

fn p(s: &str) -> Vec<String> {
    let mut v = Vec::new();
    if s.starts_with('/') {
        v.push("/".to_string());
    }
    for part in s.split('/') {
        if !part.is_empty() {
            v.push(part.to_string());
        }
    }
    v
}

fn strings(items: &[&str]) -> Vec<String> {
    items.iter().map(|s| s.to_string()).collect()
}

fn missing() -> TargetFacts {
    TargetFacts { exists: false, is_symlink: false, is_dir: false, link: None }
}

fn regular_file() -> TargetFacts {
    TargetFacts { exists: true, is_symlink: false, is_dir: false, link: None }
}

fn link_to(content: &str, resolved: &str, is_dir: bool) -> TargetFacts {
    TargetFacts {
        exists: true,
        is_symlink: true,
        is_dir,
        link: Some(LinkInfo { target: p(content), resolved: p(resolved), target_is_dir: is_dir }),
    }
}

fn file(name: &str, canonical: &str, target: TargetFacts) -> PackageEntry {
    PackageEntry {
        name: name.to_string(),
        is_dir: false,
        is_symlink: false,
        canonical: p(canonical),
        target,
        folded: vec![],
        listing: Listing::NotListed,
    }
}

fn scan_with(name: &str, listing: Listing) -> PackageScan {
    PackageScan {
        name: name.to_string(),
        found: true,
        package_dir: p(&format!("/t/stow/{name}")),
        target_dir: p("/t/target"),
        stow_dir: p("/t/stow"),
        listing,
    }
}

fn config(operation: Operation, dry_run: bool, verbose: u8) -> Config {
    Config {
        stow_dir: p("/t/stow"),
        target_dir: p("/t/target"),
        operation,
        dry_run,
        adopt: false,
        verbose,
    }
}

fn io_err() -> std::io::Error {
    std::io::Error::new(std::io::ErrorKind::PermissionDenied, "denied")
}

fn no_patterns() -> Patterns {
    Patterns::new(&[], &[], &[]).unwrap()
}

// ---- paths ----

#[test]
fn relative_path_climbs_to_the_common_prefix() {
    assert_eq!(relative_path(&p("/t/target/file"), &p("/t/stow/pkg/file")), p("../stow/pkg/file"));
    assert_eq!(relative_path(&p("/a/b/c/link"), &p("/a/x")), p("../../x"));
    assert_eq!(relative_path(&p("/a/link"), &p("/a/b/c")), p("b/c"));
    // Linking a directory to itself gives ".".
    assert_eq!(relative_path(&p("/a/link"), &p("/a")), strings(&["."]));
    // A path with no parent is taken from the root.
    assert_eq!(relative_path(&p("/"), &p("/x/y")), p("x/y"));
}

#[test]
fn relative_links_resolve_to_their_target() {
    // Reading the link from its directory leads back to the target.
    let from = p("/home/u/.config/app/conf");
    let to = p("/home/u/dotfiles/app/conf");
    let rel = relative_path(&from, &to);
    assert_eq!(rel, p("../../dotfiles/app/conf"));
    let mut dir = parent(&from).unwrap();
    for c in &rel {
        if c == ".." {
            dir.pop();
        } else {
            dir.push(c.clone());
        }
    }
    assert_eq!(dir, to);
}

#[test]
fn path_helpers() {
    assert_eq!(parent(&p("/a/b")), Some(p("/a")));
    assert_eq!(parent(&p("/")), None);
    assert_eq!(parent(&Vec::new()), None);
    assert_eq!(parent(&p("a")), Some(Vec::new()));
    assert_eq!(join(&p("/a"), &"b".to_string()), p("/a/b"));
    assert!(starts_with(&p("/t/stow/pkg/x"), &p("/t/stow")));
    assert!(!starts_with(&p("/t/stowaway"), &p("/t/stow")));
    assert!(!starts_with(&p("/t"), &p("/t/stow")));
    assert!(same_path(&p("/a/b"), &p("/a/b")));
    assert!(!same_path(&p("/a/b"), &p("/a/c")));
    assert!(is_root(&"/".to_string()) && !is_root(&"a".to_string()));
    assert!(is_parent(&"..".to_string()) && !is_parent(&".".to_string()));
    assert!(is_current(&".".to_string()) && !is_current(&"..".to_string()));
}

#[test]
fn display_path_joins_components() {
    assert_eq!(display_path(&p("/t/target/bin")), "/t/target/bin");
    assert_eq!(display_path(&p("../stow/pkg")), "../stow/pkg");
    assert_eq!(display_path(&p("/")), "/");
    assert_eq!(display_path(&Vec::new()), "");
    // Pushing the root starts over, as PathBuf::push does.
    assert_eq!(display_path(&strings(&["a", "/", "b"])), "/b");
}

#[test]
fn link_destination_reads_from_the_link_directory() {
    assert_eq!(link_destination(&p("/t/target/bin"), &p("../stow/pkgA/bin")), p("/t/target/../stow/pkgA/bin"));
    assert_eq!(link_destination(&p("/t/target/bin"), &p("/abs/dir")), strings(&["/", "t", "target", "/", "abs", "dir"]));
    assert_eq!(link_destination(&p("/"), &p("x")), strings(&[".", "x"]));
}

// ---- patterns ----

#[test]
fn builtin_patterns_ignore_vcs_and_backups() {
    let pats = no_patterns();
    for name in [".git", "RCS", "CVS", ".hg", ".svn", "a.orig", "a.rej", "notes~", "#draft#", ".#lock", ".DS_Store"] {
        assert!(pats.should_ignore(&p(&format!("/pkg/{name}"))), "{name} should be ignored");
    }
    for name in [".gitignore", "git", "orig.txt", ".bashrc", "a#b"] {
        assert!(!pats.should_ignore(&p(&format!("/pkg/{name}"))), "{name} should not be ignored");
    }
    assert_eq!(pats.ignore.len(), 11);
    assert!(pats.defer.is_empty() && pats.override_.is_empty());
}

#[test]
fn patterns_match_the_file_name_only() {
    let pats = Patterns::new(&strings(&["^bin$"]), &strings(&["tool"]), &strings(&["^conf"])).unwrap();
    assert!(pats.should_ignore(&p("/pkg/bin")));
    assert!(!pats.should_ignore(&p("/bin/x")));
    assert!(pats.should_defer(&p("/t/target/bin/tool")));
    assert!(pats.should_defer(&p("/t/target/mytools")));
    assert!(!pats.should_defer(&p("/t/target/tool/x")));
    assert!(pats.should_override(&p("/t/target/config")));
    assert!(!pats.should_override(&p("/t/target/.config")));
    // A path without a file name matches as the empty name.
    let empty = Patterns::new(&strings(&["^$"]), &[], &[]).unwrap();
    assert!(empty.should_ignore(&p("/a/..")));
    assert!(!empty.should_ignore(&p("/a/b")));
}

#[test]
fn invalid_patterns_are_rejected() {
    assert!(Patterns::new(&strings(&["("]), &[], &[]).is_err());
    assert!(Patterns::new(&[], &strings(&["[z-a]"]), &[]).is_err());
    assert!(Patterns::new(&[], &[], &strings(&["*"])).is_err());
    assert!(Pattern::new("a(").is_err());
    let ok = Pattern::new("^a.c$").unwrap();
    assert_eq!(ok.as_str(), "^a.c$");
    assert!(ok.is_match("abc"));
    assert!(!ok.is_match("abcd"));
}

#[test]
fn unignored_keeps_order_and_drops_ignored() {
    let pats = Patterns::new(&strings(&["\\.log$"]), &[], &[]).unwrap();
    let kept = pats.unignored(vec![p("/pkg/a"), p("/pkg/.git"), p("/pkg/b.log"), p("/pkg/.git/config"), p("/pkg/c")]);
    assert_eq!(kept, vec![p("/pkg/a"), p("/pkg/.git/config"), p("/pkg/c")]);
}

// ---- conflicts and descriptions ----

#[test]
fn conflict_set_collects_in_order() {
    let mut cs = ConflictSet::default();
    assert!(cs.is_empty());
    cs.add(p("/t/a"), ConflictKind::ExistingFile);
    cs.add(p("/t/b"), ConflictKind::OwnedByOther { owner: p("/t/stow/other/b") });
    assert!(!cs.is_empty());
    assert_eq!(cs.len(), 2);
    assert_eq!(
        cs.describe(),
        "  conflict: /t/a — target already exists and is not a stow symlink\n  conflict: /t/b — target is a symlink owned by a different stowed package\n"
    );
}

#[test]
fn actions_describe_themselves() {
    assert_eq!(
        Action::CreateSymlink { src: p("../stow/pkg/f"), dst: p("/t/target/f") }.describe(),
        "symlink /t/target/f -> ../stow/pkg/f"
    );
    assert_eq!(Action::CreateDir { path: p("/t/x") }.describe(), "mkdir /t/x");
    assert_eq!(Action::RemoveSymlink { path: p("/t/x") }.describe(), "remove symlink /t/x");
    assert_eq!(
        Action::Adopt { path: p("/t/target/f"), into: p("/t/stow/pkg/f") }.describe(),
        "adopt /t/target/f into /t/stow/pkg/f"
    );
    assert_eq!(
        Action::Unfold { dir: p("/t/bin"), existing_link_target: p("../stow/a/bin") }.describe(),
        "unfold /t/bin (was -> ../stow/a/bin)"
    );
}

// ---- planning ----

#[test]
fn stow_links_are_owned_when_inside_the_stow_dir() {
    assert!(is_stow_symlink(&link_to("../stow/a", "/t/stow/a", false), &p("/t/stow")));
    assert!(!is_stow_symlink(&link_to("../elsewhere", "/t/elsewhere", false), &p("/t/stow")));
    assert!(!is_stow_symlink(&regular_file(), &p("/t/stow")));
    let unreadable = TargetFacts { exists: true, is_symlink: true, is_dir: false, link: None };
    assert!(!is_stow_symlink(&unreadable, &p("/t/stow")));
}

#[test]
fn missing_package_is_reported() {
    let mut scan = scan_with("nope", Listing::NotListed);
    scan.found = false;
    let mut cs = ConflictSet::default();
    match plan_stow(scan, &config(Operation::Stow, false, 0), &no_patterns(), &mut cs) {
        Err(StowError::PackageNotFound(name)) => assert_eq!(name, "nope"),
        other => panic!("expected a missing package, got {other:?}"),
    }
    let mut scan = scan_with("nope", Listing::NotListed);
    scan.found = false;
    assert!(matches!(
        plan_unstow(scan, &config(Operation::Unstow, false, 0), &no_patterns()),
        Err(StowError::PackageNotFound(_))
    ));
}

#[test]
fn unreadable_package_fails_stow_but_not_unstow() {
    let mut cs = ConflictSet::default();
    match plan_stow(scan_with("pkg", Listing::Unreadable(io_err())), &config(Operation::Stow, false, 0), &no_patterns(), &mut cs) {
        Err(StowError::Io { path, source }) => {
            assert_eq!(path, p("/t/stow/pkg"));
            assert_eq!(source.kind(), std::io::ErrorKind::PermissionDenied);
        }
        other => panic!("expected an I/O error, got {other:?}"),
    }
    let actions = plan_unstow(scan_with("pkg", Listing::Unreadable(io_err())), &config(Operation::Unstow, false, 0), &no_patterns()).unwrap();
    assert!(actions.is_empty());
}

#[test]
fn a_failed_listing_stops_after_the_entries_read() {
    let listing = Listing::Partial(
        vec![file("a", "/t/stow/pkg/a", missing()), file("b", "/t/stow/pkg/b", regular_file())],
        io_err(),
    );
    let mut cs = ConflictSet::default();
    match plan_stow(scan_with("pkg", listing), &config(Operation::Stow, false, 0), &no_patterns(), &mut cs) {
        Err(StowError::Io { path, .. }) => assert_eq!(path, p("/t/stow/pkg")),
        other => panic!("expected an I/O error, got {other:?}"),
    }
    // The conflicts met before the failure are recorded.
    assert_eq!(cs.len(), 1);
    let listing = Listing::Partial(vec![file("a", "/t/stow/pkg/a", link_to("../stow/pkg/a", "/t/stow/pkg/a", false))], io_err());
    assert!(matches!(
        plan_unstow(scan_with("pkg", listing), &config(Operation::Unstow, false, 0), &no_patterns()),
        Err(StowError::Io { .. })
    ));
}

#[test]
fn other_packages_links_conflict_unless_overridden() {
    let theirs = || link_to("../stow/other/f", "/t/stow/other/f", false);
    let mut cs = ConflictSet::default();
    let actions = plan_stow(
        scan_with("pkg", Listing::Read(vec![file("f", "/t/stow/pkg/f", theirs())])),
        &config(Operation::Stow, false, 0),
        &no_patterns(),
        &mut cs,
    )
    .unwrap();
    assert!(actions.is_empty());
    assert_eq!(cs.conflicts[0].kind, ConflictKind::OwnedByOther { owner: p("/t/stow/other/f") });
    let pats = Patterns::new(&[], &[], &strings(&["^f$"])).unwrap();
    let mut cs = ConflictSet::default();
    let actions = plan_stow(
        scan_with("pkg", Listing::Read(vec![file("f", "/t/stow/pkg/f", theirs())])),
        &config(Operation::Stow, false, 0),
        &pats,
        &mut cs,
    )
    .unwrap();
    assert!(cs.is_empty());
    assert_eq!(
        actions,
        vec![
            Action::RemoveSymlink { path: p("/t/target/f") },
            Action::CreateSymlink { src: p("../stow/pkg/f"), dst: p("/t/target/f") },
        ]
    );
}

#[test]
fn a_directory_in_the_way_conflicts_unless_deferred_or_overridden() {
    let dir_entry = |target: TargetFacts| PackageEntry {
        name: "etc".to_string(),
        is_dir: true,
        is_symlink: false,
        canonical: p("/t/stow/pkg/etc"),
        target,
        folded: vec![],
        listing: Listing::Read(vec![]),
    };
    let mut cs = ConflictSet::default();
    plan_stow(scan_with("pkg", Listing::Read(vec![dir_entry(regular_file())])), &config(Operation::Stow, false, 0), &no_patterns(), &mut cs).unwrap();
    assert_eq!(cs.conflicts[0].target, p("/t/target/etc"));
    let pats = Patterns::new(&[], &strings(&["etc"]), &[]).unwrap();
    let mut cs = ConflictSet::default();
    plan_stow(scan_with("pkg", Listing::Read(vec![dir_entry(regular_file())])), &config(Operation::Stow, false, 0), &pats, &mut cs).unwrap();
    assert!(cs.is_empty());
    // Overridden, the file is replaced by a link to the directory.
    let pats = Patterns::new(&[], &[], &strings(&["etc"])).unwrap();
    let mut cs = ConflictSet::default();
    let actions = plan_stow(scan_with("pkg", Listing::Read(vec![dir_entry(regular_file())])), &config(Operation::Stow, false, 0), &pats, &mut cs).unwrap();
    assert!(cs.is_empty());
    assert_eq!(
        actions,
        vec![
            Action::RemoveSymlink { path: p("/t/target/etc") },
            Action::CreateSymlink { src: p("../stow/pkg/etc"), dst: p("/t/target/etc") },
        ]
    );
    // A stow link to a non-directory in the way of a directory conflicts.
    let mut cs = ConflictSet::default();
    plan_stow(scan_with("pkg", Listing::Read(vec![dir_entry(link_to("../stow/o/etc", "/t/stow/o/etc", false))])), &config(Operation::Stow, false, 0), &no_patterns(), &mut cs).unwrap();
    assert_eq!(cs.len(), 1);
}

// ---- execution steps ----

#[test]
fn symlink_steps_create_a_missing_parent_first() {
    match &symlink_steps(&p("../x"), &p("/t/a/b"), Some(false))[..] {
        [FsStep::CreateDirAll { path }, FsStep::Symlink { src, dst }] => {
            assert_eq!(path, &p("/t/a"));
            assert_eq!(src, &p("../x"));
            assert_eq!(dst, &p("/t/a/b"));
        }
        other => panic!("unexpected steps {other:?}"),
    }
    assert!(matches!(&symlink_steps(&p("../x"), &p("/t/a/b"), Some(true))[..], [FsStep::Symlink { .. }]));
    assert!(matches!(&symlink_steps(&p("x"), &p("/"), None)[..], [FsStep::Symlink { .. }]));
    assert!(matches!(&create_dir_steps(&p("/t/d"))[..], [FsStep::CreateDirAll { .. }]));
}

#[test]
fn adopting_moves_the_file_into_the_package() {
    match &adopt_steps(&p("/t/target/f"), &p("/t/stow/pkg/f"))[..] {
        [FsStep::Rename { from, to }] => {
            assert_eq!(from, &p("/t/target/f"));
            assert_eq!(to, &p("/t/stow/pkg/f"));
        }
        other => panic!("unexpected steps {other:?}"),
    }
}

#[test]
fn remove_steps_touch_only_links_and_files() {
    assert!(matches!(&remove_steps(&p("/t/l"), true, false)[..], [FsStep::RemoveFile { .. }]));
    assert!(matches!(&remove_steps(&p("/t/f"), false, true)[..], [FsStep::RemoveFile { .. }]));
    assert!(remove_steps(&p("/t/d"), false, false).is_empty());
}

#[test]
fn unfolding_a_link_to_a_file_only_makes_the_directory() {
    let steps = unfold_steps(&p("/t/bin"), &p("../stow/a/bin"), FoldedTarget { is_dir: false, entries: vec![], error: None });
    assert_eq!(steps.len(), 2);
    let steps = unfold_steps(&p("/t/bin"), &p("../stow/a/bin"), FoldedTarget { is_dir: true, entries: vec![], error: Some(io_err()) });
    match &steps[..] {
        [FsStep::RemoveFile { .. }, FsStep::CreateDir { .. }, FsStep::Fail { path, .. }] => {
            assert_eq!(path, &p("/t/../stow/a/bin"));
        }
        other => panic!("unexpected steps {other:?}"),
    }
}

// ---- cleanup ----

#[test]
fn cleanup_spares_the_target_and_nonempty_dirs() {
    let target = DirScan {
        path: p("/t/target"),
        contents: Ok(vec![
            DirItem::Subdir(DirScan {
                path: p("/t/target/a"),
                contents: Ok(vec![DirItem::Subdir(DirScan { path: p("/t/target/a/b"), contents: Ok(vec![]) })]),
            }),
            DirItem::Subdir(DirScan { path: p("/t/target/keep"), contents: Ok(vec![DirItem::Other]) }),
        ]),
    };
    let unstowed = vec![p("/t/target/a/b/link"), p("/t/target/keep/link")];
    let steps = cleanup_empty_dirs(Some(target), &p("/t/target"), &unstowed);
    match &steps[..] {
        [CleanupStep::RemoveDir { path: first }, CleanupStep::RemoveDir { path: second }] => {
            assert_eq!(first, &p("/t/target/a/b"));
            assert_eq!(second, &p("/t/target/a"));
        }
        other => panic!("unexpected steps {other:?}"),
    }
    let empty_target = DirScan { path: p("/t/target"), contents: Ok(vec![]) };
    assert!(cleanup_empty_dirs(Some(empty_target), &p("/t/target"), &unstowed).is_empty());
    assert!(cleanup_empty_dirs(None, &p("/t/target"), &unstowed).is_empty());
    let unreadable = DirScan {
        path: p("/t/target"),
        contents: Ok(vec![DirItem::Subdir(DirScan { path: p("/t/target/x"), contents: Err(io_err()) })]),
    };
    match &cleanup_empty_dirs(Some(unreadable), &p("/t/target"), &unstowed)[..] {
        [CleanupStep::Fail { path, .. }] => assert_eq!(path, &p("/t/target/x")),
        other => panic!("unexpected steps {other:?}"),
    }
}

#[test]
fn cleanup_leaves_directories_that_held_no_unstowed_link() {
    // target/mine was empty before; only target/bin held a removed link.
    let target = DirScan {
        path: p("/t/target"),
        contents: Ok(vec![
            DirItem::Subdir(DirScan { path: p("/t/target/mine"), contents: Ok(vec![]) }),
            DirItem::Subdir(DirScan { path: p("/t/target/bin"), contents: Ok(vec![]) }),
        ]),
    };
    let steps = cleanup_empty_dirs(Some(target), &p("/t/target"), &vec![p("/t/target/bin/tool")]);
    match &steps[..] {
        [CleanupStep::RemoveDir { path }] => assert_eq!(path, &p("/t/target/bin")),
        other => panic!("unexpected steps {other:?}"),
    }
    // With nothing unstowed, nothing is removed.
    let target = DirScan {
        path: p("/t/target"),
        contents: Ok(vec![DirItem::Subdir(DirScan { path: p("/t/target/mine"), contents: Ok(vec![]) })]),
    };
    assert!(cleanup_empty_dirs(Some(target), &p("/t/target"), &vec![]).is_empty());
}

// ---- the command line ----

fn cli(stow: bool, delete: bool, restow: bool) -> Cli {
    Cli {
        target: None,
        stow_dir: None,
        stow,
        delete,
        restow,
        dry_run: false,
        adopt: true,
        ignore: vec![],
        defer: vec![],
        override_: vec![],
        verbose: 2,
        packages: strings(&["pkg"]),
    }
}

#[test]
fn cli_operation_precedence() {
    assert_eq!(cli(false, false, false).operation(), Operation::Stow);
    assert_eq!(cli(true, false, false).operation(), Operation::Stow);
    assert_eq!(cli(true, true, false).operation(), Operation::Unstow);
    assert_eq!(cli(false, true, true).operation(), Operation::Restow);
}

#[test]
fn cli_target_defaults_to_the_stow_dir_parent() {
    let c = cli(false, false, false);
    assert_eq!(c.target_dir(&p("/home/u/dotfiles")), Some(p("/home/u")));
    assert_eq!(c.target_dir(&p("/")), None);
    let mut given = cli(false, false, false);
    given.target = Some(p("/opt"));
    assert_eq!(given.target_dir(&p("/home/u/dotfiles")), Some(p("/opt")));
    let cfg = given.config(p("/s"), p("/opt"));
    assert_eq!(cfg.operation, Operation::Stow);
    assert!(cfg.adopt && !cfg.dry_run);
    assert_eq!(cfg.verbose, 2);
    assert_eq!(cfg.target_dir, p("/opt"));
}

// ---- runs ----

#[test]
fn runner_accepts_only_the_awaited_event() {
    let mut runner = Runner::new(config(Operation::Unstow, false, 0), strings(&["pkg"]));
    assert!(runner.accepts(&Event::Start));
    assert!(!runner.accepts(&Event::Completed(Ok(()))));
    let (_, c) = runner.step(Event::Start, &no_patterns());
    assert!(matches!(c, Command::Scan(_)));
    assert!(!runner.accepts(&Event::Start));
    assert!(runner.accepts(&Event::Scanned(scan_with("pkg", Listing::Read(vec![])))));
    assert!(!runner.is_done());
}

#[test]
fn an_empty_run_finishes_at_once() {
    for op in [Operation::Stow, Operation::Unstow, Operation::Restow] {
        let mut runner = Runner::new(config(op, true, 0), vec![]);
        let (out, c) = runner.step(Event::Start, &no_patterns());
        assert!(out.is_empty());
        assert!(matches!(c, Command::Finish(Ok(()))));
    }
}

#[test]
fn verbose_runs_report_planned_actions() {
    let pats = no_patterns();
    let mut runner = Runner::new(config(Operation::Unstow, false, 2), strings(&["pkg"]));
    runner.step(Event::Start, &pats);
    let pkg = scan_with("pkg", Listing::Read(vec![file("f", "/t/stow/pkg/f", link_to("../stow/pkg/f", "/t/stow/pkg/f", false))]));
    let (out, c) = runner.step(Event::Scanned(pkg), &pats);
    assert_eq!(out, vec![Output { to_stderr: true, line: "[bestow] planned: remove symlink /t/target/f".to_string() }]);
    assert!(matches!(c, Command::Execute(_)));
}

#[test]
fn dry_run_restow_reports_both_halves_without_executing() {
    let pats = no_patterns();
    let mut runner = Runner::new(config(Operation::Restow, true, 0), strings(&["pkg"]));
    let (_, c) = runner.step(Event::Start, &pats);
    assert!(matches!(c, Command::Scan(_)));
    let own = || link_to("../stow/pkg/f", "/t/stow/pkg/f", false);
    let (out, c) = runner.step(Event::Scanned(scan_with("pkg", Listing::Read(vec![file("f", "/t/stow/pkg/f", own())]))), &pats);
    assert_eq!(out, vec![Output { to_stderr: false, line: "[dry-run] remove symlink /t/target/f".to_string() }]);
    assert!(matches!(c, Command::Scan(_)));
    // The stow half still sees the link: nothing to do.
    let (out, c) = runner.step(Event::Scanned(scan_with("pkg", Listing::Read(vec![file("f", "/t/stow/pkg/f", own())]))), &pats);
    assert!(out.is_empty());
    assert!(matches!(c, Command::Finish(Ok(()))));
}

#[test]
fn dry_run_stow_collects_conflicts_of_all_packages() {
    let pats = no_patterns();
    let mut runner = Runner::new(config(Operation::Stow, true, 0), strings(&["a", "b"]));
    runner.step(Event::Start, &pats);
    let (_, c) = runner.step(Event::Scanned(scan_with("a", Listing::Read(vec![file("x", "/t/stow/a/x", regular_file())]))), &pats);
    assert!(matches!(c, Command::Scan(ref n) if n == "b"));
    let (_, c) = runner.step(Event::Scanned(scan_with("b", Listing::Read(vec![file("y", "/t/stow/b/y", regular_file())]))), &pats);
    match c {
        Command::Finish(Err(StowError::Conflicts(cs))) => {
            assert_eq!(cs.conflicts.iter().map(|c| c.target.clone()).collect::<Vec<_>>(), vec![p("/t/target/x"), p("/t/target/y")]);
        }
        other => panic!("expected conflicts, got {other:?}"),
    }
}

#[test]
fn failures_end_the_run() {
    let pats = no_patterns();
    let mut runner = Runner::new(config(Operation::Stow, false, 0), strings(&["pkg", "other"]));
    runner.step(Event::Start, &pats);
    let (_, c) = runner.step(Event::Scanned(scan_with("pkg", Listing::Read(vec![]))), &pats);
    assert!(matches!(c, Command::Execute(_)));
    let (_, c) = runner.step(Event::Completed(Err(StowError::Io { path: p("/t/target/x"), source: io_err() })), &pats);
    match c {
        Command::Finish(Err(StowError::Io { path, .. })) => assert_eq!(path, p("/t/target/x")),
        other => panic!("expected the failure, got {other:?}"),
    }
    assert!(runner.is_done());
}

#[test]
fn unstow_failure_in_cleanup_ends_the_run() {
    let pats = no_patterns();
    let mut runner = Runner::new(config(Operation::Restow, false, 0), strings(&["pkg"]));
    runner.step(Event::Start, &pats);
    let (_, c) = runner.step(Event::Scanned(scan_with("pkg", Listing::Read(vec![]))), &pats);
    assert!(matches!(c, Command::Execute(ref a) if a.is_empty()));
    let (_, c) = runner.step(Event::Completed(Ok(())), &pats);
    assert!(matches!(c, Command::Cleanup(ref links) if links.is_empty()));
    let (_, c) = runner.step(Event::Completed(Err(StowError::PackageNotFound("x".to_string()))), &pats);
    assert!(matches!(c, Command::Finish(Err(StowError::PackageNotFound(_)))));
}

#[test]
fn planned_results_drive_the_run() {
    let pats = no_patterns();
    let mut runner = Runner::new(config(Operation::Stow, false, 0), strings(&["pkg"]));
    runner.step(Event::Start, &pats);
    let mut found = ConflictSet::default();
    found.add(p("/t/target/x"), ConflictKind::ExistingFile);
    let (_, c) = runner.planned_stow(Ok(vec![Action::CreateDir { path: p("/t/x") }]), found);
    assert!(matches!(c, Command::Finish(Err(StowError::Conflicts(ref cs))) if cs.len() == 1));
    let mut runner = Runner::new(config(Operation::Unstow, false, 0), strings(&["pkg"]));
    runner.step(Event::Start, &pats);
    let (_, c) = runner.planned_unstow(Ok(vec![Action::RemoveSymlink { path: p("/t/x") }]));
    match c {
        Command::Execute(a) => assert_eq!(a, vec![Action::RemoveSymlink { path: p("/t/x") }]),
        other => panic!("expected actions, got {other:?}"),
    }
}

#[test]
fn decisions_follow_the_target() {
    let stow = p("/t/stow");
    let src = p("/t/stow/pkg/f");
    let own = link_to("../stow/pkg/f", "/t/stow/pkg/f", false);
    let other = link_to("../stow/o/f", "/t/stow/o/f", false);
    let foreign = link_to("../elsewhere/f", "/t/elsewhere/f", false);
    assert_eq!(decide_stow(false, &missing(), &src, false, false, false, &stow), StowDecision::Link);
    assert_eq!(decide_stow(false, &own, &src, false, false, false, &stow), StowDecision::Skip);
    assert_eq!(decide_stow(false, &other, &src, false, false, false, &stow), StowDecision::OwnedByOther);
    assert_eq!(decide_stow(false, &other, &src, false, true, false, &stow), StowDecision::Skip);
    assert_eq!(decide_stow(false, &other, &src, true, false, false, &stow), StowDecision::OwnedByOther);
    assert_eq!(decide_stow(false, &foreign, &src, true, true, false, &stow), StowDecision::Replace);
    assert_eq!(decide_stow(false, &foreign, &src, false, false, true, &stow), StowDecision::Replace);
    assert_eq!(decide_stow(false, &regular_file(), &src, true, true, false, &stow), StowDecision::Skip);
    assert_eq!(decide_stow(false, &regular_file(), &src, false, false, false, &stow), StowDecision::InTheWay);
    assert_eq!(decide_stow(false, &regular_file(), &src, true, false, true, &stow), StowDecision::Adopt);
    let real_dir = TargetFacts { exists: true, is_symlink: false, is_dir: true, link: None };
    assert_eq!(decide_stow(true, &real_dir, &src, false, false, false, &stow), StowDecision::Descend);
    let folded = link_to("../stow/o/d", "/t/stow/o/d", true);
    assert_eq!(decide_stow(true, &folded, &src, false, false, false, &stow), StowDecision::Unfold);
    assert_eq!(decide_stow(true, &regular_file(), &src, false, false, true, &stow), StowDecision::Replace);
    assert_eq!(decide_stow(true, &regular_file(), &src, false, true, true, &stow), StowDecision::Skip);
    assert_eq!(decide_unstow(false, &own, &src, &stow), UnstowDecision::Remove);
    assert_eq!(decide_unstow(false, &other, &src, &stow), UnstowDecision::Skip);
    assert_eq!(decide_unstow(true, &real_dir, &src, &stow), UnstowDecision::Descend);
    assert_eq!(decide_unstow(false, &real_dir, &src, &stow), UnstowDecision::Skip);
}

#[test]
fn what_stowing_links_unstowing_removes() {
    let cfg = config(Operation::Stow, false, 0);
    let mut cs = ConflictSet::default();
    let fresh = scan_with("pkg", Listing::Read(vec![file("f", "/t/stow/pkg/f", missing())]));
    let made = plan_stow(fresh, &cfg, &no_patterns(), &mut cs).unwrap();
    assert_eq!(made, vec![Action::CreateSymlink { src: p("../stow/pkg/f"), dst: p("/t/target/f") }]);
    // The same package, once the link is in place.
    let linked = || link_to("../stow/pkg/f", "/t/stow/pkg/f", false);
    let again = scan_with("pkg", Listing::Read(vec![file("f", "/t/stow/pkg/f", linked())]));
    assert!(plan_stow(again, &cfg, &no_patterns(), &mut cs).unwrap().is_empty());
    assert!(cs.is_empty());
    let stowed = scan_with("pkg", Listing::Read(vec![file("f", "/t/stow/pkg/f", linked())]));
    assert_eq!(
        plan_unstow(stowed, &cfg, &no_patterns()).unwrap(),
        vec![Action::RemoveSymlink { path: p("/t/target/f") }]
    );
}

#[test]
fn an_overridden_file_is_replaced_by_the_link() {
    let pats = Patterns::new(&[], &[], &strings(&["rc$"])).unwrap();
    let mut cs = ConflictSet::default();
    let actions = plan_stow(
        scan_with("pkg", Listing::Read(vec![file(".bashrc", "/t/stow/pkg/.bashrc", regular_file())])),
        &config(Operation::Stow, false, 0),
        &pats,
        &mut cs,
    )
    .unwrap();
    assert!(cs.is_empty());
    assert_eq!(
        actions,
        vec![
            Action::RemoveSymlink { path: p("/t/target/.bashrc") },
            Action::CreateSymlink { src: p("../stow/pkg/.bashrc"), dst: p("/t/target/.bashrc") },
        ]
    );
}

#[test]
fn nested_folded_directories_unfold_in_turn() {
    // pkgA (bin/sub/x) is folded at target/bin; pkgB has bin/sub/y and
    // bin/sub/x. Seen through pkgA's link, target/bin/sub looks like a real
    // directory and target/bin/sub/x like a plain file.
    let real_dir = TargetFacts { exists: true, is_symlink: false, is_dir: true, link: None };
    let sub = PackageEntry {
        name: "sub".to_string(),
        is_dir: true,
        is_symlink: false,
        canonical: p("/t/stow/pkgB/bin/sub"),
        target: real_dir,
        folded: vec![],
        listing: Listing::Read(vec![
            file("y", "/t/stow/pkgB/bin/sub/y", missing()),
            file("x", "/t/stow/pkgB/bin/sub/x", regular_file()),
        ]),
    };
    let bin = PackageEntry {
        name: "bin".to_string(),
        is_dir: true,
        is_symlink: false,
        canonical: p("/t/stow/pkgB/bin"),
        target: link_to("../stow/pkgA/bin", "/t/stow/pkgA/bin", true),
        folded: vec![FoldedItem {
            name: "sub".to_string(),
            canonical: p("/t/stow/pkgA/bin/sub"),
            exists: true,
            is_dir: true,
            entries: vec![FoldedItem {
                name: "x".to_string(),
                canonical: p("/t/stow/pkgA/bin/sub/x"),
                exists: true,
                is_dir: false,
                entries: vec![],
            }],
        }],
        listing: Listing::Read(vec![sub]),
    };
    let mut cs = ConflictSet::default();
    let actions = plan_stow(
        scan_with("pkgB", Listing::Read(vec![bin])),
        &config(Operation::Stow, false, 0),
        &no_patterns(),
        &mut cs,
    )
    .unwrap();
    // Both levels are unfolded before y is linked; x meets pkgA's link.
    assert_eq!(
        actions,
        vec![
            Action::Unfold { dir: p("/t/target/bin"), existing_link_target: p("../stow/pkgA/bin") },
            Action::Unfold {
                dir: p("/t/target/bin/sub"),
                existing_link_target: p("../../stow/pkgA/bin/sub"),
            },
            Action::CreateSymlink {
                src: p("../../../stow/pkgB/bin/sub/y"),
                dst: p("/t/target/bin/sub/y"),
            },
        ]
    );
    assert_eq!(cs.len(), 1);
    assert_eq!(cs.conflicts[0].target, p("/t/target/bin/sub/x"));
    assert_eq!(
        cs.conflicts[0].kind,
        ConflictKind::OwnedByOther { owner: p("/t/stow/pkgA/bin/sub/x") }
    );
}

#[test]
fn executed_actions_are_reported_from_verbosity_one() {
    let a = Action::CreateDir { path: p("/t/x") };
    assert_eq!(executed_line(&a, 0), None);
    assert_eq!(executed_line(&a, 1), Some("[bestow] mkdir /t/x".to_string()));
    assert_eq!(executed_line(&a, 2), Some("[bestow] mkdir /t/x".to_string()));
}

#[test]
fn a_conflict_set_is_empty_until_a_conflict_is_added() {
    let mut cs = ConflictSet::default();
    assert!(cs.is_empty());
    assert!(cs.is_empty());
    for n in 1..=3 {
        cs.add(p(&format!("/t/target/f{n}")), ConflictKind::ExistingFile);
        assert!(!cs.is_empty());
        assert_eq!(cs.len(), n);
    }
    assert_eq!(cs.conflicts[2].target, p("/t/target/f3"));
}

#[test]
fn a_stowed_package_plans_nothing_and_unstows_its_links_at_every_depth() {
    let real_dir = || TargetFacts { exists: true, is_symlink: false, is_dir: true, link: None };
    let bin = || PackageEntry {
        name: "bin".to_string(),
        is_dir: true,
        is_symlink: false,
        canonical: p("/t/stow/pkg/bin"),
        target: real_dir(),
        folded: vec![],
        listing: Listing::Read(vec![file(
            "f",
            "/t/stow/pkg/bin/f",
            link_to("../../stow/pkg/bin/f", "/t/stow/pkg/bin/f", false),
        )]),
    };
    let top = || file("g", "/t/stow/pkg/g", link_to("../stow/pkg/g", "/t/stow/pkg/g", false));
    let cfg = config(Operation::Stow, false, 0);
    let mut cs = ConflictSet::default();
    let again = plan_stow(scan_with("pkg", Listing::Read(vec![bin(), top()])), &cfg, &no_patterns(), &mut cs);
    assert!(again.unwrap().is_empty());
    assert!(cs.is_empty());
    let removed = plan_unstow(scan_with("pkg", Listing::Read(vec![bin(), top()])), &cfg, &no_patterns());
    assert_eq!(
        removed.unwrap(),
        vec![
            Action::RemoveSymlink { path: p("/t/target/bin/f") },
            Action::RemoveSymlink { path: p("/t/target/g") },
        ]
    );
}
