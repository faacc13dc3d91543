use bestow::execute::{unfold_steps, FoldedEntry, FoldedTarget, FsStep};
use bestow::ignore::Patterns;
use bestow::runner::{Command, Event, Output, Runner};
use bestow::scan::{FoldedItem, LinkInfo, Listing, PackageEntry, PackageScan, TargetFacts};
use bestow::stow::Action;
use bestow::{Config, Operation};

fn p(s: &str) -> Vec<String> {
    let mut v = Vec::new();
    if s.starts_with('/') {
        v.push("/".to_string());
    }
    for part in s.split('/') {
        if !part.is_empty() {
            v.push(part.to_string());
        }
    }
    v
}

fn missing() -> TargetFacts {
    TargetFacts { exists: false, is_symlink: false, is_dir: false, link: None }
}

fn stow_link(content: &str, resolved: &str, is_dir: bool) -> TargetFacts {
    TargetFacts {
        exists: true,
        is_symlink: true,
        is_dir,
        link: Some(LinkInfo { target: p(content), resolved: p(resolved), target_is_dir: is_dir }),
    }
}

fn file(name: &str, canonical: &str, target: TargetFacts) -> PackageEntry {
    PackageEntry {
        name: name.to_string(),
        is_dir: false,
        is_symlink: false,
        canonical: p(canonical),
        target,
        folded: vec![],
        listing: Listing::NotListed,
    }
}

fn dir(name: &str, canonical: &str, target: TargetFacts, children: Vec<PackageEntry>) -> PackageEntry {
    PackageEntry {
        name: name.to_string(),
        is_dir: true,
        is_symlink: false,
        canonical: p(canonical),
        target,
        folded: vec![],
        listing: Listing::Read(children),
    }
}

fn scan(name: &str, entries: Vec<PackageEntry>) -> PackageScan {
    PackageScan {
        name: name.to_string(),
        found: true,
        package_dir: p(&format!("/t/stow/{name}")),
        target_dir: p("/t/target"),
        stow_dir: p("/t/stow"),
        listing: Listing::Read(entries),
    }
}

fn config(operation: Operation, dry_run: bool) -> Config {
    Config {
        stow_dir: p("/t/stow"),
        target_dir: p("/t/target"),
        operation,
        dry_run,
        adopt: false,
        verbose: 0,
    }
}

fn empty_patterns() -> Patterns {
    Patterns::new(&[], &[], &[]).unwrap()
}

fn expect_scan(c: Command, name: &str) {
    match c {
        Command::Scan(n) => assert_eq!(n, name),
        other => panic!("expected a scan of {name}, got {other:?}"),
    }
}

fn expect_execute(c: Command) -> Vec<Action> {
    match c {
        Command::Execute(a) => a,
        other => panic!("expected actions, got {other:?}"),
    }
}

fn link(src: &str, dst: &str) -> Action {
    Action::CreateSymlink { src: p(src), dst: p(dst) }
}

#[test]
fn test_basic_stow_single_package() {
    let patterns = empty_patterns();
    let mut runner = Runner::new(config(Operation::Stow, false), vec!["pkg".to_string()]);
    let (_, c) = runner.step(Event::Start, &patterns);
    expect_scan(c, "pkg");
    let pkg = scan(
        "pkg",
        vec![
            dir("bin", "/t/stow/pkg/bin", missing(), vec![file("hello", "/t/stow/pkg/bin/hello", missing())]),
            file(".bashrc", "/t/stow/pkg/.bashrc", missing()),
        ],
    );
    let (_, c) = runner.step(Event::Scanned(pkg), &patterns);
    let actions = expect_execute(c);
    // bin is folded into one directory symlink; .bashrc is linked.
    assert_eq!(
        actions,
        vec![link("../stow/pkg/bin", "/t/target/bin"), link("../stow/pkg/.bashrc", "/t/target/.bashrc")]
    );
    let (_, c) = runner.step(Event::Completed(Ok(())), &patterns);
    assert!(matches!(c, Command::Finish(Ok(()))));
    assert!(runner.is_done());
}

#[test]
fn test_stow_creates_relative_symlinks() {
    let patterns = empty_patterns();
    let mut conflicts = Default::default();
    let pkg = scan("pkg", vec![file("file.txt", "/t/stow/pkg/file.txt", missing())]);
    let actions =
        bestow::stow::plan_stow(pkg, &config(Operation::Stow, false), &patterns, &mut conflicts).unwrap();
    match &actions[..] {
        [Action::CreateSymlink { src, dst }] => {
            assert_eq!(dst, &p("/t/target/file.txt"));
            assert_eq!(src, &p("../stow/pkg/file.txt"));
            assert_ne!(src[0], "/", "symlink should be relative");
        }
        other => panic!("expected one symlink, got {other:?}"),
    }
}

#[test]
fn test_stow_multiple_packages_tree_unfolding() {
    let patterns = empty_patterns();
    let mut runner = Runner::new(
        config(Operation::Stow, false),
        vec!["pkgA".to_string(), "pkgB".to_string()],
    );
    let (_, c) = runner.step(Event::Start, &patterns);
    expect_scan(c, "pkgA");
    let a = scan(
        "pkgA",
        vec![dir("bin", "/t/stow/pkgA/bin", missing(), vec![file("foo", "/t/stow/pkgA/bin/foo", missing())])],
    );
    let (_, c) = runner.step(Event::Scanned(a), &patterns);
    assert_eq!(expect_execute(c), vec![link("../stow/pkgA/bin", "/t/target/bin")]);
    let (_, c) = runner.step(Event::Completed(Ok(())), &patterns);
    expect_scan(c, "pkgB");
    // Now target/bin is pkgA's folded directory.
    let mut bin = dir(
        "bin",
        "/t/stow/pkgB/bin",
        stow_link("../stow/pkgA/bin", "/t/stow/pkgA/bin", true),
        vec![file("bar", "/t/stow/pkgB/bin/bar", missing())],
    );
    bin.folded = vec![FoldedItem {
        name: "foo".to_string(),
        canonical: p("/t/stow/pkgA/bin/foo"),
        exists: true,
        is_dir: false,
        entries: vec![],
    }];
    let b = scan("pkgB", vec![bin]);
    let (_, c) = runner.step(Event::Scanned(b), &patterns);
    let actions = expect_execute(c);
    assert_eq!(
        actions,
        vec![
            Action::Unfold { dir: p("/t/target/bin"), existing_link_target: p("../stow/pkgA/bin") },
            link("../../stow/pkgB/bin/bar", "/t/target/bin/bar"),
        ]
    );
    // Unfolding makes bin a real directory and re-links pkgA's entries.
    let steps = unfold_steps(
        &p("/t/target/bin"),
        &p("../stow/pkgA/bin"),
        FoldedTarget {
            is_dir: true,
            entries: vec![FoldedEntry { name: "foo".to_string(), canonical: p("/t/stow/pkgA/bin/foo") }],
            error: None,
        },
    );
    match &steps[..] {
        [FsStep::RemoveFile { path: r }, FsStep::CreateDir { path: d }, FsStep::Symlink { src, dst }] => {
            assert_eq!(r, &p("/t/target/bin"));
            assert_eq!(d, &p("/t/target/bin"));
            assert_eq!(src, &p("../../stow/pkgA/bin/foo"));
            assert_eq!(dst, &p("/t/target/bin/foo"));
        }
        other => panic!("unexpected steps {other:?}"),
    }
    let (_, c) = runner.step(Event::Completed(Ok(())), &patterns);
    assert!(matches!(c, Command::Finish(Ok(()))));
}

#[test]
fn test_idempotent_restow() {
    let patterns = empty_patterns();
    let mut runner = Runner::new(config(Operation::Stow, false), vec!["pkg".to_string()]);
    let (_, c) = runner.step(Event::Start, &patterns);
    expect_scan(c, "pkg");
    // Stowed already: the target is pkg's own link.
    let pkg = scan(
        "pkg",
        vec![file(
            "file.txt",
            "/t/stow/pkg/file.txt",
            stow_link("../stow/pkg/file.txt", "/t/stow/pkg/file.txt", false),
        )],
    );
    let (_, c) = runner.step(Event::Scanned(pkg), &patterns);
    assert_eq!(expect_execute(c), vec![]);
    let (_, c) = runner.step(Event::Completed(Ok(())), &patterns);
    assert!(matches!(c, Command::Finish(Ok(()))));
}

#[test]
fn test_dry_run_no_changes() {
    let patterns = empty_patterns();
    let mut runner = Runner::new(config(Operation::Stow, true), vec!["pkg".to_string()]);
    let (_, c) = runner.step(Event::Start, &patterns);
    expect_scan(c, "pkg");
    let pkg = scan("pkg", vec![file("file.txt", "/t/stow/pkg/file.txt", missing())]);
    let (out, c) = runner.step(Event::Scanned(pkg), &patterns);
    // Nothing is executed; the plan is only reported.
    assert!(matches!(c, Command::Finish(Ok(()))));
    assert_eq!(
        out,
        vec![Output {
            to_stderr: false,
            line: "[dry-run] symlink /t/target/file.txt -> ../stow/pkg/file.txt".to_string()
        }]
    );
}

#[test]
fn test_ignore_pattern() {
    let patterns = Patterns::new(&["log$".to_string()], &[], &[]).unwrap();
    let mut conflicts = Default::default();
    let pkg = scan(
        "pkg",
        vec![
            file("keep.txt", "/t/stow/pkg/keep.txt", missing()),
            file("skip.log", "/t/stow/pkg/skip.log", missing()),
        ],
    );
    let actions =
        bestow::stow::plan_stow(pkg, &config(Operation::Stow, false), &patterns, &mut conflicts).unwrap();
    assert_eq!(actions, vec![link("../stow/pkg/keep.txt", "/t/target/keep.txt")]);
}
