use bestow::conflict::{Conflict, ConflictKind};
use bestow::ignore::Patterns;
use bestow::runner::{Command, Event, Runner};
use bestow::scan::{FoldedItem, LinkInfo, Listing, PackageEntry, PackageScan, TargetFacts};
use bestow::stow::Action;
use bestow::{Config, Operation, StowError};

fn p(s: &str) -> Vec<String> {
    let mut v = Vec::new();
    if s.starts_with('/') {
        v.push("/".to_string());
    }
    for part in s.split('/') {
        if !part.is_empty() {
            v.push(part.to_string());
        }
    }
    v
}

fn missing() -> TargetFacts {
    TargetFacts { exists: false, is_symlink: false, is_dir: false, link: None }
}

fn stow_link(content: &str, resolved: &str, is_dir: bool) -> TargetFacts {
    TargetFacts {
        exists: true,
        is_symlink: true,
        is_dir,
        link: Some(LinkInfo { target: p(content), resolved: p(resolved), target_is_dir: is_dir }),
    }
}

fn file(name: &str, canonical: &str, target: TargetFacts) -> PackageEntry {
    PackageEntry {
        name: name.to_string(),
        is_dir: false,
        is_symlink: false,
        canonical: p(canonical),
        target,
        folded: vec![],
        listing: Listing::NotListed,
    }
}

fn dir(name: &str, canonical: &str, target: TargetFacts, children: Vec<PackageEntry>) -> PackageEntry {
    PackageEntry {
        name: name.to_string(),
        is_dir: true,
        is_symlink: false,
        canonical: p(canonical),
        target,
        folded: vec![],
        listing: Listing::Read(children),
    }
}

fn scan(name: &str, entries: Vec<PackageEntry>) -> PackageScan {
    PackageScan {
        name: name.to_string(),
        found: true,
        package_dir: p(&format!("/t/stow/{name}")),
        target_dir: p("/t/target"),
        stow_dir: p("/t/stow"),
        listing: Listing::Read(entries),
    }
}

fn config(operation: Operation, dry_run: bool) -> Config {
    Config {
        stow_dir: p("/t/stow"),
        target_dir: p("/t/target"),
        operation,
        dry_run,
        adopt: false,
        verbose: 0,
    }
}

fn empty_patterns() -> Patterns {
    Patterns::new(&[], &[], &[]).unwrap()
}

fn expect_scan(c: Command, name: &str) {
    match c {
        Command::Scan(n) => assert_eq!(n, name),
        other => panic!("expected a scan of {name}, got {other:?}"),
    }
}

fn expect_execute(c: Command) -> Vec<Action> {
    match c {
        Command::Execute(a) => a,
        other => panic!("expected actions, got {other:?}"),
    }
}

fn regular_file() -> TargetFacts {
    TargetFacts { exists: true, is_symlink: false, is_dir: false, link: None }
}

#[test]
fn test_conflict_existing_file() {
    let patterns = empty_patterns();
    let mut runner = Runner::new(config(Operation::Stow, false), vec!["pkg".to_string()]);
    let (_, c) = runner.step(Event::Start, &patterns);
    expect_scan(c, "pkg");
    let pkg = scan("pkg", vec![file("file.txt", "/t/stow/pkg/file.txt", regular_file())]);
    let (_, c) = runner.step(Event::Scanned(pkg), &patterns);
    // The run ends on the conflict: nothing is executed, the file stays.
    match c {
        Command::Finish(Err(StowError::Conflicts(cs))) => {
            assert_eq!(
                cs.conflicts,
                vec![Conflict { target: p("/t/target/file.txt"), kind: ConflictKind::ExistingFile }]
            );
        }
        other => panic!("should report conflict, got {other:?}"),
    }
    assert!(runner.is_done());
}

#[test]
fn test_adopt_resolves_conflict() {
    let patterns = empty_patterns();
    let mut cfg = config(Operation::Stow, false);
    cfg.adopt = true;
    let mut runner = Runner::new(cfg, vec!["pkg".to_string()]);
    let (_, c) = runner.step(Event::Start, &patterns);
    expect_scan(c, "pkg");
    let pkg = scan("pkg", vec![file("file.txt", "/t/stow/pkg/file.txt", regular_file())]);
    let (_, c) = runner.step(Event::Scanned(pkg), &patterns);
    // The file is moved into the package, then replaced by a symlink.
    assert_eq!(
        expect_execute(c),
        vec![
            Action::Adopt { path: p("/t/target/file.txt"), into: p("/t/stow/pkg/file.txt") },
            Action::CreateSymlink { src: p("../stow/pkg/file.txt"), dst: p("/t/target/file.txt") },
        ]
    );
}

#[test]
fn test_conflict_multiple_reported_at_once() {
    let patterns = empty_patterns();
    let mut runner = Runner::new(config(Operation::Stow, false), vec!["pkg".to_string()]);
    let (_, c) = runner.step(Event::Start, &patterns);
    expect_scan(c, "pkg");
    let pkg = scan(
        "pkg",
        vec![
            file("a.txt", "/t/stow/pkg/a.txt", regular_file()),
            file("b.txt", "/t/stow/pkg/b.txt", regular_file()),
        ],
    );
    let (_, c) = runner.step(Event::Scanned(pkg), &patterns);
    match c {
        Command::Finish(Err(StowError::Conflicts(cs))) => {
            assert!(cs.conflicts.len() >= 2, "should report both conflicts");
            assert_eq!(cs.conflicts.len(), 2);
        }
        other => panic!("expected conflicts, got: {:?}", other),
    }
}

#[test]
fn test_defer_skips_conflict() {
    // pkgA's bin is folded at target/bin; pkgB also has bin/tool, and its
    // target (seen through pkgA's folded directory) is pkgA's tool.
    let patterns = Patterns::new(&[], &["tool".to_string()], &[]).unwrap();
    let mut runner = Runner::new(config(Operation::Stow, false), vec!["pkgB".to_string()]);
    let (_, c) = runner.step(Event::Start, &patterns);
    expect_scan(c, "pkgB");
    let mut bin = dir(
        "bin",
        "/t/stow/pkgB/bin",
        stow_link("../stow/pkgA/bin", "/t/stow/pkgA/bin", true),
        vec![file("tool", "/t/stow/pkgB/bin/tool", regular_file())],
    );
    // Unfolding target/bin links pkgA's tool there.
    bin.folded = vec![FoldedItem {
        name: "tool".to_string(),
        canonical: p("/t/stow/pkgA/bin/tool"),
        exists: true,
        is_dir: false,
        entries: vec![],
    }];
    let pkg = scan("pkgB", vec![bin]);
    let (_, c) = runner.step(Event::Scanned(pkg), &patterns);
    // Should not error due to defer.
    assert_eq!(
        expect_execute(c),
        vec![Action::Unfold { dir: p("/t/target/bin"), existing_link_target: p("../stow/pkgA/bin") }]
    );
}
