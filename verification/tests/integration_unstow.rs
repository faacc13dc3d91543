use bestow::cleanup::{cleanup_empty_dirs, CleanupStep, DirItem, DirScan};
use bestow::ignore::Patterns;
use bestow::runner::{Command, Event, Runner};
use bestow::scan::{LinkInfo, Listing, PackageEntry, PackageScan, TargetFacts};
use bestow::stow::{plan_unstow, Action};
use bestow::{Config, Operation};

fn p(s: &str) -> Vec<String> {
    let mut v = Vec::new();
    if s.starts_with('/') {
        v.push("/".to_string());
    }
    for part in s.split('/') {
        if !part.is_empty() {
            v.push(part.to_string());
        }
    }
    v
}

fn missing() -> TargetFacts {
    TargetFacts { exists: false, is_symlink: false, is_dir: false, link: None }
}

fn stow_link(content: &str, resolved: &str, is_dir: bool) -> TargetFacts {
    TargetFacts {
        exists: true,
        is_symlink: true,
        is_dir,
        link: Some(LinkInfo { target: p(content), resolved: p(resolved), target_is_dir: is_dir }),
    }
}

fn file(name: &str, canonical: &str, target: TargetFacts) -> PackageEntry {
    PackageEntry {
        name: name.to_string(),
        is_dir: false,
        is_symlink: false,
        canonical: p(canonical),
        target,
        folded: vec![],
        listing: Listing::NotListed,
    }
}

fn dir(name: &str, canonical: &str, target: TargetFacts, children: Vec<PackageEntry>) -> PackageEntry {
    PackageEntry {
        name: name.to_string(),
        is_dir: true,
        is_symlink: false,
        canonical: p(canonical),
        target,
        folded: vec![],
        listing: Listing::Read(children),
    }
}

fn scan(name: &str, entries: Vec<PackageEntry>) -> PackageScan {
    PackageScan {
        name: name.to_string(),
        found: true,
        package_dir: p(&format!("/t/stow/{name}")),
        target_dir: p("/t/target"),
        stow_dir: p("/t/stow"),
        listing: Listing::Read(entries),
    }
}

fn config(operation: Operation, dry_run: bool) -> Config {
    Config {
        stow_dir: p("/t/stow"),
        target_dir: p("/t/target"),
        operation,
        dry_run,
        adopt: false,
        verbose: 0,
    }
}

fn empty_patterns() -> Patterns {
    Patterns::new(&[], &[], &[]).unwrap()
}

fn expect_scan(c: Command, name: &str) {
    match c {
        Command::Scan(n) => assert_eq!(n, name),
        other => panic!("expected a scan of {name}, got {other:?}"),
    }
}

fn expect_execute(c: Command) -> Vec<Action> {
    match c {
        Command::Execute(a) => a,
        other => panic!("expected actions, got {other:?}"),
    }
}

fn real_dir() -> TargetFacts {
    TargetFacts { exists: true, is_symlink: false, is_dir: true, link: None }
}

#[test]
fn test_basic_unstow() {
    let patterns = empty_patterns();
    let mut runner = Runner::new(config(Operation::Unstow, false), vec!["pkg".to_string()]);
    let (_, c) = runner.step(Event::Start, &patterns);
    expect_scan(c, "pkg");
    let pkg = scan(
        "pkg",
        vec![file(
            "file.txt",
            "/t/stow/pkg/file.txt",
            stow_link("../stow/pkg/file.txt", "/t/stow/pkg/file.txt", false),
        )],
    );
    let (_, c) = runner.step(Event::Scanned(pkg), &patterns);
    assert_eq!(
        expect_execute(c),
        vec![Action::RemoveSymlink { path: p("/t/target/file.txt") }]
    );
    let (_, c) = runner.step(Event::Completed(Ok(())), &patterns);
    match c {
        Command::Cleanup(links) => assert_eq!(links, vec![p("/t/target/file.txt")]),
        other => panic!("expected the cleanup, got {other:?}"),
    }
    let (_, c) = runner.step(Event::Completed(Ok(())), &patterns);
    assert!(matches!(c, Command::Finish(Ok(()))));
}

#[test]
fn test_unstow_cleans_empty_dirs() {
    // After removing the links of pkgA and pkgB, target/bin is empty.
    let target = DirScan {
        path: p("/t/target"),
        contents: Ok(vec![DirItem::Subdir(DirScan { path: p("/t/target/bin"), contents: Ok(vec![]) })]),
    };
    let unstowed = vec![p("/t/target/bin/foo"), p("/t/target/bin/bar")];
    let steps = cleanup_empty_dirs(Some(target), &p("/t/target"), &unstowed);
    match &steps[..] {
        [CleanupStep::RemoveDir { path }] => assert_eq!(path, &p("/t/target/bin")),
        other => panic!("empty bin dir should be removed, got {other:?}"),
    }
}

#[test]
fn test_restow_after_adding_file() {
    let patterns = empty_patterns();
    let mut runner = Runner::new(config(Operation::Restow, false), vec!["pkg".to_string()]);
    let (_, c) = runner.step(Event::Start, &patterns);
    expect_scan(c, "pkg");
    // bin is pkg's folded directory; new_file was added to the package since.
    let children = || {
        vec![
            file("original", "/t/stow/pkg/bin/original", missing()),
            file("new_file", "/t/stow/pkg/bin/new_file", missing()),
        ]
    };
    let before = scan(
        "pkg",
        vec![dir("bin", "/t/stow/pkg/bin", stow_link("../stow/pkg/bin", "/t/stow/pkg/bin", true), children())],
    );
    let (_, c) = runner.step(Event::Scanned(before), &patterns);
    assert_eq!(expect_execute(c), vec![Action::RemoveSymlink { path: p("/t/target/bin") }]);
    let (_, c) = runner.step(Event::Completed(Ok(())), &patterns);
    assert!(matches!(c, Command::Cleanup(ref links) if links == &vec![p("/t/target/bin")]));
    let (_, c) = runner.step(Event::Completed(Ok(())), &patterns);
    expect_scan(c, "pkg");
    let after = scan("pkg", vec![dir("bin", "/t/stow/pkg/bin", missing(), children())]);
    let (_, c) = runner.step(Event::Scanned(after), &patterns);
    // bin is folded again, so new_file is reachable through it.
    assert_eq!(
        expect_execute(c),
        vec![Action::CreateSymlink { src: p("../stow/pkg/bin"), dst: p("/t/target/bin") }]
    );
    let (_, c) = runner.step(Event::Completed(Ok(())), &patterns);
    assert!(matches!(c, Command::Finish(Ok(()))));
}

#[test]
fn test_unstow_only_own_package_links() {
    let patterns = empty_patterns();
    // target/bin is a real directory holding one link of each package.
    let pkg_a = scan(
        "pkgA",
        vec![dir(
            "bin",
            "/t/stow/pkgA/bin",
            real_dir(),
            vec![file(
                "foo",
                "/t/stow/pkgA/bin/foo",
                stow_link("../../stow/pkgA/bin/foo", "/t/stow/pkgA/bin/foo", false),
            )],
        )],
    );
    let actions = plan_unstow(pkg_a, &config(Operation::Unstow, false), &patterns).unwrap();
    assert_eq!(actions, vec![Action::RemoveSymlink { path: p("/t/target/bin/foo") }]);
    // pkgA's entry named like one of pkgB's links leaves it alone.
    let pkg_a_again = scan(
        "pkgA",
        vec![dir(
            "bin",
            "/t/stow/pkgA/bin",
            real_dir(),
            vec![file(
                "bar",
                "/t/stow/pkgA/bin/bar",
                stow_link("../../stow/pkgB/bin/bar", "/t/stow/pkgB/bin/bar", false),
            )],
        )],
    );
    let actions = plan_unstow(pkg_a_again, &config(Operation::Unstow, false), &patterns).unwrap();
    assert!(actions.is_empty());
}
