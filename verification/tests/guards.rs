//! What may be reached below a folder.

use servant::guards::{
    is_contained, named_pieces, path_part, resolve_under_mount, Canonical, GuardOutcome, GuardStep,
};

fn found(p: &str) -> Canonical {
    Canonical::Found(p.to_string())
}

/// Runs the guard with these answers of the file system, in order.
fn resolve(root: &str, suffix: &str, answers: Vec<Canonical>) -> GuardOutcome {
    match resolve_under_mount(root, suffix, &answers) {
        GuardStep::Done(o) => o,
        GuardStep::Canonicalize(p) => panic!("still asking for {p}"),
    }
}

fn asked(root: &str, suffix: &str, answers: Vec<Canonical>) -> String {
    match resolve_under_mount(root, suffix, &answers) {
        GuardStep::Canonicalize(p) => p,
        GuardStep::Done(o) => panic!("decided {o:?}"),
    }
}

#[test]
fn rejects_dotdot() {
    match resolve("/mnt", "/../etc", vec![]) {
        GuardOutcome::Forbidden => {}
        o => panic!("expected Forbidden, got {o:?}"),
    }
}

#[test]
fn rejects_dotfile() {
    match resolve("/mnt", "/.env", vec![]) {
        GuardOutcome::NotFound => {}
        o => panic!("expected NotFound, got {o:?}"),
    }
}

#[test]
fn rejects_symlink_escape() {
    let answers = vec![found("/mnt"), found("/outside/secret")];
    match resolve("/mnt", "/link", answers) {
        GuardOutcome::Forbidden => {}
        o => panic!("expected Forbidden, got {o:?}"),
    }
}

#[test]
fn allows_normal() {
    let answers = vec![found("/mnt"), found("/mnt/sub/a.txt")];
    match resolve("/mnt", "/sub/a.txt", answers) {
        GuardOutcome::Allow(p) => assert_eq!(p, "/mnt/sub/a.txt"),
        o => panic!("expected Allow, got {o:?}"),
    }
}

#[test]
fn first_piece_that_may_not_be_served_decides() {
    assert!(matches!(resolve("/m", "a/../.x", vec![]), GuardOutcome::Forbidden));
    assert!(matches!(resolve("/m", "a/.x/..", vec![]), GuardOutcome::NotFound));
    assert!(matches!(resolve("/m", "a//./b", vec![]), GuardOutcome::NotFound));
    assert!(matches!(resolve("/m", "...", vec![]), GuardOutcome::NotFound));
    assert!(matches!(resolve("/m", "a/b\0c", vec![]), GuardOutcome::Forbidden));
    assert!(matches!(resolve("/m", ".a\0", vec![]), GuardOutcome::Forbidden));
    assert_eq!(asked("/m", "a..b/c.d", vec![]), "/m");
}

#[test]
fn folder_is_asked_for_before_the_path() {
    assert_eq!(asked("/link", "/a/b/", vec![]), "/link");
    assert_eq!(asked("/link", "/a/b/", vec![found("/real")]), "/real/a/b");
    assert_eq!(asked("/link", "", vec![found("/real")]), "/real");
    assert_eq!(asked("/link", "///", vec![found("/real")]), "/real");
    assert_eq!(asked("/link", "a//b", vec![found("/")]), "/a//b");
}

#[test]
fn unreadable_paths_are_told_from_missing_ones() {
    assert!(matches!(
        resolve("/m", "a", vec![Canonical::Missing]),
        GuardOutcome::NotFound
    ));
    assert!(matches!(
        resolve("/m", "a", vec![Canonical::Failed]),
        GuardOutcome::Forbidden
    ));
    assert!(matches!(
        resolve("/m", "a", vec![found("/m"), Canonical::Missing]),
        GuardOutcome::NotFound
    ));
    assert!(matches!(
        resolve("/m", "a", vec![found("/m"), Canonical::Failed]),
        GuardOutcome::Forbidden
    ));
}

#[test]
fn containment_goes_by_pieces() {
    assert!(is_contained("/a/b", "/a"));
    assert!(is_contained("/a", "/a"));
    assert!(is_contained("/a", "/"));
    assert!(!is_contained("/ab", "/a"));
    assert!(!is_contained("/a", "/a/b"));
    assert!(!is_contained("/b/a", "/a"));
    assert!(!is_contained("a/b", "/a"));
    for path in ["/", "/a", "/a/b", "/a/b/c", "/ab", "/b", "/a/bc"] {
        for root in ["/", "/a", "/a/b", "/a/b/c", "/ab", "/b", "/a/bc"] {
            let expected = std::path::Path::new(path).starts_with(root);
            assert_eq!(is_contained(path, root), expected, "{path} {root}");
        }
    }
}

#[test]
fn slashes_around_a_path_do_not_count() {
    assert_eq!(path_part("//a/b//"), "a/b");
    assert_eq!(path_part(""), "");
    assert_eq!(path_part("/"), "");
    assert_eq!(path_part("a//b"), "a//b");
    assert_eq!(named_pieces("/a/./b//c/.."), vec!["a", "b", "c", ".."]);
}
