//! Paths, and orders.

use moon_lsp::{order, paths, text, LspWork};

#[test]
fn a_path_is_joined_under_a_root_unless_it_is_one_itself() {
    assert_eq!(paths::join("/home/dev", "src/a.rs"), "/home/dev/src/a.rs");
    assert_eq!(paths::join("/home/dev/", "src/a.rs"), "/home/dev/src/a.rs");
    assert_eq!(paths::join("/home/dev", "/etc/a.rs"), "/etc/a.rs");
    assert_eq!(paths::join("", "a.rs"), "a.rs");
}

#[test]
fn a_path_inside_a_repo_is_named_from_it_and_any_other_by_itself() {
    assert_eq!(paths::path_in_repo("/home/dev/repo/src/a.rs", "/home/dev/repo"), "src/a.rs");
    assert_eq!(paths::path_in_repo("/home/dev/repository/a.rs", "/home/dev/repo"), "/home/dev/repository/a.rs");
    assert_eq!(paths::strip_prefix("/a/b", "/a").as_deref(), Some("b"));
    assert_eq!(paths::strip_prefix("/a/b", "/c"), None);
    assert_eq!(paths::file_name("/a/b.rs").as_deref(), Some("b.rs"));
    assert_eq!(paths::file_name("/"), None);
    assert_eq!(paths::extension("a.tar.gz").as_deref(), Some("gz"));
    assert_eq!(paths::extension(".gitignore"), None);
    assert!(paths::same_path("/a//b/./c", "/a/b/c"));
    assert!(!paths::same_path("/a/b", "a/b"));
}

/// A path that leads out of a repo again is not inside it, wherever it leads next; one that only
/// goes about inside it is.
#[test]
fn a_path_that_leads_out_of_a_repo_is_not_inside_it() {
    let repo = "/home/dev/repo";
    assert_eq!(paths::strip_prefix("/home/dev/repo/../other/a.rs", repo), None);
    assert_eq!(paths::strip_prefix("/home/dev/repo/src/../../a.rs", repo), None);
    assert_eq!(paths::strip_prefix("/home/dev/repo/../repo/a.rs", repo), None);
    assert_eq!(paths::strip_prefix("/home/dev/repo/..", repo), None);
    assert_eq!(
        paths::path_in_repo("/home/dev/repo/../other/a.rs", repo),
        "/home/dev/repo/../other/a.rs"
    );
    assert_eq!(
        paths::strip_prefix("/home/dev/repo/src/../a.rs", repo).as_deref(),
        Some("src/../a.rs")
    );
    assert_eq!(
        paths::strip_prefix("/home/dev/repo/..a/...", repo).as_deref(),
        Some("..a/...")
    );
    assert_eq!(paths::strip_prefix(repo, repo).as_deref(), Some(""));
}

/// Things of the same rank stay in the order they came.
#[test]
fn a_sort_leaves_equals_as_they_came() {
    let work = |server: &str, title: &str| LspWork {
        server: server.to_string(),
        title: title.to_string(),
        detail: None,
        percentage: None,
    };
    assert_eq!(
        order::sort(vec![work("b", "1"), work("a", "2"), work("b", "3"), work("a", "4")]),
        vec![work("a", "2"), work("a", "4"), work("b", "1"), work("b", "3")]
    );
}

#[test]
fn texts_are_trimmed_found_and_compared_by_what_is_in_them() {
    assert_eq!(text::trim_text("\u{3000} a b\t\n"), "a b");
    assert_eq!(text::find(b"abcabc", b"ca"), Some(2));
    assert_eq!(text::find(b"abc", b"cab"), None);
    assert!(text::has_text("cargo check", "check"));
    assert!(text::comes_after("b", "a"));
    assert!(text::comes_after("ab", "a"));
    assert!(!text::comes_after("a", "a"));
}
