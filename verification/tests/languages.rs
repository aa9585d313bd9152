//! Which server serves which file, and where it is installed.

use moon_lsp::languages::{self, Found};
use moon_lsp::registry::status_without_a_server;
use moon_lsp::LspStatus;

#[test]
fn a_rust_file_is_served_by_rust_analyzer() {
    let language = languages::for_file("src/main.rs").expect("expected rust to be in the table");
    assert_eq!(language.language_id, "rust");
    assert_eq!(language.server.command, "rust-analyzer");
    assert!(language.server.args.is_empty());
}

#[test]
fn typescript_and_its_react_flavour_are_two_languages_on_one_server() {
    let typescript = languages::for_file("app.ts").expect("expected .ts to be in the table");
    let react = languages::for_file("app.tsx").expect("expected .tsx to be in the table");

    assert_eq!(typescript.language_id, "typescript");
    assert_eq!(react.language_id, "typescriptreact");
    assert_eq!(typescript.server.command, "typescript-language-server");
    assert_eq!(typescript.server.args, ["--stdio"]);
    assert_eq!(
        typescript.server.name, react.server.name,
        "one project's .ts and .tsx are indexed by one server"
    );
}

#[test]
fn an_extension_nothing_serves_has_no_language_behind_it() {
    assert!(languages::for_file("README.md").is_none());
    assert!(languages::for_file("Makefile").is_none());
}

#[test]
fn a_language_whose_server_is_not_installed_reads_as_unavailable() {
    let python = languages::for_file("main.py").expect("expected python to be in the table");
    assert_eq!(
        status_without_a_server(Some(&python), false),
        LspStatus::Unavailable,
        "a server that is not installed is no server at all"
    );
    assert_eq!(
        status_without_a_server(None, false),
        LspStatus::Unavailable,
        "and neither is an extension nothing serves"
    );
    assert_eq!(
        status_without_a_server(Some(&python), true),
        LspStatus::Starting,
        "an installed server has at least started"
    );
}

/// An extension is matched without regard for case, and every row of the table is found by its own.
#[test]
fn every_row_of_the_table_is_found_by_its_extension_in_either_case() {
    for row in languages::extensions() {
        let small = format!("src/file.{}", row.extension);
        let large = format!("src/file.{}", row.extension.to_uppercase());
        assert_eq!(languages::for_file(&small).as_ref(), Some(&row));
        assert_eq!(languages::for_file(&large).as_ref(), Some(&row));
    }
    assert!(languages::for_file(".rs").is_none(), "a dotfile has no extension");
    assert!(languages::for_file("dir.rs/").is_some(), "the last part of a path is its name");
}

/// A command is looked for in each directory of the search path in turn.
#[test]
fn a_command_is_found_in_the_first_directory_it_can_be_run_from() {
    assert_eq!(
        languages::candidates("rust-analyzer", "/opt/bin:/usr/bin"),
        ["/opt/bin/rust-analyzer", "/usr/bin/rust-analyzer"]
    );
    assert_eq!(
        languages::look_up_on_path("rust-analyzer", "/opt/bin:/usr/bin", &|path: &str| {
            path.starts_with("/usr")
        })
        .as_deref(),
        Some("/usr/bin/rust-analyzer")
    );
    assert_eq!(
        languages::look_up_on_path("rust-analyzer", "/opt/bin:/usr/bin", &|_: &str| false),
        None
    );
}

/// Where a command was found is remembered, per search path and command: it is not looked for
/// again, whatever is there by then.
#[test]
fn where_a_command_was_found_is_remembered() {
    let asked = std::cell::Cell::new(0);
    let count = |answer: bool| {
        asked.set(asked.get() + 1);
        answer
    };
    let mut found = Found::default();
    assert_eq!(
        languages::installed_at(&mut found, "pyright", "/bin", &|_: &str| count(false)),
        None
    );
    assert_eq!(asked.get(), 1);
    assert_eq!(
        languages::installed_at(&mut found, "pyright", "/bin", &|_: &str| count(true)),
        None,
        "what was not there is still taken not to be"
    );
    assert_eq!(asked.get(), 1);
    assert_eq!(
        languages::installed_at(&mut found, "pyright", "/usr/bin", &|_: &str| count(true))
            .as_deref(),
        Some("/usr/bin/pyright")
    );
    assert_eq!(asked.get(), 2);
}

#[test]
fn only_a_file_somebody_may_run_is_runnable() {
    assert!(languages::is_runnable(true, 0o755));
    assert!(languages::is_runnable(true, 0o001));
    assert!(!languages::is_runnable(true, 0o644));
    assert!(!languages::is_runnable(false, 0o755), "a directory is nothing to run");
}
