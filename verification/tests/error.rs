use portside::Error;

#[test]
fn messages_are_actionable() {
    assert_eq!(
        Error::CargoNotFound.message(),
        "cargo was not found on PATH.\nInstall Rust from https://rustup.rs, then run again inside a workspace."
    );
    assert_eq!(
        Error::NotWorkspace("could not find `Cargo.toml`".to_string()).message(),
        "not inside a Cargo workspace.\n  cargo metadata: could not find `Cargo.toml`\nRun from a directory with a Cargo.toml, or pass a manifest path."
    );
    assert_eq!(
        Error::Metadata("boom".to_string()).message(),
        "failed to run cargo metadata: boom"
    );
    assert_eq!(
        Error::Parse("eof".to_string()).message(),
        "failed to parse cargo metadata: eof"
    );
}

#[test]
fn launch_failures_are_classified() {
    assert!(matches!(Error::launch_failure(true, "x".to_string()), Error::CargoNotFound));
    match Error::launch_failure(false, "denied".to_string()) {
        Error::Metadata(m) => assert_eq!(m, "denied"),
        other => panic!("unexpected {other:?}"),
    }
}

#[test]
fn failed_runs_report_trimmed_stderr() {
    assert!(Error::check_run(true, b"ignored").is_ok());
    match Error::check_run(false, b"  error: could not find `Cargo.toml`\n") {
        Err(Error::NotWorkspace(m)) => assert_eq!(m, "error: could not find `Cargo.toml`"),
        other => panic!("unexpected {other:?}"),
    }
    match Error::check_run(false, b"bad \xff byte") {
        Err(Error::NotWorkspace(m)) => assert_eq!(m, "bad \u{FFFD} byte"),
        other => panic!("unexpected {other:?}"),
    }
}
