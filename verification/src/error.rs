//! Why workspace discovery couldn't proceed. Each variant renders an
//! actionable message (see [`Error::message`]), so tools can surface it verbatim.

use vstd::prelude::*;

use crate::text::{spec_trim, spec_utf8_lossy, trim_text, utf8_lossy};

verus! {

/// Why workspace discovery couldn't proceed.
#[derive(Debug)]
pub enum Error {
    /// `cargo` was not found on `PATH`.
    CargoNotFound,
    /// `cargo metadata` failed — usually "not inside a workspace".
    NotWorkspace(String),
    /// `cargo metadata` couldn't be launched.
    Metadata(String),
    /// The `cargo metadata` JSON couldn't be parsed.
    Parse(String),
}

/// The text that an error renders as.
pub open spec fn error_message(e: Error) -> Seq<char> {
    match e {
        Error::CargoNotFound => "cargo was not found on PATH.\nInstall Rust from https://rustup.rs, then run again inside a workspace."@,
        Error::NotWorkspace(msg) => "not inside a Cargo workspace.\n  cargo metadata: "@ + msg@
            + "\nRun from a directory with a Cargo.toml, or pass a manifest path."@,
        Error::Metadata(e) => "failed to run cargo metadata: "@ + e@,
        Error::Parse(e) => "failed to parse cargo metadata: "@ + e@,
    }
}

impl Error {
    /// The actionable message this error renders as.
    pub fn message(&self) -> (text: String)
        ensures
            text@ == error_message(*self),
    {
        match self {
            Error::CargoNotFound => String::from_str(
                "cargo was not found on PATH.\nInstall Rust from https://rustup.rs, then run again inside a workspace.",
            ),
            Error::NotWorkspace(msg) => {
                let mut text = String::from_str("not inside a Cargo workspace.\n  cargo metadata: ");
                text.append(msg.as_str());
                text.append("\nRun from a directory with a Cargo.toml, or pass a manifest path.");
                text
            },
            Error::Metadata(e) => {
                let mut text = String::from_str("failed to run cargo metadata: ");
                text.append(e.as_str());
                text
            },
            Error::Parse(e) => {
                let mut text = String::from_str("failed to parse cargo metadata: ");
                text.append(e.as_str());
                text
            },
        }
    }

    /// The error for a `cargo metadata` process that could not be launched:
    /// a missing `cargo` binary is reported as such, anything else verbatim.
    pub fn launch_failure(cargo_missing: bool, detail: String) -> (e: Error)
        ensures
            cargo_missing ==> e == Error::CargoNotFound,
            !cargo_missing ==> e == Error::Metadata(detail),
    {
        if cargo_missing {
            Error::CargoNotFound
        } else {
            Error::Metadata(detail)
        }
    }

    /// The verdict on a finished `cargo metadata` run: a successful run is
    /// fine; a failed one means the directory is not inside a workspace, and
    /// cargo's stderr, decoded lossily and trimmed, says why.
    pub fn check_run(success: bool, stderr: &[u8]) -> (verdict: Result<(), Error>)
        ensures
            success ==> verdict is Ok,
            !success ==> (verdict matches Err(Error::NotWorkspace(msg))
                && msg@ == spec_trim(spec_utf8_lossy(stderr@))),
    {
        if success {
            Ok(())
        } else {
            let text = utf8_lossy(stderr);
            Err(Error::NotWorkspace(trim_text(text.as_str())))
        }
    }
}

} // verus!
