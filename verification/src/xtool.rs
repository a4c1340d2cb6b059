//! The project command line: its log levels, and how it settles which
//! compiler driver scans the crates.
use vstd::prelude::*;

verus! {

/// How much the command line logs.
#[derive(Clone, Copy, PartialEq, Eq, Structural)]
pub enum LogLevel {
    Error,
    Warn,
    Info,
    Debug,
    Trace,
}

/// The filter that a log level sets: messages of that level and of the
/// levels above it pass.
#[derive(Clone, Copy, PartialEq, Eq, Structural)]
pub enum LevelFilter {
    Off,
    Error,
    Warn,
    Info,
    Debug,
    Trace,
}

impl LogLevel {
    /// The filter of the same name.
    pub fn to_level_filter(&self) -> (f: LevelFilter)
        ensures
            f == match *self {
                LogLevel::Error => LevelFilter::Error,
                LogLevel::Warn => LevelFilter::Warn,
                LogLevel::Info => LevelFilter::Info,
                LogLevel::Debug => LevelFilter::Debug,
                LogLevel::Trace => LevelFilter::Trace,
            },
    {
        match self {
            LogLevel::Error => LevelFilter::Error,
            LogLevel::Warn => LevelFilter::Warn,
            LogLevel::Info => LevelFilter::Info,
            LogLevel::Debug => LevelFilter::Debug,
            LogLevel::Trace => LevelFilter::Trace,
        }
    }
}

/// The subcommands.
#[derive(Clone, Copy, PartialEq, Eq, Structural)]
pub enum Command {
    /// Compile the crates with the scanning driver and keep their metadata
    /// and report.
    Sync,
    /// The spec equality check, which has nothing to check yet.
    CheckSpecEqual,
}

/// The parsed command line.
pub struct Options {
    pub log_level: LogLevel,
    pub command: Command,
}

/// The spec equality check: there is nothing to check yet, so it succeeds.
pub fn run_check_spec_equal(options: &Options) -> (r: Result<(), String>)
    ensures
        r is Ok,
{
    Ok(())
}

// ---------------------------------------------------------------------------
// Which compiler driver scans the crates
// ---------------------------------------------------------------------------

/// How far the search for the scanning driver has come.
#[derive(Clone, Copy, PartialEq, Eq, Structural)]
pub enum ResolveStage {
    /// Nothing asked yet.
    Start,
    /// The `MIRSCAN_RUSTC` setting was asked for.
    Setting,
    /// The driver built in the repository was looked for.
    LocalBinary,
    /// The driver in the repository was built.
    Built,
    /// The driver built in the repository was looked for again.
    LocalBinaryAgain,
    /// A `raudit` program was looked for on the `PATH`.
    PathRaudit,
    /// A `mirscan` program was looked for on the `PATH`.
    PathMirscan,
}

/// What to do next.
pub enum ResolveAction {
    /// Read the `MIRSCAN_RUSTC` setting.
    ReadSetting,
    /// Look for `tools/mirscan/target/debug/raudit` in the repository.
    CheckLocalBinary,
    /// Build the driver in the repository (when its manifest is there).
    BuildLocal,
    /// Look for a program of this name on the `PATH`.
    SearchPath(String),
    /// Use this driver.
    Use(String),
    /// Give up with this message.
    Fail(String),
}

/// The message when no driver is found.
pub open spec fn not_found_message() -> Seq<char> {
    "could not find mirscan rustc binary; set MIRSCAN_RUSTC or build tools/mirscan (expected tools/mirscan/target/debug/raudit)"@
}

/// The view of an optional string.
pub open spec fn opt_view(s: Option<String>) -> Option<Seq<char>> {
    match s {
        Some(x) => Some(x@),
        None => None,
    }
}

/// The next stage, and what the action names, as mathematical values:
/// the setting wins, then the driver in the repository, then (after building
/// it) the driver in the repository again, then `raudit` and `mirscan` on the
/// `PATH`; a probe that finds something ends the search with it.
pub open spec fn resolve_spec(stage: ResolveStage, found: Option<Seq<char>>) -> (ResolveStage, Seq<char>, int) {
    match stage {
        ResolveStage::Start => (ResolveStage::Setting, seq![], 0),
        ResolveStage::Setting => match found {
            Some(v) => (stage, v, 5),
            None => (ResolveStage::LocalBinary, seq![], 1),
        },
        ResolveStage::LocalBinary => match found {
            Some(v) => (stage, v, 5),
            None => (ResolveStage::Built, seq![], 2),
        },
        ResolveStage::Built => (ResolveStage::LocalBinaryAgain, seq![], 1),
        ResolveStage::LocalBinaryAgain => match found {
            Some(v) => (stage, v, 5),
            None => (ResolveStage::PathRaudit, "raudit"@, 3),
        },
        ResolveStage::PathRaudit => match found {
            Some(v) => (stage, v, 5),
            None => (ResolveStage::PathMirscan, "mirscan"@, 3),
        },
        ResolveStage::PathMirscan => match found {
            Some(v) => (stage, v, 5),
            None => (stage, not_found_message(), 6),
        },
    }
}

/// An action as a kind (in the order of the variants, from 0) and the text
/// it carries.
pub open spec fn action_spec(a: ResolveAction) -> (Seq<char>, int) {
    match a {
        ResolveAction::ReadSetting => (seq![], 0),
        ResolveAction::CheckLocalBinary => (seq![], 1),
        ResolveAction::BuildLocal => (seq![], 2),
        ResolveAction::SearchPath(n) => (n@, 3),
        ResolveAction::Use(p) => (p@, 5),
        ResolveAction::Fail(m) => (m@, 6),
    }
}

/// One step of the search for the scanning driver: from the stage reached
/// and what its probe found (the setting's value, or the path of a program
/// that is there; nothing for the build), the next stage and what to do.
pub fn resolve_step(stage: ResolveStage, found: Option<String>) -> (r: (ResolveStage, ResolveAction))
    ensures
        r.0 == resolve_spec(stage, opt_view(found)).0,
        action_spec(r.1) == (resolve_spec(stage, opt_view(found)).1, resolve_spec(stage, opt_view(found)).2),
{
    match stage {
        ResolveStage::Start => (ResolveStage::Setting, ResolveAction::ReadSetting),
        ResolveStage::Setting => match found {
            Some(v) => (stage, ResolveAction::Use(v)),
            None => (ResolveStage::LocalBinary, ResolveAction::CheckLocalBinary),
        },
        ResolveStage::LocalBinary => match found {
            Some(v) => (stage, ResolveAction::Use(v)),
            None => (ResolveStage::Built, ResolveAction::BuildLocal),
        },
        ResolveStage::Built => (ResolveStage::LocalBinaryAgain, ResolveAction::CheckLocalBinary),
        ResolveStage::LocalBinaryAgain => match found {
            Some(v) => (stage, ResolveAction::Use(v)),
            None => (ResolveStage::PathRaudit, ResolveAction::SearchPath("raudit".to_string())),
        },
        ResolveStage::PathRaudit => match found {
            Some(v) => (stage, ResolveAction::Use(v)),
            None => (ResolveStage::PathMirscan, ResolveAction::SearchPath("mirscan".to_string())),
        },
        ResolveStage::PathMirscan => match found {
            Some(v) => (stage, ResolveAction::Use(v)),
            None => (
                stage,
                ResolveAction::Fail(
                    "could not find mirscan rustc binary; set MIRSCAN_RUSTC or build tools/mirscan (expected tools/mirscan/target/debug/raudit)".to_string(),
                ),
            ),
        },
    }
}

} // verus!
