use vstd::prelude::*;

verus! {

/// How much is logged, from the least to the most.
#[derive(Clone, Copy, Debug, PartialEq, Eq, Structural)]
pub enum Level {
    Error,
    Warn,
    Info,
    Debug,
    Trace,
}

/// The sink that prints log records; messages at `Info` go out plain, the
/// others behind a tag naming their level.
#[derive(Clone, Copy, Debug, PartialEq, Eq, Structural)]
pub struct Logger {}

/// The short tag printed before a record of each level.
pub open spec fn tag_of(level: Level) -> &'static str {
    match level {
        Level::Error => "err",
        Level::Warn => "wrn",
        Level::Info => "inf",
        Level::Debug => "dbg",
        Level::Trace => "trc",
    }
}

impl Logger {
    /// The tag for records of `level`.
    pub fn tag(level: Level) -> (r: &'static str)
        ensures
            r == tag_of(level),
    {
        match level {
            Level::Error => "err",
            Level::Warn => "wrn",
            Level::Info => "inf",
            Level::Debug => "dbg",
            Level::Trace => "trc",
        }
    }

    /// Whether a record of `level` is printed without a tag.
    pub fn is_plain(level: Level) -> (r: bool)
        ensures
            r == (level == Level::Info),
    {
        match level {
            Level::Info => true,
            _ => false,
        }
    }
}

/// Relies on log::set_max_level: records above `level` are dropped from then on.
#[verifier::external_body]
fn set_max_level(level: Level) {
    log::set_max_level(
        match level {
            Level::Error => log::LevelFilter::Error,
            Level::Warn => log::LevelFilter::Warn,
            Level::Info => log::LevelFilter::Info,
            Level::Debug => log::LevelFilter::Debug,
            Level::Trace => log::LevelFilter::Trace,
        },
    )
}

/// Lets records up to `level` through to the installed logger.
pub fn init(level: Level) {
    set_max_level(level);
}

} // verus!
