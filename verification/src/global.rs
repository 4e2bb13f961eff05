//! Process-wide settings, handed around as a value.

use vstd::prelude::*;

verus! {

/// How much the daemon says, from the quietest level to the most verbose.
#[derive(Clone, Copy, Debug, PartialEq, Eq, Structural)]
pub enum LogLevel {
    Error,
    Warn,
    Info,
    Debug,
    Trace,
}

impl LogLevel {
    /// The position of the level on the scale: 1 for `Error` up to 5 for `Trace`.
    pub open spec fn spec_rank(self) -> int {
        match self {
            LogLevel::Error => 1,
            LogLevel::Warn => 2,
            LogLevel::Info => 3,
            LogLevel::Debug => 4,
            LogLevel::Trace => 5,
        }
    }

    /// The position of the level on the scale.
    pub fn rank(self) -> (r: u8)
        ensures
            r == self.spec_rank(),
    {
        match self {
            LogLevel::Error => 1,
            LogLevel::Warn => 2,
            LogLevel::Info => 3,
            LogLevel::Debug => 4,
            LogLevel::Trace => 5,
        }
    }

    /// Whether this level is at least as verbose as `floor`.
    pub fn at_least(self, floor: LogLevel) -> (r: bool)
        ensures
            r == (self.spec_rank() >= floor.spec_rank()),
    {
        self.rank() >= floor.rank()
    }
}

/// The settings every component reads.
#[derive(Clone, Copy, Debug)]
pub struct Global {
    pub log_level: LogLevel,
}

impl Default for Global {
    fn default() -> (g: Self)
        ensures
            g.log_level == LogLevel::Info,
    {
        Global { log_level: LogLevel::Info }
    }
}

impl Global {
    /// Runs `closure` once.
    pub fn exec<F: Fn()>(&self, closure: F)
        requires
            closure.requires(()),
        ensures
            closure.ensures((), ()),
    {
        closure();
    }

    /// Records the verbosity that the logger is set up with.
    pub fn setup_logger(&mut self, level: LogLevel)
        ensures
            final(self).log_level == level,
    {
        self.log_level = level;
    }
}

} // verus!
