//! What the command line asks for, once it is parsed.

use vstd::prelude::*;

verus! {

/// The options of the command line.
#[derive(Debug, Clone, PartialEq, Eq)]
pub struct Opts {
    /// Deduplicates the path.
    pub dedup: bool,
    /// Outputs line by line instead of the default colon separated list.
    pub lines: bool,
    /// Includes paths from `$PATH` in the environment.
    pub from_env: bool,
    /// Searches included paths using the built-in configuration.
    pub included: bool,
    /// Uses the specific configuration file.
    pub config: Option<String>,
    /// Use the recommended flags. If no source of paths is asked for, this
    /// is assumed.
    pub defaults: bool,
}

impl Opts {
    /// Whether the recommended settings apply: they were asked for, or no
    /// source of paths was named at all.
    pub open spec fn wants_defaults(self) -> bool {
        self.defaults || (!self.from_env && !self.included && self.config is None)
    }

    /// Whether the path is to be deduplicated.
    pub fn dedup(&self) -> (r: bool)
        ensures
            r == (self.dedup || self.wants_defaults()),
    {
        self.dedup || self.defaults()
    }

    /// Whether the paths of `$PATH` are to be included.
    pub fn from_env(&self) -> (r: bool)
        ensures
            r == (self.from_env || self.wants_defaults()),
    {
        self.from_env || self.defaults()
    }

    /// Whether the configuration files and the built-in configuration are
    /// to be read.
    pub fn included(&self) -> (r: bool)
        ensures
            r == (self.included || self.wants_defaults()),
    {
        self.included || self.defaults()
    }

    /// Whether the recommended settings apply.
    pub fn defaults(&self) -> (r: bool)
        ensures
            r == self.wants_defaults(),
    {
        self.defaults || (!self.from_env && !self.included && self.config.is_none())
    }
}

/// With no option given at all, everything that the recommended settings
/// switch on is on.
pub proof fn lemma_no_options_mean_defaults(opts: Opts)
    requires
        !opts.dedup,
        !opts.from_env,
        !opts.included,
        !opts.defaults,
        opts.config is None,
    ensures
        opts.wants_defaults(),
{
}

/// How the resulting path is written out.
#[derive(Debug, Copy, Clone, PartialEq, Eq, Structural)]
pub enum Mode {
    /// On one line, the paths separated by colons.
    Colon,
    /// One path on each line.
    Lines,
}

/// The settings that the flags of the command line amount to.
#[derive(Debug, Copy, Clone, PartialEq, Eq, Structural)]
pub struct CliConfig {
    pub dedup: bool,
    pub mode: Mode,
    pub from_env: bool,
    pub with_searches: bool,
}

impl CliConfig {
    /// The settings for the given flags: `lines` selects the output mode,
    /// and `defaults` switches on each of the other three.
    pub fn from_flags(
        lines: bool,
        defaults: bool,
        dedup: bool,
        from_env: bool,
        with_searches: bool,
    ) -> (r: CliConfig)
        ensures
            r.mode == if lines {
                Mode::Lines
            } else {
                Mode::Colon
            },
            r.dedup == (defaults || dedup),
            r.from_env == (defaults || from_env),
            r.with_searches == (defaults || with_searches),
    {
        let mode = if lines {
            Mode::Lines
        } else {
            Mode::Colon
        };
        CliConfig {
            dedup: defaults || dedup,
            mode,
            from_env: defaults || from_env,
            with_searches: defaults || with_searches,
        }
    }
}

} // verus!
