//! A path below a base directory that the environment may name.

use vstd::prelude::*;

verus! {

/// A path, the variable of the environment that names its base directory,
/// the base directory to use where the variable is not set, and whether the
/// path is for privileged users only.
#[derive(Debug, Default, Ord, PartialOrd, Eq, PartialEq, Copy, Clone)]
pub struct ConfigurablePath<'a> {
    pub path: &'a str,
    pub base_env: Option<&'a str>,
    pub base_default: Option<&'a str>,
    pub become_only: bool,
}

impl<'a> ConfigurablePath<'a> {
    /// A path without a base directory, for every user.
    pub fn new(path: &'a str) -> (r: ConfigurablePath<'a>)
        ensures
            r.path == path,
            r.base_env is None,
            r.base_default is None,
            !r.become_only,
    {
        ConfigurablePath { path, base_env: None, base_default: None, become_only: false }
    }

    /// A path without a base directory, for privileged users only.
    pub fn new_become(path: &'a str) -> (r: ConfigurablePath<'a>)
        ensures
            r.path == path,
            r.base_env is None,
            r.base_default is None,
            r.become_only,
    {
        ConfigurablePath { path, base_env: None, base_default: None, become_only: true }
    }

    /// A path below the directory that the variable `base_env` names, or
    /// below `base_default` where the variable is not set.
    pub fn with_env(path: &'a str, base_env: &'a str, base_default: &'a str) -> (r:
        ConfigurablePath<'a>)
        ensures
            r.path == path,
            r.base_env == Some(base_env),
            r.base_default == Some(base_default),
            !r.become_only,
    {
        ConfigurablePath {
            path,
            base_env: Some(base_env),
            base_default: Some(base_default),
            become_only: false,
        }
    }

    /// The base directory to use, given the value of the variable that
    /// `base_env` names, if it is set: that value where there is a variable
    /// and it has one, the default otherwise.
    pub fn base(&self, env_value: Option<&'a str>) -> (r: Option<&'a str>)
        ensures
            r == if self.base_env is Some && env_value is Some {
                env_value
            } else {
                self.base_default
            },
    {
        match (self.base_env, env_value) {
            (Some(_), Some(value)) => Some(value),
            _ => self.base_default,
        }
    }
}

} // verus!
