//! Layered configuration resolution.
//!
//! A configuration is assembled from three kinds of sources, in strict
//! precedence order: a mandatory default source, zero or more named overlay
//! sources, and overrides drawn from environment variables.  Later sources
//! overwrite earlier ones at the same key path; keys present in only one
//! source are kept as they are.  A source is modelled as a list of entries,
//! each binding a hierarchical key path to a textual value; the meaning of a
//! source and of a whole layered stack is given by spec-level maps from
//! paths to values, and every resolution function is proved to produce
//! exactly that map.
//!
//! Two options configure the resolver instead of near-duplicate variants:
//! the overlay selector is read either as one overlay name or as a comma
//! separated list (`OverlayMode`), and override key segments are either
//! kept raw or translated to kebab-case (`KeyCase`).

#![allow(unused_imports)]

use vstd::prelude::*;

pub mod envkeys;
pub mod merge;
pub mod paths;
pub mod resolver;
pub mod text;

verus! {

/// Name of the environment variable that selects the directory holding the
/// configuration files; callers fall back to `"config"` when it is unset.
pub const CONFIG_DIR: &'static str = "CONFIG_DIR";

/// Name of the environment variable that holds the comma separated list of
/// overlay names; no overlay is applied when it is unset.
pub const CONFIG_OVERLAYS: &'static str = "CONFIG_OVERLAYS";

/// Name of the environment variable that holds the prefix marking other
/// environment variables as configuration overrides; callers fall back to
/// `"APP"` when it is unset.
pub const CONFIG_ENV_PREFIX: &'static str = "CONFIG_ENV_PREFIX";

/// Possible errors when resolving a configuration.
#[derive(Debug)]
pub enum Error {
    /// A source could not be loaded, e.g. because the mandatory default file
    /// or an explicitly named overlay file is missing or malformed.
    Load(String),
    /// The resolved mapping could not populate the target type, e.g. because
    /// a required field is absent or has the wrong shape.
    Deserialize(String),
}

impl Error {
    /// The message describing the failure.
    pub fn message(&self) -> (r: &String)
        ensures
            r == match self {
                Error::Load(m) => m,
                Error::Deserialize(m) => m,
            },
    {
        match self {
            Error::Load(m) => m,
            Error::Deserialize(m) => m,
        }
    }
}

} // verus!
