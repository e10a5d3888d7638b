//! Shared, immutable configuration: the input root, the output site base,
//! ignore-pattern lists, external-library rules and browseable source roots.
//!
//! A pattern here is a plain substring: an ignore pattern matches a name that
//! contains it, and an external-library pattern matches a header path whose
//! rendering contains it.

use vstd::prelude::*;
use crate::url::UrlPath;

verus! {

/// A known external library: headers outside the project whose path contains
/// `pattern` belong to it and are browsed at `repository`.
pub struct ExternalLib {
    pub pattern: String,
    pub repository: String,
    pub exists_online: bool,
}

/// One configured source tree of the project.
pub struct Source {
    pub dir: UrlPath,
    pub exists_online: bool,
}

/// The two independent ignore-pattern lists: one matched against fully
/// qualified names, one against simple names.
pub struct IgnoreRules {
    pub patterns_full: Vec<String>,
    pub patterns_name: Vec<String>,
}

/// The whole shared configuration.
pub struct Config {
    pub input_dir: UrlPath,
    pub output_url: UrlPath,
    pub ignore: Option<IgnoreRules>,
    pub external_libs: Vec<ExternalLib>,
    pub sources: Vec<Source>,
    pub project_name: String,
    pub project_version: String,
    pub project_tree: Option<String>,
}

impl Config {
    /// The paths held by the configuration have no empty segments.
    pub open spec fn wf(&self) -> bool {
        &&& self.input_dir.wf()
        &&& self.output_url.wf()
        &&& forall|i: int|
            0 <= i < self.sources@.len() ==> (#[trigger] self.sources@[i]).dir.wf()
    }
}

} // verus!
