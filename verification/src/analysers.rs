//! The capability that each supported source language provides.

use vstd::prelude::*;
use crate::error::LaibraryError;
use crate::types::{Namespace, SourceFile};

verus! {

/// What the pipeline needs from a source language. Nothing is promised about
/// what an implementation returns: callers state their results for whatever
/// comes back.
pub trait Analyser {
    /// The extensions, without the dot, of the files that hold source text
    /// of this language.
    fn get_file_extensions(&self) -> Vec<String>;

    /// The namespaces of the package called `crate_name` whose files are
    /// `sources`.
    fn extract_public_api(&self, sources: &Vec<SourceFile>, crate_name: &str) -> Result<
        Vec<Namespace>,
        LaibraryError,
    >;

    /// The text that stands for `namespace` in the rendered document.
    fn format_namespace(&self, namespace: &Namespace) -> Result<String, LaibraryError>;
}

} // verus!
