//! The analyser for Rust libraries.

pub mod api;
pub mod formatting;

use vstd::prelude::*;
use vstd::string::*;
use crate::analysers::Analyser;
use crate::error::{ErrorKind, LaibraryError};
use crate::text::{first_where, joined, lemma_first_where_is, texts};
use crate::types::{Namespace, NamespaceView, SourceFile, SourceFileView, source_file_views};
use self::api::{build_public_api, is_public_api, parsed_files};
use self::formatting::{format_module, source_texts, symbol_separator};

verus! {

/// Whether `text` ends with `suffix`.
pub open spec fn ends_with(text: Seq<char>, suffix: Seq<char>) -> bool {
    text.len() >= suffix.len() && text.subrange(text.len() - suffix.len(), text.len() as int)
        == suffix
}

/// Whether `text` ends with `suffix`.
pub fn text_ends_with(text: &str, suffix: &str) -> (ends: bool)
    ensures
        ends == ends_with(text@, suffix@),
{
    let length = text.unicode_len();
    let tail = suffix.unicode_len();
    if tail > length {
        return false;
    }
    text.substring_char(length - tail, length).eq(suffix)
}

/// Whether `path` is the path of the file that a library crate starts
/// from: `src/lib.rs`, in whatever directory.
pub open spec fn is_entry_point(path: Seq<char>) -> bool {
    path == "src/lib.rs"@ || ends_with(path, "/src/lib.rs"@)
}

/// The test for source files that are an entry point.
pub open spec fn starts_library() -> spec_fn(SourceFileView) -> bool {
    |file: SourceFileView| is_entry_point(file.path)
}

/// The position of the first of `sources` that is an entry point, or their
/// number.
pub open spec fn entry_point_at(sources: Seq<SourceFileView>) -> int {
    first_where(sources, starts_library())
}

/// Finds the first source file that is an entry point.
pub fn find_entry_point(sources: &Vec<SourceFile>) -> (at: usize)
    ensures
        at == entry_point_at(source_file_views(sources@)),
        at <= sources@.len(),
{
    let ghost views = source_file_views(sources@);
    let mut i: usize = 0;
    while i < sources.len()
        invariant
            i <= sources.len(),
            views == source_file_views(sources@),
            forall|k: int| 0 <= k < i ==> !starts_library()(#[trigger] views[k]),
        decreases sources.len() - i,
    {
        proof {
            assert(views[i as int] == sources@[i as int]@);
        }
        let path = sources[i].path.as_str();
        if path.eq("src/lib.rs") || text_ends_with(path, "/src/lib.rs") {
            proof {
                lemma_first_where_is(views, starts_library(), i as int);
            }
            return i;
        }
        i += 1;
    }
    proof {
        lemma_first_where_is(views, starts_library(), i as int);
    }
    i
}

/// The analyser for libraries written in Rust.
#[derive(Debug, Clone, Copy, PartialEq, Eq)]
pub struct RustAnalyser;

/// The body of a namespace of Rust symbols: their source texts with an
/// empty line between neighbours.
pub open spec fn rust_body(namespace: NamespaceView) -> Seq<char> {
    joined(source_texts(namespace.symbols), symbol_separator())
}

/// The bodies of `namespaces`, in order.
pub open spec fn rust_bodies(namespaces: Seq<NamespaceView>) -> Seq<Seq<char>> {
    namespaces.map_values(|n: NamespaceView| rust_body(n))
}

impl Analyser for RustAnalyser {
    /// Rust source files end in `.rs`.
    fn get_file_extensions(&self) -> (extensions: Vec<String>)
        ensures
            texts(extensions@) == seq!["rs"@],
    {
        let mut extensions: Vec<String> = Vec::new();
        extensions.push("rs".to_owned());
        proof {
            assert(texts(extensions@) =~= seq!["rs"@]);
        }
        extensions
    }

    /// The namespaces of the library that starts at the first `src/lib.rs`
    /// among `sources`; a parse failure that names `src/lib.rs` when there
    /// is no such file.
    fn extract_public_api(&self, sources: &Vec<SourceFile>, crate_name: &str) -> (outcome: Result<
        Vec<Namespace>,
        LaibraryError,
    >)
        ensures
            entry_point_at(source_file_views(sources@)) >= sources@.len() ==> (outcome matches Err(
                error,
            ) && error.spec_kind() == ErrorKind::Parse && error.detail() == "src/lib.rs"@),
            entry_point_at(source_file_views(sources@)) < sources@.len() ==> is_public_api(
                outcome,
                parsed_files(source_file_views(sources@)),
                sources@[entry_point_at(source_file_views(sources@))].path@,
                crate_name@,
            ),
    {
        let entry = find_entry_point(sources);
        if entry >= sources.len() {
            return Err(LaibraryError::Parse("src/lib.rs".to_owned()));
        }
        build_public_api(sources, sources[entry].path.as_str(), crate_name)
    }

    /// The source texts of the symbols with an empty line between
    /// neighbours. Never fails.
    fn format_namespace(&self, namespace: &Namespace) -> (body: Result<String, LaibraryError>)
        ensures
            body matches Ok(text) && text@ == rust_body(namespace@),
    {
        Ok(format_module(namespace))
    }
}

} // verus!
