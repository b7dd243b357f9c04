//! Extracts the public surface of a Rust library and renders it as one
//! structured text document: every public item with its source text, grouped
//! by the namespaces from which it can be reached.

pub mod analysers;
pub mod error;
pub mod formatting;
pub mod languages;
pub mod text;
pub mod types;

use vstd::prelude::*;
use vstd::string::*;
use crate::analysers::Analyser;
use crate::error::{ErrorKind, LaibraryError};
use crate::formatting::{format_library_context, library_text};
use crate::languages::rust::api::symbol_collection::ParsedFileView;
use crate::languages::rust::api::{parsed_files, public_api};
use crate::languages::rust::{RustAnalyser, entry_point_at, rust_bodies};
use crate::languages::{get_analyser, is_supported};
use crate::text::texts;
use crate::types::{
    PackageMetadata,
    PackageMetadataView,
    SourceFile,
    namespace_views,
    source_file_views,
};

verus! {

/// The document for the Rust package `metadata` whose parsed files are
/// `files` and whose entry point is `entry_point`, or the kind and the
/// detail of the failure. The package name is the name of the root
/// namespace.
pub open spec fn documentation(
    metadata: PackageMetadataView,
    files: Seq<ParsedFileView>,
    entry_point: Seq<char>,
) -> Result<Seq<char>, (ErrorKind, Seq<char>)> {
    match public_api(files, entry_point, metadata.name) {
        Ok(namespaces) => Ok(library_text(metadata, namespaces, rust_bodies(namespaces))),
        Err(failure) => Err(failure),
    }
}

/// Whether `outcome` is what [`documentation`] says for `files`.
pub open spec fn is_documentation(
    outcome: Result<String, LaibraryError>,
    metadata: PackageMetadataView,
    files: Seq<ParsedFileView>,
    entry_point: Seq<char>,
) -> bool {
    match documentation(metadata, files, entry_point) {
        Ok(text) => outcome matches Ok(written) && written@ == text,
        Err((kind, detail)) => outcome matches Err(error) && error.spec_kind() == kind
            && error.detail() == detail,
    }
}

/// Generates the API documentation of a library written in `language`,
/// given what the package says about itself and the source files found in
/// it.
///
/// A language without an analyser is refused before anything else is looked
/// at. For Rust the library starts at the first `src/lib.rs` among
/// `sources`, and without such a file the outcome is a parse failure that
/// names `src/lib.rs`. Otherwise the files are parsed, and the outcome is
/// what [`documentation`] says for the files with the trees that the parser
/// makes of them: the whole document, or a single failure.
pub fn generate_documentation(
    language: &str,
    metadata: &PackageMetadata,
    sources: &Vec<SourceFile>,
) -> (outcome: Result<String, LaibraryError>)
    ensures
        !is_supported(language@) ==> (outcome matches Err(error) && error.spec_kind()
            == ErrorKind::UnsupportedLanguage && error.detail() == language@),
        is_supported(language@) && entry_point_at(source_file_views(sources@)) >= sources@.len()
            ==> (outcome matches Err(error) && error.spec_kind() == ErrorKind::Parse
            && error.detail() == "src/lib.rs"@),
        is_supported(language@) && entry_point_at(source_file_views(sources@)) < sources@.len()
            ==> is_documentation(
            outcome,
            metadata@,
            parsed_files(source_file_views(sources@)),
            sources@[entry_point_at(source_file_views(sources@))].path@,
        ),
{
    let analyser = match get_analyser(language) {
        Ok(analyser) => analyser,
        Err(error) => {
            return Err(error);
        },
    };
    let namespaces = match analyser.extract_public_api(sources, metadata.name.as_str()) {
        Ok(namespaces) => namespaces,
        Err(error) => {
            return Err(error);
        },
    };
    let outcome = format_library_context(metadata, namespaces.as_slice(), &analyser);
    proof {
        let views = namespace_views(namespaces@);
        if outcome is Ok {
            let text = outcome->Ok_0;
            {
                let bodies = choose|bodies: Seq<String>|
                    {
                        &&& bodies.len() == namespaces@.len()
                        &&& forall|i: int|
                            0 <= i < bodies.len() ==> call_ensures(
                                RustAnalyser::format_namespace,
                                (&analyser, &namespaces@[i]),
                                Ok(#[trigger] bodies[i]),
                            )
                        &&& text@ == library_text(metadata@, views, texts(bodies))
                    };
                assert(texts(bodies) =~= rust_bodies(views));
            }
        } else {
            let error = outcome->Err_0;
            {
                let (failed, bodies) = choose|failed: int, bodies: Seq<String>|
                    {
                        &&& 0 <= failed < namespaces@.len()
                        &&& bodies.len() == failed
                        &&& forall|i: int|
                            0 <= i < failed ==> call_ensures(
                                RustAnalyser::format_namespace,
                                (&analyser, &namespaces@[i]),
                                Ok(#[trigger] bodies[i]),
                            )
                        &&& call_ensures(
                            RustAnalyser::format_namespace,
                            (&analyser, &namespaces@[failed]),
                            Err(error),
                        )
                    };
                assert(false);
            }
        }
    }
    outcome
}

} // verus!
