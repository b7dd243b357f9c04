//! From source files to the namespaces of a Rust library.

pub mod collection_laws;
pub mod items;
pub mod namespace_construction;
pub mod resolution_laws;
pub mod symbol_collection;
pub mod symbol_resolution;
pub mod syntax;
pub mod use_paths;

use vstd::prelude::*;
use vstd::string::*;
use crate::error::{ErrorKind, LaibraryError};
use crate::types::{
    Namespace,
    NamespaceView,
    SourceFile,
    SourceFileView,
    namespace_views,
    source_file_views,
};
use self::namespace_construction::{construct_namespaces, namespaces_of};
use self::symbol_collection::{
    ParsedFile,
    ParsedFileView,
    RawModuleGraphView,
    collect_symbols,
    collected,
    parsed_views,
};
use self::symbol_resolution::{cycle_detail, is_unending, resolve_symbols, resolved};
use self::syntax::{parse_source, rust_syntax, syntax_tree};

verus! {

/// Whether the search behind some edge of `graph` never ends.
pub open spec fn has_cycle(graph: RawModuleGraphView) -> bool {
    exists|edge: int| 0 <= edge < graph.reexports.len() && is_unending(graph, edge)
}

/// Whether `edge` is the first edge of `graph` whose search never ends.
pub open spec fn is_first_cycle(graph: RawModuleGraphView, edge: int) -> bool {
    &&& 0 <= edge < graph.reexports.len()
    &&& is_unending(graph, edge)
    &&& forall|i: int| 0 <= i < edge ==> !is_unending(graph, i)
}

/// The first edge of `graph` whose search never ends.
pub open spec fn first_cycle(graph: RawModuleGraphView) -> int {
    choose|edge: int| is_first_cycle(graph, edge)
}

/// The namespaces of the library that `files` hold and whose entry point is
/// `entry_point`, or the kind and the detail of the failure: a parse
/// failure when collection fails, else a re-export cycle when the search
/// behind some edge never ends.
pub open spec fn public_api(
    files: Seq<ParsedFileView>,
    entry_point: Seq<char>,
    crate_name: Seq<char>,
) -> Result<Seq<NamespaceView>, (ErrorKind, Seq<char>)> {
    match collected(files, entry_point) {
        Err(path) => Err((ErrorKind::Parse, path)),
        Ok(graph) => if has_cycle(graph) {
            Err((ErrorKind::ReExportCycle, cycle_detail(graph.reexports[first_cycle(graph)])))
        } else {
            Ok(namespaces_of(resolved(graph), crate_name))
        },
    }
}

/// A source file with the tree that the parser makes of its content.
pub open spec fn parsed_file(file: SourceFileView) -> ParsedFileView {
    ParsedFileView {
        path: file.path,
        content: file.content,
        tree: syntax_tree(rust_syntax(file.content)),
    }
}

/// The source files, in order, each with the tree that the parser makes of
/// its content.
pub open spec fn parsed_files(sources: Seq<SourceFileView>) -> Seq<ParsedFileView> {
    sources.map_values(|file: SourceFileView| parsed_file(file))
}

/// Whether `outcome` is what [`public_api`] says for `files`.
pub open spec fn is_public_api(
    outcome: Result<Vec<Namespace>, LaibraryError>,
    files: Seq<ParsedFileView>,
    entry_point: Seq<char>,
    crate_name: Seq<char>,
) -> bool {
    match public_api(files, entry_point, crate_name) {
        Ok(namespaces) => outcome matches Ok(built) && namespace_views(built@) == namespaces,
        Err((kind, detail)) => outcome matches Err(error) && error.spec_kind() == kind
            && error.detail() == detail,
    }
}

/// Parses every source file.
pub fn parse_sources(sources: &Vec<SourceFile>) -> (parsed: Vec<ParsedFile>)
    ensures
        parsed_views(parsed@) == parsed_files(source_file_views(sources@)),
{
    let ghost wanted = parsed_files(source_file_views(sources@));
    let mut parsed: Vec<ParsedFile> = Vec::new();
    let mut i: usize = 0;
    proof {
        assert(parsed_views(parsed@) =~= wanted.take(0));
    }
    while i < sources.len()
        invariant
            i <= sources.len(),
            wanted == parsed_files(source_file_views(sources@)),
            parsed_views(parsed@) == wanted.take(i as int),
        decreases sources.len() - i,
    {
        let file = ParsedFile {
            path: sources[i].path.clone(),
            content: sources[i].content.clone(),
            tree: parse_source(sources[i].content.as_str()),
        };
        let ghost before = parsed@;
        proof {
            assert(source_file_views(sources@)[i as int] == sources@[i as int]@);
            assert(file@ == wanted[i as int]);
        }
        parsed.push(file);
        proof {
            assert(parsed_views(parsed@) =~= parsed_views(before).push(file@));
            assert(parsed_views(parsed@) =~= wanted.take(i as int + 1));
        }
        i += 1;
    }
    proof {
        assert(wanted.take(sources@.len() as int) =~= wanted);
    }
    parsed
}

/// Builds the namespaces of the library that the parsed files hold:
/// collects the raw module graph from the entry point, resolves its
/// re-exports, and groups the resolved symbols by module path.
pub fn namespaces_of_parsed(files: &Vec<ParsedFile>, entry_point: &str, crate_name: &str) -> (outcome:
    Result<Vec<Namespace>, LaibraryError>)
    ensures
        is_public_api(outcome, parsed_views(files@), entry_point@, crate_name@),
{
    match collect_symbols(files, entry_point) {
        Err(error) => Err(error),
        Ok(graph) => match resolve_symbols(&graph) {
            Err(error) => {
                proof {
                    let edge = choose|edge: int|
                        {
                            &&& 0 <= edge < graph@.reexports.len()
                            &&& #[trigger] is_unending(graph@, edge)
                            &&& forall|i: int| 0 <= i < edge ==> !is_unending(graph@, i)
                            &&& error.spec_kind() == ErrorKind::ReExportCycle
                            &&& error.detail() == cycle_detail(graph@.reexports[edge])
                        };
                    assert(is_first_cycle(graph@, edge));
                    let first = first_cycle(graph@);
                    assert(is_first_cycle(graph@, first));
                    if first < edge {
                        assert(!is_unending(graph@, first));
                    }
                    if edge < first {
                        assert(!is_unending(graph@, edge));
                    }
                }
                Err(error)
            },
            Ok(resolution) => Ok(construct_namespaces(resolution, crate_name)),
        },
    }
}

/// Builds the namespaces of the library whose source files are `sources`
/// and whose entry point is the file `entry_point`.
///
/// The files are parsed, and the outcome is what [`public_api`] says for
/// the files with the trees that the parser makes of them.
pub fn build_public_api(sources: &Vec<SourceFile>, entry_point: &str, crate_name: &str) -> (outcome:
    Result<Vec<Namespace>, LaibraryError>)
    ensures
        is_public_api(
            outcome,
            parsed_files(source_file_views(sources@)),
            entry_point@,
            crate_name@,
        ),
{
    let parsed = parse_sources(sources);
    namespaces_of_parsed(&parsed, entry_point, crate_name)
}

} // verus!
