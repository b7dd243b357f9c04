//! What holds of every collection: the graph depends on which files there
//! are, not on the order in which they are listed.

use vstd::prelude::*;
use crate::text::lemma_first_where;
use super::items::{first_in_field, node_text};
use crate::types::SourceFileView;
use super::{parsed_file, parsed_files, public_api};
use super::symbol_collection::{
    ParsedFileView,
    collect_module,
    collect_submodule,
    collect_submodules,
    collected,
    file_at,
    flat_file_path,
    inner_doc,
    module_doc,
    module_file,
    nested_file_path,
    path_is,
    site_doc,
};
use super::syntax::SyntaxNodeView;

verus! {

/// Whether no two of `files` have the same path.
pub open spec fn paths_distinct(files: Seq<ParsedFileView>) -> bool {
    forall|i: int, j: int|
        0 <= i < j < files.len() ==> (#[trigger] files[i]).path != (#[trigger] files[j]).path
}

/// Whether `first` and `second` hold the same files.
pub open spec fn same_file_set(first: Seq<ParsedFileView>, second: Seq<ParsedFileView>) -> bool {
    &&& paths_distinct(first)
    &&& paths_distinct(second)
    &&& forall|file: ParsedFileView| first.contains(file) <==> second.contains(file)
}

/// Whether looking a path up in `first` gives what looking it up in
/// `second` gives.
pub open spec fn lookups_agree(first: Seq<ParsedFileView>, second: Seq<ParsedFileView>) -> bool {
    forall|path: Seq<char>|
        #![trigger file_at(first, path)]
        #![trigger file_at(second, path)]
        {
            &&& file_at(first, path) < first.len() <==> file_at(second, path) < second.len()
            &&& file_at(first, path) < first.len() ==> first[file_at(first, path)]
                == second[file_at(second, path)]
        }
}

/// A file that is found in one list is found in every list of the same
/// files, and it is the same file.
proof fn lemma_found_in_both(
    first: Seq<ParsedFileView>,
    second: Seq<ParsedFileView>,
    path: Seq<char>,
)
    requires
        paths_distinct(second),
        forall|file: ParsedFileView| first.contains(file) ==> second.contains(file),
        file_at(first, path) < first.len(),
    ensures
        file_at(second, path) < second.len(),
        first[file_at(first, path)] == second[file_at(second, path)],
{
    lemma_first_where(first, path_is(path));
    lemma_first_where(second, path_is(path));
    let found = first[file_at(first, path)];
    assert(first.contains(found));
    let at = choose|i: int| 0 <= i < second.len() && second[i] == found;
    assert(path_is(path)(second[at]));
    let other = file_at(second, path);
    if other < at {
        assert(second[other].path != second[at].path);
    }
    if at < other {
        assert(!path_is(path)(second[at]));
    }
}

/// Lists of the same files agree on every lookup.
pub proof fn lemma_same_files_agree(first: Seq<ParsedFileView>, second: Seq<ParsedFileView>)
    requires
        same_file_set(first, second),
    ensures
        lookups_agree(first, second),
{
    assert forall|path: Seq<char>|
        #![trigger file_at(first, path)]
        #![trigger file_at(second, path)]
        {
            &&& file_at(first, path) < first.len() <==> file_at(second, path) < second.len()
            &&& file_at(first, path) < first.len() ==> first[file_at(first, path)]
                == second[file_at(second, path)]
        } by {
        lemma_first_where(first, path_is(path));
        lemma_first_where(second, path_is(path));
        if file_at(first, path) < first.len() {
            lemma_found_in_both(first, second, path);
        }
        if file_at(second, path) < second.len() {
            lemma_found_in_both(second, first, path);
        }
    }
}

/// Lists of the same files have the same length.
pub proof fn lemma_same_files_same_length(first: Seq<ParsedFileView>, second: Seq<ParsedFileView>)
    requires
        same_file_set(first, second),
    ensures
        first.len() == second.len(),
{
    assert(first.no_duplicates());
    assert(second.no_duplicates());
    first.unique_seq_to_set();
    second.unique_seq_to_set();
    assert(first.to_set() =~= second.to_set());
}

/// Lists that agree on every lookup hold the same file for every module.
proof fn lemma_module_file_agrees(
    first: Seq<ParsedFileView>,
    second: Seq<ParsedFileView>,
    root: Seq<char>,
    segments: Seq<Seq<char>>,
)
    requires
        lookups_agree(first, second),
    ensures
        0 <= module_file(first, root, segments) < first.len() <==> 0 <= module_file(
            second,
            root,
            segments,
        ) < second.len(),
        0 <= module_file(first, root, segments) < first.len() ==> first[module_file(
            first,
            root,
            segments,
        )] == second[module_file(second, root, segments)],
{
    let flat = flat_file_path(root, segments);
    let nested = nested_file_path(root, segments);
    lemma_first_where(first, path_is(flat));
    lemma_first_where(second, path_is(flat));
    lemma_first_where(first, path_is(nested));
    lemma_first_where(second, path_is(nested));
    assert(file_at(first, flat) < first.len() <==> file_at(second, flat) < second.len());
    assert(file_at(first, nested) < first.len() <==> file_at(second, nested) < second.len());
}

/// What a module adds to the graph is the same for lists that agree on
/// every lookup.
pub proof fn lemma_collect_module_agrees(
    first: Seq<ParsedFileView>,
    second: Seq<ParsedFileView>,
    root: Seq<char>,
    source: Seq<char>,
    children: Seq<SyntaxNodeView>,
    segments: Seq<Seq<char>>,
    doc: Option<Seq<char>>,
    budget: nat,
)
    requires
        lookups_agree(first, second),
    ensures
        collect_module(first, root, source, children, segments, doc, budget) == collect_module(
            second,
            root,
            source,
            children,
            segments,
            doc,
            budget,
        ),
    decreases budget, children, children.len() + 1,
{
    lemma_collect_submodules_agree(
        first,
        second,
        root,
        source,
        children,
        segments,
        budget,
        children.len(),
    );
}

/// What the submodules of a body add to the graph is the same for lists
/// that agree on every lookup.
pub proof fn lemma_collect_submodules_agree(
    first: Seq<ParsedFileView>,
    second: Seq<ParsedFileView>,
    root: Seq<char>,
    source: Seq<char>,
    children: Seq<SyntaxNodeView>,
    segments: Seq<Seq<char>>,
    budget: nat,
    count: nat,
)
    requires
        lookups_agree(first, second),
    ensures
        collect_submodules(first, root, source, children, segments, budget, count)
            == collect_submodules(second, root, source, children, segments, budget, count),
    decreases budget, children, count,
{
    if !(count == 0 || count > children.len()) {
        lemma_collect_submodules_agree(
            first,
            second,
            root,
            source,
            children,
            segments,
            budget,
            (count - 1) as nat,
        );
        lemma_collect_submodule_agrees(
            first,
            second,
            root,
            source,
            children,
            segments,
            budget,
            count - 1,
        );
    }
}

/// What one declaration adds to the graph is the same for lists that agree
/// on every lookup.
pub proof fn lemma_collect_submodule_agrees(
    first: Seq<ParsedFileView>,
    second: Seq<ParsedFileView>,
    root: Seq<char>,
    source: Seq<char>,
    children: Seq<SyntaxNodeView>,
    segments: Seq<Seq<char>>,
    budget: nat,
    at: int,
)
    requires
        lookups_agree(first, second),
    ensures
        collect_submodule(first, root, source, children, segments, budget, at)
            == collect_submodule(second, root, source, children, segments, budget, at),
    decreases budget, children, 0nat,
{
    if 0 <= at < children.len() {
        let node = children[at];
        let name = first_in_field(node.children, "name"@);
        let body = first_in_field(node.children, "body"@);
        if node.kind == "mod_item"@ && 0 <= name < node.children.len() {
            let inner = segments.push(node_text(source, node.children[name]));
            let site = site_doc(source, children, at);
            if 0 <= body < node.children.len() {
                let items = node.children[body].children;
                lemma_collect_module_agrees(
                    first,
                    second,
                    root,
                    source,
                    items,
                    inner,
                    module_doc(site, inner_doc(source, items)),
                    budget,
                );
            } else {
                lemma_module_file_agrees(first, second, root, inner);
                let file = module_file(first, root, inner);
                if 0 <= file < first.len() && budget > 0 {
                    match first[file].tree {
                        None => {},
                        Some(tree) => {
                            lemma_collect_module_agrees(
                                first,
                                second,
                                root,
                                first[file].content,
                                tree.children,
                                inner,
                                module_doc(site, inner_doc(first[file].content, tree.children)),
                                (budget - 1) as nat,
                            );
                        },
                    }
                }
            }
        }
    }
}

/// Order of the files: two lists of the same files, each with one file per
/// path, give the same raw module graph, and with it the same namespaces or
/// the same failure, whatever the order in which each lists the files.
pub proof fn law_file_order_is_irrelevant(
    first: Seq<ParsedFileView>,
    second: Seq<ParsedFileView>,
    entry_point: Seq<char>,
    crate_name: Seq<char>,
)
    requires
        same_file_set(first, second),
    ensures
        collected(first, entry_point) == collected(second, entry_point),
        public_api(first, entry_point, crate_name) == public_api(second, entry_point, crate_name),
{
    lemma_same_files_agree(first, second);
    lemma_same_files_same_length(first, second);
    lemma_first_where(first, path_is(entry_point));
    lemma_first_where(second, path_is(entry_point));
    let entry = file_at(first, entry_point);
    if 0 <= entry < first.len() {
        match first[entry].tree {
            None => {},
            Some(tree) => {
                lemma_collect_module_agrees(
                    first,
                    second,
                    super::symbol_collection::directory_prefix(entry_point),
                    first[entry].content,
                    tree.children,
                    Seq::empty(),
                    inner_doc(first[entry].content, tree.children),
                    first.len(),
                );
            },
        }
    }
}

/// Whether no two of `sources` have the same path.
pub open spec fn source_paths_distinct(sources: Seq<SourceFileView>) -> bool {
    forall|i: int, j: int|
        0 <= i < j < sources.len() ==> (#[trigger] sources[i]).path != (#[trigger] sources[j]).path
}

/// Every parsed file is the parsed form of a source file, and the other way
/// round.
proof fn lemma_parsed_files_contain(
    first: Seq<SourceFileView>,
    second: Seq<SourceFileView>,
    file: ParsedFileView,
)
    requires
        forall|source: SourceFileView| first.contains(source) ==> second.contains(source),
        parsed_files(first).contains(file),
    ensures
        parsed_files(second).contains(file),
{
    let at = choose|i: int| 0 <= i < parsed_files(first).len() && parsed_files(first)[i] == file;
    assert(first.contains(first[at]));
    let other = choose|j: int| 0 <= j < second.len() && second[j] == first[at];
    assert(parsed_files(second)[other] == parsed_file(second[other]));
}

/// Order of the source files: two lists of the same source files, each
/// with one file per path, give the same namespaces or the same failure,
/// whatever the order in which each lists the files.
pub proof fn law_source_order_is_irrelevant(
    first: Seq<SourceFileView>,
    second: Seq<SourceFileView>,
    entry_point: Seq<char>,
    crate_name: Seq<char>,
)
    requires
        source_paths_distinct(first),
        source_paths_distinct(second),
        forall|source: SourceFileView| first.contains(source) <==> second.contains(source),
    ensures
        public_api(parsed_files(first), entry_point, crate_name) == public_api(
            parsed_files(second),
            entry_point,
            crate_name,
        ),
{
    let parsed_first = parsed_files(first);
    let parsed_second = parsed_files(second);
    assert forall|file: ParsedFileView|
        parsed_first.contains(file) <==> parsed_second.contains(file) by {
        if parsed_first.contains(file) {
            lemma_parsed_files_contain(first, second, file);
        }
        if parsed_second.contains(file) {
            lemma_parsed_files_contain(second, first, file);
        }
    }
    assert(paths_distinct(parsed_first)) by {
        assert forall|i: int, j: int| 0 <= i < j < parsed_first.len() implies (
        #[trigger] parsed_first[i]).path != (#[trigger] parsed_first[j]).path by {
            assert(first[i].path != first[j].path);
        }
    }
    assert(paths_distinct(parsed_second)) by {
        assert forall|i: int, j: int| 0 <= i < j < parsed_second.len() implies (
        #[trigger] parsed_second[i]).path != (#[trigger] parsed_second[j]).path by {
            assert(second[i].path != second[j].path);
        }
    }
    law_file_order_is_irrelevant(parsed_first, parsed_second, entry_point, crate_name);
}

} // verus!
