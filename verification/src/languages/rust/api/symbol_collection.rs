//! The raw module graph: what each module of a library declares and
//! re-exports, before any re-export is followed.

use vstd::prelude::*;
use vstd::string::*;
use crate::error::LaibraryError;
use crate::text::{
    first_where,
    join_texts,
    joined,
    lemma_first_where_is,
    lemma_texts_push,
    option_text,
    push_text,
    texts,
};
use crate::types::{Symbol, SymbolView, lemma_symbol_views_push, symbol_views};
use super::items::{
    attached_from,
    child_in_field,
    doc_between,
    first_attached,
    first_in_field,
    item_symbol,
    node_text,
    read_docs,
    read_symbol,
    text_of,
};
use super::syntax::{SyntaxNode, SyntaxNodeView, lemma_children_view};
use super::use_paths::{copy_texts, push_use_reexports, use_reexports};

verus! {

/// How far a `pub use` publishes a name.
#[derive(Debug, Clone, Copy, PartialEq, Eq, Structural)]
pub enum Visibility {
    /// `pub`: part of the public surface.
    Public,
    /// `pub(crate)`, `pub(super)`, `pub(in ..)`: visible inside the crate
    /// only. Other re-exports may pass through it, but it publishes nothing.
    Restricted,
}

/// One re-export edge: `module` publishes, as `exported_name`, the item
/// `source_name` that it imports from `source_module`. Module paths are
/// absolute and join their segments with `::`.
#[derive(Debug, PartialEq, Eq)]
pub struct ReExport {
    pub module: String,
    pub source_module: String,
    pub source_name: String,
    pub exported_name: String,
    pub visibility: Visibility,
}

/// The value of a [`ReExport`].
pub struct ReExportView {
    pub module: Seq<char>,
    pub source_module: Seq<char>,
    pub source_name: Seq<char>,
    pub exported_name: Seq<char>,
    pub visibility: Visibility,
}

impl View for ReExport {
    type V = ReExportView;

    open spec fn view(&self) -> ReExportView {
        ReExportView {
            module: self.module@,
            source_module: self.source_module@,
            source_name: self.source_name@,
            exported_name: self.exported_name@,
            visibility: self.visibility,
        }
    }
}

/// One module of the library: its path, the public items declared in it, and
/// its doc comment.
#[derive(Debug, PartialEq, Eq)]
pub struct RawModule {
    pub path: String,
    pub symbols: Vec<Symbol>,
    pub doc_comment: Option<String>,
}

/// The value of a [`RawModule`].
pub struct RawModuleView {
    pub path: Seq<char>,
    pub symbols: Seq<SymbolView>,
    pub doc_comment: Option<Seq<char>>,
}

impl View for RawModule {
    type V = RawModuleView;

    open spec fn view(&self) -> RawModuleView {
        RawModuleView {
            path: self.path@,
            symbols: symbol_views(self.symbols@),
            doc_comment: option_text(self.doc_comment),
        }
    }
}

/// Every module reachable from the entry point of a library, and every
/// re-export edge between them.
#[derive(Debug, PartialEq, Eq)]
pub struct RawModuleGraph {
    pub modules: Vec<RawModule>,
    pub reexports: Vec<ReExport>,
}

/// The value of a [`RawModuleGraph`].
pub struct RawModuleGraphView {
    pub modules: Seq<RawModuleView>,
    pub reexports: Seq<ReExportView>,
}

/// The values of a sequence of modules.
pub open spec fn module_views(modules: Seq<RawModule>) -> Seq<RawModuleView> {
    modules.map_values(|m: RawModule| m@)
}

/// The values of a sequence of re-export edges.
pub open spec fn reexport_views(reexports: Seq<ReExport>) -> Seq<ReExportView> {
    reexports.map_values(|e: ReExport| e@)
}

impl View for RawModuleGraph {
    type V = RawModuleGraphView;

    open spec fn view(&self) -> RawModuleGraphView {
        RawModuleGraphView {
            modules: module_views(self.modules@),
            reexports: reexport_views(self.reexports@),
        }
    }
}

/// A source file together with the syntax tree that the parser made of its
/// content, if it made one.
#[derive(Debug, PartialEq, Eq)]
pub struct ParsedFile {
    pub path: String,
    pub content: String,
    pub tree: Option<SyntaxNode>,
}

/// The value of a [`ParsedFile`].
pub struct ParsedFileView {
    pub path: Seq<char>,
    pub content: Seq<char>,
    pub tree: Option<SyntaxNodeView>,
}

impl View for ParsedFile {
    type V = ParsedFileView;

    open spec fn view(&self) -> ParsedFileView {
        ParsedFileView {
            path: self.path@,
            content: self.content@,
            tree: match self.tree {
                Some(tree) => Some(tree@),
                None => None,
            },
        }
    }
}

/// The values of a sequence of parsed files.
pub open spec fn parsed_views(files: Seq<ParsedFile>) -> Seq<ParsedFileView> {
    files.map_values(|f: ParsedFile| f@)
}

/// The symbols that the first `count` of `children` declare.
pub open spec fn body_symbols(source: Seq<char>, children: Seq<SyntaxNodeView>, count: nat) -> Seq<
    SymbolView,
>
    decreases count,
{
    if count == 0 || count > children.len() {
        Seq::empty()
    } else {
        let before = body_symbols(source, children, (count - 1) as nat);
        match item_symbol(source, children, count - 1) {
            Some(symbol) => before.push(symbol),
            None => before,
        }
    }
}

/// The edges that the first `count` of `children` make in the module
/// `current`.
pub open spec fn body_reexports(
    source: Seq<char>,
    children: Seq<SyntaxNodeView>,
    current: Seq<Seq<char>>,
    count: nat,
) -> Seq<ReExportView>
    decreases count,
{
    if count == 0 || count > children.len() {
        Seq::empty()
    } else {
        body_reexports(source, children, current, (count - 1) as nat) + use_reexports(
            source,
            children[count - 1],
            current,
        )
    }
}

/// The test for files with one path.
pub open spec fn path_is(path: Seq<char>) -> spec_fn(ParsedFileView) -> bool {
    |file: ParsedFileView| file.path == path
}

/// The position of the first of `files` whose path is `path`, or their
/// number.
pub open spec fn file_at(files: Seq<ParsedFileView>, path: Seq<char>) -> int {
    first_where(files, path_is(path))
}

/// The path of the file that holds the module `segments` when the module
/// is a file of its own name: `a/b.rs` for `a::b`.
pub open spec fn flat_file_path(root: Seq<char>, segments: Seq<Seq<char>>) -> Seq<char> {
    root + joined(segments, "/"@) + ".rs"@
}

/// The path of the file that holds the module `segments` when the module
/// is a directory: `a/b/mod.rs` for `a::b`.
pub open spec fn nested_file_path(root: Seq<char>, segments: Seq<Seq<char>>) -> Seq<char> {
    root + joined(segments, "/"@) + "/mod.rs"@
}

/// The position of the file that holds the module `segments`, or the
/// number of files when none does. `root` is the directory of the entry
/// point, with the `/` that ends it.
pub open spec fn module_file(
    files: Seq<ParsedFileView>,
    root: Seq<char>,
    segments: Seq<Seq<char>>,
) -> int {
    if file_at(files, flat_file_path(root, segments)) < files.len() {
        file_at(files, flat_file_path(root, segments))
    } else {
        file_at(files, nested_file_path(root, segments))
    }
}

/// The inner doc comments of a module body, as one text.
pub open spec fn inner_doc(source: Seq<char>, children: Seq<SyntaxNodeView>) -> Option<Seq<char>> {
    doc_between(source, children, 0, children.len() as int, "inner_doc_comment_marker"@)
}

/// The outer doc comments attached to the declaration at position `at`, as
/// one text.
pub open spec fn site_doc(source: Seq<char>, children: Seq<SyntaxNodeView>, at: int) -> Option<
    Seq<char>,
> {
    doc_between(source, children, attached_from(children, at), at, "outer_doc_comment_marker"@)
}

/// The doc comment of a module: the one at its declaration where there is
/// one, else the one at the top of its body.
pub open spec fn module_doc(site: Option<Seq<char>>, inner: Option<Seq<char>>) -> Option<
    Seq<char>,
> {
    match site {
        Some(doc) => Some(doc),
        None => inner,
    }
}

/// The graph without modules and edges.
pub open spec fn empty_graph() -> RawModuleGraphView {
    RawModuleGraphView { modules: Seq::empty(), reexports: Seq::empty() }
}

/// The modules and edges of `first`, then those of `second`.
pub open spec fn graphs_joined(first: RawModuleGraphView, second: RawModuleGraphView)
    -> RawModuleGraphView {
    RawModuleGraphView {
        modules: first.modules + second.modules,
        reexports: first.reexports + second.reexports,
    }
}

/// What the module `segments` with the body `children` adds to the graph:
/// the module itself with the public items that the body declares, the
/// edges of its `use` declarations, and then, in the order of their
/// declarations, everything that its submodules add. Fails with the path of
/// the first file that is missing or has no syntax tree.
///
/// `budget` is the number of files that may still be entered one inside the
/// other; with as many as there are files it does not run out, since a
/// module never lies in a file that holds a module around it.
pub open spec fn collect_module(
    files: Seq<ParsedFileView>,
    root: Seq<char>,
    source: Seq<char>,
    children: Seq<SyntaxNodeView>,
    segments: Seq<Seq<char>>,
    doc: Option<Seq<char>>,
    budget: nat,
) -> Result<RawModuleGraphView, Seq<char>>
    decreases budget, children, children.len() + 1,
{
    let own = RawModuleGraphView {
        modules: seq![
            RawModuleView {
                path: joined(segments, "::"@),
                symbols: body_symbols(source, children, children.len()),
                doc_comment: doc,
            },
        ],
        reexports: body_reexports(source, children, segments, children.len()),
    };
    match collect_submodules(files, root, source, children, segments, budget, children.len()) {
        Ok(below) => Ok(graphs_joined(own, below)),
        Err(path) => Err(path),
    }
}

/// What the submodules declared by the first `count` of `children` add to
/// the graph. A module with a body is read from the body; one without is
/// read from its file.
pub open spec fn collect_submodules(
    files: Seq<ParsedFileView>,
    root: Seq<char>,
    source: Seq<char>,
    children: Seq<SyntaxNodeView>,
    segments: Seq<Seq<char>>,
    budget: nat,
    count: nat,
) -> Result<RawModuleGraphView, Seq<char>>
    decreases budget, children, count,
{
    if count == 0 || count > children.len() {
        Ok(empty_graph())
    } else {
        match collect_submodules(files, root, source, children, segments, budget, (count - 1) as nat) {
            Err(path) => Err(path),
            Ok(before) => match collect_submodule(
                files,
                root,
                source,
                children,
                segments,
                budget,
                count - 1,
            ) {
                Err(path) => Err(path),
                Ok(found) => Ok(graphs_joined(before, found)),
            },
        }
    }
}

/// What the child at position `at` adds to the graph when it declares a
/// module, and nothing when it does not.
pub open spec fn collect_submodule(
    files: Seq<ParsedFileView>,
    root: Seq<char>,
    source: Seq<char>,
    children: Seq<SyntaxNodeView>,
    segments: Seq<Seq<char>>,
    budget: nat,
    at: int,
) -> Result<RawModuleGraphView, Seq<char>>
    decreases budget, children, 0nat,
{
    if 0 <= at < children.len() {
        let node = children[at];
        let name = first_in_field(node.children, "name"@);
        let body = first_in_field(node.children, "body"@);
        if node.kind == "mod_item"@ && 0 <= name < node.children.len() {
            let inner = segments.push(node_text(source, node.children[name]));
            let site = site_doc(source, children, at);
            if 0 <= body < node.children.len() {
                let items = node.children[body].children;
                collect_module(
                    files,
                    root,
                    source,
                    items,
                    inner,
                    module_doc(site, inner_doc(source, items)),
                    budget,
                )
            } else {
                let file = module_file(files, root, inner);
                if !(0 <= file < files.len()) {
                    Err(flat_file_path(root, inner))
                } else if budget == 0 {
                    Err(files[file].path)
                } else {
                    match files[file].tree {
                        None => Err(files[file].path),
                        Some(tree) => collect_module(
                            files,
                            root,
                            files[file].content,
                            tree.children,
                            inner,
                            module_doc(site, inner_doc(files[file].content, tree.children)),
                            (budget - 1) as nat,
                        ),
                    }
                }
            }
        } else {
            Ok(empty_graph())
        }
    } else {
        Ok(empty_graph())
    }
}

/// Once the submodules of a body have failed, taking more of the body into
/// account does not mend it.
pub proof fn lemma_submodules_error_stays(
    files: Seq<ParsedFileView>,
    root: Seq<char>,
    source: Seq<char>,
    children: Seq<SyntaxNodeView>,
    segments: Seq<Seq<char>>,
    budget: nat,
    fewer: nat,
    more: nat,
)
    requires
        fewer <= more <= children.len(),
        collect_submodules(files, root, source, children, segments, budget, fewer) is Err,
    ensures
        collect_submodules(files, root, source, children, segments, budget, more)
            == collect_submodules(files, root, source, children, segments, budget, fewer),
    decreases more,
{
    if fewer < more {
        lemma_submodules_error_stays(
            files,
            root,
            source,
            children,
            segments,
            budget,
            fewer,
            (more - 1) as nat,
        );
    }
}

/// The part of `path` up to and with its last `/`: the directory that the
/// file lies in. Empty for a path without `/`.
pub open spec fn directory_prefix(path: Seq<char>) -> Seq<char>
    decreases path.len(),
{
    if path.len() == 0 {
        Seq::empty()
    } else if path.last() == '/' {
        path
    } else {
        directory_prefix(path.drop_last())
    }
}

/// The directory that the file `path` lies in, with the `/` that ends it.
pub fn directory_of(path: &str) -> (directory: String)
    ensures
        directory@ == directory_prefix(path@),
{
    let mut end: usize = path.unicode_len();
    proof {
        assert(path@.take(end as int) =~= path@);
    }
    while end > 0
        invariant
            end <= path@.len(),
            directory_prefix(path@) == directory_prefix(path@.take(end as int)),
        decreases end,
    {
        proof {
            assert(path@.take(end as int).last() == path@[end - 1]);
            assert(path@.take(end as int).drop_last() =~= path@.take(end - 1));
        }
        if path.get_char(end - 1) == '/' {
            proof {
                assert(path@.subrange(0, end as int) =~= path@.take(end as int));
            }
            return path.substring_char(0, end).to_owned();
        }
        end -= 1;
    }
    String::new()
}

/// Finds the first file with the given path.
pub fn find_file(files: &Vec<ParsedFile>, path: &str) -> (at: usize)
    ensures
        at == file_at(parsed_views(files@), path@),
        at <= files@.len(),
{
    let ghost views = parsed_views(files@);
    let mut i: usize = 0;
    while i < files.len()
        invariant
            i <= files.len(),
            views == parsed_views(files@),
            forall|k: int| 0 <= k < i ==> !path_is(path@)(#[trigger] views[k]),
        decreases files.len() - i,
    {
        proof {
            assert(views[i as int] == files@[i as int]@);
        }
        if files[i].path.as_str().eq(path) {
            proof {
                lemma_first_where_is(views, path_is(path@), i as int);
            }
            return i;
        }
        i += 1;
    }
    proof {
        lemma_first_where_is(views, path_is(path@), i as int);
    }
    i
}

/// The path of the file that holds the module `segments` when the module
/// is a file of its own name.
pub fn flat_path(root: &str, segments: &Vec<String>) -> (path: String)
    ensures
        path@ == flat_file_path(root@, texts(segments@)),
{
    let mut path = root.to_owned();
    push_text(&mut path, join_texts(segments, "/").as_str());
    push_text(&mut path, ".rs");
    path
}

/// Finds the file that holds the module `segments`.
pub fn find_module_file(files: &Vec<ParsedFile>, root: &str, segments: &Vec<String>) -> (at: usize)
    ensures
        at == module_file(parsed_views(files@), root@, texts(segments@)),
        at <= files@.len(),
{
    let flat = find_file(files, flat_path(root, segments).as_str());
    if flat < files.len() {
        return flat;
    }
    let mut nested = root.to_owned();
    push_text(&mut nested, join_texts(segments, "/").as_str());
    push_text(&mut nested, "/mod.rs");
    find_file(files, nested.as_str())
}

/// Whether `error` is a parse failure with the detail `detail`.
pub open spec fn is_parse_error(error: LaibraryError, detail: Seq<char>) -> bool {
    error.spec_kind() == crate::error::ErrorKind::Parse && error.detail() == detail
}

/// Pushing a module pushes its value.
pub proof fn lemma_module_views_push(modules: Seq<RawModule>, last: RawModule)
    ensures
        module_views(modules.push(last)) == module_views(modules).push(last@),
{
    assert(module_views(modules.push(last)) =~= module_views(modules).push(last@));
}

/// The public items that the body of `parent` declares.
fn read_body_symbols(source: &str, parent: &SyntaxNode) -> (symbols: Vec<Symbol>)
    ensures
        symbol_views(symbols@) == body_symbols(
            source@,
            parent@.children,
            parent@.children.len(),
        ),
{
    let mut symbols: Vec<Symbol> = Vec::new();
    let mut i: usize = 0;
    proof {
        lemma_children_view(parent);
        assert(symbol_views(symbols@) =~= body_symbols(source@, parent@.children, 0));
    }
    while i < parent.children.len()
        invariant
            i <= parent.children.len(),
            parent@.children.len() == parent.children@.len(),
            symbol_views(symbols@) == body_symbols(source@, parent@.children, i as nat),
        decreases parent.children.len() - i,
    {
        match read_symbol(source, parent, i) {
            Some(symbol) => {
                let ghost before = symbols@;
                symbols.push(symbol);
                proof {
                    lemma_symbol_views_push(before, symbol);
                }
            },
            None => {},
        }
        i += 1;
    }
    symbols
}

/// Appends to `out` the edges that the body of `parent` makes in the module
/// `segments`.
fn push_body_reexports(
    source: &str,
    parent: &SyntaxNode,
    segments: &Vec<String>,
    out: &mut Vec<ReExport>,
)
    ensures
        reexport_views(final(out)@) == reexport_views(old(out)@) + body_reexports(
            source@,
            parent@.children,
            texts(segments@),
            parent@.children.len(),
        ),
{
    let ghost start = reexport_views(out@);
    let mut i: usize = 0;
    proof {
        lemma_children_view(parent);
        assert(start + body_reexports(source@, parent@.children, texts(segments@), 0) =~= start);
    }
    while i < parent.children.len()
        invariant
            i <= parent.children.len(),
            parent@.children.len() == parent.children@.len(),
            forall|k: int|
                0 <= k < parent.children@.len() ==> parent@.children[k]
                    == #[trigger] parent.children@[k]@,
            reexport_views(out@) == start + body_reexports(
                source@,
                parent@.children,
                texts(segments@),
                i as nat,
            ),
        decreases parent.children.len() - i,
    {
        push_use_reexports(source, &parent.children[i], segments, out);
        proof {
            assert(reexport_views(out@) =~= start + body_reexports(
                source@,
                parent@.children,
                texts(segments@),
                (i + 1) as nat,
            ));
        }
        i += 1;
    }
}

/// The doc comment of a module: the one read at its declaration where
/// there is one, else the inner doc comments of its body.
fn read_module_doc(site: Option<String>, source: &str, body: &SyntaxNode) -> (doc: Option<String>)
    ensures
        option_text(doc) == module_doc(option_text(site), inner_doc(source@, body@.children)),
{
    proof {
        lemma_children_view(body);
    }
    match site {
        Some(doc) => Some(doc),
        None => read_docs(source, body, 0, body.children.len(), "inner_doc_comment_marker"),
    }
}

/// Adds to `graph` what the module `segments`, whose body is that of
/// `parent`, adds to the graph.
fn collect_into(
    files: &Vec<ParsedFile>,
    root: &str,
    source: &str,
    parent: &SyntaxNode,
    segments: &Vec<String>,
    doc: Option<String>,
    budget: usize,
    graph: &mut RawModuleGraph,
) -> (outcome: Result<(), LaibraryError>)
    ensures
        match collect_module(
            parsed_views(files@),
            root@,
            source@,
            parent@.children,
            texts(segments@),
            option_text(doc),
            budget as nat,
        ) {
            Ok(found) => {
                &&& outcome is Ok
                &&& final(graph)@.modules == old(graph)@.modules + found.modules
                &&& final(graph)@.reexports == old(graph)@.reexports + found.reexports
            },
            Err(path) => outcome matches Err(error) && is_parse_error(error, path),
        },
    decreases budget, parent,
{
    let ghost views = parsed_views(files@);
    let ghost children = parent@.children;
    let ghost current = texts(segments@);
    let ghost start = graph@;
    let symbols = read_body_symbols(source, parent);
    let module = RawModule { path: join_texts(segments, "::"), symbols, doc_comment: doc };
    let ghost own_module = module@;
    let ghost own_edges = body_reexports(source@, children, current, children.len());
    proof {
        lemma_children_view(parent);
        lemma_module_views_push(graph.modules@, module);
    }
    graph.modules.push(module);
    push_body_reexports(source, parent, segments, &mut graph.reexports);
    let mut k: usize = 0;
    proof {
        assert(graph@.modules =~= start.modules + seq![own_module] + empty_graph().modules);
        assert(graph@.reexports =~= start.reexports + own_edges + empty_graph().reexports);
    }
    while k < parent.children.len()
        invariant
            k <= parent.children.len(),
            views == parsed_views(files@),
            children == parent@.children,
            current == texts(segments@),
            children.len() == parent.children@.len(),
            forall|i: int|
                0 <= i < parent.children@.len() ==> children[i] == #[trigger] parent.children@[i]@,
            collect_submodules(views, root@, source@, children, current, budget as nat, k as nat) is Ok,
            graph@.modules == start.modules + seq![own_module] + collect_submodules(
                views,
                root@,
                source@,
                children,
                current,
                budget as nat,
                k as nat,
            )->Ok_0.modules,
            graph@.reexports == start.reexports + own_edges + collect_submodules(
                views,
                root@,
                source@,
                children,
                current,
                budget as nat,
                k as nat,
            )->Ok_0.reexports,
        decreases parent.children.len() - k,
    {
        let ghost before = collect_submodules(
            views,
            root@,
            source@,
            children,
            current,
            budget as nat,
            k as nat,
        )->Ok_0;
        let ghost modules_before = graph@.modules;
        let ghost edges_before = graph@.reexports;
        let node = &parent.children[k];
        proof {
            lemma_children_view(node);
        }
        let name = child_in_field(node, "name");
        let mut added: Result<(), LaibraryError> = Ok(());
        if node.kind.as_str().eq("mod_item") && name < node.children.len() {
            let mut inner = copy_texts(segments);
            let ghost copied = inner@;
            inner.push(text_of(source, &node.children[name]).to_owned());
            proof {
                lemma_texts_push(copied, inner@.last());
                assert(texts(inner@) =~= current.push(node_text(source@, node@.children[name as int])));
            }
            let from = first_attached(parent, k);
            let site = read_docs(source, parent, from, k, "outer_doc_comment_marker");
            let body = child_in_field(node, "body");
            if body < node.children.len() {
                let items = &node.children[body];
                let doc = read_module_doc(site, source, items);
                added = collect_into(files, root, source, items, &inner, doc, budget, graph);
            } else {
                let file = find_module_file(files, root, &inner);
                if file >= files.len() {
                    added = Err(LaibraryError::Parse(flat_path(root, &inner)));
                } else {
                    proof {
                        assert(views[file as int] == files@[file as int]@);
                    }
                    if budget == 0 {
                        added = Err(LaibraryError::Parse(files[file].path.clone()));
                    } else {
                        match &files[file].tree {
                            None => {
                                added = Err(LaibraryError::Parse(files[file].path.clone()));
                            },
                            Some(tree) => {
                                let doc = read_module_doc(site, files[file].content.as_str(), tree);
                                added =
                                collect_into(
                                    files,
                                    root,
                                    files[file].content.as_str(),
                                    tree,
                                    &inner,
                                    doc,
                                    budget - 1,
                                    graph,
                                );
                            },
                        }
                    }
                }
            }
        }
        match added {
            Ok(()) => {
                proof {
                    let found = collect_submodule(
                        views,
                        root@,
                        source@,
                        children,
                        current,
                        budget as nat,
                        k as int,
                    )->Ok_0;
                    assert(graph@.modules =~= start.modules + seq![own_module] + graphs_joined(
                        before,
                        found,
                    ).modules);
                    assert(graph@.reexports =~= start.reexports + own_edges + graphs_joined(
                        before,
                        found,
                    ).reexports);
                }
            },
            Err(error) => {
                proof {
                    lemma_submodules_error_stays(
                        views,
                        root@,
                        source@,
                        children,
                        current,
                        budget as nat,
                        (k + 1) as nat,
                        children.len(),
                    );
                }
                return Err(error);
            },
        }
        k += 1;
    }
    proof {
        let below = collect_submodules(
            views,
            root@,
            source@,
            children,
            current,
            budget as nat,
            children.len(),
        )->Ok_0;
        assert(graph@.modules =~= start.modules + (seq![own_module] + below.modules));
        assert(graph@.reexports =~= start.reexports + (own_edges + below.reexports));
    }
    Ok(())
}

/// The raw module graph of the library whose entry point is the file
/// `entry_point`: the root module, read from that file, and below it every
/// module that is declared on the way, each read from its body or from its
/// file next to the entry point. Fails with the path of the first file that
/// is missing or has no syntax tree.
pub open spec fn collected(files: Seq<ParsedFileView>, entry_point: Seq<char>) -> Result<
    RawModuleGraphView,
    Seq<char>,
> {
    let entry = file_at(files, entry_point);
    if !(0 <= entry < files.len()) {
        Err(entry_point)
    } else {
        match files[entry].tree {
            None => Err(entry_point),
            Some(tree) => collect_module(
                files,
                directory_prefix(entry_point),
                files[entry].content,
                tree.children,
                Seq::empty(),
                inner_doc(files[entry].content, tree.children),
                files.len(),
            ),
        }
    }
}

/// Collects the raw module graph of the library whose entry point is the
/// file `entry_point`.
///
/// Modules are listed parent first and then in the order of their
/// declarations; private items never enter the graph. The collection fails
/// with a parse error that names the file when the entry point or the file
/// of a declared module is not among `files`, or is there without a syntax
/// tree.
pub fn collect_symbols(files: &Vec<ParsedFile>, entry_point: &str) -> (graph: Result<
    RawModuleGraph,
    LaibraryError,
>)
    ensures
        match collected(parsed_views(files@), entry_point@) {
            Ok(found) => graph matches Ok(raw) && raw@ == found,
            Err(path) => graph matches Err(error) && is_parse_error(error, path),
        },
{
    let ghost views = parsed_views(files@);
    let entry = find_file(files, entry_point);
    if entry >= files.len() {
        return Err(LaibraryError::Parse(entry_point.to_owned()));
    }
    proof {
        assert(views[entry as int] == files@[entry as int]@);
    }
    match &files[entry].tree {
        None => Err(LaibraryError::Parse(entry_point.to_owned())),
        Some(tree) => {
            let root = directory_of(entry_point);
            let source = files[entry].content.as_str();
            let segments: Vec<String> = Vec::new();
            let doc = read_module_doc(None, source, tree);
            let mut graph = RawModuleGraph { modules: Vec::new(), reexports: Vec::new() };
            proof {
                assert(texts(segments@) =~= Seq::<Seq<char>>::empty());
                assert(graph@.modules =~= Seq::<RawModuleView>::empty());
                assert(graph@.reexports =~= Seq::<ReExportView>::empty());
            }
            match collect_into(
                files,
                root.as_str(),
                source,
                tree,
                &segments,
                doc,
                files.len(),
                &mut graph,
            ) {
                Ok(()) => {
                    proof {
                        let found = collected(views, entry_point@)->Ok_0;
                        assert(graph@.modules =~= found.modules);
                        assert(graph@.reexports =~= found.reexports);
                    }
                    Ok(graph)
                },
                Err(error) => Err(error),
            }
        },
    }
}

} // verus!
