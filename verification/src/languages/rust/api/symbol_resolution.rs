//! Turns the declarations and re-exports of every module into the list of
//! symbols, each with the module paths under which it can be reached.

use vstd::prelude::*;
use vstd::string::*;
use crate::error::LaibraryError;
use crate::text::{push_text, texts};
use crate::types::{Symbol, SymbolView};
use super::symbol_collection::{
    RawModule,
    RawModuleGraph,
    RawModuleGraphView,
    RawModuleView,
    ReExport,
    ReExportView,
    Visibility,
};

verus! {

/// One visible symbol together with the module paths where it is publicly
/// reachable. A module path joins its segments with `::`; the empty path is
/// the root of the crate.
#[derive(Debug, PartialEq, Eq)]
pub struct ResolvedSymbol {
    pub symbol: Symbol,
    pub modules: Vec<String>,
}

/// The value of a [`ResolvedSymbol`].
pub struct ResolvedSymbolView {
    pub symbol: SymbolView,
    pub modules: Seq<Seq<char>>,
}

impl View for ResolvedSymbol {
    type V = ResolvedSymbolView;

    open spec fn view(&self) -> ResolvedSymbolView {
        ResolvedSymbolView { symbol: self.symbol@, modules: texts(self.modules@) }
    }
}

/// Everything that resolution found: the visible symbols, and the doc
/// comments of modules as pairs of module path and text. Where a module path
/// occurs in more than one pair, the first pair counts.
#[derive(Debug, PartialEq, Eq)]
pub struct SymbolResolution {
    pub symbols: Vec<ResolvedSymbol>,
    pub doc_comments: Vec<(String, String)>,
}

/// The value of a [`SymbolResolution`].
pub struct SymbolResolutionView {
    pub symbols: Seq<ResolvedSymbolView>,
    pub doc_comments: Seq<(Seq<char>, Seq<char>)>,
}

/// The values of a sequence of resolved symbols.
pub open spec fn resolved_views(symbols: Seq<ResolvedSymbol>) -> Seq<ResolvedSymbolView> {
    symbols.map_values(|r: ResolvedSymbol| r@)
}

/// The values of a sequence of doc comment pairs.
pub open spec fn doc_views(docs: Seq<(String, String)>) -> Seq<(Seq<char>, Seq<char>)> {
    docs.map_values(|d: (String, String)| (d.0@, d.1@))
}

impl View for SymbolResolution {
    type V = SymbolResolutionView;

    open spec fn view(&self) -> SymbolResolutionView {
        SymbolResolutionView {
            symbols: resolved_views(self.symbols@),
            doc_comments: doc_views(self.doc_comments@),
        }
    }
}

/// The doc comment recorded for `module`: the text of the first pair with
/// that path.
pub open spec fn doc_comment_of(docs: Seq<(Seq<char>, Seq<char>)>, module: Seq<char>) -> Option<
    Seq<char>,
>
    decreases docs.len(),
{
    if docs.len() == 0 {
        None
    } else if docs[0].0 == module {
        Some(docs[0].1)
    } else {
        doc_comment_of(docs.skip(1), module)
    }
}

/// Looks up the doc comment recorded for `module`.
pub fn find_doc_comment(docs: &Vec<(String, String)>, module: &str) -> (found: Option<String>)
    ensures
        crate::text::option_text(found) == doc_comment_of(doc_views(docs@), module@),
{
    let ghost all = doc_views(docs@);
    let mut i: usize = 0;
    proof {
        assert(all.skip(0) =~= all);
    }
    while i < docs.len()
        invariant
            i <= docs.len(),
            all == doc_views(docs@),
            doc_comment_of(all, module@) == doc_comment_of(all.skip(i as int), module@),
        decreases docs.len() - i,
    {
        proof {
            let rest = all.skip(i as int);
            assert(rest[0] == all[i as int]);
            assert(all[i as int] == (docs@[i as int].0@, docs@[i as int].1@));
            assert(rest.skip(1) =~= all.skip(i as int + 1));
        }
        if docs[i].0.as_str().eq(module) {
            return Some(docs[i].1.clone());
        }
        i += 1;
    }
    proof {
        assert(all.skip(docs.len() as int).len() == 0);
    }
    None
}

/// The position of the first module of `modules` whose path is `path`, or
/// the number of modules when there is none.
pub open spec fn module_index(modules: Seq<RawModuleView>, path: Seq<char>) -> int
    decreases modules.len(),
{
    if modules.len() == 0 {
        0
    } else if modules[0].path == path {
        0
    } else {
        1 + module_index(modules.skip(1), path)
    }
}

/// Whether one of `symbols` is called `name`.
pub open spec fn declares(symbols: Seq<SymbolView>, name: Seq<char>) -> bool {
    exists|i: int| 0 <= i < symbols.len() && (#[trigger] symbols[i]).name == name
}

/// The position of the first edge by which `module` publishes `name`, or the
/// number of edges when there is none.
pub open spec fn edge_index(reexports: Seq<ReExportView>, module: Seq<char>, name: Seq<char>) -> int
    decreases reexports.len(),
{
    if reexports.len() == 0 {
        0
    } else if reexports[0].module == module && reexports[0].exported_name == name {
        0
    } else {
        1 + edge_index(reexports.skip(1), module, name)
    }
}

/// Where the search for a name ends.
pub enum Target {
    /// The module at position `module` declares at least one item called
    /// `name`.
    Found { module: int, name: Seq<char> },
    /// The search reached a module that does not exist, or that neither
    /// declares nor re-exports the name: the name comes from outside the
    /// library.
    Missing,
    /// The search followed as many re-exports as the graph has and still
    /// reached no declaration.
    Unending,
}

/// Looks `name` up in the module `module`, following re-exports for at most
/// `hops` steps.
pub open spec fn chase(
    graph: RawModuleGraphView,
    module: Seq<char>,
    name: Seq<char>,
    hops: nat,
) -> Target
    decreases hops,
{
    let m = module_index(graph.modules, module);
    let e = edge_index(graph.reexports, module, name);
    if m >= graph.modules.len() {
        Target::Missing
    } else if declares(graph.modules[m].symbols, name) {
        Target::Found { module: m, name }
    } else if e >= graph.reexports.len() {
        Target::Missing
    } else if hops == 0 {
        Target::Unending
    } else {
        chase(
            graph,
            graph.reexports[e].source_module,
            graph.reexports[e].source_name,
            (hops - 1) as nat,
        )
    }
}

/// Where the item that `edge` imports is declared. A search that is not over
/// after as many hops as the graph has edges has walked some edge twice, and
/// so goes round in a circle.
pub open spec fn target_of(graph: RawModuleGraphView, edge: ReExportView) -> Target {
    chase(graph, edge.source_module, edge.source_name, graph.reexports.len())
}

/// [`module_index`] is a position at or before the end; the module there has
/// the path, and no earlier one has.
pub proof fn lemma_module_index(modules: Seq<RawModuleView>, path: Seq<char>)
    ensures
        0 <= module_index(modules, path) <= modules.len(),
        module_index(modules, path) < modules.len() ==> modules[module_index(modules, path)].path
            == path,
        forall|i: int| 0 <= i < module_index(modules, path) ==> modules[i].path != path,
    decreases modules.len(),
{
    if modules.len() > 0 && modules[0].path != path {
        let rest = modules.skip(1);
        lemma_module_index(rest, path);
        assert forall|i: int| 0 <= i < module_index(modules, path) implies modules[i].path
            != path by {
            if i > 0 {
                assert(modules[i] == rest[i - 1]);
            }
        }
    }
}

/// [`edge_index`] is a position at or before the end; the edge there
/// publishes the name from the module, and no earlier one does.
pub proof fn lemma_edge_index(reexports: Seq<ReExportView>, module: Seq<char>, name: Seq<char>)
    ensures
        0 <= edge_index(reexports, module, name) <= reexports.len(),
        edge_index(reexports, module, name) < reexports.len() ==> {
            &&& reexports[edge_index(reexports, module, name)].module == module
            &&& reexports[edge_index(reexports, module, name)].exported_name == name
        },
        forall|i: int|
            0 <= i < edge_index(reexports, module, name) ==> !(reexports[i].module == module
                && reexports[i].exported_name == name),
    decreases reexports.len(),
{
    if reexports.len() > 0 && !(reexports[0].module == module && reexports[0].exported_name
        == name) {
        let rest = reexports.skip(1);
        lemma_edge_index(rest, module, name);
        assert forall|i: int| 0 <= i < edge_index(reexports, module, name) implies !(
        reexports[i].module == module && reexports[i].exported_name == name) by {
            if i > 0 {
                assert(reexports[i] == rest[i - 1]);
            }
        }
    }
}

/// Finds the first module with the given path.
pub fn find_module(graph: &RawModuleGraph, path: &str) -> (at: usize)
    ensures
        at == module_index(graph@.modules, path@),
        at <= graph.modules@.len(),
{
    let mut i: usize = 0;
    while i < graph.modules.len()
        invariant
            i <= graph.modules.len(),
            forall|k: int| 0 <= k < i ==> graph@.modules[k].path != path@,
        decreases graph.modules.len() - i,
    {
        proof {
            assert(graph@.modules[i as int].path == graph.modules@[i as int].path@);
        }
        if graph.modules[i].path.as_str().eq(path) {
            proof {
                lemma_module_index(graph@.modules, path@);
            }
            return i;
        }
        i += 1;
    }
    proof {
        lemma_module_index(graph@.modules, path@);
    }
    i
}

/// Finds the first edge by which `module` publishes `name`.
pub fn find_edge(graph: &RawModuleGraph, module: &str, name: &str) -> (at: usize)
    ensures
        at == edge_index(graph@.reexports, module@, name@),
        at <= graph.reexports@.len(),
{
    let mut i: usize = 0;
    while i < graph.reexports.len()
        invariant
            i <= graph.reexports.len(),
            forall|k: int|
                0 <= k < i ==> !(graph@.reexports[k].module == module@
                    && graph@.reexports[k].exported_name == name@),
        decreases graph.reexports.len() - i,
    {
        proof {
            assert(graph@.reexports[i as int] == graph.reexports@[i as int]@);
        }
        if graph.reexports[i].module.as_str().eq(module) && graph.reexports[i].exported_name.as_str().eq(
            name,
        ) {
            proof {
                lemma_edge_index(graph@.reexports, module@, name@);
            }
            return i;
        }
        i += 1;
    }
    proof {
        lemma_edge_index(graph@.reexports, module@, name@);
    }
    i
}

/// Whether `module` declares an item called `name`.
pub fn module_declares(module: &RawModule, name: &str) -> (found: bool)
    ensures
        found == declares(module@.symbols, name@),
{
    let mut i: usize = 0;
    while i < module.symbols.len()
        invariant
            i <= module.symbols.len(),
            forall|k: int| 0 <= k < i ==> module@.symbols[k].name != name@,
        decreases module.symbols.len() - i,
    {
        proof {
            assert(module@.symbols[i as int] == module.symbols@[i as int]@);
        }
        if module.symbols[i].name.as_str().eq(name) {
            return true;
        }
        i += 1;
    }
    false
}

/// Where a search ended, as a run-time value.
#[derive(Debug, PartialEq, Eq)]
pub enum FoundTarget {
    Found { module: usize, name: String },
    Missing,
    Unending,
}

impl View for FoundTarget {
    type V = Target;

    open spec fn view(&self) -> Target {
        match self {
            FoundTarget::Found { module, name } => Target::Found {
                module: *module as int,
                name: name@,
            },
            FoundTarget::Missing => Target::Missing,
            FoundTarget::Unending => Target::Unending,
        }
    }
}

/// Follows the re-exports behind `edge` until a declaration is reached,
/// the trail leaves the library, or as many hops were made as the graph has
/// edges.
pub fn find_target(graph: &RawModuleGraph, edge: &ReExport) -> (target: FoundTarget)
    ensures
        target@ == target_of(graph@, edge@),
{
    let mut module: &str = edge.source_module.as_str();
    let mut name: &str = edge.source_name.as_str();
    let mut hops: usize = graph.reexports.len();
    loop
        invariant
            chase(graph@, module@, name@, hops as nat) == target_of(graph@, edge@),
        decreases hops,
    {
        let m = find_module(graph, module);
        if m >= graph.modules.len() {
            return FoundTarget::Missing;
        }
        proof {
            assert(graph@.modules[m as int] == graph.modules@[m as int]@);
        }
        if module_declares(&graph.modules[m], name) {
            return FoundTarget::Found { module: m, name: name.to_owned() };
        }
        let e = find_edge(graph, module, name);
        if e >= graph.reexports.len() {
            return FoundTarget::Missing;
        }
        if hops == 0 {
            return FoundTarget::Unending;
        }
        proof {
            assert(graph@.reexports[e as int] == graph.reexports@[e as int]@);
        }
        module = graph.reexports[e].source_module.as_str();
        name = graph.reexports[e].source_name.as_str();
        hops -= 1;
    }
}

/// Whether `edge` publishes something: it is public and the module that
/// holds it exists.
pub open spec fn publishes(graph: RawModuleGraphView, edge: ReExportView) -> bool {
    edge.visibility == Visibility::Public && module_index(graph.modules, edge.module)
        < graph.modules.len()
}

/// Whether `edge` makes the items called `name` of the module at position
/// `module` visible in its own module under the same name.
pub open spec fn republishes(
    graph: RawModuleGraphView,
    edge: ReExportView,
    module: int,
    name: Seq<char>,
) -> bool {
    &&& publishes(graph, edge)
    &&& edge.exported_name == name
    &&& target_of(graph, edge) == (Target::Found { module, name })
}

/// The module paths under which the items called `name` of the module at
/// position `module` are visible when only the first `count` edges are taken
/// into account: the module's own path, then the path of each module that
/// republishes them, once each, in the order of the edges.
pub open spec fn visibility_after(
    graph: RawModuleGraphView,
    module: int,
    name: Seq<char>,
    count: nat,
) -> Seq<Seq<char>>
    decreases count,
{
    if count == 0 || count > graph.reexports.len() {
        seq![graph.modules[module].path]
    } else {
        let before = visibility_after(graph, module, name, (count - 1) as nat);
        let edge = graph.reexports[count - 1];
        if republishes(graph, edge, module, name) && !before.contains(edge.module) {
            before.push(edge.module)
        } else {
            before
        }
    }
}

/// The resolved form of the symbol at position `symbol` of the module at
/// position `module`.
pub open spec fn declared_entry(graph: RawModuleGraphView, module: int, symbol: int)
    -> ResolvedSymbolView {
    ResolvedSymbolView {
        symbol: graph.modules[module].symbols[symbol],
        modules: visibility_after(
            graph,
            module,
            graph.modules[module].symbols[symbol].name,
            graph.reexports.len(),
        ),
    }
}

/// The resolved forms of the first `count` symbols of a module.
pub open spec fn module_entries(graph: RawModuleGraphView, module: int, count: nat) -> Seq<
    ResolvedSymbolView,
> {
    Seq::new(count, |symbol: int| declared_entry(graph, module, symbol))
}

/// The resolved forms of all symbols of the first `count` modules.
pub open spec fn declared_entries(graph: RawModuleGraphView, count: nat) -> Seq<ResolvedSymbolView>
    decreases count,
{
    if count == 0 || count > graph.modules.len() {
        Seq::empty()
    } else {
        declared_entries(graph, (count - 1) as nat) + module_entries(
            graph,
            count - 1,
            graph.modules[count - 1].symbols.len(),
        )
    }
}

/// The symbol that a renaming edge makes of `item`.
pub open spec fn renamed_entry(edge: ReExportView, item: SymbolView) -> ResolvedSymbolView {
    ResolvedSymbolView {
        symbol: SymbolView { name: edge.exported_name, source_code: item.source_code },
        modules: seq![edge.module],
    }
}

/// The entries that `edge` adds for those of `symbols[..count]` that are
/// called `name`.
pub open spec fn renamed_from(
    edge: ReExportView,
    symbols: Seq<SymbolView>,
    name: Seq<char>,
    count: nat,
) -> Seq<ResolvedSymbolView>
    decreases count,
{
    if count == 0 || count > symbols.len() {
        Seq::empty()
    } else {
        let before = renamed_from(edge, symbols, name, (count - 1) as nat);
        if symbols[count - 1].name == name {
            before.push(renamed_entry(edge, symbols[count - 1]))
        } else {
            before
        }
    }
}

/// The entries that `edge` adds because it publishes items under a new
/// name: one for each item that its search finds.
pub open spec fn renamed_by(graph: RawModuleGraphView, edge: ReExportView) -> Seq<
    ResolvedSymbolView,
> {
    match target_of(graph, edge) {
        Target::Found { module, name } => if publishes(graph, edge) && edge.exported_name != name {
            renamed_from(
                edge,
                graph.modules[module].symbols,
                name,
                graph.modules[module].symbols.len(),
            )
        } else {
            Seq::empty()
        },
        _ => Seq::empty(),
    }
}

/// The entries added by the first `count` edges under new names.
pub open spec fn renamed_entries(graph: RawModuleGraphView, count: nat) -> Seq<ResolvedSymbolView>
    decreases count,
{
    if count == 0 || count > graph.reexports.len() {
        Seq::empty()
    } else {
        renamed_entries(graph, (count - 1) as nat) + renamed_by(graph, graph.reexports[count - 1])
    }
}

/// The doc comments of the first `count` modules, each with the module's
/// path.
pub open spec fn module_docs(modules: Seq<RawModuleView>, count: nat) -> Seq<
    (Seq<char>, Seq<char>),
>
    decreases count,
{
    if count == 0 || count > modules.len() {
        Seq::empty()
    } else {
        let before = module_docs(modules, (count - 1) as nat);
        match modules[count - 1].doc_comment {
            Some(text) => before.push((modules[count - 1].path, text)),
            None => before,
        }
    }
}

/// What a graph resolves to when every search ends: first each declared
/// symbol, module by module, with the paths under which it is visible; then
/// the symbols that re-exports publish under a new name, edge by edge.
pub open spec fn resolved(graph: RawModuleGraphView) -> SymbolResolutionView {
    SymbolResolutionView {
        symbols: declared_entries(graph, graph.modules.len()) + renamed_entries(
            graph,
            graph.reexports.len(),
        ),
        doc_comments: module_docs(graph.modules, graph.modules.len()),
    }
}

/// Whether the search behind the edge at position `edge` never ends.
pub open spec fn is_unending(graph: RawModuleGraphView, edge: int) -> bool {
    target_of(graph, graph.reexports[edge]) == Target::Unending
}

/// How a re-export that goes round in a circle is named in the error: the
/// module that holds it, `::`, and the name it publishes.
pub open spec fn cycle_detail(edge: ReExportView) -> Seq<char> {
    edge.module + "::"@ + edge.exported_name
}

/// Pushing a resolved symbol pushes its value.
pub proof fn lemma_resolved_views_push(symbols: Seq<ResolvedSymbol>, last: ResolvedSymbol)
    ensures
        resolved_views(symbols.push(last)) == resolved_views(symbols).push(last@),
{
    assert(resolved_views(symbols.push(last)) =~= resolved_views(symbols).push(last@));
}

/// Whether `paths` holds `path`.
pub fn holds_path(paths: &Vec<String>, path: &str) -> (found: bool)
    ensures
        found == texts(paths@).contains(path@),
{
    let mut i: usize = 0;
    while i < paths.len()
        invariant
            i <= paths.len(),
            forall|k: int| 0 <= k < i ==> texts(paths@)[k] != path@,
        decreases paths.len() - i,
    {
        proof {
            assert(texts(paths@)[i as int] == paths@[i as int]@);
        }
        if paths[i].as_str().eq(path) {
            return true;
        }
        i += 1;
    }
    false
}

/// The searches behind all edges of `graph`, or the position of the first
/// edge whose search never ends.
fn find_targets(graph: &RawModuleGraph) -> (found: Result<(Vec<FoundTarget>, Vec<bool>), usize>)
    ensures
        match found {
            Ok((targets, publishing)) => {
                &&& targets@.len() == graph@.reexports.len()
                &&& publishing@.len() == graph@.reexports.len()
                &&& forall|i: int|
                    0 <= i < targets@.len() ==> (#[trigger] targets@[i])@ == target_of(
                        graph@,
                        graph@.reexports[i],
                    )
                &&& forall|i: int| 0 <= i < targets@.len() ==> !is_unending(graph@, i)
                &&& forall|i: int|
                    0 <= i < publishing@.len() ==> #[trigger] publishing@[i] == publishes(
                        graph@,
                        graph@.reexports[i],
                    )
            },
            Err(edge) => {
                &&& edge < graph@.reexports.len()
                &&& is_unending(graph@, edge as int)
                &&& forall|i: int| 0 <= i < edge ==> !is_unending(graph@, i)
            },
        },
{
    let mut targets: Vec<FoundTarget> = Vec::new();
    let mut publishing: Vec<bool> = Vec::new();
    let mut i: usize = 0;
    while i < graph.reexports.len()
        invariant
            i <= graph.reexports.len(),
            targets@.len() == i,
            publishing@.len() == i,
            forall|k: int|
                0 <= k < i ==> (#[trigger] targets@[k])@ == target_of(graph@, graph@.reexports[k]),
            forall|k: int| 0 <= k < i ==> !is_unending(graph@, k),
            forall|k: int|
                0 <= k < i ==> #[trigger] publishing@[k] == publishes(graph@, graph@.reexports[k]),
        decreases graph.reexports.len() - i,
    {
        proof {
            assert(graph@.reexports[i as int] == graph.reexports@[i as int]@);
        }
        let target = find_target(graph, &graph.reexports[i]);
        match target {
            FoundTarget::Unending => {
                return Err(i);
            },
            _ => {},
        }
        let public = match graph.reexports[i].visibility {
            Visibility::Public => true,
            Visibility::Restricted => false,
        };
        let exists = find_module(graph, graph.reexports[i].module.as_str()) < graph.modules.len();
        targets.push(target);
        publishing.push(public && exists);
        i += 1;
    }
    Ok((targets, publishing))
}

/// The module paths under which the symbol at position `symbol` of the
/// module at position `module` is visible.
fn visibility_of(
    graph: &RawModuleGraph,
    targets: &Vec<FoundTarget>,
    publishing: &Vec<bool>,
    module: usize,
    symbol: usize,
) -> (paths: Vec<String>)
    requires
        module < graph.modules@.len(),
        symbol < graph.modules@[module as int].symbols@.len(),
        targets@.len() == graph@.reexports.len(),
        publishing@.len() == graph@.reexports.len(),
        forall|i: int|
            0 <= i < targets@.len() ==> (#[trigger] targets@[i])@ == target_of(
                graph@,
                graph@.reexports[i],
            ),
        forall|i: int|
            0 <= i < publishing@.len() ==> #[trigger] publishing@[i] == publishes(
                graph@,
                graph@.reexports[i],
            ),
    ensures
        texts(paths@) == declared_entry(graph@, module as int, symbol as int).modules,
{
    let name: &str = graph.modules[module].symbols[symbol].name.as_str();
    let mut paths: Vec<String> = Vec::new();
    paths.push(graph.modules[module].path.clone());
    proof {
        assert(graph@.modules[module as int] == graph.modules@[module as int]@);
        assert(graph@.modules[module as int].symbols[symbol as int] == graph.modules@[module as int].symbols@[symbol as int]@);
        assert(texts(paths@) =~= seq![graph@.modules[module as int].path]);
    }
    let mut i: usize = 0;
    while i < graph.reexports.len()
        invariant
            i <= graph.reexports.len(),
            module < graph.modules@.len(),
            targets@.len() == graph@.reexports.len(),
            publishing@.len() == graph@.reexports.len(),
            forall|k: int|
                0 <= k < targets@.len() ==> (#[trigger] targets@[k])@ == target_of(
                    graph@,
                    graph@.reexports[k],
                ),
            forall|k: int|
                0 <= k < publishing@.len() ==> #[trigger] publishing@[k] == publishes(
                    graph@,
                    graph@.reexports[k],
                ),
            texts(paths@) == visibility_after(graph@, module as int, name@, i as nat),
        decreases graph.reexports.len() - i,
    {
        let edge = &graph.reexports[i];
        proof {
            assert(graph@.reexports[i as int] == edge@);
        }
        let same_target = match &targets[i] {
            FoundTarget::Found { module: m, name: n } => *m == module && n.as_str().eq(name),
            _ => false,
        };
        if publishing[i] && same_target && edge.exported_name.as_str().eq(name) && !holds_path(
            &paths,
            edge.module.as_str(),
        ) {
            let ghost before = paths@;
            paths.push(edge.module.clone());
            proof {
                crate::text::lemma_texts_push(before, paths@.last());
            }
        }
        i += 1;
    }
    paths
}

/// Appends to `out` the entries that the edge at position `edge` adds under
/// a new name.
fn push_renamed(
    graph: &RawModuleGraph,
    target: &FoundTarget,
    publishing: bool,
    edge: usize,
    out: &mut Vec<ResolvedSymbol>,
)
    requires
        edge < graph@.reexports.len(),
        target@ == target_of(graph@, graph@.reexports[edge as int]),
        publishing == publishes(graph@, graph@.reexports[edge as int]),
        target@ is Found ==> 0 <= target@->module < graph@.modules.len(),
    ensures
        resolved_views(final(out)@) == resolved_views(old(out)@) + renamed_by(
            graph@,
            graph@.reexports[edge as int],
        ),
{
    let ghost start = resolved_views(out@);
    let ghost view = graph@.reexports[edge as int];
    proof {
        assert(view == graph.reexports@[edge as int]@);
    }
    match target {
        FoundTarget::Found { module, name } => {
            let renaming = !graph.reexports[edge].exported_name.as_str().eq(name.as_str());
            if publishing && renaming {
                let from = &graph.modules[*module];
                let ghost symbols = graph@.modules[*module as int].symbols;
                proof {
                    assert(graph@.modules[*module as int] == from@);
                    assert(start + renamed_from(view, symbols, name@, 0) =~= start);
                }
                let mut i: usize = 0;
                while i < from.symbols.len()
                    invariant
                        i <= from.symbols.len(),
                        edge < graph@.reexports.len(),
                        view == graph.reexports@[edge as int]@,
                        symbols == from@.symbols,
                        resolved_views(out@) == start + renamed_from(view, symbols, name@, i as nat),
                    decreases from.symbols.len() - i,
                {
                    proof {
                        assert(symbols[i as int] == from.symbols@[i as int]@);
                    }
                    if from.symbols[i].name.as_str().eq(name.as_str()) {
                        let mut paths: Vec<String> = Vec::new();
                        paths.push(graph.reexports[edge].module.clone());
                        let entry = ResolvedSymbol {
                            symbol: Symbol {
                                name: graph.reexports[edge].exported_name.clone(),
                                source_code: from.symbols[i].source_code.clone(),
                            },
                            modules: paths,
                        };
                        let ghost before = out@;
                        proof {
                            assert(texts(entry.modules@) =~= seq![view.module]);
                            assert(entry@ == renamed_entry(view, symbols[i as int]));
                        }
                        out.push(entry);
                        proof {
                            lemma_resolved_views_push(before, entry);
                            assert(resolved_views(out@) =~= start + renamed_from(
                                view,
                                symbols,
                                name@,
                                (i + 1) as nat,
                            ));
                        }
                    }
                    i += 1;
                }
            } else {
                proof {
                    assert(start + renamed_by(graph@, view) =~= start);
                }
            }
        },
        _ => {
            proof {
                assert(start + renamed_by(graph@, view) =~= start);
            }
        },
    }
}

/// A search that finds a declaration finds it in a module of the graph, and
/// that module declares the name.
pub proof fn lemma_chase_found(graph: RawModuleGraphView, module: Seq<char>, name: Seq<char>, hops: nat)
    ensures
        match chase(graph, module, name, hops) {
            Target::Found { module: at, name: found } => {
                &&& 0 <= at < graph.modules.len()
                &&& declares(graph.modules[at].symbols, found)
            },
            _ => true,
        },
    decreases hops,
{
    lemma_module_index(graph.modules, module);
    lemma_edge_index(graph.reexports, module, name);
    let m = module_index(graph.modules, module);
    let e = edge_index(graph.reexports, module, name);
    if m < graph.modules.len() && !declares(graph.modules[m].symbols, name) && e
        < graph.reexports.len() && hops > 0 {
        lemma_chase_found(
            graph,
            graph.reexports[e].source_module,
            graph.reexports[e].source_name,
            (hops - 1) as nat,
        );
    }
}

/// The doc comments of the modules of `graph`, each with its module path.
fn collect_docs(graph: &RawModuleGraph) -> (docs: Vec<(String, String)>)
    ensures
        doc_views(docs@) == module_docs(graph@.modules, graph@.modules.len()),
{
    let mut docs: Vec<(String, String)> = Vec::new();
    let mut i: usize = 0;
    proof {
        assert(doc_views(docs@) =~= module_docs(graph@.modules, 0));
    }
    while i < graph.modules.len()
        invariant
            i <= graph.modules.len(),
            doc_views(docs@) == module_docs(graph@.modules, i as nat),
        decreases graph.modules.len() - i,
    {
        proof {
            assert(graph@.modules[i as int] == graph.modules@[i as int]@);
        }
        match &graph.modules[i].doc_comment {
            Some(text) => {
                let ghost before = docs@;
                docs.push((graph.modules[i].path.clone(), text.clone()));
                proof {
                    assert(doc_views(docs@) =~= doc_views(before).push(
                        (graph.modules@[i as int].path@, text@),
                    ));
                }
            },
            None => {},
        }
        i += 1;
    }
    docs
}

/// The resolved forms of the declared symbols of `graph`.
fn collect_declared(graph: &RawModuleGraph, targets: &Vec<FoundTarget>, publishing: &Vec<bool>) -> (out:
    Vec<ResolvedSymbol>)
    requires
        targets@.len() == graph@.reexports.len(),
        publishing@.len() == graph@.reexports.len(),
        forall|i: int|
            0 <= i < targets@.len() ==> (#[trigger] targets@[i])@ == target_of(
                graph@,
                graph@.reexports[i],
            ),
        forall|i: int|
            0 <= i < publishing@.len() ==> #[trigger] publishing@[i] == publishes(
                graph@,
                graph@.reexports[i],
            ),
    ensures
        resolved_views(out@) == declared_entries(graph@, graph@.modules.len()),
{
    let mut out: Vec<ResolvedSymbol> = Vec::new();
    let mut m: usize = 0;
    proof {
        assert(resolved_views(out@) =~= declared_entries(graph@, 0));
    }
    while m < graph.modules.len()
        invariant
            m <= graph.modules.len(),
            targets@.len() == graph@.reexports.len(),
            publishing@.len() == graph@.reexports.len(),
            forall|i: int|
                0 <= i < targets@.len() ==> (#[trigger] targets@[i])@ == target_of(
                    graph@,
                    graph@.reexports[i],
                ),
            forall|i: int|
                0 <= i < publishing@.len() ==> #[trigger] publishing@[i] == publishes(
                    graph@,
                    graph@.reexports[i],
                ),
            resolved_views(out@) == declared_entries(graph@, m as nat),
        decreases graph.modules.len() - m,
    {
        let ghost done = declared_entries(graph@, m as nat);
        let mut k: usize = 0;
        proof {
            assert(graph@.modules[m as int] == graph.modules@[m as int]@);
            assert(done + module_entries(graph@, m as int, 0) =~= done);
        }
        while k < graph.modules[m].symbols.len()
            invariant
                m < graph.modules.len(),
                k <= graph.modules@[m as int].symbols@.len(),
                targets@.len() == graph@.reexports.len(),
                publishing@.len() == graph@.reexports.len(),
                forall|i: int|
                    0 <= i < targets@.len() ==> (#[trigger] targets@[i])@ == target_of(
                        graph@,
                        graph@.reexports[i],
                    ),
                forall|i: int|
                    0 <= i < publishing@.len() ==> #[trigger] publishing@[i] == publishes(
                        graph@,
                        graph@.reexports[i],
                    ),
                done == declared_entries(graph@, m as nat),
                resolved_views(out@) == done + module_entries(graph@, m as int, k as nat),
            decreases graph.modules@[m as int].symbols@.len() - k,
        {
            let modules = visibility_of(graph, targets, publishing, m, k);
            let entry = ResolvedSymbol { symbol: graph.modules[m].symbols[k].clone(), modules };
            let ghost before = out@;
            proof {
                assert(graph@.modules[m as int] == graph.modules@[m as int]@);
                assert(graph@.modules[m as int].symbols[k as int] == graph.modules@[m as int].symbols@[k as int]@);
                assert(entry@ == declared_entry(graph@, m as int, k as int));
            }
            out.push(entry);
            proof {
                lemma_resolved_views_push(before, entry);
                assert(resolved_views(out@) =~= done + module_entries(
                    graph@,
                    m as int,
                    (k + 1) as nat,
                ));
            }
            k += 1;
        }
        proof {
            assert(graph@.modules[m as int].symbols.len() == graph.modules@[m as int].symbols@.len());
        }
        m += 1;
    }
    out
}

/// Resolves the re-exports of `graph`.
///
/// Succeeds unless the search behind some edge goes round in a circle; the
/// error then names the first such edge. On success the result lists each
/// declared symbol once, with its own module path first and then the path of
/// every module that publicly re-exports it under its own name, and after
/// those one symbol for every item that a public re-export publishes under a
/// new name, visible in the re-exporting module only. An edge whose search
/// leaves the library adds nothing.
pub fn resolve_symbols(graph: &RawModuleGraph) -> (resolution: Result<SymbolResolution, LaibraryError>)
    ensures
        match resolution {
            Ok(found) => {
                &&& found@ == resolved(graph@)
                &&& forall|i: int| 0 <= i < graph@.reexports.len() ==> !is_unending(graph@, i)
            },
            Err(error) => exists|edge: int|
                {
                    &&& 0 <= edge < graph@.reexports.len()
                    &&& #[trigger] is_unending(graph@, edge)
                    &&& forall|i: int| 0 <= i < edge ==> !is_unending(graph@, i)
                    &&& error.spec_kind() == crate::error::ErrorKind::ReExportCycle
                    &&& error.detail() == cycle_detail(graph@.reexports[edge])
                },
        },
{
    match find_targets(graph) {
        Err(edge) => {
            let mut detail = graph.reexports[edge].module.clone();
            push_text(&mut detail, "::");
            push_text(&mut detail, graph.reexports[edge].exported_name.as_str());
            proof {
                assert(graph@.reexports[edge as int] == graph.reexports@[edge as int]@);
            }
            Err(LaibraryError::ReExportCycle(detail))
        },
        Ok((targets, publishing)) => {
            let mut symbols = collect_declared(graph, &targets, &publishing);
            let ghost declared = resolved_views(symbols@);
            let mut e: usize = 0;
            proof {
                assert(declared + renamed_entries(graph@, 0) =~= declared);
            }
            while e < graph.reexports.len()
                invariant
                    e <= graph.reexports.len(),
                    targets@.len() == graph@.reexports.len(),
                    publishing@.len() == graph@.reexports.len(),
                    forall|i: int|
                        0 <= i < targets@.len() ==> (#[trigger] targets@[i])@ == target_of(
                            graph@,
                            graph@.reexports[i],
                        ),
                    forall|i: int|
                        0 <= i < publishing@.len() ==> #[trigger] publishing@[i] == publishes(
                            graph@,
                            graph@.reexports[i],
                        ),
                    resolved_views(symbols@) == declared + renamed_entries(graph@, e as nat),
                decreases graph.reexports.len() - e,
            {
                proof {
                    let view = graph@.reexports[e as int];
                    lemma_chase_found(
                        graph@,
                        view.source_module,
                        view.source_name,
                        graph@.reexports.len(),
                    );
                }
                let ghost before = resolved_views(symbols@);
                push_renamed(graph, &targets[e], publishing[e], e, &mut symbols);
                proof {
                    assert(resolved_views(symbols@) =~= declared + renamed_entries(
                        graph@,
                        (e + 1) as nat,
                    ));
                }
                e += 1;
            }
            let doc_comments = collect_docs(graph);
            Ok(SymbolResolution { symbols, doc_comments })
        },
    }
}

} // verus!
