//! What holds of every resolution, and of the namespaces built from it.

use vstd::prelude::*;
use crate::types::SymbolView;
use super::namespace_construction::{
    law_namespace_membership,
    namespace_holds,
    namespace_name,
    namespaces_of,
    visible_under,
};
use super::symbol_collection::{RawModuleGraphView, ReExportView, Visibility};
use super::symbol_resolution::{
    ResolvedSymbolView,
    Target,
    chase,
    declared_entries,
    declared_entry,
    declares,
    edge_index,
    is_unending,
    lemma_edge_index,
    lemma_module_index,
    module_entries,
    module_index,
    publishes,
    renamed_by,
    renamed_entries,
    renamed_entry,
    renamed_from,
    republishes,
    resolved,
    target_of,
    visibility_after,
};

verus! {

/// The paths under which a declaration is visible start with the path of its
/// own module, never hold a path twice, and hold only paths of modules of
/// the graph.
pub proof fn lemma_visibility_after(
    graph: RawModuleGraphView,
    module: int,
    name: Seq<char>,
    count: nat,
)
    requires
        0 <= module < graph.modules.len(),
    ensures
        visibility_after(graph, module, name, count).len() > 0,
        visibility_after(graph, module, name, count)[0] == graph.modules[module].path,
        visibility_after(graph, module, name, count).no_duplicates(),
        forall|i: int|
            0 <= i < visibility_after(graph, module, name, count).len() ==> module_index(
                graph.modules,
                #[trigger] visibility_after(graph, module, name, count)[i],
            ) < graph.modules.len(),
    decreases count,
{
    let own = graph.modules[module].path;
    if count == 0 || count > graph.reexports.len() {
        lemma_module_index(graph.modules, own);
    } else {
        lemma_visibility_after(graph, module, name, (count - 1) as nat);
    }
}

/// Once a path is among the visible paths it stays there when more edges are
/// taken into account.
pub proof fn lemma_visibility_grows(
    graph: RawModuleGraphView,
    module: int,
    name: Seq<char>,
    fewer: nat,
    more: nat,
    path: Seq<char>,
)
    requires
        fewer <= more <= graph.reexports.len(),
        visibility_after(graph, module, name, fewer).contains(path),
    ensures
        visibility_after(graph, module, name, more).contains(path),
    decreases more,
{
    if fewer < more {
        lemma_visibility_grows(graph, module, name, fewer, (more - 1) as nat, path);
        let before = visibility_after(graph, module, name, (more - 1) as nat);
        let at = choose|i: int| 0 <= i < before.len() && before[i] == path;
        let edge = graph.reexports[more - 1];
        if republishes(graph, edge, module, name) && !before.contains(edge.module) {
            assert(before.push(edge.module)[at] == path);
        }
    }
}

/// The path of a module that republishes a declaration is among the paths
/// under which the declaration is visible.
pub proof fn lemma_republished_is_visible(
    graph: RawModuleGraphView,
    module: int,
    name: Seq<char>,
    edge: int,
)
    requires
        0 <= edge < graph.reexports.len(),
        republishes(graph, graph.reexports[edge], module, name),
    ensures
        visibility_after(graph, module, name, graph.reexports.len()).contains(
            graph.reexports[edge].module,
        ),
{
    let path = graph.reexports[edge].module;
    let before = visibility_after(graph, module, name, edge as nat);
    let after = visibility_after(graph, module, name, (edge + 1) as nat);
    if !before.contains(path) {
        assert(after == before.push(path));
        assert(after[before.len() as int] == path);
    } else {
        assert(after == before);
    }
    lemma_visibility_grows(graph, module, name, (edge + 1) as nat, graph.reexports.len(), path);
}

/// The declared entries of the first `count` modules hold the entry of
/// every symbol of those modules.
pub proof fn lemma_declared_entry_listed(
    graph: RawModuleGraphView,
    count: nat,
    module: int,
    symbol: int,
)
    requires
        count <= graph.modules.len(),
        0 <= module < count,
        0 <= symbol < graph.modules[module].symbols.len(),
    ensures
        declared_entries(graph, count).contains(declared_entry(graph, module, symbol)),
    decreases count,
{
    let front = declared_entries(graph, (count - 1) as nat);
    let last = module_entries(graph, count - 1, graph.modules[count - 1].symbols.len());
    if module == count - 1 {
        assert(last[symbol] == declared_entry(graph, module, symbol));
        assert((front + last)[front.len() + symbol] == declared_entry(graph, module, symbol));
    } else {
        lemma_declared_entry_listed(graph, (count - 1) as nat, module, symbol);
        let at = choose|i: int|
            0 <= i < front.len() && front[i] == declared_entry(graph, module, symbol);
        assert((front + last)[at] == declared_entry(graph, module, symbol));
    }
}

/// Every declared entry is the entry of some symbol of some module.
pub proof fn lemma_declared_entries_origin(graph: RawModuleGraphView, count: nat, at: int)
    requires
        count <= graph.modules.len(),
        0 <= at < declared_entries(graph, count).len(),
    ensures
        exists|module: int, symbol: int|
            0 <= module < count && 0 <= symbol < graph.modules[module].symbols.len()
                && declared_entries(graph, count)[at] == #[trigger] declared_entry(
                graph,
                module,
                symbol,
            ),
    decreases count,
{
    if count > 0 {
        let front = declared_entries(graph, (count - 1) as nat);
        let last = module_entries(graph, count - 1, graph.modules[count - 1].symbols.len());
        if at < front.len() {
            lemma_declared_entries_origin(graph, (count - 1) as nat, at);
            let (module, symbol) = choose|module: int, symbol: int|
                0 <= module < count - 1 && 0 <= symbol < graph.modules[module].symbols.len()
                    && front[at] == #[trigger] declared_entry(graph, module, symbol);
            assert(declared_entries(graph, count)[at] == declared_entry(graph, module, symbol));
        } else {
            let symbol = at - front.len();
            assert(last[symbol] == declared_entry(graph, count - 1, symbol));
            assert(declared_entries(graph, count)[at] == declared_entry(
                graph,
                count - 1,
                symbol,
            ));
        }
    }
}

/// The entries that a renaming edge adds hold the renamed form of every
/// item with the searched name.
pub proof fn lemma_renamed_from_listed(
    edge: ReExportView,
    symbols: Seq<SymbolView>,
    name: Seq<char>,
    count: nat,
    symbol: int,
)
    requires
        count <= symbols.len(),
        0 <= symbol < count,
        symbols[symbol].name == name,
    ensures
        renamed_from(edge, symbols, name, count).contains(renamed_entry(edge, symbols[symbol])),
    decreases count,
{
    let before = renamed_from(edge, symbols, name, (count - 1) as nat);
    if symbol == count - 1 {
        assert(before.push(renamed_entry(edge, symbols[symbol]))[before.len() as int]
            == renamed_entry(edge, symbols[symbol]));
    } else {
        lemma_renamed_from_listed(edge, symbols, name, (count - 1) as nat, symbol);
        let at = choose|i: int|
            0 <= i < before.len() && before[i] == renamed_entry(edge, symbols[symbol]);
        if symbols[count - 1].name == name {
            assert(before.push(renamed_entry(edge, symbols[count - 1]))[at] == renamed_entry(
                edge,
                symbols[symbol],
            ));
        }
    }
}

/// Every entry that a renaming edge adds is visible in the module of the
/// edge and nowhere else.
pub proof fn lemma_renamed_from_modules(
    edge: ReExportView,
    symbols: Seq<SymbolView>,
    name: Seq<char>,
    count: nat,
    at: int,
)
    requires
        0 <= at < renamed_from(edge, symbols, name, count).len(),
    ensures
        renamed_from(edge, symbols, name, count)[at].modules == seq![edge.module],
    decreases count,
{
    if !(count == 0 || count > symbols.len()) {
        let before = renamed_from(edge, symbols, name, (count - 1) as nat);
        if at < before.len() {
            lemma_renamed_from_modules(edge, symbols, name, (count - 1) as nat, at);
        }
    }
}

/// The renamed entries of the first `count` edges hold the entries of each
/// of those edges.
pub proof fn lemma_renamed_entries_listed(
    graph: RawModuleGraphView,
    count: nat,
    edge: int,
    entry: ResolvedSymbolView,
)
    requires
        count <= graph.reexports.len(),
        0 <= edge < count,
        renamed_by(graph, graph.reexports[edge]).contains(entry),
    ensures
        renamed_entries(graph, count).contains(entry),
    decreases count,
{
    let front = renamed_entries(graph, (count - 1) as nat);
    let last = renamed_by(graph, graph.reexports[count - 1]);
    if edge == count - 1 {
        let at = choose|i: int| 0 <= i < last.len() && last[i] == entry;
        assert((front + last)[front.len() + at] == entry);
    } else {
        lemma_renamed_entries_listed(graph, (count - 1) as nat, edge, entry);
        let at = choose|i: int| 0 <= i < front.len() && front[i] == entry;
        assert((front + last)[at] == entry);
    }
}

/// Every renamed entry is visible in exactly one module, and that module is
/// in the graph.
pub proof fn lemma_renamed_entries_modules(graph: RawModuleGraphView, count: nat, at: int)
    requires
        0 <= at < renamed_entries(graph, count).len(),
    ensures
        renamed_entries(graph, count)[at].modules.len() == 1,
        module_index(graph.modules, renamed_entries(graph, count)[at].modules[0])
            < graph.modules.len(),
    decreases count,
{
    if !(count == 0 || count > graph.reexports.len()) {
        let front = renamed_entries(graph, (count - 1) as nat);
        let edge = graph.reexports[count - 1];
        if at < front.len() {
            lemma_renamed_entries_modules(graph, (count - 1) as nat, at);
        } else {
            match target_of(graph, edge) {
                Target::Found { module, name } => {
                    lemma_renamed_from_modules(
                        edge,
                        graph.modules[module].symbols,
                        name,
                        graph.modules[module].symbols.len(),
                        at - front.len(),
                    );
                },
                _ => {},
            }
        }
    }
}

/// Every resolved symbol is visible under at least one module path, under
/// none twice, and only under paths of modules that are in the graph.
pub proof fn law_resolved_paths_exist(graph: RawModuleGraphView, at: int)
    requires
        0 <= at < resolved(graph).symbols.len(),
    ensures
        resolved(graph).symbols[at].modules.len() > 0,
        resolved(graph).symbols[at].modules.no_duplicates(),
        forall|i: int|
            0 <= i < resolved(graph).symbols[at].modules.len() ==> module_index(
                graph.modules,
                #[trigger] resolved(graph).symbols[at].modules[i],
            ) < graph.modules.len(),
{
    let declared = declared_entries(graph, graph.modules.len());
    if at < declared.len() {
        lemma_declared_entries_origin(graph, graph.modules.len(), at);
        let (module, symbol) = choose|module: int, symbol: int|
            0 <= module < graph.modules.len() && 0 <= symbol < graph.modules[module].symbols.len()
                && declared[at] == #[trigger] declared_entry(graph, module, symbol);
        lemma_visibility_after(
            graph,
            module,
            graph.modules[module].symbols[symbol].name,
            graph.reexports.len(),
        );
    } else {
        lemma_renamed_entries_modules(graph, graph.reexports.len(), at - declared.len());
    }
}

/// A declared symbol is visible under the path of its own module.
pub proof fn law_declared_symbol_is_visible(graph: RawModuleGraphView, module: int, symbol: int)
    requires
        0 <= module < graph.modules.len(),
        0 <= symbol < graph.modules[module].symbols.len(),
    ensures
        visible_under(
            resolved(graph).symbols,
            graph.modules[module].path,
            graph.modules[module].symbols[symbol],
        ),
{
    let item = graph.modules[module].symbols[symbol];
    let entry = declared_entry(graph, module, symbol);
    let declared = declared_entries(graph, graph.modules.len());
    lemma_declared_entry_listed(graph, graph.modules.len(), module, symbol);
    lemma_visibility_after(graph, module, item.name, graph.reexports.len());
    let at = choose|i: int| 0 <= i < declared.len() && declared[i] == entry;
    assert(resolved(graph).symbols[at] == entry);
    assert(resolved(graph).symbols[at].modules[0] == graph.modules[module].path);
}

/// Fan-out: when a module publicly re-exports, under its own name, an item
/// that another module declares, the item is visible under the paths of both
/// modules, and stands in the namespaces of both.
pub proof fn law_reexport_fans_out(
    graph: RawModuleGraphView,
    crate_name: Seq<char>,
    module: int,
    symbol: int,
    edge: int,
)
    requires
        0 <= module < graph.modules.len(),
        0 <= symbol < graph.modules[module].symbols.len(),
        0 <= edge < graph.reexports.len(),
        graph.reexports[edge].visibility == Visibility::Public,
        module_index(graph.modules, graph.reexports[edge].module) < graph.modules.len(),
        module_index(graph.modules, graph.reexports[edge].source_module) == module,
        graph.reexports[edge].source_name == graph.modules[module].symbols[symbol].name,
        graph.reexports[edge].exported_name == graph.modules[module].symbols[symbol].name,
    ensures
        visible_under(
            resolved(graph).symbols,
            graph.modules[module].path,
            graph.modules[module].symbols[symbol],
        ),
        visible_under(
            resolved(graph).symbols,
            graph.reexports[edge].module,
            graph.modules[module].symbols[symbol],
        ),
        namespace_holds(
            namespaces_of(resolved(graph), crate_name),
            namespace_name(crate_name, graph.modules[module].path),
            graph.modules[module].symbols[symbol],
        ),
        namespace_holds(
            namespaces_of(resolved(graph), crate_name),
            namespace_name(crate_name, graph.reexports[edge].module),
            graph.modules[module].symbols[symbol],
        ),
{
    let item = graph.modules[module].symbols[symbol];
    let via = graph.reexports[edge];
    let entry = declared_entry(graph, module, symbol);
    let declared = declared_entries(graph, graph.modules.len());
    law_declared_symbol_is_visible(graph, module, symbol);
    assert(declares(graph.modules[module].symbols, item.name));
    assert(target_of(graph, via) == (Target::Found { module, name: item.name }));
    lemma_republished_is_visible(graph, module, item.name, edge);
    lemma_declared_entry_listed(graph, graph.modules.len(), module, symbol);
    let at = choose|i: int| 0 <= i < declared.len() && declared[i] == entry;
    let which = choose|i: int| 0 <= i < entry.modules.len() && entry.modules[i] == via.module;
    assert(resolved(graph).symbols[at] == entry);
    assert(resolved(graph).symbols[at].modules[which] == via.module);
    law_namespace_membership(resolved(graph), crate_name, graph.modules[module].path, item);
    law_namespace_membership(resolved(graph), crate_name, via.module, item);
}

/// Renaming: when a module publicly re-exports, under a new name, an item
/// that another module declares, the re-exporting module shows a symbol with
/// the new name and the item's source text, while the declaring module keeps
/// the item under its own name.
pub proof fn law_reexport_renames(
    graph: RawModuleGraphView,
    crate_name: Seq<char>,
    module: int,
    symbol: int,
    edge: int,
)
    requires
        0 <= module < graph.modules.len(),
        0 <= symbol < graph.modules[module].symbols.len(),
        0 <= edge < graph.reexports.len(),
        graph.reexports[edge].visibility == Visibility::Public,
        module_index(graph.modules, graph.reexports[edge].module) < graph.modules.len(),
        module_index(graph.modules, graph.reexports[edge].source_module) == module,
        graph.reexports[edge].source_name == graph.modules[module].symbols[symbol].name,
        graph.reexports[edge].exported_name != graph.modules[module].symbols[symbol].name,
    ensures
        namespace_holds(
            namespaces_of(resolved(graph), crate_name),
            namespace_name(crate_name, graph.modules[module].path),
            graph.modules[module].symbols[symbol],
        ),
        namespace_holds(
            namespaces_of(resolved(graph), crate_name),
            namespace_name(crate_name, graph.reexports[edge].module),
            SymbolView {
                name: graph.reexports[edge].exported_name,
                source_code: graph.modules[module].symbols[symbol].source_code,
            },
        ),
{
    let item = graph.modules[module].symbols[symbol];
    let via = graph.reexports[edge];
    let entry = renamed_entry(via, item);
    let declared = declared_entries(graph, graph.modules.len());
    let renamed = renamed_entries(graph, graph.reexports.len());
    law_declared_symbol_is_visible(graph, module, symbol);
    assert(declares(graph.modules[module].symbols, item.name));
    assert(target_of(graph, via) == (Target::Found { module, name: item.name }));
    lemma_renamed_from_listed(
        via,
        graph.modules[module].symbols,
        item.name,
        graph.modules[module].symbols.len(),
        symbol,
    );
    lemma_renamed_entries_listed(graph, graph.reexports.len(), edge, entry);
    let at = choose|i: int| 0 <= i < renamed.len() && renamed[i] == entry;
    assert(resolved(graph).symbols[declared.len() + at] == entry);
    assert(resolved(graph).symbols[declared.len() + at].modules[0] == via.module);
    assert(visible_under(resolved(graph).symbols, via.module, entry.symbol));
    law_namespace_membership(resolved(graph), crate_name, graph.modules[module].path, item);
    law_namespace_membership(resolved(graph), crate_name, via.module, entry.symbol);
}

/// The lookup that the lookup of `name` in `module` is passed on to: that of
/// the first edge by which the module publishes the name, when the module
/// exists and declares no item of that name.
pub open spec fn next_lookup(graph: RawModuleGraphView, module: Seq<char>, name: Seq<char>)
    -> Option<(Seq<char>, Seq<char>)> {
    let m = module_index(graph.modules, module);
    let e = edge_index(graph.reexports, module, name);
    if m < graph.modules.len() && !declares(graph.modules[m].symbols, name) && e
        < graph.reexports.len() {
        Some((graph.reexports[e].source_module, graph.reexports[e].source_name))
    } else {
        None
    }
}

/// The lookup reached after `steps` hops, if the trail is that long.
pub open spec fn lookup_after(
    graph: RawModuleGraphView,
    module: Seq<char>,
    name: Seq<char>,
    steps: nat,
) -> Option<(Seq<char>, Seq<char>)>
    decreases steps,
{
    if steps == 0 {
        Some((module, name))
    } else {
        match next_lookup(graph, module, name) {
            Some((next_module, next_name)) => lookup_after(
                graph,
                next_module,
                next_name,
                (steps - 1) as nat,
            ),
            None => None,
        }
    }
}

/// Walking `first` hops and then `then` hops is walking `first + then` hops.
pub proof fn lemma_lookup_after_adds(
    graph: RawModuleGraphView,
    module: Seq<char>,
    name: Seq<char>,
    first: nat,
    then: nat,
)
    ensures
        lookup_after(graph, module, name, first + then) == match lookup_after(
            graph,
            module,
            name,
            first,
        ) {
            Some((m, n)) => lookup_after(graph, m, n, then),
            None => None,
        },
    decreases first,
{
    if first > 0 {
        match next_lookup(graph, module, name) {
            Some((next_module, next_name)) => {
                lemma_lookup_after_adds(graph, next_module, next_name, (first - 1) as nat, then);
                assert((first - 1) as nat + then == (first + then - 1) as nat);
            },
            None => {},
        }
    }
}

/// A trail that comes back to a lookup it has made before goes on for ever.
pub proof fn lemma_circle_never_ends(
    graph: RawModuleGraphView,
    module: Seq<char>,
    name: Seq<char>,
    period: nat,
    steps: nat,
)
    requires
        period > 0,
        lookup_after(graph, module, name, period) == Some((module, name)),
    ensures
        lookup_after(graph, module, name, steps) is Some,
    decreases steps,
{
    if steps >= period {
        lemma_circle_never_ends(graph, module, name, period, (steps - period) as nat);
        lemma_lookup_after_adds(graph, module, name, period, (steps - period) as nat);
        assert(period + (steps - period) as nat == steps);
    } else {
        lemma_lookup_after_adds(graph, module, name, steps, (period - steps) as nat);
        assert(steps + (period - steps) as nat == period);
    }
}

/// A search along a trail that goes on for ever is never over, however many
/// hops it is allowed.
pub proof fn lemma_endless_trail_is_unending(
    graph: RawModuleGraphView,
    module: Seq<char>,
    name: Seq<char>,
    hops: nat,
)
    requires
        forall|steps: nat| (#[trigger] lookup_after(graph, module, name, steps)) is Some,
    ensures
        chase(graph, module, name, hops) == Target::Unending,
    decreases hops,
{
    assert(lookup_after(graph, module, name, 1) is Some);
    let (next_module, next_name) = next_lookup(graph, module, name)->0;
    assert(lookup_after(graph, next_module, next_name, 0) is Some);
    if hops > 0 {
        assert forall|steps: nat| (#[trigger] lookup_after(
            graph,
            next_module,
            next_name,
            steps,
        )) is Some by {
            lemma_lookup_after_adds(graph, module, name, 1, steps);
            assert(lookup_after(graph, module, name, 1 + steps) is Some);
        }
        lemma_endless_trail_is_unending(graph, next_module, next_name, (hops - 1) as nat);
    }
}

/// Whether the trail behind the edge at position `edge` goes round in a
/// circle: after `later` hops it stands at a lookup at which it stood
/// already after `lead` hops, without having reached a declaration.
pub open spec fn comes_back(graph: RawModuleGraphView, edge: int, lead: nat, later: nat) -> bool {
    &&& lead < later
    &&& lookup_after(
        graph,
        graph.reexports[edge].source_module,
        graph.reexports[edge].source_name,
        lead,
    ) is Some
    &&& lookup_after(
        graph,
        graph.reexports[edge].source_module,
        graph.reexports[edge].source_name,
        later,
    ) == lookup_after(
        graph,
        graph.reexports[edge].source_module,
        graph.reexports[edge].source_name,
        lead,
    )
}

/// Cycle detection: when the trail behind an edge goes round in a circle,
/// the search behind the edge never ends, so that resolution fails.
pub proof fn law_cycle_is_detected(graph: RawModuleGraphView, edge: int, lead: nat, later: nat)
    requires
        0 <= edge < graph.reexports.len(),
        comes_back(graph, edge, lead, later),
    ensures
        is_unending(graph, edge),
{
    let start_module = graph.reexports[edge].source_module;
    let start_name = graph.reexports[edge].source_name;
    let period = (later - lead) as nat;
    let (module, name) = lookup_after(graph, start_module, start_name, lead)->0;
    lemma_lookup_after_adds(graph, start_module, start_name, lead, period);
    assert(lead + period == later);
    assert forall|steps: nat| (#[trigger] lookup_after(
        graph,
        start_module,
        start_name,
        steps,
    )) is Some by {
        if steps >= lead {
            lemma_circle_never_ends(graph, module, name, period, (steps - lead) as nat);
            lemma_lookup_after_adds(graph, start_module, start_name, lead, (steps - lead) as nat);
            assert(lead + (steps - lead) as nat == steps);
        } else {
            lemma_lookup_after_adds(graph, start_module, start_name, steps, (lead - steps) as nat);
            assert(steps + (lead - steps) as nat == lead);
        }
    }
    lemma_endless_trail_is_unending(graph, start_module, start_name, graph.reexports.len());
}

/// Among more numbers than `bound`, all of them at least 0 and below
/// `bound`, two are the same.
pub proof fn lemma_two_are_the_same(numbers: Seq<int>, bound: int)
    requires
        0 <= bound < numbers.len(),
        forall|i: int| 0 <= i < numbers.len() ==> 0 <= #[trigger] numbers[i] < bound,
    ensures
        exists|i: int, j: int|
            0 <= i < j < numbers.len() && #[trigger] numbers[i] == #[trigger] numbers[j],
{
    if numbers.no_duplicates() {
        numbers.unique_seq_to_set();
        vstd::set_lib::lemma_int_range(0, bound);
        assert(numbers.to_set().subset_of(vstd::set_lib::set_int_range(0, bound))) by {
            assert forall|n: int| numbers.to_set().contains(n) implies vstd::set_lib::set_int_range(
                0,
                bound,
            ).contains(n) by {
                let at = choose|i: int| 0 <= i < numbers.len() && numbers[i] == n;
                assert(0 <= numbers[at] < bound);
            }
        }
        vstd::set_lib::lemma_len_subset(numbers.to_set(), vstd::set_lib::set_int_range(0, bound));
    } else {
        let (i, j) = choose|i: int, j: int|
            0 <= i < numbers.len() && 0 <= j < numbers.len() && i != j && numbers[i] == numbers[j];
        if i < j {
            assert(numbers[i] == numbers[j]);
        } else {
            assert(numbers[j] == numbers[i]);
        }
    }
}

/// A search that is not over after `hops` hops has a trail of more than
/// `hops` hops.
pub proof fn lemma_unending_trail_is_long(
    graph: RawModuleGraphView,
    module: Seq<char>,
    name: Seq<char>,
    hops: nat,
    steps: nat,
)
    requires
        chase(graph, module, name, hops) == Target::Unending,
        steps <= hops + 1,
    ensures
        lookup_after(graph, module, name, steps) is Some,
    decreases hops,
{
    if steps > 0 {
        let e = edge_index(graph.reexports, module, name);
        if hops > 0 {
            lemma_unending_trail_is_long(
                graph,
                graph.reexports[e].source_module,
                graph.reexports[e].source_name,
                (hops - 1) as nat,
                (steps - 1) as nat,
            );
        }
    }
}

/// The edge that the trail takes at its hop number `step`.
pub open spec fn edge_taken(
    graph: RawModuleGraphView,
    module: Seq<char>,
    name: Seq<char>,
    step: nat,
) -> int {
    match lookup_after(graph, module, name, step) {
        Some((at_module, at_name)) => edge_index(graph.reexports, at_module, at_name),
        None => 0,
    }
}

/// Where the trail stands after a hop is where the edge taken at that hop
/// leads.
pub proof fn lemma_hop_follows_edge(
    graph: RawModuleGraphView,
    module: Seq<char>,
    name: Seq<char>,
    step: nat,
)
    requires
        lookup_after(graph, module, name, step + 1) is Some,
    ensures
        0 <= edge_taken(graph, module, name, step) < graph.reexports.len(),
        lookup_after(graph, module, name, step + 1) == Some(
            (
                graph.reexports[edge_taken(graph, module, name, step)].source_module,
                graph.reexports[edge_taken(graph, module, name, step)].source_name,
            ),
        ),
{
    lemma_lookup_after_adds(graph, module, name, step, 1);
    match lookup_after(graph, module, name, step) {
        Some((at_module, at_name)) => {
            lemma_edge_index(graph.reexports, at_module, at_name);
            assert(lookup_after(graph, at_module, at_name, 1) == match next_lookup(
                graph,
                at_module,
                at_name,
            ) {
                Some((m, n)) => lookup_after(graph, m, n, 0),
                None => None,
            });
        },
        None => {},
    }
}

/// Only circles fail: when the search behind an edge never ends, its trail
/// goes round in a circle. So the re-exports of a graph without a circle
/// are resolved.
pub proof fn law_only_cycles_fail(graph: RawModuleGraphView, edge: int)
    requires
        0 <= edge < graph.reexports.len(),
        is_unending(graph, edge),
    ensures
        exists|lead: nat, later: nat| comes_back(graph, edge, lead, later),
{
    let module = graph.reexports[edge].source_module;
    let name = graph.reexports[edge].source_name;
    let total = graph.reexports.len();
    let taken = Seq::new(total + 1, |step: int| edge_taken(graph, module, name, step as nat));
    assert forall|i: int| 0 <= i < taken.len() implies 0 <= #[trigger] taken[i] < total by {
        lemma_unending_trail_is_long(graph, module, name, total, (i + 1) as nat);
        lemma_hop_follows_edge(graph, module, name, i as nat);
    }
    lemma_two_are_the_same(taken, total as int);
    let (i, j) = choose|i: int, j: int|
        0 <= i < j < taken.len() && #[trigger] taken[i] == #[trigger] taken[j];
    lemma_unending_trail_is_long(graph, module, name, total, (i + 1) as nat);
    lemma_unending_trail_is_long(graph, module, name, total, (j + 1) as nat);
    lemma_hop_follows_edge(graph, module, name, i as nat);
    lemma_hop_follows_edge(graph, module, name, j as nat);
    assert(comes_back(graph, edge, (i + 1) as nat, (j + 1) as nat));
}

} // verus!
